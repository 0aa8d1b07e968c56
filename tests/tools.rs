use akari_theme::text::{capitalize, replace_str};
use akari_theme::tools::{
    is_per_variant, strip_tera_extension, variant_path, Fzf, Helix, PerVariant, Vscode,
};
use akari_theme::{Artifact, ArtifactContent, Variant};
use std::path::PathBuf;

#[test]
fn per_variant_rel_path_substitution() {
    // Test that {name} substitution works correctly
    assert_eq!(
        PathBuf::from(Helix.rel_path(Variant::Night)),
        PathBuf::from("helix/akari-night.toml")
    );
    assert_eq!(
        PathBuf::from(Helix.rel_path(Variant::Dawn)),
        PathBuf::from("helix/akari-dawn.toml")
    );
}

#[test]
fn per_variant_tools_name_their_templates() {
    assert_eq!(Helix.name(), "helix");
    assert_eq!(Helix.template(), "helix.tera");
    assert_eq!(Fzf.rel_path(Variant::Dawn), "fzf/akari-dawn.sh");
    assert_eq!(
        Vscode.rel_path(Variant::Night),
        "vscode/themes/akari-night-color-theme.json"
    );
}

#[test]
fn variant_path_fills_name_and_title() {
    assert_eq!(
        variant_path("terminal/Akari-{Name}.{name}", Variant::Night),
        "terminal/Akari-Night.night"
    );
    assert_eq!(variant_path("plain.txt", Variant::Dawn), "plain.txt");
    assert!(is_per_variant("x/{name}.toml"));
    assert!(is_per_variant("x/{Name}"));
    assert!(!is_per_variant("x/{nam}.toml"));
}

#[test]
fn replace_scans_left_to_right() {
    assert_eq!(replace_str("aaa", "aa", "b"), "ba");
    assert_eq!(replace_str("{name}{name}", "{name}", "x"), "xx");
    assert_eq!(replace_str("", "a", "b"), "");
}

#[test]
fn strip_tera_extension_only_strips_tera() {
    assert_eq!(strip_tera_extension("helix/theme.toml.tera"), "helix/theme.toml");
    assert_eq!(strip_tera_extension("static/icon.png"), "static/icon.png");
    assert_eq!(strip_tera_extension(".tera"), "");
}

#[test]
fn capitalize_first_letter() {
    assert_eq!(capitalize("black"), "Black");
    assert_eq!(capitalize("Black"), "Black");
    assert_eq!(capitalize("9lives"), "9lives");
    assert_eq!(capitalize("élan"), "élan");
    assert_eq!(capitalize(""), "");
}

#[test]
fn variant_names() {
    assert_eq!(Variant::Night.name(), "night");
    assert_eq!(Variant::Dawn.title(), "Dawn");
    assert_eq!(Variant::Night.palette_filename(), "akari-night.toml");
    assert_eq!(Variant::Dawn.palette_filename(), "akari-dawn.toml");
}

#[test]
fn artifacts_hold_path_and_content() {
    let a = Artifact::text("zsh/akari.zsh".to_string(), "x".to_string());
    assert_eq!(a.rel_path, "zsh/akari.zsh");
    assert!(matches!(a.content, ArtifactContent::Text(ref t) if t == "x"));
    let b = Artifact::copy("nvim/init.lua".to_string(), "/t/nvim/init.lua".to_string());
    assert!(matches!(b.content, ArtifactContent::Copy(ref p) if p == "/t/nvim/init.lua"));
}
