//! Theme tools: the palettes they read and where their files go.
use crate::palette::{is_resolution_of, resolve_document, Palette, RawPalette};
use crate::error::Error;
use crate::text::{contains, ends_with, replace_all, replace_str, str_contains, str_ends_with};
use crate::Variant;
use vstd::prelude::*;

verus! {

/// The resolved palettes of both variants.
pub struct Palettes {
    pub night: Palette,
    pub dawn: Palette,
}

impl Palettes {
    /// Resolves the night and the dawn document; the first error is returned.
    pub fn load(night: RawPalette, dawn: RawPalette) -> (r: Result<Palettes, Error>)
        ensures
            match (resolve_document(night), resolve_document(dawn)) {
                (Err(f), _) => r matches Err(e) && e@ == f,
                (Ok(_), Err(f)) => r matches Err(e) && e@ == f,
                (Ok(_), Ok(_)) => r matches Ok(p) && is_resolution_of(p.night, night, Variant::Night)
                    && is_resolution_of(p.dawn, dawn, Variant::Dawn),
            },
    {
        let night = match night.resolve(Variant::Night) {
            Ok(p) => p,
            Err(e) => {
                return Err(e);
            },
        };
        let dawn = match dawn.resolve(Variant::Dawn) {
            Ok(p) => p,
            Err(e) => {
                return Err(e);
            },
        };
        Ok(Palettes { night, dawn })
    }

    /// The palette of one variant.
    pub fn get(&self, variant: Variant) -> (r: &Palette)
        ensures
            variant == Variant::Night ==> r == &self.night,
            variant == Variant::Dawn ==> r == &self.dawn,
    {
        match variant {
            Variant::Night => &self.night,
            Variant::Dawn => &self.dawn,
        }
    }
}

/// `pattern` with every `{name}` replaced by the variant's name.
pub open spec fn with_name(pattern: Seq<char>, variant: Variant) -> Seq<char> {
    replace_all(pattern, "{name}"@, variant.name_spec())
}

/// `pattern` with `{name}` replaced by the variant's name and then `{Name}` by its
/// title.
pub open spec fn with_name_and_title(pattern: Seq<char>, variant: Variant) -> Seq<char> {
    replace_all(with_name(pattern, variant), "{Name}"@, variant.title_spec())
}

/// Fills `{name}` in a path pattern.
pub fn name_path(pattern: &str, variant: Variant) -> (r: String)
    ensures
        r@ == with_name(pattern@, variant),
{
    proof {
        reveal_strlit("{name}");
    }
    replace_str(pattern, "{name}", variant.name())
}

/// Fills `{name}` and then `{Name}` in an output path pattern.
pub fn variant_path(pattern: &str, variant: Variant) -> (r: String)
    ensures
        r@ == with_name_and_title(pattern@, variant),
{
    proof {
        reveal_strlit("{Name}");
    }
    let named = name_path(pattern, variant);
    replace_str(named.as_str(), "{Name}", variant.title())
}

/// Whether an output path pattern names a file per variant.
pub fn is_per_variant(pattern: &str) -> (r: bool)
    ensures
        r == (contains(pattern@, "{name}"@) || contains(pattern@, "{Name}"@)),
{
    str_contains(pattern, "{name}") || str_contains(pattern, "{Name}")
}

/// A template file name without its `.tera` extension.
pub open spec fn without_tera(path: Seq<char>) -> Seq<char> {
    if ends_with(path, ".tera"@) {
        path.take(path.len() - ".tera"@.len())
    } else {
        path
    }
}

/// Output path of a template: the template's path without `.tera`.
pub fn strip_tera_extension(path: &str) -> (r: String)
    ensures
        r@ == without_tera(path@),
{
    if str_ends_with(path, ".tera") {
        let n = path.unicode_len();
        let k = ".tera".unicode_len();
        path.substring_char(0, n - k).to_owned()
    } else {
        path.to_owned()
    }
}

/// A tool that writes one file per variant from one template.
pub trait PerVariant {
    /// Path pattern of the tool's files; `{name}` stands for the variant's name.
    spec fn path_pattern(&self) -> Seq<char>;

    fn name(&self) -> &'static str;

    fn template(&self) -> &'static str;

    fn rel_path(&self, variant: Variant) -> (r: String)
        ensures
            r@ == with_name(self.path_pattern(), variant),
    ;
}

/// Writes one file holding both variants.
pub struct Nvim;

/// Writes Terminal.app profiles.
pub struct Terminal;

/// Writes one file holding both variants.
pub struct Zsh;

pub struct Helix;

impl PerVariant for Helix {
    open spec fn path_pattern(&self) -> Seq<char> {
        "helix/akari-{name}.toml"@
    }

    fn name(&self) -> &'static str {
        "helix"
    }

    fn template(&self) -> &'static str {
        "helix.tera"
    }

    fn rel_path(&self, variant: Variant) -> (r: String) {
        name_path("helix/akari-{name}.toml", variant)
    }
}

pub struct Ghostty;

impl PerVariant for Ghostty {
    open spec fn path_pattern(&self) -> Seq<char> {
        "ghostty/akari-{name}"@
    }

    fn name(&self) -> &'static str {
        "ghostty"
    }

    fn template(&self) -> &'static str {
        "ghostty.tera"
    }

    fn rel_path(&self, variant: Variant) -> (r: String) {
        name_path("ghostty/akari-{name}", variant)
    }
}

pub struct Fzf;

impl PerVariant for Fzf {
    open spec fn path_pattern(&self) -> Seq<char> {
        "fzf/akari-{name}.sh"@
    }

    fn name(&self) -> &'static str {
        "fzf"
    }

    fn template(&self) -> &'static str {
        "fzf.tera"
    }

    fn rel_path(&self, variant: Variant) -> (r: String) {
        name_path("fzf/akari-{name}.sh", variant)
    }
}

pub struct Starship;

impl PerVariant for Starship {
    open spec fn path_pattern(&self) -> Seq<char> {
        "starship/akari-{name}.toml"@
    }

    fn name(&self) -> &'static str {
        "starship"
    }

    fn template(&self) -> &'static str {
        "starship.tera"
    }

    fn rel_path(&self, variant: Variant) -> (r: String) {
        name_path("starship/akari-{name}.toml", variant)
    }
}

pub struct Tmux;

impl PerVariant for Tmux {
    open spec fn path_pattern(&self) -> Seq<char> {
        "tmux/akari-{name}.conf"@
    }

    fn name(&self) -> &'static str {
        "tmux"
    }

    fn template(&self) -> &'static str {
        "tmux.tera"
    }

    fn rel_path(&self, variant: Variant) -> (r: String) {
        name_path("tmux/akari-{name}.conf", variant)
    }
}

pub struct Vscode;

impl PerVariant for Vscode {
    open spec fn path_pattern(&self) -> Seq<char> {
        "vscode/themes/akari-{name}-color-theme.json"@
    }

    fn name(&self) -> &'static str {
        "vscode"
    }

    fn template(&self) -> &'static str {
        "vscode.tera"
    }

    fn rel_path(&self, variant: Variant) -> (r: String) {
        name_path("vscode/themes/akari-{name}-color-theme.json", variant)
    }
}

} // verus!
