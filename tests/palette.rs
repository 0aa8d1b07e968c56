use akari_theme::palette::{
    Base, Colors, Lantern, Palette, RawAnsi, RawAnsiColors, RawLayers, RawPalette, RawSemantic,
    RawState,
};
use akari_theme::tools::Palettes;
use akari_theme::{parse_color_expr, ColorExpr, Error, Variant};

const SLOTS: [(&str, &str); 58] = [
    ("layers.base", "#171B22"),
    ("layers.surface", "#1E2329"),
    ("layers.sunken", "#13171D"),
    ("layers.raised", "#252B33"),
    ("layers.border", "#2E353E"),
    ("layers.inset", "#3A424D"),
    ("state.selection_bg", "#3A424D"),
    ("state.selection_fg", "#E6DED3"),
    ("state.match_bg", "#4A3A2A"),
    ("state.cursor", "#E26A3B"),
    ("state.cursor_text", "#171B22"),
    ("state.info", "#5A6F82"),
    ("state.hint", "#7C6A8A"),
    ("state.warning", "#D4A05A"),
    ("state.error", "#D65A3A"),
    ("state.active_bg", "#2A3540"),
    ("state.diff_added", "#7FAF6A"),
    ("state.diff_removed", "#D65A3A"),
    ("state.diff_changed", "#D4A05A"),
    ("semantic.text", "base.foreground"),
    ("semantic.comment", "#7D8797"),
    ("semantic.string", "colors.life"),
    ("semantic.keyword", "colors.lantern.mid"),
    ("semantic.number", "colors.lantern.far"),
    ("semantic.constant", "colors.lantern.far"),
    ("semantic.type", "colors.lantern.far"),
    ("semantic.function", "colors.lantern.mid"),
    ("semantic.variable", "base.foreground"),
    ("semantic.success", "colors.life"),
    ("semantic.path", "ansi.green"),
    ("semantic.macro", "ansi.bright.magenta"),
    ("semantic.escape", "ansi.bright.magenta"),
    ("semantic.regexp", "ansi.bright.green"),
    ("semantic.link", "ansi.bright.blue"),
    ("ansi.black", "#171B22"),
    ("ansi.red", "colors.lantern.near"),
    ("ansi.green", "colors.life"),
    ("ansi.yellow", "colors.lantern.far"),
    ("ansi.blue", "colors.night"),
    ("ansi.magenta", "colors.muted"),
    ("ansi.cyan", "colors.rain"),
    ("ansi.white", "base.foreground"),
    ("bright.black", "#3A424D"),
    ("bright.red", "colors.lantern.mid"),
    ("bright.green", "colors.life"),
    ("bright.yellow", "colors.lantern.far"),
    ("bright.blue", "colors.night"),
    ("bright.magenta", "colors.muted"),
    ("bright.cyan", "colors.rain"),
    ("bright.white", "base.foreground"),
    ("colors.lantern.ember", "#D65A3A"),
    ("colors.lantern.near", "#D25046"),
    ("colors.lantern.mid", "#E26A3B"),
    ("colors.lantern.far", "#D4A05A"),
    ("colors.life", "#7FAF6A"),
    ("colors.night", "#5A6F82"),
    ("colors.rain", "#6F8F8A"),
    ("colors.muted", "#7C6A8A"),
];

struct Doc {
    slots: Vec<(String, String)>,
}

impl Doc {
    fn new() -> Doc {
        let mut slots: Vec<(String, String)> = SLOTS
            .iter()
            .map(|(k, v)| (k.to_string(), v.to_string()))
            .collect();
        slots.push(("base.background".to_string(), "#10141C".to_string()));
        slots.push(("base.foreground".to_string(), "#E6DED3".to_string()));
        Doc { slots }
    }

    fn set(mut self, slot: &str, text: &str) -> Doc {
        for entry in self.slots.iter_mut() {
            if entry.0 == slot {
                entry.1 = text.to_string();
            }
        }
        self
    }

    fn text(&self, slot: &str) -> String {
        self.slots.iter().find(|e| e.0 == slot).unwrap().1.clone()
    }

    fn expr(&self, slot: &str) -> Result<ColorExpr, Error> {
        parse_color_expr(&self.text(slot))
    }

    fn ansi(&self, group: &str) -> Result<RawAnsiColors, Error> {
        let e = |k: &str| self.expr(&format!("{}.{}", group, k));
        Ok(RawAnsiColors {
            black: e("black")?,
            red: e("red")?,
            green: e("green")?,
            yellow: e("yellow")?,
            blue: e("blue")?,
            magenta: e("magenta")?,
            cyan: e("cyan")?,
            white: e("white")?,
        })
    }

    fn raw(&self, name: &str) -> Result<RawPalette, Error> {
        let e = |k: &str| self.expr(k);
        Ok(RawPalette {
            name: name.to_string(),
            description: "test".to_string(),
            colors: Colors {
                lantern: Lantern {
                    ember: self.text("colors.lantern.ember"),
                    near: self.text("colors.lantern.near"),
                    mid: self.text("colors.lantern.mid"),
                    far: self.text("colors.lantern.far"),
                },
                life: self.text("colors.life"),
                night: self.text("colors.night"),
                rain: self.text("colors.rain"),
                muted: self.text("colors.muted"),
            },
            base: Base {
                background: self.text("base.background"),
                foreground: self.text("base.foreground"),
            },
            layers: RawLayers {
                base: e("layers.base")?,
                surface: e("layers.surface")?,
                sunken: e("layers.sunken")?,
                raised: e("layers.raised")?,
                border: e("layers.border")?,
                inset: e("layers.inset")?,
            },
            state: RawState {
                selection_bg: e("state.selection_bg")?,
                selection_fg: e("state.selection_fg")?,
                match_bg: e("state.match_bg")?,
                cursor: e("state.cursor")?,
                cursor_text: e("state.cursor_text")?,
                info: e("state.info")?,
                hint: e("state.hint")?,
                warning: e("state.warning")?,
                error: e("state.error")?,
                active_bg: e("state.active_bg")?,
                diff_added: e("state.diff_added")?,
                diff_removed: e("state.diff_removed")?,
                diff_changed: e("state.diff_changed")?,
            },
            semantic: RawSemantic {
                text: e("semantic.text")?,
                comment: e("semantic.comment")?,
                string: e("semantic.string")?,
                keyword: e("semantic.keyword")?,
                number: e("semantic.number")?,
                constant: e("semantic.constant")?,
                type_: e("semantic.type")?,
                function: e("semantic.function")?,
                variable: e("semantic.variable")?,
                success: e("semantic.success")?,
                path: e("semantic.path")?,
                macro_: e("semantic.macro")?,
                escape: e("semantic.escape")?,
                regexp: e("semantic.regexp")?,
                link: e("semantic.link")?,
            },
            ansi: RawAnsi {
                base: self.ansi("ansi")?,
                bright: self.ansi("bright")?,
            },
        })
    }

    fn resolve(&self, name: &str, variant: Variant) -> Result<Palette, Error> {
        self.raw(name)?.resolve(variant)
    }
}

fn night() -> Palette {
    Doc::new().resolve("akari-night", Variant::Night).unwrap()
}

#[test]
fn load_night_palette() {
    let palette = night();
    assert_eq!(palette.name, "akari-night");
    assert_eq!(palette.variant, Variant::Night);
}

#[test]
fn colors_are_loaded() {
    let palette = night();
    assert_eq!(palette.colors.lantern.mid, "#E26A3B");
    assert_eq!(palette.colors.lantern.ember, "#D65A3A");
    assert_eq!(palette.colors.lantern.near, "#D25046");
    assert_eq!(palette.colors.lantern.far, "#D4A05A");
}

#[test]
fn base_colors_are_loaded() {
    let palette = night();
    assert_eq!(palette.base.background, "#10141C");
    assert_eq!(palette.base.foreground, "#E6DED3");
}

#[test]
fn semantic_references_resolved() {
    let palette = night();
    // semantic.keyword = "colors.lantern.mid" -> "#E26A3B"
    assert_eq!(palette.semantic.keyword, "#E26A3B");
    // semantic.string = "colors.life" -> "#7FAF6A"
    assert_eq!(palette.semantic.string, "#7FAF6A");
}

#[test]
fn ansi_references_resolved() {
    let palette = night();
    // ansi.green = "colors.life" -> "#7FAF6A"
    assert_eq!(palette.ansi.green, "#7FAF6A");
    // ansi.white = "base.foreground" -> "#E6DED3"
    assert_eq!(palette.ansi.white, "#E6DED3");
}

#[test]
fn later_phases_see_earlier_groups() {
    let palette = night();
    assert_eq!(palette.semantic.regexp, "#7FAF6A");
    assert_eq!(palette.semantic.link, "#5A6F82");
    assert_eq!(palette.semantic.path, "#7FAF6A");
    assert_eq!(palette.ansi_bright.red, "#E26A3B");
    assert_eq!(palette.layers.inset, "#3A424D");
    assert_eq!(palette.state.cursor, "#E26A3B");
}

#[test]
fn bright_group_reads_resolved_ansi() {
    let palette = Doc::new()
        .set("bright.red", "lighten(ansi.red, 0.5)")
        .resolve("t", Variant::Night)
        .unwrap();
    // ansi.red = #D25046; halfway to white in HSL lightness.
    assert_eq!(palette.ansi_bright.red, "#E9A8A3");
}

#[test]
fn transforms_resolve_to_uppercase_hex() {
    let palette = Doc::new()
        .set("layers.surface", "lighten(#646464, 0.5)")
        .set("layers.sunken", "darken(#646464, 0.5)")
        .set("layers.raised", "mix(#646464, #C8C8C8, 0.5)")
        .set("layers.border", "brighten(#646464, 1)")
        .set("layers.inset", "mix(base.background, colors.night, 0)")
        .resolve("t", Variant::Dawn)
        .unwrap();
    assert_eq!(palette.layers.surface, "#B2B2B2");
    assert_eq!(palette.layers.sunken, "#323232");
    assert_eq!(palette.layers.raised, "#969696");
    assert_eq!(palette.layers.border, "#FFFFFF");
    assert_eq!(palette.layers.inset, "#10141C");
    assert_eq!(palette.variant, Variant::Dawn);
}

#[test]
fn literal_slots_are_kept_as_written() {
    let palette = Doc::new().set("layers.base", "#abcdef").resolve("t", Variant::Night).unwrap();
    assert_eq!(palette.layers.base, "#abcdef");
}

#[test]
fn semantic_reference_to_lantern_resolves() {
    let palette = Doc::new()
        .set("semantic.keyword", "colors.lantern.mid")
        .resolve("t", Variant::Night)
        .unwrap();
    assert_eq!(palette.semantic.keyword, "#E26A3B");
}

#[test]
fn ansi_slot_cannot_reach_bright_group() {
    match Doc::new().set("ansi.green", "ansi.bright.green").resolve("t", Variant::Night) {
        Err(Error::UnresolvedRef(name)) => assert_eq!(name, "ansi.bright.green"),
        other => panic!("unexpected {:?}", other),
    }
}

#[test]
fn ansi_slot_cannot_reach_itself() {
    match Doc::new().set("ansi.red", "ansi.green").resolve("t", Variant::Night) {
        Err(Error::UnresolvedRef(name)) => assert_eq!(name, "ansi.green"),
        other => panic!("unexpected {:?}", other),
    }
}

#[test]
fn invalid_reference_fails() {
    let result = Doc::new()
        .set("semantic.string", "colors.nonexistent")
        .resolve("test", Variant::Night);
    assert!(result.is_err());
    let err = result.unwrap_err();
    assert!(matches!(err, Error::UnresolvedRef(_)));
}

#[test]
fn unknown_key_names_the_reference() {
    match Doc::new().set("semantic.string", "colors.nonexistent").resolve("t", Variant::Night) {
        Err(Error::UnresolvedRef(name)) => assert_eq!(name, "colors.nonexistent"),
        other => panic!("unexpected {:?}", other),
    }
}

#[test]
fn first_error_in_phase_order_wins() {
    let result = Doc::new()
        .set("layers.base", "base.nothing")
        .set("bright.black", "colors.nothing")
        .resolve("t", Variant::Night);
    match result {
        Err(Error::UnresolvedRef(name)) => assert_eq!(name, "colors.nothing"),
        other => panic!("unexpected {:?}", other),
    }
}

#[test]
fn malformed_hex_under_transform_fails() {
    match Doc::new().set("colors.life", "#12").set("state.hint", "darken(colors.life, 0.1)").resolve("t", Variant::Night) {
        Err(Error::InvalidHex(text)) => assert_eq!(text, "12"),
        other => panic!("unexpected {:?}", other),
    }
}

#[test]
fn malformed_expression_fails_before_resolution() {
    let doc = Doc::new().set("layers.base", "mix(base.background, colors.night)");
    assert!(matches!(doc.raw("t"), Err(Error::InvalidColorExpr(_))));
}

#[test]
fn palettes_get_returns_correct_variant() {
    let night = Doc::new().raw("akari-night").unwrap();
    let dawn = Doc::new().raw("akari-dawn").unwrap();

    let palettes = Palettes::load(night, dawn).unwrap();

    assert_eq!(palettes.get(Variant::Night).name, "akari-night");
    assert_eq!(palettes.get(Variant::Dawn).name, "akari-dawn");
}

#[test]
fn palettes_load_reports_first_failure() {
    let night = Doc::new().set("ansi.red", "colors.none").raw("n").unwrap();
    let dawn = Doc::new().raw("d").unwrap();
    match Palettes::load(night, dawn) {
        Err(Error::UnresolvedRef(name)) => assert_eq!(name, "colors.none"),
        _ => panic!("expected an unresolved reference"),
    }
}

#[test]
fn ansi_slot_cannot_reach_bright_group_through_a_transform() {
    match Doc::new().set("ansi.cyan", "darken(ansi.bright.cyan, 0.2)").resolve("t", Variant::Night) {
        Err(Error::UnresolvedRef(name)) => assert_eq!(name, "ansi.bright.cyan"),
        other => panic!("unexpected {:?}", other),
    }
}

#[test]
fn nan_factor_resolves_to_black() {
    let palette = Doc::new()
        .set("layers.inset", "lighten(colors.life, NaN)")
        .resolve("t", Variant::Night)
        .unwrap();
    assert_eq!(palette.layers.inset, "#000000");
}
