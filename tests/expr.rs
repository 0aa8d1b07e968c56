use akari_theme::expr::parse_factor;
use akari_theme::{parse_color_expr, ColorExpr, Error, Factor, Section};

fn value(f: &Factor) -> f64 {
    f.numerator() as f64 / f.denominator() as f64
}

#[test]
fn parse_color_expr_literal() {
    let expr = parse_color_expr("#E26A3B").unwrap();
    assert!(matches!(expr, ColorExpr::Literal(s) if s == "#E26A3B"));
}

#[test]
fn parse_color_expr_reference() {
    let expr = parse_color_expr("colors.lantern.mid").unwrap();
    assert!(
        matches!(expr, ColorExpr::Ref { section, key } if section == Section::Colors && key == "lantern.mid")
    );
}

#[test]
fn parse_color_expr_lighten() {
    let expr = parse_color_expr("lighten(colors.lantern.mid, 0.1)").unwrap();
    match expr {
        ColorExpr::Lighten(inner, factor) => {
            assert!(
                matches!(*inner, ColorExpr::Ref { section, key } if section == Section::Colors && key == "lantern.mid")
            );
            assert!((value(&factor) - 0.1).abs() < 0.001);
        }
        _ => panic!("expected Lighten"),
    }
}

#[test]
fn parse_color_expr_darken() {
    let expr = parse_color_expr("darken(base.background, 0.2)").unwrap();
    match expr {
        ColorExpr::Darken(inner, factor) => {
            assert!(
                matches!(*inner, ColorExpr::Ref { section, key } if section == Section::Base && key == "background")
            );
            assert!((value(&factor) - 0.2).abs() < 0.001);
        }
        _ => panic!("expected Darken"),
    }
}

#[test]
fn parse_color_expr_nested() {
    let expr = parse_color_expr("lighten(darken(colors.lantern.mid, 0.1), 0.2)").unwrap();
    match expr {
        ColorExpr::Lighten(inner, outer_factor) => {
            assert!((value(&outer_factor) - 0.2).abs() < 0.001);
            match *inner {
                ColorExpr::Darken(innermost, inner_factor) => {
                    assert!(
                        matches!(*innermost, ColorExpr::Ref { section, key } if section == Section::Colors && key == "lantern.mid")
                    );
                    assert!((value(&inner_factor) - 0.1).abs() < 0.001);
                }
                _ => panic!("expected Darken"),
            }
        }
        _ => panic!("expected Lighten"),
    }
}

#[test]
fn parse_color_expr_mix() {
    let expr = parse_color_expr("mix(base.background, colors.night, 0.15)").unwrap();
    match expr {
        ColorExpr::Mix(color1, color2, factor) => {
            assert!(
                matches!(*color1, ColorExpr::Ref { section, key } if section == Section::Base && key == "background")
            );
            assert!(
                matches!(*color2, ColorExpr::Ref { section, key } if section == Section::Colors && key == "night")
            );
            assert!((value(&factor) - 0.15).abs() < 0.001);
        }
        _ => panic!("expected Mix"),
    }
}

#[test]
fn parse_brighten_with_negative_amount() {
    match parse_color_expr("  brighten(ansi.red, -0.25)  ").unwrap() {
        ColorExpr::Brighten(inner, amount) => {
            assert!(matches!(*inner, ColorExpr::Ref { section, key } if section == Section::Ansi && key == "red"));
            assert_eq!(amount.numerator(), -25);
            assert_eq!(amount.denominator(), 100);
        }
        _ => panic!("expected Brighten"),
    }
}

#[test]
fn parse_bright_ansi_reference() {
    let expr = parse_color_expr("ansi.bright.green").unwrap();
    assert!(matches!(expr, ColorExpr::Ref { section, key } if section == Section::AnsiBright && key == "green"));
}

#[test]
fn parse_trims_literal() {
    let expr = parse_color_expr("\t#e26a3b \n").unwrap();
    assert!(matches!(expr, ColorExpr::Literal(s) if s == "#e26a3b"));
}

#[test]
fn mix_without_factor_is_invalid() {
    match parse_color_expr("mix(base.background, colors.night)") {
        Err(Error::InvalidColorExpr(text)) => assert_eq!(text, "invalid factor: colors.night"),
        other => panic!("unexpected {:?}", other),
    }
}

#[test]
fn lighten_without_comma_is_invalid() {
    match parse_color_expr("lighten(colors.life)") {
        Err(Error::InvalidColorExpr(text)) => assert_eq!(text, "expected 'color, factor': colors.life"),
        other => panic!("unexpected {:?}", other),
    }
}

#[test]
fn bad_factor_is_invalid() {
    match parse_color_expr("darken(base.background, lots)") {
        Err(Error::InvalidColorExpr(text)) => assert_eq!(text, "invalid factor: lots"),
        other => panic!("unexpected {:?}", other),
    }
}

#[test]
fn reference_without_dot_is_invalid() {
    match parse_color_expr("background") {
        Err(Error::InvalidColorExpr(text)) => assert_eq!(text, "background"),
        other => panic!("unexpected {:?}", other),
    }
}

#[test]
fn unknown_section_is_invalid() {
    match parse_color_expr("palette.red") {
        Err(Error::InvalidColorExpr(text)) => assert_eq!(text, "unknown section: palette"),
        other => panic!("unexpected {:?}", other),
    }
    match Section::parse("layers") {
        Err(Error::InvalidColorExpr(text)) => assert_eq!(text, "unknown section: layers"),
        other => panic!("unexpected {:?}", other),
    }
}

#[test]
fn section_names() {
    assert_eq!(Section::parse("base").unwrap(), Section::Base);
    assert_eq!(Section::AnsiBright.as_str(), "ansi.bright");
    assert_eq!(Section::Colors.as_str(), "colors");
}

#[test]
fn factor_numerals() {
    let f = parse_factor("0.15").unwrap();
    assert_eq!((f.numerator(), f.denominator()), (15, 100));
    let f = parse_factor("+.5").unwrap();
    assert_eq!((f.numerator(), f.denominator()), (5, 10));
    let f = parse_factor("-2").unwrap();
    assert_eq!((f.numerator(), f.denominator()), (-2, 1));
    let f = parse_factor("3.").unwrap();
    assert_eq!((f.numerator(), f.denominator()), (3, 1));
    assert!(parse_factor("").is_none());
    assert!(parse_factor(".").is_none());
    assert!(parse_factor("1.2.3").is_none());
    assert!(parse_factor("1e").is_none());
    assert!(parse_factor("e5").is_none());
    assert!(parse_factor("1e+").is_none());
    assert!(parse_factor("in").is_none());
    let f = parse_factor("0.1234567890123456789").unwrap();
    assert_eq!((f.numerator(), f.denominator()), (123456789012345678, 1_000_000_000_000_000_000));
    let f = parse_factor("0.12345678901234567").unwrap();
    assert_eq!((f.numerator(), f.denominator()), (12345678901234567, 100_000_000_000_000_000));
}

#[test]
fn factor_exponent_numerals() {
    let frac = |t: &str| {
        let f = parse_factor(t).unwrap();
        (f.numerator(), f.denominator())
    };
    assert_eq!(frac("1e3"), (1000, 1));
    assert_eq!(frac("1e1"), (10, 1));
    assert_eq!(frac("2.5e-1"), (25, 100));
    assert_eq!(frac("1E-2"), (1, 100));
    assert_eq!(frac("-15e-2"), (-15, 100));
    assert_eq!(frac("+0.5E+0"), (5, 10));
    assert_eq!(frac("123456789012345678901234567890"), (1, 1));
    assert_eq!(frac("-4e18"), (-1, 1));
    assert_eq!(frac("1e99999999999999999999999999999999999"), (1, 1));
    assert_eq!(frac("-1e-999999999999999999999999999999999"), (0, 1_000_000_000_000_000_000));
    assert_eq!(frac("0e999999999999999999999999999999999"), (0, 1));
    assert_eq!(frac("3e-20"), (0, 1_000_000_000_000_000_000));
    assert_eq!(frac("25e-19"), (2, 1_000_000_000_000_000_000));
}

#[test]
fn exponent_factor_in_expression() {
    match parse_color_expr("lighten(base.x,1e1)").unwrap() {
        ColorExpr::Lighten(inner, f) => {
            assert!(matches!(*inner, ColorExpr::Ref { section, key } if section == Section::Base && key == "x"));
            assert_eq!((f.numerator(), f.denominator()), (10, 1));
        }
        _ => panic!("expected Lighten"),
    }
}

#[test]
fn factor_infinity_and_nan_words() {
    let frac = |t: &str| {
        let f = parse_factor(t).unwrap();
        (f.numerator(), f.denominator())
    };
    assert_eq!(frac("inf"), (1, 1));
    assert_eq!(frac("-inf"), (-1, 1));
    assert_eq!(frac("+Infinity"), (1, 1));
    assert_eq!(frac("INF"), (1, 1));
    assert!(parse_factor("NaN").unwrap().is_nan());
    assert!(parse_factor("-nan").unwrap().is_nan());
    assert!(!parse_factor("1").unwrap().is_nan());
    assert!(parse_factor("infin").is_none());
    assert!(parse_factor("nana").is_none());
}

#[test]
fn infinite_factor_in_expression() {
    match parse_color_expr("lighten(#000000, inf)").unwrap() {
        ColorExpr::Lighten(inner, f) => {
            assert!(matches!(*inner, ColorExpr::Literal(s) if s == "#000000"));
            assert_eq!((f.numerator(), f.denominator()), (1, 1));
        }
        _ => panic!("expected Lighten"),
    }
}
