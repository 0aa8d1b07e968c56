use akari_theme::{Error, Factor, Rgb};

fn gray(v: u8) -> Rgb {
    Rgb { r: v, g: v, b: v }
}

#[test]
fn parse_with_hash() {
    let rgb: Rgb = "#E26A3B".parse().unwrap();
    assert_eq!(rgb.r, 226);
    assert_eq!(rgb.g, 106);
    assert_eq!(rgb.b, 59);
}

#[test]
fn parse_without_hash() {
    let rgb: Rgb = "E26A3B".parse().unwrap();
    assert_eq!(rgb.r, 226);
    assert_eq!(rgb.g, 106);
    assert_eq!(rgb.b, 59);
}

#[test]
fn parse_black() {
    let rgb: Rgb = "#000000".parse().unwrap();
    assert_eq!(rgb, Rgb { r: 0, g: 0, b: 0 });
}

#[test]
fn parse_white() {
    let rgb: Rgb = "#FFFFFF".parse().unwrap();
    assert_eq!(
        rgb,
        Rgb {
            r: 255,
            g: 255,
            b: 255
        }
    );
}

#[test]
fn parse_lowercase() {
    let rgb: Rgb = "#aabbcc".parse().unwrap();
    assert_eq!(rgb.r, 170);
    assert_eq!(rgb.g, 187);
    assert_eq!(rgb.b, 204);
}

#[test]
fn parse_invalid_length_short() {
    assert!("#FFF".parse::<Rgb>().is_err());
}

#[test]
fn parse_invalid_length_long() {
    assert!("#FFFFFFFF".parse::<Rgb>().is_err());
}

#[test]
fn parse_invalid_chars() {
    assert!("#GGGGGG".parse::<Rgb>().is_err());
}

#[test]
fn parse_empty() {
    assert!("".parse::<Rgb>().is_err());
}

#[test]
fn parse_non_ascii() {
    assert!("#ＡＢＣＤＥＦ".parse::<Rgb>().is_err());
}

#[test]
fn parse_error_holds_text_without_hash() {
    match Rgb::parse("#12345G") {
        Err(Error::InvalidHex(s)) => assert_eq!(s, "12345G"),
        other => panic!("unexpected {:?}", other),
    }
    match Rgb::parse("#+F+F+F") {
        Err(Error::InvalidHex(s)) => assert_eq!(s, "+F+F+F"),
        other => panic!("unexpected {:?}", other),
    }
}

#[test]
fn to_array_string_format() {
    let rgb = Rgb {
        r: 226,
        g: 106,
        b: 59,
    };
    assert_eq!(rgb.to_array_string(), "[226, 106, 59]");
}

#[test]
fn to_array_string_small_channels() {
    assert_eq!(Rgb { r: 0, g: 9, b: 10 }.to_array_string(), "[0, 9, 10]");
}

#[test]
fn display_uppercase() {
    let rgb = Rgb {
        r: 226,
        g: 106,
        b: 59,
    };
    assert_eq!(rgb.to_hex(), "#E26A3B");
}

#[test]
fn display_with_leading_zeros() {
    let rgb = Rgb { r: 1, g: 2, b: 3 };
    assert_eq!(rgb.to_hex(), "#010203");
}

#[test]
fn hex_round_trip_normalizes() {
    assert_eq!(Rgb::parse("e26a3b").unwrap().to_hex(), "#E26A3B");
    assert_eq!(Rgb::parse("#aBcDeF").unwrap().to_hex(), "#ABCDEF");
}

#[test]
fn lighten_zero_unchanged() {
    let rgb = gray(100);
    assert_eq!(rgb.lighten(Factor::new(0, 1)), rgb);
}

#[test]
fn lighten_full_becomes_white() {
    let rgb = gray(100);
    assert_eq!(
        rgb.lighten(Factor::new(1, 1)),
        Rgb {
            r: 255,
            g: 255,
            b: 255
        }
    );
}

#[test]
fn lighten_half() {
    let rgb = gray(100);
    // 100 + (255 - 100) * 0.5 = 177.5 -> 178
    assert_eq!(
        rgb.lighten(Factor::new(1, 2)),
        Rgb {
            r: 178,
            g: 178,
            b: 178
        }
    );
}

#[test]
fn lighten_half_of_parsed_gray_is_b2() {
    let c = Rgb::parse("#646464").unwrap();
    assert_eq!(c.lighten(Factor::new(5, 10)).to_hex(), "#B2B2B2");
}

#[test]
fn darken_zero_unchanged() {
    let rgb = gray(100);
    assert_eq!(rgb.darken(Factor::new(0, 1)), rgb);
}

#[test]
fn darken_full_becomes_black() {
    let rgb = gray(100);
    assert_eq!(rgb.darken(Factor::new(1, 1)), Rgb { r: 0, g: 0, b: 0 });
}

#[test]
fn darken_half() {
    let rgb = gray(100);
    // 100 + (0 - 100) * 0.5 = 50
    assert_eq!(
        rgb.darken(Factor::new(1, 2)),
        Rgb {
            r: 50,
            g: 50,
            b: 50
        }
    );
}

#[test]
fn darken_half_of_parsed_gray_is_32() {
    let c = Rgb::parse("#646464").unwrap();
    assert_eq!(c.darken(Factor::new(1, 2)).to_hex(), "#323232");
}

#[test]
fn lighten_clamps_factor() {
    let rgb = gray(100);
    // Factor > 1.0 should be clamped to 1.0
    assert_eq!(
        rgb.lighten(Factor::new(2, 1)),
        Rgb {
            r: 255,
            g: 255,
            b: 255
        }
    );
}

#[test]
fn darken_clamps_negative_factor() {
    let rgb = gray(100);
    // Factor < 0.0 should be clamped to 0.0
    assert_eq!(rgb.darken(Factor::new(-1, 2)), rgb);
}

#[test]
fn clamping_matches_bounds_on_a_hued_color() {
    let c = Rgb::parse("#E26A3B").unwrap();
    let other = Rgb::parse("#10141C").unwrap();
    assert_eq!(c.lighten(Factor::new(7, 2)), c.lighten(Factor::new(1, 1)));
    assert_eq!(c.darken(Factor::new(3, 1)), c.darken(Factor::new(1, 1)));
    assert_eq!(c.mix(other, Factor::new(5, 4)), other);
    assert_eq!(c.lighten(Factor::new(-3, 1)), c);
    assert_eq!(c.darken(Factor::new(-1, 10)), c);
    assert_eq!(c.mix(other, Factor::new(-2, 1)), c);
}

#[test]
fn ends_on_a_hued_color() {
    let c = Rgb::parse("#E26A3B").unwrap();
    assert_eq!(c.lighten(Factor::new(0, 3)), c);
    assert_eq!(c.darken(Factor::new(0, 3)), c);
    assert_eq!(c.lighten(Factor::new(3, 3)), gray(255));
    assert_eq!(c.darken(Factor::new(3, 3)), gray(0));
}

#[test]
fn lighten_hued_color_keeps_hue() {
    // #E26A3B: max 226, min 59, lightness 285/510; halfway to white gives 397.5/510.
    let c = Rgb::parse("#E26A3B").unwrap();
    assert_eq!(c.lighten(Factor::new(1, 2)).to_hex(), "#F1B59D");
}

#[test]
fn brighten_zero_unchanged() {
    let rgb = gray(100);
    assert_eq!(rgb.brighten(Factor::new(0, 1)), rgb);
}

#[test]
fn brighten_positive_increases_lightness() {
    let rgb = gray(100);
    let brightened = rgb.brighten(Factor::new(2, 10));
    // Lightness increases, so RGB values should increase
    assert!(brightened.r > rgb.r);
    assert!(brightened.g > rgb.g);
    assert!(brightened.b > rgb.b);
}

#[test]
fn brighten_negative_decreases_lightness() {
    let rgb = gray(100);
    let dimmed = rgb.brighten(Factor::new(-2, 10));
    // Lightness decreases, so RGB values should decrease
    assert!(dimmed.r < rgb.r);
    assert!(dimmed.g < rgb.g);
    assert!(dimmed.b < rgb.b);
}

#[test]
fn brighten_adds_absolute_amount() {
    // 100/255 + 0.2 = 151/255
    assert_eq!(gray(100).brighten(Factor::new(1, 5)), gray(151));
}

#[test]
fn brighten_clamps_to_white() {
    let rgb = gray(200);
    let result = rgb.brighten(Factor::new(1, 1));
    assert_eq!(
        result,
        Rgb {
            r: 255,
            g: 255,
            b: 255
        }
    );
}

#[test]
fn brighten_clamps_to_black() {
    let rgb = gray(50);
    let result = rgb.brighten(Factor::new(-1, 1));
    assert_eq!(result, Rgb { r: 0, g: 0, b: 0 });
}

#[test]
fn mix_zero_returns_self() {
    let a = gray(100);
    let b = gray(200);
    assert_eq!(a.mix(b, Factor::new(0, 1)), a);
}

#[test]
fn mix_one_returns_other() {
    let a = gray(100);
    let b = gray(200);
    assert_eq!(a.mix(b, Factor::new(1, 1)), b);
}

#[test]
fn mix_half() {
    let a = gray(100);
    let b = gray(200);
    // 100 + (200 - 100) * 0.5 = 150
    assert_eq!(
        a.mix(b, Factor::new(1, 2)),
        Rgb {
            r: 150,
            g: 150,
            b: 150
        }
    );
}

#[test]
fn mix_half_rounds_mean_up() {
    let a = Rgb { r: 0, g: 1, b: 254 };
    let b = Rgb { r: 1, g: 2, b: 255 };
    assert_eq!(a.mix(b, Factor::new(1, 2)), Rgb { r: 1, g: 2, b: 255 });
}

#[test]
fn mix_is_per_channel() {
    let a = Rgb { r: 0, g: 100, b: 200 };
    let b = Rgb { r: 100, g: 0, b: 255 };
    // 0 + 100 * 0.15 = 15; 100 - 15 = 85; 200 + 55 * 0.15 = 208.25
    assert_eq!(a.mix(b, Factor::new(15, 100)), Rgb { r: 15, g: 85, b: 208 });
}

#[test]
fn factor_keeps_its_fraction() {
    let f = Factor::new(-3, 20);
    assert_eq!(f.numerator(), -3);
    assert_eq!(f.denominator(), 20);
}

#[test]
fn nan_amount_gives_black() {
    let c = Rgb::parse("#E26A3B").unwrap();
    let black = Rgb { r: 0, g: 0, b: 0 };
    assert_eq!(c.lighten(Factor::nan()), black);
    assert_eq!(c.darken(Factor::nan()), black);
    assert_eq!(c.brighten(Factor::nan()), black);
    assert_eq!(c.mix(gray(255), Factor::nan()), black);
}

#[test]
fn infinite_amount_acts_as_one() {
    let c = Rgb::parse("#E26A3B").unwrap();
    assert_eq!(c.lighten(Factor::new(1, 1)), gray(255));
    assert_eq!(c.brighten(Factor::new(-1, 1)), gray(0));
}
