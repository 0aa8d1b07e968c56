use crate::error::Error;
use vstd::arithmetic::div_mod::{
    lemma_div_multiples_vanish_quotient, lemma_fundamental_div_mod,
    lemma_fundamental_div_mod_converse_div, lemma_mod_pos_bound,
};
use vstd::prelude::*;

verus! {

/// An 8-bit RGB color.
#[derive(Debug, Clone, Copy, PartialEq, Eq, Structural)]
pub struct Rgb {
    pub r: u8,
    pub g: u8,
    pub b: u8,
}

/// The amount argument of the color transforms: a signed fraction `num / den`, or
/// not a number.
///
/// Amounts are held exactly, so every transform is a function of the colors and the
/// rational value of the amount alone. Not a number (a zero denominator) stands for a
/// float NaN: every transform then gives black, as the float arithmetic does, whose
/// NaN results convert to the channel value zero.
#[derive(Debug, Clone, Copy)]
pub struct Factor {
    num: i64,
    den: u64,
}

impl Factor {
    /// Numerator of the fraction.
    pub closed spec fn numer(self) -> int {
        self.num as int
    }

    /// Denominator of the fraction; zero for not a number.
    pub closed spec fn denom(self) -> int {
        self.den as int
    }

    /// The fraction `num / den`.
    pub fn new(num: i64, den: u64) -> (r: Factor)
        requires
            den > 0,
        ensures
            r.numer() == num,
            r.denom() == den,
    {
        Factor { num, den }
    }

    /// Not a number.
    pub fn nan() -> (r: Factor)
        ensures
            r.numer() == 0,
            r.denom() == 0,
    {
        Factor { num: 0, den: 0 }
    }

    pub fn is_nan(&self) -> (r: bool)
        ensures
            r == (self.denom() == 0),
    {
        self.den == 0
    }

    pub fn numerator(&self) -> (r: i64)
        ensures
            r == self.numer(),
    {
        self.num
    }

    pub fn denominator(&self) -> (r: u64)
        ensures
            r == self.denom(),
    {
        self.den
    }
}

// ---------------------------------------------------------------------------
// Hexadecimal text
// ---------------------------------------------------------------------------

pub open spec fn is_hex_digit(c: char) -> bool {
    ('0' <= c && c <= '9') || ('a' <= c && c <= 'f') || ('A' <= c && c <= 'F')
}

/// Value of a hexadecimal digit (either case).
pub open spec fn hex_value(c: char) -> int {
    if '0' <= c && c <= '9' {
        c as int - '0' as int
    } else if 'a' <= c && c <= 'f' {
        c as int - 'a' as int + 10
    } else {
        c as int - 'A' as int + 10
    }
}

/// Uppercase hexadecimal digit for a value in `0..16`.
pub open spec fn hex_char(d: int) -> char {
    if d < 10 {
        (d + '0' as int) as u32 as char
    } else {
        (d - 10 + 'A' as int) as u32 as char
    }
}

/// The text with one leading `#` removed, if it has one.
pub open spec fn strip_hash(s: Seq<char>) -> Seq<char> {
    if s.len() > 0 && s[0] == '#' {
        s.skip(1)
    } else {
        s
    }
}

/// Exactly six hexadecimal digits, after an optional leading `#`.
pub open spec fn is_hex_color(s: Seq<char>) -> bool {
    let h = strip_hash(s);
    &&& h.len() == 6
    &&& forall|i: int| 0 <= i < 6 ==> is_hex_digit(#[trigger] h[i])
}

/// The byte written by the two digits of `h` that start at `i`.
pub open spec fn hex_byte_at(h: Seq<char>, i: int) -> int {
    16 * hex_value(h[i]) + hex_value(h[i + 1])
}

/// The color that a hex text denotes, if it is one.
pub open spec fn parse_hex(s: Seq<char>) -> Option<Rgb> {
    if is_hex_color(s) {
        let h = strip_hash(s);
        Some(Rgb { r: hex_byte_at(h, 0) as u8, g: hex_byte_at(h, 2) as u8, b: hex_byte_at(h, 4) as u8 })
    } else {
        None
    }
}

/// Two uppercase digits for a byte.
pub open spec fn byte_hex(x: u8) -> Seq<char> {
    seq![hex_char(x as int / 16), hex_char(x as int % 16)]
}

/// `#RRGGBB` with uppercase digits.
pub open spec fn hex_text(c: Rgb) -> Seq<char> {
    seq!['#'] + byte_hex(c.r) + byte_hex(c.g) + byte_hex(c.b)
}

/// Uppercase form of a hex digit.
pub open spec fn upper_hex_digit(c: char) -> char {
    if 'a' <= c && c <= 'f' {
        (c as int - 32) as u32 as char
    } else {
        c
    }
}

/// `#` followed by the six digits of a hex color text, in uppercase.
pub open spec fn normalize_hex(s: Seq<char>) -> Seq<char> {
    seq!['#'] + strip_hash(s).map_values(|c: char| upper_hex_digit(c))
}

/// Decimal digits of a byte, without leading zeros.
pub open spec fn decimal(x: int) -> Seq<char>
    decreases x,
{
    if x < 10 {
        seq![hex_char(x)]
    } else {
        decimal(x / 10) + seq![hex_char(x % 10)]
    }
}

/// `[r, g, b]` in decimal.
pub open spec fn array_text(c: Rgb) -> Seq<char> {
    seq!['['] + decimal(c.r as int) + seq![',', ' '] + decimal(c.g as int) + seq![',', ' ']
        + decimal(c.b as int) + seq![']']
}

// ---------------------------------------------------------------------------
// Lightness and blending, in exact arithmetic
// ---------------------------------------------------------------------------

pub open spec fn max3(c: Rgb) -> int {
    if c.r >= c.g && c.r >= c.b {
        c.r as int
    } else if c.g >= c.b {
        c.g as int
    } else {
        c.b as int
    }
}

pub open spec fn min3(c: Rgb) -> int {
    if c.r <= c.g && c.r <= c.b {
        c.r as int
    } else if c.g <= c.b {
        c.g as int
    } else {
        c.b as int
    }
}

pub open spec fn clamp(x: int, lo: int, hi: int) -> int {
    if x < lo {
        lo
    } else if x > hi {
        hi
    } else {
        x
    }
}

/// `n / d` rounded to the nearest integer, halves upward (`n >= 0`, `d > 0`).
pub open spec fn round_div(n: int, d: int) -> int {
    (2 * n + d) / (2 * d)
}

/// HSL lightness of `c`, counted in 510ths: `(max + min) / 510` on the unit scale.
pub open spec fn lightness(c: Rgb) -> int {
    max3(c) + min3(c)
}

/// The 0..=255 value that the HSL to RGB conversion gives a channel `v` of a color whose
/// channels span `lo..=hi`, when hue and saturation are those of that color and the
/// lightness is `l / (510 * den)`.
///
/// With `s = lo + hi`, the saturation is `(hi - lo) / e` where `e` is `s` for
/// lightness up to one half and `510 - s` above. The conversion sets the maximal channel
/// to `q`, the minimal one to `p`, and the middle one to the point between them that
/// hue places it at, `p + (q - p) * (v - lo) / (hi - lo)`; for the two halves of the
/// lightness range this comes to the two expressions below. A gray color (`lo == hi`)
/// gets the lightness itself on every channel.
pub open spec fn relit_channel(v: int, lo: int, hi: int, l: int, den: int) -> int {
    let s = lo + hi;
    if lo == hi {
        round_div(l, 2 * den)
    } else {
        let e = if s > 255 { 510 - s } else { s };
        if 2 * l < 510 * den {
            round_div(l * (e + 2 * v - s), 2 * den * e)
        } else {
            round_div(l * e + (510 * den - l) * (2 * v - s), 2 * den * e)
        }
    }
}

/// `c` converted to HSL, given the lightness `l / (510 * den)`, and converted back.
pub open spec fn relit(c: Rgb, l: int, den: int) -> Rgb {
    Rgb {
        r: relit_channel(c.r as int, min3(c), max3(c), l, den) as u8,
        g: relit_channel(c.g as int, min3(c), max3(c), l, den) as u8,
        b: relit_channel(c.b as int, min3(c), max3(c), l, den) as u8,
    }
}

/// `lighten(c, num / den)`: lightness `l + (1 - l) * f` with `f` clamped to `[0, 1]`.
/// Not a number (`den == 0`) gives black.
pub open spec fn lighten_spec(c: Rgb, num: int, den: int) -> Rgb {
    let f = clamp(num, 0, den);
    if den <= 0 {
        black()
    } else {
        relit(c, lightness(c) * den + (510 - lightness(c)) * f, den)
    }
}

/// `darken(c, num / den)`: lightness `l * (1 - f)` with `f` clamped to `[0, 1]`.
/// Not a number (`den == 0`) gives black.
pub open spec fn darken_spec(c: Rgb, num: int, den: int) -> Rgb {
    let f = clamp(num, 0, den);
    if den <= 0 {
        black()
    } else {
        relit(c, lightness(c) * (den - f), den)
    }
}

/// `brighten(c, num / den)`: lightness `l + amount`, the sum clamped to `[0, 1]`.
/// Not a number (`den == 0`) gives black.
pub open spec fn brighten_spec(c: Rgb, num: int, den: int) -> Rgb {
    if den <= 0 {
        black()
    } else {
        relit(c, clamp(lightness(c) * den + 510 * num, 0, 510 * den), den)
    }
}

/// `round(x + (y - x) * f)` with `f = num / den` clamped to `[0, 1]`.
pub open spec fn blend_spec(x: int, y: int, num: int, den: int) -> int {
    let f = clamp(num, 0, den);
    round_div(x * (den - f) + y * f, den)
}

/// Channel-wise blend of `a` toward `b`; not a number (`den == 0`) gives black.
pub open spec fn mix_spec(a: Rgb, b: Rgb, num: int, den: int) -> Rgb {
    if den <= 0 {
        black()
    } else {
        Rgb {
            r: blend_spec(a.r as int, b.r as int, num, den) as u8,
            g: blend_spec(a.g as int, b.g as int, num, den) as u8,
            b: blend_spec(a.b as int, b.b as int, num, den) as u8,
        }
    }
}

proof fn lemma_round_div_range(n: int, d: int, k: int)
    requires
        d > 0,
        0 <= n <= k * d,
    ensures
        0 <= round_div(n, d) <= k,
{
    let x = 2 * n + d;
    let m = 2 * d;
    lemma_fundamental_div_mod(x, m);
    lemma_mod_pos_bound(x, m);
    let q = x / m;
    let rem = x % m;
    assert(0 <= q <= k) by (nonlinear_arith)
        requires
            x == m * q + rem,
            0 <= rem < m,
            m == 2 * d,
            d > 0,
            x == 2 * n + d,
            0 <= n <= k * d,
    ;
}

/// Bound on every denominator that the transforms work with.
const DEN_LIMIT: u128 = 0x1_0000_0000_0000_0000;

/// `round_div(n, d)` for results known to fit a byte.
fn round_div_byte(n: u128, d: u128) -> (r: u8)
    requires
        d > 0,
        n <= 255 * d,
        d <= 2040 * DEN_LIMIT,
    ensures
        r as int == round_div(n as int, d as int),
{
    proof {
        lemma_round_div_range(n as int, d as int, 255);
    }
    ((2 * n + d) / (2 * d)) as u8
}

/// One channel of the HSL round trip with a new lightness; see [`relit_channel`].
fn relit_channel_exec(v: u8, lo: u8, hi: u8, l: u128, den: u128) -> (r: u8)
    requires
        lo <= v <= hi,
        0 < den < DEN_LIMIT,
        l <= 510 * den,
    ensures
        r as int == relit_channel(v as int, lo as int, hi as int, l as int, den as int),
{
    let s: u128 = lo as u128 + hi as u128;
    if lo == hi {
        return round_div_byte(l, 2 * den);
    }
    let e: u128 = if s > 255 {
        510 - s
    } else {
        s
    };
    let v2: u128 = 2 * v as u128;
    assert(hi - lo <= e);
    assert(0 < e <= 510);
    assert(2 * den * e <= 1020 * DEN_LIMIT) by (nonlinear_arith)
        requires
            den < DEN_LIMIT,
            e <= 510,
    ;
    let d: u128 = 2 * den * e;
    assert(d > 0) by (nonlinear_arith)
        requires
            d == 2 * den * e,
            den > 0,
            e > 0,
    ;
    if 2 * l < 510 * den {
        let w: u128 = e + v2 - s;
        assert(w <= 2 * e);
        assert(l * w <= 510 * DEN_LIMIT * 1020) by (nonlinear_arith)
            requires
                l <= 510 * den,
                den < DEN_LIMIT,
                w <= 1020,
        ;
        let n: u128 = l * w;
        assert(n <= 255 * d) by (nonlinear_arith)
            requires
                n == l * w,
                w <= 2 * e,
                2 * l < 510 * den,
                d == 2 * den * e,
        ;
        round_div_byte(n, d)
    } else {
        let rest: u128 = 510 * den - l;
        assert(l * e <= 510 * DEN_LIMIT * 510) by (nonlinear_arith)
            requires
                l <= 510 * den,
                den < DEN_LIMIT,
                e <= 510,
        ;
        let n: u128 = if v2 >= s {
            let up: u128 = v2 - s;
            assert(up <= e);
            assert(l * e + rest * up <= 255 * d) by (nonlinear_arith)
                requires
                    up <= e,
                    rest == 510 * den - l,
                    l <= 510 * den,
                    d == 2 * den * e,
            ;
            l * e + rest * up
        } else {
            let down: u128 = s - v2;
            assert(down <= e);
            assert(rest * down <= l * e) by (nonlinear_arith)
                requires
                    down <= e,
                    rest == 510 * den - l,
                    2 * l >= 510 * den,
            ;
            l * e - rest * down
        };
        assert(n == l * e + (510 * den - l) * (v2 - s)) by (nonlinear_arith)
            requires
                v2 >= s ==> n == l * e + rest * (v2 - s),
                v2 < s ==> n == l * e - rest * (s - v2),
                rest == 510 * den - l,
        ;
        assert(n <= 255 * d) by (nonlinear_arith)
            requires
                n == l * e + (510 * den - l) * (v2 - s),
                v2 - s <= e,
                l <= 510 * den,
                d == 2 * den * e,
        ;
        round_div_byte(n, d)
    }
}

fn blend_channel(from: u8, to: u8, f: u128, den: u128) -> (r: u8)
    requires
        0 < den < DEN_LIMIT,
        f <= den,
    ensures
        r as int == round_div(from * (den - f) + to * f, den as int),
{
    assert(from * (den - f) + to * f <= 255 * den) by (nonlinear_arith)
        requires
            from <= 255,
            to <= 255,
            f <= den,
    ;
    let n = from as u128 * (den - f) + to as u128 * f;
    assert(n <= 255 * den) by (nonlinear_arith)
        requires
            n == from * (den - f) + to * f,
            from <= 255,
            to <= 255,
            f <= den,
    ;
    round_div_byte(n, den)
}

/// Channel-wise minimum and maximum.
fn extremes(c: Rgb) -> (r: (u8, u8))
    ensures
        r.0 == min3(c),
        r.1 == max3(c),
{
    let lo = if c.r <= c.g && c.r <= c.b {
        c.r
    } else if c.g <= c.b {
        c.g
    } else {
        c.b
    };
    let hi = if c.r >= c.g && c.r >= c.b {
        c.r
    } else if c.g >= c.b {
        c.g
    } else {
        c.b
    };
    (lo, hi)
}

/// The factor clamped to `[0, 1]`, as a numerator over its own denominator.
fn clamped_numerator(f: Factor) -> (r: u128)
    requires
        f.denom() > 0,
    ensures
        r == clamp(f.numer(), 0, f.denom()),
{
    if f.num < 0 {
        0
    } else if f.num as u64 > f.den {
        f.den as u128
    } else {
        f.num as u128
    }
}

fn hex_digit(c: char) -> (r: Option<u8>)
    ensures
        is_hex_digit(c) ==> r == Some(hex_value(c) as u8),
        !is_hex_digit(c) ==> r is None,
{
    if '0' <= c && c <= '9' {
        Some((c as u32 - '0' as u32) as u8)
    } else if 'a' <= c && c <= 'f' {
        Some((c as u32 - 'a' as u32 + 10) as u8)
    } else if 'A' <= c && c <= 'F' {
        Some((c as u32 - 'A' as u32 + 10) as u8)
    } else {
        None
    }
}

/// One uppercase hex (or decimal) digit as text.
fn digit_str(d: u8) -> (r: &'static str)
    requires
        d < 16,
    ensures
        r@ == seq![hex_char(d as int)],
{
    proof {
        reveal_strlit("0123456789ABCDEF");
    }
    let r = "0123456789ABCDEF".substring_char(d as usize, d as usize + 1);
    assert(r@ =~= seq![hex_char(d as int)]);
    r
}

fn push_decimal(out: &mut String, x: u8)
    ensures
        final(out)@ == old(out)@ + decimal(x as int),
{
    if x >= 100 {
        out.append(digit_str(x / 100));
    }
    if x >= 10 {
        out.append(digit_str((x / 10) % 10));
    }
    out.append(digit_str(x % 10));
    proof {
        let xi = x as int;
        if xi >= 100 {
            assert(decimal(xi / 10) =~= decimal(xi / 100) + seq![hex_char((xi / 10) % 10)]);
            assert(decimal(xi / 100) == seq![hex_char(xi / 100)]);
        } else if xi >= 10 {
            assert(decimal(xi / 10) == seq![hex_char(xi / 10)]);
        }
    }
    assert(final(out)@ =~= old(out)@ + decimal(x as int));
}

impl Rgb {
    /// The color with the same hue and saturation and the HSL lightness `l / (510 * den)`.
    fn with_lightness(self, l: u128, den: u128) -> (r: Rgb)
        requires
            0 < den < DEN_LIMIT,
            l <= 510 * den,
        ensures
            r == relit(self, l as int, den as int),
    {
        let (lo, hi) = extremes(self);
        Rgb {
            r: relit_channel_exec(self.r, lo, hi, l, den),
            g: relit_channel_exec(self.g, lo, hi, l, den),
            b: relit_channel_exec(self.b, lo, hi, l, den),
        }
    }

    /// Moves the HSL lightness toward white by `factor` (clamped to `[0, 1]`) of the
    /// distance left: `l' = l + (1 - l) * factor`.
    pub fn lighten(self, factor: Factor) -> (r: Rgb)
        ensures
            r == lighten_spec(self, factor.numer(), factor.denom()),
    {
        if factor.den == 0 {
            return Rgb { r: 0, g: 0, b: 0 };
        }
        let den = factor.den as u128;
        let f = clamped_numerator(factor);
        let (lo, hi) = extremes(self);
        let s = lo as u128 + hi as u128;
        assert(s * den + (510 - s) * f <= 510 * den) by (nonlinear_arith)
            requires
                s <= 510,
                f <= den,
        ;
        let l = s * den + (510 - s) * f;
        self.with_lightness(l, den)
    }

    /// Moves the HSL lightness toward black by `factor` (clamped to `[0, 1]`) of its
    /// value: `l' = l * (1 - factor)`.
    pub fn darken(self, factor: Factor) -> (r: Rgb)
        ensures
            r == darken_spec(self, factor.numer(), factor.denom()),
    {
        if factor.den == 0 {
            return Rgb { r: 0, g: 0, b: 0 };
        }
        let den = factor.den as u128;
        let f = clamped_numerator(factor);
        let (lo, hi) = extremes(self);
        let s = lo as u128 + hi as u128;
        assert(s * (den - f) <= 510 * den) by (nonlinear_arith)
            requires
                s <= 510,
                f <= den,
        ;
        let l = s * (den - f);
        self.with_lightness(l, den)
    }

    /// Adds `amount` to the HSL lightness and clamps the sum to `[0, 1]`; a negative
    /// amount dims.
    pub fn brighten(self, amount: Factor) -> (r: Rgb)
        ensures
            r == brighten_spec(self, amount.numer(), amount.denom()),
    {
        if amount.den == 0 {
            return Rgb { r: 0, g: 0, b: 0 };
        }
        let den = amount.den as i128;
        let (lo, hi) = extremes(self);
        let s = lo as i128 + hi as i128;
        assert(s * den <= 510 * DEN_LIMIT) by (nonlinear_arith)
            requires
                0 <= s <= 510,
                0 < den < DEN_LIMIT,
        ;
        let sum = s * den + 510 * amount.num as i128;
        let l: i128 = if sum < 0 {
            0
        } else if sum > 510 * den {
            510 * den
        } else {
            sum
        };
        self.with_lightness(l as u128, den as u128)
    }

    /// Blends each RGB channel from `self` toward `other`:
    /// `round(from + (to - from) * factor)`, `factor` clamped to `[0, 1]`.
    pub fn mix(self, other: Rgb, factor: Factor) -> (r: Rgb)
        ensures
            r == mix_spec(self, other, factor.numer(), factor.denom()),
    {
        if factor.den == 0 {
            return Rgb { r: 0, g: 0, b: 0 };
        }
        let den = factor.den as u128;
        let f = clamped_numerator(factor);
        Rgb {
            r: blend_channel(self.r, other.r, f, den),
            g: blend_channel(self.g, other.g, f, den),
            b: blend_channel(self.b, other.b, f, den),
        }
    }

    /// Reads `#RRGGBB` or `RRGGBB`, in either case.
    pub fn parse(s: &str) -> (r: Result<Rgb, Error>)
        ensures
            match parse_hex(s@) {
                Some(c) => r == Ok::<Rgb, Error>(c),
                None => r matches Err(e) && e@ == crate::error::Fault::InvalidHex(strip_hash(s@)),
            },
    {
        let n = s.unicode_len();
        let start: usize = if n > 0 && s.get_char(0) == '#' {
            1
        } else {
            0
        };
        let hex = s.substring_char(start, n);
        assert(hex@ == strip_hash(s@));
        if n - start != 6 {
            return Err(Error::InvalidHex(hex.to_owned()));
        }
        let mut vals: [u8; 6] = [0u8; 6];
        let mut i: usize = 0;
        while i < 6
            invariant
                0 <= i <= 6,
                hex@ == strip_hash(s@),
                hex@.len() == 6,
                forall|j: int| 0 <= j < i ==> is_hex_digit(#[trigger] hex@[j]),
                forall|j: int| 0 <= j < i ==> vals@[j] == hex_value(#[trigger] hex@[j]),
            decreases 6 - i,
        {
            match hex_digit(hex.get_char(i)) {
                Some(v) => {
                    vals[i] = v;
                },
                None => {
                    assert(!is_hex_color(s@));
                    return Err(Error::InvalidHex(hex.to_owned()));
                },
            }
            i = i + 1;
        }
        let c = Rgb {
            r: vals[0] * 16 + vals[1],
            g: vals[2] * 16 + vals[3],
            b: vals[4] * 16 + vals[5],
        };
        Ok(c)
    }

    /// `#RRGGBB`, uppercase and zero-padded.
    pub fn to_hex(&self) -> (r: String)
        ensures
            r@ == hex_text(*self),
    {
        let mut out = String::from_str("#");
        proof {
            reveal_strlit("#");
        }
        out.append(digit_str(self.r / 16));
        out.append(digit_str(self.r % 16));
        out.append(digit_str(self.g / 16));
        out.append(digit_str(self.g % 16));
        out.append(digit_str(self.b / 16));
        out.append(digit_str(self.b % 16));
        assert(out@ =~= hex_text(*self));
        out
    }

    /// `[r, g, b]` with decimal channels.
    pub fn to_array_string(self) -> (r: String)
        ensures
            r@ == array_text(self),
    {
        proof {
            reveal_strlit("[");
            reveal_strlit(", ");
            reveal_strlit("]");
        }
        let mut out = String::from_str("[");
        push_decimal(&mut out, self.r);
        out.append(", ");
        push_decimal(&mut out, self.g);
        out.append(", ");
        push_decimal(&mut out, self.b);
        out.append("]");
        assert(out@ =~= array_text(self));
        out
    }
}

impl std::str::FromStr for Rgb {
    type Err = Error;

    fn from_str(s: &str) -> Result<Rgb, Error> {
        Rgb::parse(s)
    }
}

// ---------------------------------------------------------------------------
// Laws of the color algebra
// ---------------------------------------------------------------------------

pub open spec fn white() -> Rgb {
    Rgb { r: 255, g: 255, b: 255 }
}

pub open spec fn black() -> Rgb {
    Rgb { r: 0, g: 0, b: 0 }
}

proof fn lemma_round_div_exact(v: int, d: int)
    requires
        d > 0,
    ensures
        round_div(v * d, d) == v,
{
    assert(2 * (v * d) + d == v * (2 * d) + d) by (nonlinear_arith);
    lemma_fundamental_div_mod_converse_div(2 * (v * d) + d, 2 * d, v, d);
}

proof fn lemma_round_div_scale(k: int, n: int, d: int)
    requires
        k > 0,
        n >= 0,
        d > 0,
    ensures
        round_div(k * n, k * d) == round_div(n, d),
{
    lemma_div_multiples_vanish_quotient(k, 2 * n + d, 2 * d);
    assert(k * (2 * n + d) == 2 * (k * n) + k * d) by (nonlinear_arith);
    assert(k * (2 * d) == 2 * (k * d)) by (nonlinear_arith);
}

proof fn lemma_relit_channel_same(v: int, lo: int, hi: int, den: int)
    requires
        0 <= lo <= v <= hi <= 255,
        den > 0,
    ensures
        relit_channel(v, lo, hi, (lo + hi) * den, den) == v,
{
    let s = lo + hi;
    let l = s * den;
    if lo == hi {
        assert(l == v * (2 * den)) by (nonlinear_arith)
            requires
                l == s * den,
                s == 2 * v,
        ;
        lemma_round_div_exact(v, 2 * den);
    } else {
        let e = if s > 255 { 510 - s } else { s };
        assert(e > 0);
        let d = 2 * den * e;
        assert(d > 0) by (nonlinear_arith)
            requires
                d == 2 * den * e,
                den > 0,
                e > 0,
        ;
        if 2 * l < 510 * den {
            assert(s < 255) by (nonlinear_arith)
                requires
                    l == s * den,
                    2 * l < 510 * den,
                    den > 0,
            ;
            assert(l * (e + 2 * v - s) == v * d) by (nonlinear_arith)
                requires
                    l == s * den,
                    e == s,
                    d == 2 * den * e,
            ;
            lemma_round_div_exact(v, d);
        } else {
            assert(s >= 255) by (nonlinear_arith)
                requires
                    l == s * den,
                    2 * l >= 510 * den,
                    den > 0,
            ;
            assert(l * e + (510 * den - l) * (2 * v - s) == v * d) by (nonlinear_arith)
                requires
                    l == s * den,
                    e == 510 - s || e == s && s == 255,
                    d == 2 * den * e,
            ;
            lemma_round_div_exact(v, d);
        }
    }
}

proof fn lemma_relit_channel_top(v: int, lo: int, hi: int, den: int)
    requires
        0 <= lo <= v <= hi <= 255,
        den > 0,
    ensures
        relit_channel(v, lo, hi, 510 * den, den) == 255,
{
    let s = lo + hi;
    if lo == hi {
        lemma_round_div_exact(255, 2 * den);
    } else {
        let e = if s > 255 { 510 - s } else { s };
        let d = 2 * den * e;
        assert(d > 0) by (nonlinear_arith)
            requires
                d == 2 * den * e,
                den > 0,
                e > 0,
        ;
        assert((510 * den) * e + (510 * den - 510 * den) * (2 * v - s) == 255 * d) by (nonlinear_arith)
            requires
                d == 2 * den * e,
        ;
        lemma_round_div_exact(255, d);
    }
}

proof fn lemma_relit_channel_bottom(v: int, lo: int, hi: int, den: int)
    requires
        0 <= lo <= v <= hi <= 255,
        den > 0,
    ensures
        relit_channel(v, lo, hi, 0, den) == 0,
{
    let s = lo + hi;
    if lo == hi {
        lemma_round_div_exact(0, 2 * den);
    } else {
        let e = if s > 255 { 510 - s } else { s };
        let d = 2 * den * e;
        assert(d > 0) by (nonlinear_arith)
            requires
                d == 2 * den * e,
                den > 0,
                e > 0,
        ;
        assert(0 * (e + 2 * v - s) == 0 * d);
        lemma_round_div_exact(0, d);
    }
}

proof fn lemma_extremes(c: Rgb)
    ensures
        0 <= min3(c) <= c.r <= max3(c) <= 255,
        min3(c) <= c.g <= max3(c),
        min3(c) <= c.b <= max3(c),
{
}

/// Keeping the lightness keeps the color.
proof fn lemma_relit_same(c: Rgb, den: int)
    requires
        den > 0,
    ensures
        relit(c, lightness(c) * den, den) == c,
{
    lemma_extremes(c);
    lemma_relit_channel_same(c.r as int, min3(c), max3(c), den);
    lemma_relit_channel_same(c.g as int, min3(c), max3(c), den);
    lemma_relit_channel_same(c.b as int, min3(c), max3(c), den);
}

/// Full lightness is white.
proof fn lemma_relit_top(c: Rgb, den: int)
    requires
        den > 0,
    ensures
        relit(c, 510 * den, den) == white(),
{
    lemma_extremes(c);
    lemma_relit_channel_top(c.r as int, min3(c), max3(c), den);
    lemma_relit_channel_top(c.g as int, min3(c), max3(c), den);
    lemma_relit_channel_top(c.b as int, min3(c), max3(c), den);
}

/// Zero lightness is black.
proof fn lemma_relit_bottom(c: Rgb, den: int)
    requires
        den > 0,
    ensures
        relit(c, 0, den) == black(),
{
    lemma_extremes(c);
    lemma_relit_channel_bottom(c.r as int, min3(c), max3(c), den);
    lemma_relit_channel_bottom(c.g as int, min3(c), max3(c), den);
    lemma_relit_channel_bottom(c.b as int, min3(c), max3(c), den);
}

/// Lightening or darkening by zero keeps a color; lightening by one gives white and
/// darkening by one gives black. `0 / den` and `den / den` are any fractions of value
/// zero and one.
pub proof fn lemma_lighten_darken_ends(c: Rgb, den: int)
    requires
        den > 0,
    ensures
        lighten_spec(c, 0, den) == c,
        lighten_spec(c, den, den) == white(),
        darken_spec(c, 0, den) == c,
        darken_spec(c, den, den) == black(),
{
    lemma_relit_same(c, den);
    lemma_relit_top(c, den);
    lemma_relit_bottom(c, den);
    assert(lightness(c) * den + (510 - lightness(c)) * den == 510 * den) by (nonlinear_arith);
    assert(lightness(c) * (den - den) == 0) by (nonlinear_arith);
    assert(lightness(c) * den + (510 - lightness(c)) * 0 == lightness(c) * den) by (nonlinear_arith);
    assert(lightness(c) * (den - 0) == lightness(c) * den);
}

proof fn lemma_blend_ends(x: int, y: int, den: int)
    requires
        den > 0,
    ensures
        blend_spec(x, y, 0, den) == x,
        blend_spec(x, y, den, den) == y,
{
    assert(x * (den - 0) + y * 0 == x * den) by (nonlinear_arith);
    assert(x * (den - den) + y * den == y * den) by (nonlinear_arith);
    lemma_round_div_exact(x, den);
    lemma_round_div_exact(y, den);
}

/// Mixing by zero gives the first color and mixing by one gives the second.
pub proof fn lemma_mix_ends(a: Rgb, b: Rgb, den: int)
    requires
        den > 0,
    ensures
        mix_spec(a, b, 0, den) == a,
        mix_spec(a, b, den, den) == b,
{
    lemma_blend_ends(a.r as int, b.r as int, den);
    lemma_blend_ends(a.g as int, b.g as int, den);
    lemma_blend_ends(a.b as int, b.b as int, den);
}

proof fn lemma_blend_half(x: int, y: int, num: int)
    requires
        num > 0,
        0 <= x,
        0 <= y,
    ensures
        blend_spec(x, y, num, 2 * num) == round_div(x + y, 2),
{
    assert(x * (2 * num - num) + y * num == num * (x + y)) by (nonlinear_arith);
    lemma_round_div_scale(num, x + y, 2);
}

/// Mixing by one half takes the rounded mean of each channel.
pub proof fn lemma_mix_half(a: Rgb, b: Rgb, num: int)
    requires
        num > 0,
    ensures
        mix_spec(a, b, num, 2 * num) == (Rgb {
            r: round_div(a.r + b.r, 2) as u8,
            g: round_div(a.g + b.g, 2) as u8,
            b: round_div(a.b + b.b, 2) as u8,
        }),
{
    lemma_blend_half(a.r as int, b.r as int, num);
    lemma_blend_half(a.g as int, b.g as int, num);
    lemma_blend_half(a.b as int, b.b as int, num);
}

/// A factor above one acts as one and a factor below zero acts as zero, for lighten,
/// darken and mix. `one / one` is any fraction of value one (`one > 0`), `zero / d`
/// any fraction of value zero.
pub proof fn lemma_factor_clamped(c: Rgb, other: Rgb, num: int, den: int, one: int, d: int)
    requires
        den > 0,
        one > 0,
        d > 0,
    ensures
        num > den ==> lighten_spec(c, num, den) == lighten_spec(c, one, one),
        num > den ==> darken_spec(c, num, den) == darken_spec(c, one, one),
        num > den ==> mix_spec(c, other, num, den) == mix_spec(c, other, one, one),
        num < 0 ==> lighten_spec(c, num, den) == lighten_spec(c, 0, d),
        num < 0 ==> darken_spec(c, num, den) == darken_spec(c, 0, d),
        num < 0 ==> mix_spec(c, other, num, den) == mix_spec(c, other, 0, d),
{
    lemma_lighten_darken_ends(c, den);
    lemma_lighten_darken_ends(c, one);
    lemma_lighten_darken_ends(c, d);
    lemma_mix_ends(c, other, den);
    lemma_mix_ends(c, other, one);
    lemma_mix_ends(c, other, d);
}

proof fn lemma_digit_round_trip(c: char)
    requires
        is_hex_digit(c),
    ensures
        0 <= hex_value(c) < 16,
        hex_char(hex_value(c)) == upper_hex_digit(c),
{
}

proof fn lemma_byte_round_trip(h: Seq<char>, i: int)
    requires
        0 <= i,
        i + 1 < h.len(),
        is_hex_digit(h[i]),
        is_hex_digit(h[i + 1]),
    ensures
        byte_hex(hex_byte_at(h, i) as u8) == seq![upper_hex_digit(h[i]), upper_hex_digit(h[i + 1])],
{
    lemma_digit_round_trip(h[i]);
    lemma_digit_round_trip(h[i + 1]);
    let x = hex_byte_at(h, i);
    assert(0 <= x < 256);
    assert(x / 16 == hex_value(h[i]));
    assert(x % 16 == hex_value(h[i + 1]));
}

/// Reading a hex color and writing it back gives its six digits in uppercase behind
/// a `#`.
pub proof fn lemma_hex_round_trip(s: Seq<char>)
    requires
        is_hex_color(s),
    ensures
        parse_hex(s) is Some,
        hex_text(parse_hex(s)->0) == normalize_hex(s),
{
    let h = strip_hash(s);
    assert(is_hex_digit(h[0]) && is_hex_digit(h[1]) && is_hex_digit(h[2]));
    assert(is_hex_digit(h[3]) && is_hex_digit(h[4]) && is_hex_digit(h[5]));
    lemma_byte_round_trip(h, 0);
    lemma_byte_round_trip(h, 2);
    lemma_byte_round_trip(h, 4);
    assert(hex_text(parse_hex(s)->0) =~= normalize_hex(s));
}

} // verus!
