//! The color expression language: literals, references and transform calls.
use crate::color::Factor;
use crate::error::{Error, Fault};
use vstd::arithmetic::div_mod::{
    lemma_basic_div, lemma_div_denominator, lemma_fundamental_div_mod_converse_div,
};
use crate::text::{
    eq_ignore_ascii_case, same_ignoring_case, find_char, first_index, last_index, rfind_char, starts_with, str_eq, str_starts_with, trim,
    trim_str,
};
use vstd::prelude::*;

verus! {

/// The group that a reference names.
#[derive(Debug, Clone, Copy, PartialEq, Eq, Structural)]
pub enum Section {
    Colors,
    Base,
    Ansi,
    AnsiBright,
}

/// Name of a group as references write it.
pub open spec fn section_name(s: Section) -> Seq<char> {
    match s {
        Section::Colors => "colors"@,
        Section::Base => "base"@,
        Section::Ansi => "ansi"@,
        Section::AnsiBright => "ansi.bright"@,
    }
}

/// The group named by the text before the first dot of a reference.
pub open spec fn section_of(t: Seq<char>) -> Option<Section> {
    if t == "colors"@ {
        Some(Section::Colors)
    } else if t == "base"@ {
        Some(Section::Base)
    } else if t == "ansi"@ {
        Some(Section::Ansi)
    } else {
        None
    }
}

impl Section {
    /// Reads a one-word group name; the bright ANSI group has none.
    pub fn parse(s: &str) -> (r: Result<Section, Error>)
        ensures
            match section_of(s@) {
                Some(sec) => r == Ok::<Section, Error>(sec),
                None => r matches Err(e) && e@ == Fault::InvalidColorExpr("unknown section: "@ + s@),
            },
    {
        if str_eq(s, "colors") {
            Ok(Section::Colors)
        } else if str_eq(s, "base") {
            Ok(Section::Base)
        } else if str_eq(s, "ansi") {
            Ok(Section::Ansi)
        } else {
            Err(Error::InvalidColorExpr(message("unknown section: ", s)))
        }
    }

    pub fn as_str(&self) -> (r: &'static str)
        ensures
            r@ == section_name(*self),
    {
        match self {
            Section::Colors => "colors",
            Section::Base => "base",
            Section::Ansi => "ansi",
            Section::AnsiBright => "ansi.bright",
        }
    }
}

/// A color expression, as it stands in one slot of a palette document.
#[derive(Debug)]
pub enum ColorExpr {
    /// A color written out, such as `#E26A3B`.
    Literal(String),
    /// Another slot, such as `colors.lantern`.
    Ref { section: Section, key: String },
    /// `lighten(inner, factor)`.
    Lighten(Box<ColorExpr>, Factor),
    /// `darken(inner, factor)`.
    Darken(Box<ColorExpr>, Factor),
    /// `brighten(inner, amount)`.
    Brighten(Box<ColorExpr>, Factor),
    /// `mix(first, second, factor)`.
    Mix(Box<ColorExpr>, Box<ColorExpr>, Factor),
}

/// The mathematical value of a [`ColorExpr`]; amounts are `numerator, denominator`.
pub ghost enum Expr {
    Literal(Seq<char>),
    Ref(Section, Seq<char>),
    Lighten(Box<Expr>, int, int),
    Darken(Box<Expr>, int, int),
    Brighten(Box<Expr>, int, int),
    Mix(Box<Expr>, Box<Expr>, int, int),
}

pub open spec fn expr_view(e: ColorExpr) -> Expr
    decreases e,
{
    match e {
        ColorExpr::Literal(s) => Expr::Literal(s@),
        ColorExpr::Ref { section, key } => Expr::Ref(section, key@),
        ColorExpr::Lighten(inner, f) => Expr::Lighten(Box::new(expr_view(*inner)), f.numer(), f.denom()),
        ColorExpr::Darken(inner, f) => Expr::Darken(Box::new(expr_view(*inner)), f.numer(), f.denom()),
        ColorExpr::Brighten(inner, f) => Expr::Brighten(Box::new(expr_view(*inner)), f.numer(), f.denom()),
        ColorExpr::Mix(a, b, f) => Expr::Mix(
            Box::new(expr_view(*a)),
            Box::new(expr_view(*b)),
            f.numer(),
            f.denom(),
        ),
    }
}

impl View for ColorExpr {
    type V = Expr;

    open spec fn view(&self) -> Expr {
        expr_view(*self)
    }
}

// ---------------------------------------------------------------------------
// Numbers
// ---------------------------------------------------------------------------

pub open spec fn is_digit(c: char) -> bool {
    '0' <= c && c <= '9'
}

pub open spec fn all_digits(s: Seq<char>) -> bool {
    forall|i: int| 0 <= i < s.len() ==> is_digit(#[trigger] s[i])
}

/// The number that a string of decimal digits writes.
pub open spec fn digits_value(s: Seq<char>) -> int
    decreases s.len(),
{
    if s.len() == 0 {
        0
    } else {
        10 * digits_value(s.drop_last()) + (s.last() as int - '0' as int)
    }
}

pub open spec fn pow10(n: nat) -> int
    decreases n,
{
    if n == 0 {
        1
    } else {
        10 * pow10((n - 1) as nat)
    }
}

/// The fraction that a numeral of value `±m · 10^k` (`m >= 0`) becomes.
///
/// It is exact when the numerator stays below `10^18` and the denominator is at most
/// `10^18`. Otherwise a magnitude of at least one becomes `±1`, which every transform
/// treats the same (lighten, darken and mix clamp to `[0, 1]`, brighten clamps the
/// lightness it gives), and a smaller magnitude is cut toward zero to 18 decimal places.
pub open spec fn amount_fraction(negative: bool, m: int, k: int) -> (int, int) {
    if m == 0 {
        (0, 1)
    } else if k >= 0 {
        if m * pow10(k as nat) < pow10(18) {
            (signed(negative, m * pow10(k as nat)), 1)
        } else {
            (signed(negative, 1), 1)
        }
    } else if -k <= 18 && m < pow10(18) {
        (signed(negative, m), pow10((-k) as nat))
    } else if m >= pow10((-k) as nat) {
        (signed(negative, 1), 1)
    } else {
        (signed(negative, m / pow10((-k - 18) as nat)), pow10(18))
    }
}

/// `-x` when `negative`, else `x`.
pub open spec fn signed(negative: bool, x: int) -> int {
    if negative {
        -x
    } else {
        x
    }
}

/// Where the exponent part of a numeral starts: its `e` or `E`, or -1.
pub open spec fn exponent_at(body: Seq<char>) -> int {
    if first_index(body, 'e') >= 0 {
        first_index(body, 'e')
    } else {
        first_index(body, 'E')
    }
}

/// A floating-point numeral, as `str::parse::<f64>` reads one, as a fraction
/// `(numerator, denominator)`. After an optional sign it is either a number, or one of
/// the words `inf`, `infinity` and `nan` in any case.
///
/// A number is digits with at most one decimal point among them and at least one digit,
/// then optionally `e` or `E`, an optional sign and at least one digit; its value
/// `±digits · 10^(exponent - digits after the point)` is mapped by [`amount_fraction`].
/// An infinity becomes `±1`, which every transform treats as it treats an infinite
/// amount, and `nan` becomes not a number, `(0, 0)`.
pub open spec fn parse_decimal(s: Seq<char>) -> Option<(int, int)> {
    let has_sign = s.len() > 0 && (s[0] == '-' || s[0] == '+');
    let body = if has_sign { s.skip(1) } else { s };
    if same_ignoring_case(body, "inf"@) || same_ignoring_case(body, "infinity"@) {
        Some((signed(has_sign && s[0] == '-', 1), 1))
    } else if same_ignoring_case(body, "nan"@) {
        Some((0, 0))
    } else {
        parse_number(has_sign && s[0] == '-', body)
    }
}

/// The number part of [`parse_decimal`], after the sign.
pub open spec fn parse_number(negative: bool, body: Seq<char>) -> Option<(int, int)> {
    let x = exponent_at(body);
    let mant = if x < 0 { body } else { body.take(x) };
    let etext = if x < 0 { Seq::<char>::empty() } else { body.skip(x + 1) };
    let esigned = etext.len() > 0 && (etext[0] == '-' || etext[0] == '+');
    let edigits = if esigned { etext.skip(1) } else { etext };
    let p = first_index(mant, '.');
    let whole = if p < 0 { mant } else { mant.take(p) };
    let frac = if p < 0 { Seq::<char>::empty() } else { mant.skip(p + 1) };
    if all_digits(whole) && all_digits(frac) && whole.len() + frac.len() >= 1 && (x < 0 || (
    edigits.len() >= 1 && all_digits(edigits))) {
        let e = signed(esigned && etext[0] == '-', digits_value(edigits));
        Some(
            amount_fraction(
                negative,
                digits_value(whole + frac),
                e - frac.len(),
            ),
        )
    } else {
        None
    }
}

proof fn lemma_all_digits_skip(s: Seq<char>, k: int)
    requires
        all_digits(s),
        0 <= k <= s.len(),
    ensures
        all_digits(s.skip(k)),
        all_digits(s.take(k)),
{
    assert forall|i: int| 0 <= i < s.skip(k).len() implies is_digit(#[trigger] s.skip(k)[i]) by {
        assert(s.skip(k)[i] == s[i + k]);
    }
    assert forall|i: int| 0 <= i < s.take(k).len() implies is_digit(#[trigger] s.take(k)[i]) by {
        assert(s.take(k)[i] == s[i]);
    }
}

/// A leading zero does not change the value of a digit string.
proof fn lemma_drop_leading_zero(s: Seq<char>)
    requires
        s.len() > 0,
        s[0] == '0',
    ensures
        digits_value(s) == digits_value(s.skip(1)),
    decreases s.len(),
{
    if s.len() == 1 {
        assert(s.drop_last().len() == 0);
        assert(digits_value(s.drop_last()) == 0);
        assert(s.last() == '0');
        assert(s.skip(1).len() == 0);
    } else {
        let t = s.drop_last();
        assert(t[0] == '0');
        lemma_drop_leading_zero(t);
        assert(s.skip(1).drop_last() =~= t.skip(1));
        assert(s.skip(1).last() == s.last());
    }
}

proof fn lemma_leading_zeros(s: Seq<char>, z: int)
    requires
        0 <= z <= s.len(),
        forall|i: int| 0 <= i < z ==> #[trigger] s[i] == '0',
    ensures
        digits_value(s) == digits_value(s.skip(z)),
    decreases z,
{
    if z > 0 {
        assert(s[0] == '0');
        lemma_drop_leading_zero(s);
        let t = s.skip(1);
        assert forall|i: int| 0 <= i < z - 1 implies #[trigger] t[i] == '0' by {
            assert(t[i] == s[i + 1]);
        }
        lemma_leading_zeros(t, z - 1);
        assert(t.skip(z - 1) =~= s.skip(z));
    } else {
        assert(s.skip(0) =~= s);
    }
}

proof fn lemma_digits_value_bound(s: Seq<char>)
    requires
        all_digits(s),
    ensures
        0 <= digits_value(s) < pow10(s.len()),
    decreases s.len(),
{
    if s.len() > 0 {
        let t = s.drop_last();
        assert(all_digits(t)) by {
            assert forall|i: int| 0 <= i < t.len() implies is_digit(#[trigger] t[i]) by {
                assert(t[i] == s[i]);
            }
        }
        lemma_digits_value_bound(t);
        assert(is_digit(s[s.len() - 1]));
    }
}

proof fn lemma_pow10_monotone(a: nat, b: nat)
    requires
        a <= b,
    ensures
        1 <= pow10(a) <= pow10(b),
    decreases b,
{
    if b > 0 {
        if a == b {
            lemma_pow10_monotone((b - 1) as nat, (b - 1) as nat);
        } else {
            lemma_pow10_monotone(a, (b - 1) as nat);
        }
    }
}

proof fn lemma_pow10_limits()
    ensures
        pow10(17) == 100_000_000_000_000_000,
        pow10(18) == 1_000_000_000_000_000_000,
        pow10(29) == 100_000_000_000_000_000_000_000_000_000,
        pow10(30) == 1_000_000_000_000_000_000_000_000_000_000,
{
    reveal_with_fuel(pow10, 31);
}

/// A digit string without leading zero has as many digits as its value.
proof fn lemma_digits_value_lower(s: Seq<char>)
    requires
        all_digits(s),
        s.len() >= 1,
        s[0] != '0',
    ensures
        pow10((s.len() - 1) as nat) <= digits_value(s) < pow10(s.len()),
    decreases s.len(),
{
    lemma_digits_value_bound(s);
    if s.len() > 1 {
        let t = s.drop_last();
        lemma_all_digits_skip(s, 0);
        assert(all_digits(t)) by {
            assert forall|i: int| 0 <= i < t.len() implies is_digit(#[trigger] t[i]) by {
                assert(t[i] == s[i]);
            }
        }
        lemma_digits_value_lower(t);
        assert(is_digit(s[s.len() - 1]));
    } else {
        assert(is_digit(s[0]));
        assert(s.drop_last().len() == 0);
    }
}

/// Dropping the last `j` digits divides by `10^j`.
proof fn lemma_digits_value_div(s: Seq<char>, j: nat)
    requires
        all_digits(s),
        j <= s.len(),
    ensures
        digits_value(s) / pow10(j) == digits_value(s.take(s.len() - j)),
    decreases j,
{
    if j == 0 {
        assert(s.take(s.len() as int) =~= s);
    } else {
        let t = s.drop_last();
        assert(all_digits(t)) by {
            assert forall|i: int| 0 <= i < t.len() implies is_digit(#[trigger] t[i]) by {
                assert(t[i] == s[i]);
            }
        }
        assert(is_digit(s[s.len() - 1]));
        lemma_digits_value_bound(t);
        let d = s.last() as int - '0' as int;
        lemma_fundamental_div_mod_converse_div(digits_value(s), 10, digits_value(t), d);
        lemma_pow10_monotone(0, (j - 1) as nat);
        lemma_div_denominator(digits_value(s), 10, pow10((j - 1) as nat));
        lemma_digits_value_div(t, (j - 1) as nat);
        assert(t.take(t.len() - (j - 1)) =~= s.take(s.len() - j));
    }
}

/// The value of a string of at most 30 decimal digits.
fn digits_to_u128(s: &str) -> (r: u128)
    requires
        all_digits(s@),
        s@.len() <= 30,
    ensures
        r == digits_value(s@),
{
    let n = s.unicode_len();
    let mut acc: u128 = 0;
    let mut i: usize = 0;
    proof {
        lemma_pow10_limits();
    }
    while i < n
        invariant
            n == s@.len(),
            n <= 30,
            0 <= i <= n,
            all_digits(s@),
            acc == digits_value(s@.take(i as int)),
            pow10(29) == 100_000_000_000_000_000_000_000_000_000,
        decreases n - i,
    {
        let c = s.get_char(i);
        assert(is_digit(s@[i as int]));
        proof {
            let t = s@.take(i as int);
            assert(all_digits(t));
            lemma_digits_value_bound(t);
            lemma_pow10_monotone(i as nat, 29);
            assert(s@.take(i + 1).drop_last() =~= t);
        }
        acc = acc * 10 + (c as u32 - '0' as u32) as u128;
        i = i + 1;
    }
    assert(s@.take(n as int) =~= s@);
    acc
}

fn pow10_u64(k: usize) -> (r: u64)
    requires
        k <= 18,
    ensures
        r == pow10(k as nat),
{
    let mut p: u64 = 1;
    let mut i: usize = 0;
    while i < k
        invariant
            0 <= i <= k <= 18,
            p == pow10(i as nat),
        decreases k - i,
    {
        proof {
            lemma_pow10_monotone(i as nat, 17);
            lemma_pow10_limits();
        }
        p = p * 10;
        i = i + 1;
    }
    p
}

/// `s` without its leading zeros.
fn skip_zeros(s: &str) -> (r: &str)
    ensures
        r@.len() <= s@.len(),
        r@ == s@.skip(s@.len() - r@.len()),
        forall|i: int| 0 <= i < s@.len() - r@.len() ==> #[trigger] s@[i] == '0',
        r@.len() == 0 || r@[0] != '0',
{
    let n = s.unicode_len();
    let mut i: usize = 0;
    while i < n && s.get_char(i) == '0'
        invariant
            n == s@.len(),
            0 <= i <= n,
            forall|j: int| 0 <= j < i ==> #[trigger] s@[j] == '0',
        decreases n - i,
    {
        i = i + 1;
    }
    s.substring_char(i, n)
}

/// `sign * v` for `v < 10^18`.
fn signed_amount(negative: bool, v: u128) -> (r: i64)
    requires
        v < 1_000_000_000_000_000_000,
    ensures
        r == signed(negative, v as int),
{
    if negative {
        -(v as i64)
    } else {
        v as i64
    }
}

/// The fraction for value `±m · 10^k`, where `m` is written by `digits` (no leading
/// zero) and the exponent is given by `big` (at least `10^30` in magnitude) or
/// `e`, with `frac` digits after the point.
fn fraction_of(negative: bool, digits: &str, big: bool, e: i128, frac: usize, ev: Ghost<int>) -> (r:
    Factor)
    requires
        all_digits(digits@),
        digits@.len() == 0 || digits@[0] != '0',
        !big ==> -pow10(30) < e < pow10(30) && ev@ == e,
        big ==> (ev@ >= pow10(30) || ev@ <= -pow10(30)) && (ev@ > 0 <==> e > 0),
    ensures
        r.numer() == amount_fraction(negative, digits_value(digits@), ev@ - frac).0,
        r.denom() == amount_fraction(negative, digits_value(digits@), ev@ - frac).1,
{
    let len = digits.unicode_len();
    let ghost m = digits_value(digits@);
    proof {
        lemma_pow10_limits();
        lemma_digits_value_bound(digits@);
        if len > 0 {
            lemma_digits_value_lower(digits@);
        }
    }
    if len == 0 {
        assert(m == 0);
        return Factor::new(0, 1);
    }
    let one: i64 = if negative {
        -1
    } else {
        1
    };
    if big {
        if e > 0 {
            proof {
                let kk = ev@ - frac;
                lemma_pow10_monotone(18, kk as nat);
                assert(m * pow10(kk as nat) >= pow10(kk as nat)) by (nonlinear_arith)
                    requires
                        m >= 1,
                        pow10(kk as nat) >= 1,
                ;
            }
            return Factor::new(one, 1);
        } else {
            proof {
                let t = frac - ev@;
                lemma_pow10_monotone(len as nat, (t - 18) as nat);
                lemma_pow10_monotone((t - 18) as nat, t as nat);
                lemma_basic_div(m, pow10((t - 18) as nat));
            }
            return Factor::new(0, 1_000_000_000_000_000_000);
        }
    }
    let k: i128 = e - frac as i128;
    if k >= 0 {
        if len as i128 + k <= 18 {
            let mut v: u128 = digits_to_u128(digits);
            let mut i: i128 = 0;
            assert(pow10(0) == 1);
            assert(m * 1 == m);
            while i < k
                invariant
                    0 <= i <= k,
                    len + k <= 18,
                    v == m * pow10(i as nat),
                    v < pow10((len + i) as nat),
                    pow10(18) == 1_000_000_000_000_000_000,
                decreases k - i,
            {
                proof {
                    lemma_pow10_monotone((len + i) as nat, 18);
                    assert(m * pow10((i + 1) as nat) == 10 * (m * pow10(i as nat))) by (nonlinear_arith)
                        requires
                            pow10((i + 1) as nat) == 10 * pow10(i as nat),
                    ;
                }
                v = v * 10;
                i = i + 1;
            }
            proof {
                lemma_pow10_monotone((len + k) as nat, 18);
            }
            return Factor::new(signed_amount(negative, v), 1);
        }
        proof {
            lemma_pow10_monotone(18, (len - 1 + k) as nat);
            lemma_pow10_monotone(0, k as nat);
            assert(m * pow10(k as nat) >= pow10((len - 1 + k) as nat)) by {
                lemma_pow10_add((len - 1) as nat, k as nat);
                assert(m * pow10(k as nat) >= pow10((len - 1) as nat) * pow10(k as nat)) by (nonlinear_arith)
                    requires
                        m >= pow10((len - 1) as nat),
                        pow10(k as nat) >= 0,
                ;
            }
        }
        return Factor::new(one, 1);
    }
    let t: i128 = -k;
    if t <= 18 && len <= 18 {
        proof {
            lemma_pow10_monotone(len as nat, 18);
        }
        let v = digits_to_u128(digits);
        proof {
            lemma_pow10_monotone(0, t as nat);
        }
        return Factor::new(signed_amount(negative, v), pow10_u64(t as usize));
    }
    if len as i128 > t {
        proof {
            lemma_pow10_monotone(t as nat, (len - 1) as nat);
            if len > 18 {
                lemma_pow10_monotone(18, (len - 1) as nat);
            }
        }
        return Factor::new(one, 1);
    }
    let j: i128 = t - 18;
    proof {
        lemma_pow10_monotone(len as nat, t as nat);
        if len > 18 {
            lemma_pow10_monotone(18, len as nat);
        }
    }
    if len as i128 <= j {
        proof {
            lemma_pow10_monotone(len as nat, j as nat);
            lemma_basic_div(m, pow10(j as nat));
        }
        return Factor::new(0, 1_000_000_000_000_000_000);
    }
    let head = digits.substring_char(0, len - j as usize);
    proof {
        lemma_digits_value_div(digits@, j as nat);
        assert(head@ =~= digits@.take(len - j));
        lemma_all_digits_skip(digits@, len - j);
        lemma_digits_value_bound(head@);
        lemma_pow10_monotone(head@.len(), 18);
    }
    let q = digits_to_u128(head);
    Factor::new(signed_amount(negative, q), 1_000_000_000_000_000_000)
}

proof fn lemma_pow10_add(a: nat, b: nat)
    ensures
        pow10(a) * pow10(b) == pow10(a + b),
    decreases b,
{
    if b > 0 {
        lemma_pow10_add(a, (b - 1) as nat);
        assert(pow10(a) * pow10(b) == 10 * (pow10(a) * pow10((b - 1) as nat))) by (nonlinear_arith)
            requires
                pow10(b) == 10 * pow10((b - 1) as nat),
        ;
    }
}

/// The fraction of `±whole.frac · 10^(±edigits)`.
fn numeral_fraction(negative: bool, whole: &str, frac: &str, eneg: bool, edigits: &str) -> (r: Factor)
    requires
        all_digits(whole@),
        all_digits(frac@),
        all_digits(edigits@),
    ensures
        r.numer() == amount_fraction(
            negative,
            digits_value(whole@ + frac@),
            signed(eneg, digits_value(edigits@)) - frac@.len(),
        ).0,
        r.denom() == amount_fraction(
            negative,
            digits_value(whole@ + frac@),
            signed(eneg, digits_value(edigits@)) - frac@.len(),
        ).1,
{
    let wl = whole.unicode_len();
    let fl = frac.unicode_len();
    let joined = String::from_str(whole).concat(frac);
    proof {
        assert(all_digits(joined@)) by {
            assert forall|i: int| 0 <= i < joined@.len() implies is_digit(#[trigger] joined@[i]) by {
                if i < wl {
                    assert(joined@[i] == whole@[i]);
                } else {
                    assert(joined@[i] == frac@[i - wl]);
                }
            }
        }
    }
    let digits = skip_zeros(joined.as_str());
    let edig = skip_zeros(edigits);
    proof {
        lemma_leading_zeros(joined@, joined@.len() - digits@.len());
        lemma_all_digits_skip(joined@, joined@.len() - digits@.len());
        lemma_leading_zeros(edigits@, edigits@.len() - edig@.len());
        lemma_all_digits_skip(edigits@, edigits@.len() - edig@.len());
        lemma_pow10_limits();
    }
    let ghost ev: int = signed(eneg, digits_value(edigits@));
    let elen = edig.unicode_len();
    let f = if elen > 30 {
        proof {
            lemma_digits_value_lower(edig@);
            lemma_pow10_monotone(30, (elen - 1) as nat);
        }
        fraction_of(negative, digits, true, if eneg { -1 } else { 1 }, fl, Ghost(ev))
    } else {
        proof {
            lemma_digits_value_bound(edig@);
            lemma_pow10_monotone(elen as nat, 30);
        }
        let mag = digits_to_u128(edig) as i128;
        fraction_of(negative, digits, false, if eneg { -mag } else { mag }, fl, Ghost(ev))
    };
    assert(whole@ + frac@ == joined@);
    f
}

/// An optional leading `+` or `-`: whether there is one, whether it is `-`, and the
/// rest.
fn split_sign(s: &str) -> (r: (bool, bool, &str))
    ensures
        r.0 == (s@.len() > 0 && (s@[0] == '-' || s@[0] == '+')),
        r.1 == (s@.len() > 0 && s@[0] == '-'),
        r.2@ == if r.0 { s@.skip(1) } else { s@ },
{
    let n = s.unicode_len();
    let has_sign = n > 0 && (s.get_char(0) == '-' || s.get_char(0) == '+');
    let negative = n > 0 && s.get_char(0) == '-';
    let rest = if has_sign {
        s.substring_char(1, n)
    } else {
        s.substring_char(0, n)
    };
    assert(rest@ =~= if has_sign { s@.skip(1) } else { s@ });
    (has_sign, negative, rest)
}

/// The text before the first `c` and the text after it; without `c`, all of `s` and
/// nothing.
fn split_at_first(s: &str, c: char) -> (r: (bool, &str, &str))
    ensures
        r.0 == (first_index(s@, c) >= 0),
        r.1@ == if first_index(s@, c) < 0 { s@ } else { s@.take(first_index(s@, c)) },
        r.2@ == if first_index(s@, c) < 0 { Seq::<char>::empty() } else { s@.skip(
            first_index(s@, c) + 1,
        ) },
{
    let n = s.unicode_len();
    match find_char(s, c) {
        Some(i) => {
            let a = s.substring_char(0, i);
            let b = s.substring_char(i + 1, n);
            assert(b@ =~= s@.skip(i + 1));
            (true, a, b)
        },
        None => {
            let a = s.substring_char(0, n);
            let b = s.substring_char(n, n);
            assert(a@ =~= s@);
            assert(b@ =~= Seq::<char>::empty());
            (false, a, b)
        },
    }
}

/// Reads a floating-point amount such as `0.15`, `-1`, `.5` or `1e-2`; see
/// [`parse_decimal`] for the numeral and [`amount_fraction`] for its fraction.
pub fn parse_factor(s: &str) -> (r: Option<Factor>)
    ensures
        match parse_decimal(s@) {
            Some(v) => r matches Some(f) && f.numer() == v.0 && f.denom() == v.1,
            None => r is None,
        },
{
    let (_, negative, body) = split_sign(s);
    if eq_ignore_ascii_case(body, "inf") || eq_ignore_ascii_case(body, "infinity") {
        return Some(Factor::new(if negative { -1 } else { 1 }, 1));
    }
    if eq_ignore_ascii_case(body, "nan") {
        return Some(Factor::nan());
    }
    let (has_exp, mant, etext) = if find_char(body, 'e').is_some() {
        split_at_first(body, 'e')
    } else {
        split_at_first(body, 'E')
    };
    let (_, eneg, edigits) = split_sign(etext);
    let (_, whole, frac) = split_at_first(mant, '.');
    let wl = whole.unicode_len();
    let fl = frac.unicode_len();
    if (wl == 0 && fl == 0) || !only_digits(whole) || !only_digits(frac) {
        return None;
    }
    if has_exp && (edigits.unicode_len() < 1 || !only_digits(edigits)) {
        return None;
    }
    assert(has_exp || edigits@.len() == 0);
    Some(numeral_fraction(negative, whole, frac, eneg, edigits))
}

fn only_digits(s: &str) -> (r: bool)
    ensures
        r == all_digits(s@),
{
    let n = s.unicode_len();
    let mut i: usize = 0;
    while i < n
        invariant
            n == s@.len(),
            0 <= i <= n,
            forall|j: int| 0 <= j < i ==> is_digit(#[trigger] s@[j]),
        decreases n - i,
    {
        let c = s.get_char(i);
        if !('0' <= c && c <= '9') {
            return false;
        }
        i = i + 1;
    }
    true
}

// ---------------------------------------------------------------------------
// Expressions
// ---------------------------------------------------------------------------

/// For `name(args)`: `args`.
pub open spec fn call_args(t: Seq<char>, name: Seq<char>) -> Option<Seq<char>> {
    if t.len() >= name.len() + 2 && starts_with(t, name) && t[name.len() as int] == '('
        && t.last() == ')' {
        Some(t.subrange(name.len() + 1int, t.len() - 1))
    } else {
        None
    }
}

/// The expression that a slot's text denotes, or the text at fault.
///
/// After trimming: a text that starts with `#` is a literal; `lighten(..)`,
/// `darken(..)`, `brighten(..)` and `mix(..)` are calls; anything else is a reference.
pub open spec fn parse_expr(s: Seq<char>) -> Result<Expr, Seq<char>>
    decreases s.len(), 1int,
{
    let t = trim(s);
    if t.len() > 0 && t[0] == '#' {
        Ok(Expr::Literal(t))
    } else if call_args(t, "lighten"@) is Some {
        match parse_unary(call_args(t, "lighten"@)->0) {
            Ok(v) => Ok(Expr::Lighten(Box::new(v.0), v.1, v.2)),
            Err(m) => Err(m),
        }
    } else if call_args(t, "darken"@) is Some {
        match parse_unary(call_args(t, "darken"@)->0) {
            Ok(v) => Ok(Expr::Darken(Box::new(v.0), v.1, v.2)),
            Err(m) => Err(m),
        }
    } else if call_args(t, "brighten"@) is Some {
        match parse_unary(call_args(t, "brighten"@)->0) {
            Ok(v) => Ok(Expr::Brighten(Box::new(v.0), v.1, v.2)),
            Err(m) => Err(m),
        }
    } else if call_args(t, "mix"@) is Some {
        match parse_mix(call_args(t, "mix"@)->0) {
            Ok(v) => Ok(Expr::Mix(Box::new(v.0), Box::new(v.1), v.2, v.3)),
            Err(m) => Err(m),
        }
    } else {
        parse_reference(t)
    }
}

/// `inner, amount`, split at the last comma.
pub open spec fn parse_unary(args: Seq<char>) -> Result<(Expr, int, int), Seq<char>>
    decreases args.len(), 0int,
{
    let i = last_index(args, ',');
    if i < 0 || i >= args.len() {
        Err("expected 'color, factor': "@ + args)
    } else {
        match parse_expr(args.take(i)) {
            Err(m) => Err(m),
            Ok(inner) => {
                let ft = trim(args.skip(i + 1));
                match parse_decimal(ft) {
                    Some(v) => Ok((inner, v.0, v.1)),
                    None => Err("invalid factor: "@ + ft),
                }
            },
        }
    }
}

/// `first, second, factor`: the factor after the last comma, then the two colors split
/// at the last comma of what is left.
pub open spec fn parse_mix(args: Seq<char>) -> Result<(Expr, Expr, int, int), Seq<char>>
    decreases args.len(), 0int,
{
    let i = last_index(args, ',');
    if i < 0 || i >= args.len() {
        Err("expected 'color1, color2, factor': "@ + args)
    } else {
        let ft = trim(args.skip(i + 1));
        match parse_decimal(ft) {
            None => Err("invalid factor: "@ + ft),
            Some(v) => {
                let rest = args.take(i);
                let j = last_index(rest, ',');
                if j < 0 || j >= rest.len() {
                    Err("expected 'color1, color2, factor': "@ + args)
                } else {
                    match parse_expr(rest.take(j)) {
                        Err(m) => Err(m),
                        Ok(a) => match parse_expr(rest.skip(j + 1)) {
                            Err(m) => Err(m),
                            Ok(b) => Ok((a, b, v.0, v.1)),
                        },
                    }
                }
            },
        }
    }
}

/// `group.key`, where `ansi.bright` is a group name of its own.
pub open spec fn parse_reference(t: Seq<char>) -> Result<Expr, Seq<char>> {
    if starts_with(t, "ansi.bright."@) {
        Ok(Expr::Ref(Section::AnsiBright, t.skip("ansi.bright."@.len() as int)))
    } else {
        let i = first_index(t, '.');
        if i < 0 || i >= t.len() {
            Err(t)
        } else {
            match section_of(t.take(i)) {
                Some(sec) => Ok(Expr::Ref(sec, t.skip(i + 1))),
                None => Err("unknown section: "@ + t.take(i)),
            }
        }
    }
}

/// `prefix` followed by `text`.
fn message(prefix: &str, text: &str) -> (r: String)
    ensures
        r@ == prefix@ + text@,
{
    let mut m = String::from_str(prefix);
    m.append(text);
    m
}

/// `name(args)` gives `args`.
fn strip_fn_call<'a>(s: &'a str, name: &str) -> (r: Option<&'a str>)
    ensures
        match call_args(s@, name@) {
            Some(a) => r matches Some(x) && x@ == a,
            None => r is None,
        },
{
    let n = s.unicode_len();
    let m = name.unicode_len();
    if n < 2 || n - 2 < m {
        return None;
    }
    if !str_starts_with(s, name) {
        return None;
    }
    if s.get_char(m) != '(' || s.get_char(n - 1) != ')' {
        return None;
    }
    Some(s.substring_char(m + 1, n - 1))
}

/// Reads the text of one slot.
pub fn parse_color_expr(s: &str) -> (r: Result<ColorExpr, Error>)
    ensures
        match parse_expr(s@) {
            Ok(e) => r matches Ok(x) && x@ == e,
            Err(m) => r matches Err(err) && err@ == Fault::InvalidColorExpr(m),
        },
    decreases s@.len(), 1int,
{
    let t = trim_str(s);
    let n = t.unicode_len();
    if n > 0 && t.get_char(0) == '#' {
        return Ok(ColorExpr::Literal(t.to_owned()));
    }
    if let Some(args) = strip_fn_call(t, "lighten") {
        return match parse_unary_fn_args(args) {
            Ok((inner, f)) => Ok(ColorExpr::Lighten(Box::new(inner), f)),
            Err(e) => Err(e),
        };
    }
    if let Some(args) = strip_fn_call(t, "darken") {
        return match parse_unary_fn_args(args) {
            Ok((inner, f)) => Ok(ColorExpr::Darken(Box::new(inner), f)),
            Err(e) => Err(e),
        };
    }
    if let Some(args) = strip_fn_call(t, "brighten") {
        return match parse_unary_fn_args(args) {
            Ok((inner, f)) => Ok(ColorExpr::Brighten(Box::new(inner), f)),
            Err(e) => Err(e),
        };
    }
    if let Some(args) = strip_fn_call(t, "mix") {
        return match parse_mix_args(args) {
            Ok((a, b, f)) => Ok(ColorExpr::Mix(Box::new(a), Box::new(b), f)),
            Err(e) => Err(e),
        };
    }
    parse_ref(t)
}

fn parse_ref(t: &str) -> (r: Result<ColorExpr, Error>)
    ensures
        match parse_reference(t@) {
            Ok(e) => r matches Ok(x) && x@ == e,
            Err(m) => r matches Err(err) && err@ == Fault::InvalidColorExpr(m),
        },
{
    let n = t.unicode_len();
    if str_starts_with(t, "ansi.bright.") {
        let k = "ansi.bright.".unicode_len();
        let key = t.substring_char(k, n);
        return Ok(ColorExpr::Ref { section: Section::AnsiBright, key: key.to_owned() });
    }
    match find_char(t, '.') {
        None => Err(Error::InvalidColorExpr(t.to_owned())),
        Some(i) => {
            let head = t.substring_char(0, i);
            match Section::parse(head) {
                Ok(section) => {
                    let key = t.substring_char(i + 1, n);
                    Ok(ColorExpr::Ref { section, key: key.to_owned() })
                },
                Err(e) => Err(e),
            }
        },
    }
}

/// `inner, amount`.
fn parse_unary_fn_args(args: &str) -> (r: Result<(ColorExpr, Factor), Error>)
    ensures
        match parse_unary(args@) {
            Ok(v) => r matches Ok(x) && x.0@ == v.0 && x.1.numer() == v.1 && x.1.denom() == v.2,
            Err(m) => r matches Err(err) && err@ == Fault::InvalidColorExpr(m),
        },
    decreases args@.len(), 0int,
{
    let n = args.unicode_len();
    let i = match rfind_char(args, ',') {
        Some(i) => i,
        None => {
            return Err(Error::InvalidColorExpr(message("expected 'color, factor': ", args)));
        },
    };
    let inner = match parse_color_expr(args.substring_char(0, i)) {
        Ok(e) => e,
        Err(e) => {
            return Err(e);
        },
    };
    let ft = trim_str(args.substring_char(i + 1, n));
    match parse_factor(ft) {
        Some(f) => Ok((inner, f)),
        None => Err(Error::InvalidColorExpr(message("invalid factor: ", ft))),
    }
}

/// `first, second, factor`.
fn parse_mix_args(args: &str) -> (r: Result<(ColorExpr, ColorExpr, Factor), Error>)
    ensures
        match parse_mix(args@) {
            Ok(v) => r matches Ok(x) && x.0@ == v.0 && x.1@ == v.1 && x.2.numer() == v.2
                && x.2.denom() == v.3,
            Err(m) => r matches Err(err) && err@ == Fault::InvalidColorExpr(m),
        },
    decreases args@.len(), 0int,
{
    let n = args.unicode_len();
    let i = match rfind_char(args, ',') {
        Some(i) => i,
        None => {
            return Err(
                Error::InvalidColorExpr(message("expected 'color1, color2, factor': ", args)),
            );
        },
    };
    let ft = trim_str(args.substring_char(i + 1, n));
    let f = match parse_factor(ft) {
        Some(f) => f,
        None => {
            return Err(Error::InvalidColorExpr(message("invalid factor: ", ft)));
        },
    };
    let rest = args.substring_char(0, i);
    let j = match rfind_char(rest, ',') {
        Some(j) => j,
        None => {
            return Err(
                Error::InvalidColorExpr(message("expected 'color1, color2, factor': ", args)),
            );
        },
    };
    let a = match parse_color_expr(rest.substring_char(0, j)) {
        Ok(e) => e,
        Err(e) => {
            return Err(e);
        },
    };
    let b = match parse_color_expr(rest.substring_char(j + 1, i)) {
        Ok(e) => e,
        Err(e) => {
            return Err(e);
        },
    };
    Ok((a, b, f))
}

} // verus!
