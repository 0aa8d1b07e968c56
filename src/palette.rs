//! Palette documents and their phased resolution into literal colors.
use crate::color::{
    darken_spec, hex_text, lighten_spec, brighten_spec, mix_spec, parse_hex, strip_hash, Rgb,
};
use crate::error::{Error, Fault};
use crate::expr::{section_name, ColorExpr, Expr, Section};
use crate::text::str_eq;
use crate::Variant;
use vstd::prelude::*;

verus! {

/// A table from keys to hex colors, as its mathematical value.
pub type Entries = Seq<(Seq<char>, Seq<char>)>;

pub open spec fn entries_view(t: Seq<(String, String)>) -> Entries {
    t.map_values(|p: (String, String)| (p.0@, p.1@))
}

/// The value stored under the first occurrence of `key`.
pub open spec fn lookup(t: Entries, key: Seq<char>) -> Option<Seq<char>>
    decreases t.len(),
{
    if t.len() == 0 {
        None
    } else if t[0].0 == key {
        Some(t[0].1)
    } else {
        lookup(t.drop_first(), key)
    }
}

proof fn lemma_lookup(t: Entries, key: Seq<char>, i: int)
    requires
        -1 <= i < t.len(),
        i >= 0 ==> t[i].0 == key,
        forall|j: int| 0 <= j < t.len() && (i < 0 || j < i) ==> (#[trigger] t[j]).0 != key,
    ensures
        lookup(t, key) == if i < 0 { None } else { Some(t[i].1) },
    decreases t.len(),
{
    if t.len() > 0 && i != 0 {
        let u = t.drop_first();
        assert forall|j: int| 0 <= j < u.len() && (i < 0 || j < i - 1) implies (
        #[trigger] u[j]).0 != key by {
            assert(u[j] == t[j + 1]);
        }
        lemma_lookup(u, key, if i < 0 { -1 } else { i - 1 });
    }
}

/// The tables that references can reach in one phase of resolution.
pub ghost struct Scope {
    pub colors: Entries,
    pub base: Entries,
    pub ansi: Option<Entries>,
    pub ansi_bright: Option<Entries>,
}

pub open spec fn scope_lookup(sc: Scope, section: Section, key: Seq<char>) -> Option<Seq<char>> {
    match section {
        Section::Colors => lookup(sc.colors, key),
        Section::Base => lookup(sc.base, key),
        Section::Ansi => match sc.ansi {
            Some(t) => lookup(t, key),
            None => None,
        },
        Section::AnsiBright => match sc.ansi_bright {
            Some(t) => lookup(t, key),
            None => None,
        },
    }
}

/// The dotted name of a reference, as errors report it.
pub open spec fn ref_name(section: Section, key: Seq<char>) -> Seq<char> {
    section_name(section) + "."@ + key
}

/// Evaluates an expression to hex text: references are looked up in the scope, and
/// each transform evaluates its operands, reads them as colors and writes its result
/// as `#RRGGBB`.
pub open spec fn eval(e: Expr, sc: Scope) -> Result<Seq<char>, Fault>
    decreases e,
{
    match e {
        Expr::Literal(h) => Ok(h),
        Expr::Ref(section, key) => match scope_lookup(sc, section, key) {
            Some(v) => Ok(v),
            None => Err(Fault::UnresolvedRef(ref_name(section, key))),
        },
        Expr::Lighten(inner, n, d) => match eval(*inner, sc) {
            Err(f) => Err(f),
            Ok(h) => match parse_hex(h) {
                None => Err(Fault::InvalidHex(strip_hash(h))),
                Some(c) => Ok(hex_text(lighten_spec(c, n, d))),
            },
        },
        Expr::Darken(inner, n, d) => match eval(*inner, sc) {
            Err(f) => Err(f),
            Ok(h) => match parse_hex(h) {
                None => Err(Fault::InvalidHex(strip_hash(h))),
                Some(c) => Ok(hex_text(darken_spec(c, n, d))),
            },
        },
        Expr::Brighten(inner, n, d) => match eval(*inner, sc) {
            Err(f) => Err(f),
            Ok(h) => match parse_hex(h) {
                None => Err(Fault::InvalidHex(strip_hash(h))),
                Some(c) => Ok(hex_text(brighten_spec(c, n, d))),
            },
        },
        Expr::Mix(a, b, n, d) => match eval(*a, sc) {
            Err(f) => Err(f),
            Ok(ha) => match parse_hex(ha) {
                None => Err(Fault::InvalidHex(strip_hash(ha))),
                Some(ca) => match eval(*b, sc) {
                    Err(f) => Err(f),
                    Ok(hb) => match parse_hex(hb) {
                        None => Err(Fault::InvalidHex(strip_hash(hb))),
                        Some(cb) => Ok(hex_text(mix_spec(ca, cb, n, d))),
                    },
                },
            },
        },
    }
}

/// Evaluates expressions in order; the first fault stops the whole list.
pub open spec fn eval_all(es: Seq<Expr>, sc: Scope) -> Result<Seq<Seq<char>>, Fault>
    decreases es.len(),
{
    if es.len() == 0 {
        Ok(Seq::empty())
    } else {
        match eval_all(es.drop_last(), sc) {
            Err(f) => Err(f),
            Ok(vs) => match eval(es.last(), sc) {
                Err(f) => Err(f),
                Ok(v) => Ok(vs.push(v)),
            },
        }
    }
}

pub open spec fn text_result(r: Result<String, Error>) -> Result<Seq<char>, Fault> {
    match r {
        Ok(s) => Ok(s@),
        Err(e) => Err(e@),
    }
}

/// Looks `key` up in a table.
fn table_get(t: &Vec<(String, String)>, key: &str) -> (r: Option<String>)
    ensures
        match lookup(entries_view(t@), key@) {
            Some(v) => r matches Some(s) && s@ == v,
            None => r is None,
        },
{
    let ghost tv = entries_view(t@);
    let mut i: usize = 0;
    while i < t.len()
        invariant
            tv == entries_view(t@),
            0 <= i <= t.len(),
            forall|j: int| 0 <= j < i ==> (#[trigger] tv[j]).0 != key@,
        decreases t.len() - i,
    {
        if str_eq(t[i].0.as_str(), key) {
            proof {
                lemma_lookup(tv, key@, i as int);
            }
            return Some(t[i].1.clone());
        }
        i = i + 1;
    }
    proof {
        lemma_lookup(tv, key@, -1);
    }
    None
}

/// Reference lookup for one phase of resolution: the base groups always, the ANSI
/// groups once they are resolved.
pub struct Resolver {
    colors: Vec<(String, String)>,
    base: Vec<(String, String)>,
    ansi: Option<Vec<(String, String)>>,
    ansi_bright: Option<Vec<(String, String)>>,
}

impl View for Resolver {
    type V = Scope;

    closed spec fn view(&self) -> Scope {
        Scope {
            colors: entries_view(self.colors@),
            base: entries_view(self.base@),
            ansi: match self.ansi {
                Some(t) => Some(entries_view(t@)),
                None => None,
            },
            ansi_bright: match self.ansi_bright {
                Some(t) => Some(entries_view(t@)),
                None => None,
            },
        }
    }
}

impl Resolver {
    /// The hex color of `section.key`, where this phase can reach it.
    pub fn resolve_ref(&self, section: Section, key: &str) -> (r: Result<String, Error>)
        ensures
            text_result(r) == match scope_lookup(self@, section, key@) {
                Some(v) => Ok(v),
                None => Err(Fault::UnresolvedRef(ref_name(section, key@))),
            },
    {
        let found = match section {
            Section::Colors => table_get(&self.colors, key),
            Section::Base => table_get(&self.base, key),
            Section::Ansi => match &self.ansi {
                Some(t) => table_get(t, key),
                None => None,
            },
            Section::AnsiBright => match &self.ansi_bright {
                Some(t) => table_get(t, key),
                None => None,
            },
        };
        match found {
            Some(v) => Ok(v),
            None => {
                let mut name = String::from_str(section.as_str());
                name.append(".");
                name.append(key);
                Err(Error::UnresolvedRef(name))
            },
        }
    }
}

/// Evaluates an expression to `#RRGGBB` text against the groups in scope.
pub fn resolve_expr(resolver: &Resolver, expr: &ColorExpr) -> (r: Result<String, Error>)
    ensures
        text_result(r) == eval(expr@, resolver@),
    decreases expr,
{
    match expr {
        ColorExpr::Literal(hex) => Ok(hex.clone()),
        ColorExpr::Ref { section, key } => resolver.resolve_ref(*section, key.as_str()),
        ColorExpr::Lighten(inner, factor) => {
            let hex = match resolve_expr(resolver, inner) {
                Ok(h) => h,
                Err(e) => {
                    return Err(e);
                },
            };
            match Rgb::parse(hex.as_str()) {
                Ok(c) => Ok(c.lighten(*factor).to_hex()),
                Err(e) => Err(e),
            }
        },
        ColorExpr::Darken(inner, factor) => {
            let hex = match resolve_expr(resolver, inner) {
                Ok(h) => h,
                Err(e) => {
                    return Err(e);
                },
            };
            match Rgb::parse(hex.as_str()) {
                Ok(c) => Ok(c.darken(*factor).to_hex()),
                Err(e) => Err(e),
            }
        },
        ColorExpr::Brighten(inner, amount) => {
            let hex = match resolve_expr(resolver, inner) {
                Ok(h) => h,
                Err(e) => {
                    return Err(e);
                },
            };
            match Rgb::parse(hex.as_str()) {
                Ok(c) => Ok(c.brighten(*amount).to_hex()),
                Err(e) => Err(e),
            }
        },
        ColorExpr::Mix(first, second, factor) => {
            let h1 = match resolve_expr(resolver, first) {
                Ok(h) => h,
                Err(e) => {
                    return Err(e);
                },
            };
            let c1 = match Rgb::parse(h1.as_str()) {
                Ok(c) => c,
                Err(e) => {
                    return Err(e);
                },
            };
            let h2 = match resolve_expr(resolver, second) {
                Ok(h) => h,
                Err(e) => {
                    return Err(e);
                },
            };
            let c2 = match Rgb::parse(h2.as_str()) {
                Ok(c) => c,
                Err(e) => {
                    return Err(e);
                },
            };
            Ok(c1.mix(c2, *factor).to_hex())
        },
    }
}

pub open spec fn exprs_view(es: Seq<&ColorExpr>) -> Seq<Expr> {
    es.map_values(|e: &ColorExpr| e@)
}

pub open spec fn strings_view(vs: Seq<String>) -> Seq<Seq<char>> {
    vs.map_values(|s: String| s@)
}

/// Resolves a list of expressions in order, stopping at the first error.
fn resolve_each(resolver: &Resolver, exprs: &Vec<&ColorExpr>) -> (r: Result<Vec<String>, Error>)
    ensures
        match eval_all(exprs_view(exprs@), resolver@) {
            Ok(vs) => r matches Ok(out) && strings_view(out@) == vs && out@.len() == exprs@.len(),
            Err(f) => r matches Err(e) && e@ == f,
        },
{
    let ghost es = exprs_view(exprs@);
    let mut out: Vec<String> = Vec::new();
    let mut i: usize = 0;
    assert(es.take(0) =~= Seq::<Expr>::empty());
    assert(strings_view(out@) =~= Seq::<Seq<char>>::empty());
    while i < exprs.len()
        invariant
            es == exprs_view(exprs@),
            0 <= i <= exprs.len(),
            out@.len() == i,
            eval_all(es.take(i as int), resolver@) == Ok::<Seq<Seq<char>>, Fault>(strings_view(out@)),
        decreases exprs.len() - i,
    {
        proof {
            assert(es.take(i + 1).drop_last() =~= es.take(i as int));
            assert(es.take(i + 1).last() == exprs@[i as int]@);
        }
        match resolve_expr(resolver, exprs[i]) {
            Ok(v) => {
                let ghost before = out@;
                let ghost text = v@;
                out.push(v);
                assert(strings_view(out@) =~= strings_view(before).push(text));
            },
            Err(e) => {
                proof {
                    lemma_eval_all_fault_stays(es, i as int + 1, resolver@);
                }
                return Err(e);
            },
        }
        i = i + 1;
    }
    assert(es.take(i as int) =~= es);
    Ok(out)
}

/// Once a prefix of the list fails, the whole list fails with the same fault.
proof fn lemma_eval_all_fault_stays(es: Seq<Expr>, k: int, sc: Scope)
    requires
        0 <= k <= es.len(),
        eval_all(es.take(k), sc) is Err,
    ensures
        eval_all(es, sc) == eval_all(es.take(k), sc),
    decreases es.len() - k,
{
    if k < es.len() {
        assert(es.take(k + 1).drop_last() =~= es.take(k));
        lemma_eval_all_fault_stays(es, k + 1, sc);
    } else {
        assert(es.take(k) =~= es);
    }
}

/// The glow colors of the lantern.
#[derive(Debug, Clone)]
pub struct Lantern {
    pub ember: String,
    pub near: String,
    pub mid: String,
    pub far: String,
}

/// Named palette colors; `lantern` is a nested group whose keys are reached as
/// `lantern.<name>`.
#[derive(Debug, Clone)]
pub struct Colors {
    pub lantern: Lantern,
    pub life: String,
    pub night: String,
    pub rain: String,
    pub muted: String,
}

/// Background and foreground.
#[derive(Debug, Clone)]
pub struct Base {
    pub background: String,
    pub foreground: String,
}

/// The lookup table of the `colors` group, nested keys flattened with a dot.
pub open spec fn colors_entries(c: Colors) -> Entries {
    seq![
        ("lantern.ember"@, c.lantern.ember@),
        ("lantern.near"@, c.lantern.near@),
        ("lantern.mid"@, c.lantern.mid@),
        ("lantern.far"@, c.lantern.far@),
        ("life"@, c.life@),
        ("night"@, c.night@),
        ("rain"@, c.rain@),
        ("muted"@, c.muted@),
    ]
}

/// The lookup table of the `base` group.
pub open spec fn base_entries(b: Base) -> Entries {
    seq![("background"@, b.background@), ("foreground"@, b.foreground@)]
}

/// The lookup table of an ANSI group resolved to `vs`, in key order.
pub open spec fn ansi_entries(vs: Seq<Seq<char>>) -> Entries {
    seq![
        ("black"@, vs[0]),
        ("red"@, vs[1]),
        ("green"@, vs[2]),
        ("yellow"@, vs[3]),
        ("blue"@, vs[4]),
        ("magenta"@, vs[5]),
        ("cyan"@, vs[6]),
        ("white"@, vs[7]),
    ]
}

fn colors_table(c: &Colors) -> (r: Vec<(String, String)>)
    ensures
        entries_view(r@) == colors_entries(*c),
{
    let r = vec![
        (String::from_str("lantern.ember"), c.lantern.ember.clone()),
        (String::from_str("lantern.near"), c.lantern.near.clone()),
        (String::from_str("lantern.mid"), c.lantern.mid.clone()),
        (String::from_str("lantern.far"), c.lantern.far.clone()),
        (String::from_str("life"), c.life.clone()),
        (String::from_str("night"), c.night.clone()),
        (String::from_str("rain"), c.rain.clone()),
        (String::from_str("muted"), c.muted.clone()),
    ];
    assert(entries_view(r@) =~= colors_entries(*c));
    r
}

fn base_table(b: &Base) -> (r: Vec<(String, String)>)
    ensures
        entries_view(r@) == base_entries(*b),
{
    let r = vec![
        (String::from_str("background"), b.background.clone()),
        (String::from_str("foreground"), b.foreground.clone()),
    ];
    assert(entries_view(r@) =~= base_entries(*b));
    r
}

/// Resolved layer colors, as `#RRGGBB` text.
#[derive(Debug, Clone)]
pub struct Layers {
    pub base: String,
    pub surface: String,
    pub sunken: String,
    pub raised: String,
    pub border: String,
    pub inset: String,
}

impl Layers {
    /// The slots in declaration order.
    pub open spec fn values(&self) -> Seq<Seq<char>> {
        seq![self.base@, self.surface@, self.sunken@, self.raised@, self.border@, self.inset@]
    }
}

/// Layer colors as the document writes them, before resolution.
#[derive(Debug)]
pub struct RawLayers {
    pub base: ColorExpr,
    pub surface: ColorExpr,
    pub sunken: ColorExpr,
    pub raised: ColorExpr,
    pub border: ColorExpr,
    pub inset: ColorExpr,
}

impl RawLayers {
    /// The slots in declaration order.
    pub open spec fn exprs(&self) -> Seq<Expr> {
        seq![self.base@, self.surface@, self.sunken@, self.raised@, self.border@, self.inset@]
    }

    /// Resolves every slot in declaration order; the first error is returned.
    #[verifier::rlimit(40)]
    pub fn resolve(&self, resolver: &Resolver) -> (r: Result<Layers, Error>)
        ensures
            match eval_all(self.exprs(), resolver@) {
                Ok(vs) => r matches Ok(g) && g.values() == vs,
                Err(f) => r matches Err(e) && e@ == f,
            },
    {
        let es = vec![
            &self.base,
            &self.surface,
            &self.sunken,
            &self.raised,
            &self.border,
            &self.inset,
        ];
        assert(exprs_view(es@) =~= self.exprs());
        let vs = match resolve_each(resolver, &es) {
            Ok(vs) => vs,
            Err(e) => {
                return Err(e);
            },
        };
        let g = Layers {
            base: vs[0].clone(),
            surface: vs[1].clone(),
            sunken: vs[2].clone(),
            raised: vs[3].clone(),
            border: vs[4].clone(),
            inset: vs[5].clone(),
        };
        assert(g.values() =~= strings_view(vs@));
        Ok(g)
    }
}

/// Resolved state colors, as `#RRGGBB` text.
#[derive(Debug, Clone)]
pub struct State {
    pub selection_bg: String,
    pub selection_fg: String,
    pub match_bg: String,
    pub cursor: String,
    pub cursor_text: String,
    pub info: String,
    pub hint: String,
    pub warning: String,
    pub error: String,
    pub active_bg: String,
    pub diff_added: String,
    pub diff_removed: String,
    pub diff_changed: String,
}

impl State {
    /// The slots in declaration order.
    pub open spec fn values(&self) -> Seq<Seq<char>> {
        seq![self.selection_bg@, self.selection_fg@, self.match_bg@, self.cursor@, self.cursor_text@, self.info@, self.hint@, self.warning@, self.error@, self.active_bg@, self.diff_added@, self.diff_removed@, self.diff_changed@]
    }
}

/// State colors as the document writes them, before resolution.
#[derive(Debug)]
pub struct RawState {
    pub selection_bg: ColorExpr,
    pub selection_fg: ColorExpr,
    pub match_bg: ColorExpr,
    pub cursor: ColorExpr,
    pub cursor_text: ColorExpr,
    pub info: ColorExpr,
    pub hint: ColorExpr,
    pub warning: ColorExpr,
    pub error: ColorExpr,
    pub active_bg: ColorExpr,
    pub diff_added: ColorExpr,
    pub diff_removed: ColorExpr,
    pub diff_changed: ColorExpr,
}

impl RawState {
    /// The slots in declaration order.
    pub open spec fn exprs(&self) -> Seq<Expr> {
        seq![self.selection_bg@, self.selection_fg@, self.match_bg@, self.cursor@, self.cursor_text@, self.info@, self.hint@, self.warning@, self.error@, self.active_bg@, self.diff_added@, self.diff_removed@, self.diff_changed@]
    }

    /// Resolves every slot in declaration order; the first error is returned.
    #[verifier::rlimit(40)]
    pub fn resolve(&self, resolver: &Resolver) -> (r: Result<State, Error>)
        ensures
            match eval_all(self.exprs(), resolver@) {
                Ok(vs) => r matches Ok(g) && g.values() == vs,
                Err(f) => r matches Err(e) && e@ == f,
            },
    {
        let es = vec![
            &self.selection_bg,
            &self.selection_fg,
            &self.match_bg,
            &self.cursor,
            &self.cursor_text,
            &self.info,
            &self.hint,
            &self.warning,
            &self.error,
            &self.active_bg,
            &self.diff_added,
            &self.diff_removed,
            &self.diff_changed,
        ];
        assert(exprs_view(es@) =~= self.exprs());
        let vs = match resolve_each(resolver, &es) {
            Ok(vs) => vs,
            Err(e) => {
                return Err(e);
            },
        };
        let g = State {
            selection_bg: vs[0].clone(),
            selection_fg: vs[1].clone(),
            match_bg: vs[2].clone(),
            cursor: vs[3].clone(),
            cursor_text: vs[4].clone(),
            info: vs[5].clone(),
            hint: vs[6].clone(),
            warning: vs[7].clone(),
            error: vs[8].clone(),
            active_bg: vs[9].clone(),
            diff_added: vs[10].clone(),
            diff_removed: vs[11].clone(),
            diff_changed: vs[12].clone(),
        };
        assert(g.values() =~= strings_view(vs@));
        Ok(g)
    }
}

/// Resolved syntax and meaning colors, as `#RRGGBB` text.
#[derive(Debug, Clone)]
pub struct Semantic {
    pub text: String,
    pub comment: String,
    pub string: String,
    pub keyword: String,
    pub number: String,
    pub constant: String,
    pub type_: String,
    pub function: String,
    pub variable: String,
    pub success: String,
    pub path: String,
    pub macro_: String,
    pub escape: String,
    pub regexp: String,
    pub link: String,
}

impl Semantic {
    /// The slots in declaration order.
    pub open spec fn values(&self) -> Seq<Seq<char>> {
        seq![self.text@, self.comment@, self.string@, self.keyword@, self.number@, self.constant@, self.type_@, self.function@, self.variable@, self.success@, self.path@, self.macro_@, self.escape@, self.regexp@, self.link@]
    }
}

/// Syntax and meaning colors as the document writes them, before resolution.
#[derive(Debug)]
pub struct RawSemantic {
    pub text: ColorExpr,
    pub comment: ColorExpr,
    pub string: ColorExpr,
    pub keyword: ColorExpr,
    pub number: ColorExpr,
    pub constant: ColorExpr,
    pub type_: ColorExpr,
    pub function: ColorExpr,
    pub variable: ColorExpr,
    pub success: ColorExpr,
    pub path: ColorExpr,
    pub macro_: ColorExpr,
    pub escape: ColorExpr,
    pub regexp: ColorExpr,
    pub link: ColorExpr,
}

impl RawSemantic {
    /// The slots in declaration order.
    pub open spec fn exprs(&self) -> Seq<Expr> {
        seq![self.text@, self.comment@, self.string@, self.keyword@, self.number@, self.constant@, self.type_@, self.function@, self.variable@, self.success@, self.path@, self.macro_@, self.escape@, self.regexp@, self.link@]
    }

    /// Resolves every slot in declaration order; the first error is returned.
    #[verifier::rlimit(40)]
    pub fn resolve(&self, resolver: &Resolver) -> (r: Result<Semantic, Error>)
        ensures
            match eval_all(self.exprs(), resolver@) {
                Ok(vs) => r matches Ok(g) && g.values() == vs,
                Err(f) => r matches Err(e) && e@ == f,
            },
    {
        let es = vec![
            &self.text,
            &self.comment,
            &self.string,
            &self.keyword,
            &self.number,
            &self.constant,
            &self.type_,
            &self.function,
            &self.variable,
            &self.success,
            &self.path,
            &self.macro_,
            &self.escape,
            &self.regexp,
            &self.link,
        ];
        assert(exprs_view(es@) =~= self.exprs());
        let vs = match resolve_each(resolver, &es) {
            Ok(vs) => vs,
            Err(e) => {
                return Err(e);
            },
        };
        let g = Semantic {
            text: vs[0].clone(),
            comment: vs[1].clone(),
            string: vs[2].clone(),
            keyword: vs[3].clone(),
            number: vs[4].clone(),
            constant: vs[5].clone(),
            type_: vs[6].clone(),
            function: vs[7].clone(),
            variable: vs[8].clone(),
            success: vs[9].clone(),
            path: vs[10].clone(),
            macro_: vs[11].clone(),
            escape: vs[12].clone(),
            regexp: vs[13].clone(),
            link: vs[14].clone(),
        };
        assert(g.values() =~= strings_view(vs@));
        Ok(g)
    }
}

/// Resolved the eight ANSI colors, as `#RRGGBB` text.
#[derive(Debug, Clone)]
pub struct Ansi {
    pub black: String,
    pub red: String,
    pub green: String,
    pub yellow: String,
    pub blue: String,
    pub magenta: String,
    pub cyan: String,
    pub white: String,
}

impl Ansi {
    /// The slots in declaration order.
    pub open spec fn values(&self) -> Seq<Seq<char>> {
        seq![self.black@, self.red@, self.green@, self.yellow@, self.blue@, self.magenta@, self.cyan@, self.white@]
    }
}

/// The eight ANSI colors as the document writes them, before resolution.
#[derive(Debug)]
pub struct RawAnsiColors {
    pub black: ColorExpr,
    pub red: ColorExpr,
    pub green: ColorExpr,
    pub yellow: ColorExpr,
    pub blue: ColorExpr,
    pub magenta: ColorExpr,
    pub cyan: ColorExpr,
    pub white: ColorExpr,
}

impl RawAnsiColors {
    /// The slots in declaration order.
    pub open spec fn exprs(&self) -> Seq<Expr> {
        seq![self.black@, self.red@, self.green@, self.yellow@, self.blue@, self.magenta@, self.cyan@, self.white@]
    }

    /// Resolves every slot in declaration order; the first error is returned.
    #[verifier::rlimit(40)]
    pub fn resolve(&self, resolver: &Resolver) -> (r: Result<Ansi, Error>)
        ensures
            match eval_all(self.exprs(), resolver@) {
                Ok(vs) => r matches Ok(g) && g.values() == vs,
                Err(f) => r matches Err(e) && e@ == f,
            },
    {
        let es = vec![
            &self.black,
            &self.red,
            &self.green,
            &self.yellow,
            &self.blue,
            &self.magenta,
            &self.cyan,
            &self.white,
        ];
        assert(exprs_view(es@) =~= self.exprs());
        let vs = match resolve_each(resolver, &es) {
            Ok(vs) => vs,
            Err(e) => {
                return Err(e);
            },
        };
        let g = Ansi {
            black: vs[0].clone(),
            red: vs[1].clone(),
            green: vs[2].clone(),
            yellow: vs[3].clone(),
            blue: vs[4].clone(),
            magenta: vs[5].clone(),
            cyan: vs[6].clone(),
            white: vs[7].clone(),
        };
        assert(g.values() =~= strings_view(vs@));
        Ok(g)
    }
}

impl Ansi {
    /// The group as a lookup table.
    pub fn to_map(&self) -> (r: Vec<(String, String)>)
        ensures
            entries_view(r@) == ansi_entries(self.values()),
    {
        let r = vec![
            (String::from_str("black"), self.black.clone()),
            (String::from_str("red"), self.red.clone()),
            (String::from_str("green"), self.green.clone()),
            (String::from_str("yellow"), self.yellow.clone()),
            (String::from_str("blue"), self.blue.clone()),
            (String::from_str("magenta"), self.magenta.clone()),
            (String::from_str("cyan"), self.cyan.clone()),
            (String::from_str("white"), self.white.clone()),
        ];
        assert(entries_view(r@) =~= ansi_entries(self.values()));
        r
    }
}

/// The ANSI group and its bright sub-group, before resolution.
#[derive(Debug)]
pub struct RawAnsi {
    pub base: RawAnsiColors,
    pub bright: RawAnsiColors,
}

/// A palette document whose expressions are parsed but not yet resolved.
#[derive(Debug)]
pub struct RawPalette {
    pub name: String,
    pub description: String,
    pub colors: Colors,
    pub base: Base,
    pub layers: RawLayers,
    pub state: RawState,
    pub semantic: RawSemantic,
    pub ansi: RawAnsi,
}

/// A palette in which every slot holds a literal color.
#[derive(Debug)]
pub struct Palette {
    pub variant: Variant,
    pub name: String,
    pub description: String,
    pub colors: Colors,
    pub base: Base,
    pub layers: Layers,
    pub state: State,
    pub semantic: Semantic,
    pub ansi: Ansi,
    pub ansi_bright: Ansi,
}

/// What the resolution of a document yields for each group that it evaluates.
pub ghost struct Resolution {
    pub ansi: Seq<Seq<char>>,
    pub ansi_bright: Seq<Seq<char>>,
    pub layers: Seq<Seq<char>>,
    pub state: Seq<Seq<char>>,
    pub semantic: Seq<Seq<char>>,
}

/// Phase one: the ANSI group sees the base groups only.
pub open spec fn ansi_scope(raw: RawPalette) -> Scope {
    Scope {
        colors: colors_entries(raw.colors),
        base: base_entries(raw.base),
        ansi: None,
        ansi_bright: None,
    }
}

/// Phase two: the bright ANSI group sees the base groups and the resolved ANSI group.
pub open spec fn bright_scope(raw: RawPalette, ansi: Seq<Seq<char>>) -> Scope {
    Scope {
        colors: colors_entries(raw.colors),
        base: base_entries(raw.base),
        ansi: Some(ansi_entries(ansi)),
        ansi_bright: None,
    }
}

/// Phase three: layers, state and semantic colors see every earlier group.
pub open spec fn full_scope(raw: RawPalette, ansi: Seq<Seq<char>>, bright: Seq<Seq<char>>) -> Scope {
    Scope {
        colors: colors_entries(raw.colors),
        base: base_entries(raw.base),
        ansi: Some(ansi_entries(ansi)),
        ansi_bright: Some(ansi_entries(bright)),
    }
}

/// Resolution of a whole document in phase order: ANSI, bright ANSI, then layers,
/// state and semantic colors. The first fault in that order is the result.
pub open spec fn resolve_document(raw: RawPalette) -> Result<Resolution, Fault> {
    match eval_all(raw.ansi.base.exprs(), ansi_scope(raw)) {
        Err(f) => Err(f),
        Ok(a) => match eval_all(raw.ansi.bright.exprs(), bright_scope(raw, a)) {
            Err(f) => Err(f),
            Ok(b) => match eval_all(raw.layers.exprs(), full_scope(raw, a, b)) {
                Err(f) => Err(f),
                Ok(l) => match eval_all(raw.state.exprs(), full_scope(raw, a, b)) {
                    Err(f) => Err(f),
                    Ok(st) => match eval_all(raw.semantic.exprs(), full_scope(raw, a, b)) {
                        Err(f) => Err(f),
                        Ok(se) => Ok(
                            Resolution { ansi: a, ansi_bright: b, layers: l, state: st, semantic: se },
                        ),
                    },
                },
            },
        },
    }
}

/// The resolver of the last phase, with the two ANSI groups it resolved on the way.
pub struct PhasedResolver {
    pub resolver: Resolver,
    pub ansi: Ansi,
    pub ansi_bright: Ansi,
}

impl Resolver {
    /// Runs the first two phases of `raw` and returns the resolver for the last one.
    pub fn new(raw: &RawPalette) -> (r: Result<PhasedResolver, Error>)
        ensures
            match eval_all(raw.ansi.base.exprs(), ansi_scope(*raw)) {
                Err(f) => r matches Err(e) && e@ == f,
                Ok(a) => match eval_all(raw.ansi.bright.exprs(), bright_scope(*raw, a)) {
                    Err(f) => r matches Err(e) && e@ == f,
                    Ok(b) => r matches Ok(p) && p.resolver@ == full_scope(*raw, a, b)
                        && p.ansi.values() == a && p.ansi_bright.values() == b,
                },
            },
    {
        let colors = colors_table(&raw.colors);
        let base = base_table(&raw.base);
        let first = Resolver { colors, base, ansi: None, ansi_bright: None };
        assert(first@ == ansi_scope(*raw));
        let ansi = match raw.ansi.base.resolve(&first) {
            Ok(a) => a,
            Err(e) => {
                return Err(e);
            },
        };
        let second = Resolver {
            colors: first.colors,
            base: first.base,
            ansi: Some(ansi.to_map()),
            ansi_bright: None,
        };
        assert(second@ == bright_scope(*raw, ansi.values()));
        let ansi_bright = match raw.ansi.bright.resolve(&second) {
            Ok(b) => b,
            Err(e) => {
                return Err(e);
            },
        };
        let resolver = Resolver {
            colors: second.colors,
            base: second.base,
            ansi: second.ansi,
            ansi_bright: Some(ansi_bright.to_map()),
        };
        assert(resolver@ == full_scope(*raw, ansi.values(), ansi_bright.values()));
        Ok(PhasedResolver { resolver, ansi, ansi_bright })
    }
}

/// `p` is what resolving `raw` for `variant` gives: metadata and literal groups carried
/// over, each evaluated group equal to its resolution.
pub open spec fn is_resolution_of(p: Palette, raw: RawPalette, variant: Variant) -> bool {
    &&& resolve_document(raw) matches Ok(g)
    &&& p.variant == variant
    &&& p.name == raw.name
    &&& p.description == raw.description
    &&& p.colors == raw.colors
    &&& p.base == raw.base
    &&& p.ansi.values() == g.ansi
    &&& p.ansi_bright.values() == g.ansi_bright
    &&& p.layers.values() == g.layers
    &&& p.state.values() == g.state
    &&& p.semantic.values() == g.semantic
}

impl RawPalette {
    /// Resolves every group of the document in phase order. Metadata and the literal
    /// base groups are carried over as they are.
    pub fn resolve(self, variant: Variant) -> (r: Result<Palette, Error>)
        ensures
            match resolve_document(self) {
                Ok(_) => r matches Ok(p) && is_resolution_of(p, self, variant),
                Err(f) => r matches Err(e) && e@ == f,
            },
    {
        let phased = match Resolver::new(&self) {
            Ok(p) => p,
            Err(e) => {
                return Err(e);
            },
        };
        let layers = match self.layers.resolve(&phased.resolver) {
            Ok(v) => v,
            Err(e) => {
                return Err(e);
            },
        };
        let state = match self.state.resolve(&phased.resolver) {
            Ok(v) => v,
            Err(e) => {
                return Err(e);
            },
        };
        let semantic = match self.semantic.resolve(&phased.resolver) {
            Ok(v) => v,
            Err(e) => {
                return Err(e);
            },
        };
        Ok(Palette {
            variant,
            name: self.name,
            description: self.description,
            colors: self.colors,
            base: self.base,
            layers,
            state,
            semantic,
            ansi: phased.ansi,
            ansi_bright: phased.ansi_bright,
        })
    }
}

/// Before the last phase no reference to the bright ANSI group resolves, and in the
/// first phase no reference to the ANSI group does: each fails naming `group.key`.
pub proof fn lemma_later_groups_unreachable(raw: RawPalette, ansi: Seq<Seq<char>>, key: Seq<char>)
    ensures
        eval(Expr::Ref(Section::AnsiBright, key), ansi_scope(raw)) == Err::<Seq<char>, Fault>(
            Fault::UnresolvedRef(ref_name(Section::AnsiBright, key)),
        ),
        eval(Expr::Ref(Section::AnsiBright, key), bright_scope(raw, ansi)) == Err::<Seq<char>, Fault>(
            Fault::UnresolvedRef(ref_name(Section::AnsiBright, key)),
        ),
        eval(Expr::Ref(Section::Ansi, key), ansi_scope(raw)) == Err::<Seq<char>, Fault>(
            Fault::UnresolvedRef(ref_name(Section::Ansi, key)),
        ),
{
}

proof fn lemma_eval_all_ok(es: Seq<Expr>, sc: Scope)
    requires
        eval_all(es, sc) is Ok,
    ensures
        eval_all(es, sc)->Ok_0.len() == es.len(),
        forall|i: int|
            0 <= i < es.len() ==> eval(#[trigger] es[i], sc) == Ok::<Seq<char>, Fault>(
                eval_all(es, sc)->Ok_0[i],
            ),
    decreases es.len(),
{
    if es.len() > 0 {
        let t = es.drop_last();
        lemma_eval_all_ok(t, sc);
        assert forall|i: int| 0 <= i < es.len() implies eval(#[trigger] es[i], sc) == Ok::<
            Seq<char>,
            Fault,
        >(eval_all(es, sc)->Ok_0[i]) by {
            if i < es.len() - 1 {
                assert(es[i] == t[i]);
            }
        }
    }
}

proof fn lemma_eval_all_first_fault(es: Seq<Expr>, sc: Scope, i: int)
    requires
        0 <= i < es.len(),
        forall|j: int| 0 <= j < i ==> eval(#[trigger] es[j], sc) is Ok,
        eval(es[i], sc) is Err,
    ensures
        eval_all(es, sc) == Err::<Seq<Seq<char>>, Fault>(eval(es[i], sc)->Err_0),
    decreases es.len(),
{
    let t = es.drop_last();
    if i < es.len() - 1 {
        assert forall|j: int| 0 <= j < i implies eval(#[trigger] t[j], sc) is Ok by {
            assert(t[j] == es[j]);
        }
        assert(t[i] == es[i]);
        lemma_eval_all_first_fault(t, sc, i);
    } else {
        lemma_eval_all_all_ok(t, sc);
    }
}

proof fn lemma_eval_all_all_ok(es: Seq<Expr>, sc: Scope)
    requires
        forall|j: int| 0 <= j < es.len() ==> eval(#[trigger] es[j], sc) is Ok,
    ensures
        eval_all(es, sc) is Ok,
    decreases es.len(),
{
    if es.len() > 0 {
        let t = es.drop_last();
        assert forall|j: int| 0 <= j < t.len() implies eval(#[trigger] t[j], sc) is Ok by {
            assert(t[j] == es[j]);
        }
        lemma_eval_all_all_ok(t, sc);
        assert(eval(es[es.len() - 1], sc) is Ok);
    }
}

/// A semantic slot that references a slot of the `colors` group resolves to that slot's
/// literal text.
pub proof fn lemma_semantic_reference_to_colors(
    raw: RawPalette,
    p: Palette,
    variant: Variant,
    i: int,
    key: Seq<char>,
)
    requires
        is_resolution_of(p, raw, variant),
        0 <= i < raw.semantic.exprs().len(),
        raw.semantic.exprs()[i] == Expr::Ref(Section::Colors, key),
    ensures
        lookup(colors_entries(raw.colors), key) == Some(p.semantic.values()[i]),
{
    let a = eval_all(raw.ansi.base.exprs(), ansi_scope(raw))->Ok_0;
    let b = eval_all(raw.ansi.bright.exprs(), bright_scope(raw, a))->Ok_0;
    lemma_eval_all_ok(raw.semantic.exprs(), full_scope(raw, a, b));
}

/// The semantic groups are resolved after the bright ANSI group: a semantic slot that
/// references bright slot `key` gets that slot's resolved color.
pub proof fn lemma_semantic_reference_to_bright(
    raw: RawPalette,
    p: Palette,
    variant: Variant,
    i: int,
    key: Seq<char>,
)
    requires
        is_resolution_of(p, raw, variant),
        0 <= i < raw.semantic.exprs().len(),
        raw.semantic.exprs()[i] == Expr::Ref(Section::AnsiBright, key),
    ensures
        lookup(ansi_entries(p.ansi_bright.values()), key) == Some(p.semantic.values()[i]),
{
    let a = eval_all(raw.ansi.base.exprs(), ansi_scope(raw))->Ok_0;
    let b = eval_all(raw.ansi.bright.exprs(), bright_scope(raw, a))->Ok_0;
    lemma_eval_all_ok(raw.semantic.exprs(), full_scope(raw, a, b));
}

/// Evaluating `e` meets the reference `ansi.bright.key` before anything else that can
/// fail: `e` is that reference, or a transform whose first operand does so.
pub open spec fn leads_with_bright(e: Expr, key: Seq<char>) -> bool
    decreases e,
{
    match e {
        Expr::Literal(_) => false,
        Expr::Ref(section, k) => section == Section::AnsiBright && k == key,
        Expr::Lighten(inner, _, _) => leads_with_bright(*inner, key),
        Expr::Darken(inner, _, _) => leads_with_bright(*inner, key),
        Expr::Brighten(inner, _, _) => leads_with_bright(*inner, key),
        Expr::Mix(first, _, _, _) => leads_with_bright(*first, key),
    }
}

proof fn lemma_leads_with_bright(e: Expr, key: Seq<char>, sc: Scope)
    requires
        leads_with_bright(e, key),
        sc.ansi_bright is None,
    ensures
        eval(e, sc) == Err::<Seq<char>, Fault>(
            Fault::UnresolvedRef(ref_name(Section::AnsiBright, key)),
        ),
    decreases e,
{
    match e {
        Expr::Lighten(inner, _, _) => lemma_leads_with_bright(*inner, key, sc),
        Expr::Darken(inner, _, _) => lemma_leads_with_bright(*inner, key, sc),
        Expr::Brighten(inner, _, _) => lemma_leads_with_bright(*inner, key, sc),
        Expr::Mix(first, _, _, _) => lemma_leads_with_bright(*first, key, sc),
        _ => {},
    }
}

/// The ANSI group is resolved before the bright group: when an ANSI slot references the
/// bright group, directly or as the first operand of transforms, and every earlier ANSI
/// slot resolves, the document fails with an unresolved reference naming
/// `ansi.bright.key`.
pub proof fn lemma_ansi_reference_to_bright_fails(raw: RawPalette, i: int, key: Seq<char>)
    requires
        0 <= i < raw.ansi.base.exprs().len(),
        leads_with_bright(raw.ansi.base.exprs()[i], key),
        forall|j: int|
            0 <= j < i ==> eval(#[trigger] raw.ansi.base.exprs()[j], ansi_scope(raw)) is Ok,
    ensures
        resolve_document(raw) == Err::<Resolution, Fault>(
            Fault::UnresolvedRef(ref_name(Section::AnsiBright, key)),
        ),
{
    lemma_leads_with_bright(raw.ansi.base.exprs()[i], key, ansi_scope(raw));
    lemma_eval_all_first_fault(raw.ansi.base.exprs(), ansi_scope(raw), i);
}

/// The keyword slot, when it references a slot of the `colors` group, holds that slot's
/// literal text once the document is resolved.
pub proof fn lemma_keyword_reference_to_colors(
    raw: RawPalette,
    p: Palette,
    variant: Variant,
    key: Seq<char>,
)
    requires
        is_resolution_of(p, raw, variant),
        raw.semantic.keyword@ == Expr::Ref(Section::Colors, key),
    ensures
        lookup(colors_entries(raw.colors), key) == Some(p.semantic.keyword@),
{
    assert(raw.semantic.exprs()[3] == raw.semantic.keyword@);
    lemma_semantic_reference_to_colors(raw, p, variant, 3, key);
}

/// The regexp slot, when it references `ansi.bright.green`, holds the resolved bright
/// green.
pub proof fn lemma_regexp_reference_to_bright_green(raw: RawPalette, p: Palette, variant: Variant)
    requires
        is_resolution_of(p, raw, variant),
        raw.semantic.regexp@ == Expr::Ref(Section::AnsiBright, "green"@),
    ensures
        p.semantic.regexp@ == p.ansi_bright.green@,
{
    assert(raw.semantic.exprs()[13] == raw.semantic.regexp@);
    lemma_semantic_reference_to_bright(raw, p, variant, 13, "green"@);
    lemma_lookup_green(p.ansi_bright.values());
}

proof fn lemma_lookup_green(vs: Seq<Seq<char>>)
    requires
        vs.len() == 8,
    ensures
        lookup(ansi_entries(vs), "green"@) == Some(vs[2]),
{
    reveal_strlit("black");
    reveal_strlit("red");
    reveal_strlit("green");
    let t = ansi_entries(vs);
    assert(t[0].0 == "black"@);
    assert(t[1].0 == "red"@);
    assert(t[2].0 == "green"@);
    assert("black"@[0] != "green"@[0]);
    assert("red"@.len() != "green"@.len());
    assert(t[0].0 != "green"@);
    assert(t[1].0 != "green"@);
    lemma_lookup(t, "green"@, 2);
}

} // verus!
