//! The constant extractor: finds `name [= value],` declarations or
//! `#define NAME VALUE` lines in a text and reads their values.

use vstd::prelude::*;
use crate::error::DeriveError;
use crate::literal::{copy_range, eval_literal, literal_value};
use crate::symbol::{
    CEnum, Sym, lemma_sort_by_value, lemma_sort_is_stable, sort_by_value, sort_symbols,
    sorted_by_value, sym, syms, with_value,
};
use crate::text::{
    CharClass, chars_of, lemma_run_end_bounds, push_chars, run_end, skip_class,
};

verus! {

/// The two input grammars.
#[derive(Clone, Copy, PartialEq, Eq, Debug)]
pub enum Dialect {
    /// Lines `name [= value],`, as in the body of a C enum; a constant without a
    /// value takes the one after the previous constant's.
    EnumStyle,
    /// Lines `#define NAME VALUE`; every constant has its value.
    DefineStyle,
}

/// A match of a grammar on one stretch of a line: where the name and the value
/// token lie in the text, and where the match ends.
pub struct Capture {
    pub name_lo: int,
    pub name_hi: int,
    pub value: Option<(int, int)>,
    pub end: int,
}

/// The first index at or after `p` that holds a line feed, or the text's length.
pub open spec fn line_end(s: Seq<char>, p: int) -> int
    decreases s.len() - p,
{
    if p >= s.len() || s[p] == '\n' {
        p
    } else {
        line_end(s, p + 1)
    }
}

/// The largest index in `(d, i)` that holds a comma, or -1.
pub open spec fn comma_before(s: Seq<char>, d: int, i: int) -> int
    decreases i - d,
{
    if i - 1 <= d {
        -1
    } else if s[i - 1] == ',' {
        i - 1
    } else {
        comma_before(s, d, i - 1)
    }
}

/// The enum-style grammar at `lo`, with the line ending at `hi`:
/// spaces, a name of word characters, optionally spaces, `=`, spaces and a
/// value of printable characters, then spaces and a comma. The value is the
/// longest stretch of printable characters after which the comma can follow.
pub open spec fn match_enum(s: Seq<char>, lo: int, hi: int) -> Option<Capture> {
    let a = run_end(s, lo, hi, CharClass::Space);
    let b = run_end(s, a, hi, CharClass::Word);
    let c = run_end(s, b, hi, CharClass::Space);
    let with_value: Option<Capture> = if c < hi && s[c] == '=' {
        let d = run_end(s, c + 1, hi, CharClass::Space);
        let g = run_end(s, d, hi, CharClass::Graph);
        let f = run_end(s, g, hi, CharClass::Space);
        let e = comma_before(s, d, g);
        if g > d && f < hi && s[f] == ',' {
            Some(Capture { name_lo: a, name_hi: b, value: Some((d, g)), end: f + 1 })
        } else if e > d {
            Some(Capture { name_lo: a, name_hi: b, value: Some((d, e)), end: e + 1 })
        } else {
            None
        }
    } else {
        None
    };
    if b == a {
        None
    } else if with_value is Some {
        with_value
    } else if c < hi && s[c] == ',' {
        Some(Capture { name_lo: a, name_hi: b, value: None, end: c + 1 })
    } else {
        None
    }
}

/// `s` holds `#define` at `lo`, before `hi`.
pub open spec fn define_at(s: Seq<char>, lo: int, hi: int) -> bool {
    &&& lo + 7 <= hi
    &&& s[lo] == '#'
    &&& s[lo + 1] == 'd'
    &&& s[lo + 2] == 'e'
    &&& s[lo + 3] == 'f'
    &&& s[lo + 4] == 'i'
    &&& s[lo + 5] == 'n'
    &&& s[lo + 6] == 'e'
}

/// The define-style grammar at `lo`: `#define`, spaces, a name of printable
/// characters, spaces, a value of printable characters.
pub open spec fn match_define(s: Seq<char>, lo: int, hi: int) -> Option<Capture> {
    let a = run_end(s, lo + 7, hi, CharClass::Space);
    let b = run_end(s, a, hi, CharClass::Graph);
    let c = run_end(s, b, hi, CharClass::Space);
    let d = run_end(s, c, hi, CharClass::Graph);
    if define_at(s, lo, hi) && a > lo + 7 && b > a && c > b && d > c {
        Some(Capture { name_lo: a, name_hi: b, value: Some((c, d)), end: d })
    } else {
        None
    }
}

pub open spec fn match_at(s: Seq<char>, dialect: Dialect, lo: int, hi: int) -> Option<Capture> {
    match dialect {
        Dialect::EnumStyle => match_enum(s, lo, hi),
        Dialect::DefineStyle => match_define(s, lo, hi),
    }
}

/// The value after `v`; there is none after the largest `i32`.
pub open spec fn next_value(v: i32) -> Option<i32> {
    if v == i32::MAX {
        None
    } else {
        Some((v + 1) as i32)
    }
}

/// Why a text yields no list of constants.
pub enum ScanFailure {
    /// This value token is not a literal.
    BadLiteral(Seq<char>),
    /// The constant of this name has no value and follows one of the largest.
    PastLargest(Seq<char>),
}

/// The error `e` reports the failure `f`.
pub open spec fn reports(e: DeriveError, f: ScanFailure) -> bool {
    match f {
        ScanFailure::BadLiteral(t) => e matches DeriveError::MalformedLiteral(x) && x@ == t,
        ScanFailure::PastLargest(n) => e matches DeriveError::ValueOverflow(x) && x@ == n,
    }
}

/// The value of a capture: its token read as a literal, or `next` when it has
/// none.
pub open spec fn capture_value(s: Seq<char>, m: Capture, next: Option<i32>) -> Result<
    i32,
    ScanFailure,
> {
    match m.value {
        Some((x, y)) => match literal_value(s.subrange(x, y)) {
            Some(v) => Ok(v),
            None => Err(ScanFailure::BadLiteral(s.subrange(x, y))),
        },
        None => match next {
            Some(n) => Ok(n),
            None => Err(ScanFailure::PastLargest(s.subrange(m.name_lo, m.name_hi))),
        },
    }
}

proof fn lemma_comma_before(s: Seq<char>, d: int, i: int)
    ensures
        comma_before(s, d, i) == -1 || (d < comma_before(s, d, i) < i && s[comma_before(
            s,
            d,
            i,
        )] == ','),
    decreases i - d,
{
    if i - 1 > d && s[i - 1] != ',' {
        lemma_comma_before(s, d, i - 1);
    }
}

/// A match lies inside the stretch it was tried on and consumes at least one
/// character.
pub proof fn lemma_match_bounds(s: Seq<char>, dialect: Dialect, lo: int, hi: int)
    requires
        0 <= lo <= hi <= s.len(),
    ensures
        match_at(s, dialect, lo, hi) matches Some(m) ==> {
            &&& lo <= m.name_lo < m.name_hi <= hi
            &&& lo < m.end <= hi
            &&& m.value matches Some((x, y)) ==> lo <= x < y <= hi
        },
{
    lemma_run_end_bounds(s, lo, hi, CharClass::Space);
    let a = run_end(s, lo, hi, CharClass::Space);
    lemma_run_end_bounds(s, a, hi, CharClass::Word);
    let b = run_end(s, a, hi, CharClass::Word);
    lemma_run_end_bounds(s, b, hi, CharClass::Space);
    let c = run_end(s, b, hi, CharClass::Space);
    if c < hi {
        lemma_run_end_bounds(s, c + 1, hi, CharClass::Space);
        let d = run_end(s, c + 1, hi, CharClass::Space);
        lemma_run_end_bounds(s, d, hi, CharClass::Graph);
        let g = run_end(s, d, hi, CharClass::Graph);
        lemma_run_end_bounds(s, g, hi, CharClass::Space);
        lemma_comma_before(s, d, g);
    }
    if lo + 7 <= hi {
        lemma_run_end_bounds(s, lo + 7, hi, CharClass::Space);
        let a2 = run_end(s, lo + 7, hi, CharClass::Space);
        lemma_run_end_bounds(s, a2, hi, CharClass::Graph);
        let b2 = run_end(s, a2, hi, CharClass::Graph);
        lemma_run_end_bounds(s, b2, hi, CharClass::Space);
        let c2 = run_end(s, b2, hi, CharClass::Space);
        lemma_run_end_bounds(s, c2, hi, CharClass::Graph);
    }
}

proof fn lemma_line_end(s: Seq<char>, p: int)
    requires
        0 <= p <= s.len(),
    ensures
        p <= line_end(s, p) <= s.len(),
        line_end(s, p) < s.len() ==> s[line_end(s, p)] == '\n',
    decreases s.len() - p,
{
    if p < s.len() && s[p] != '\n' {
        lemma_line_end(s, p + 1);
    }
}

#[via_fn]
proof fn scan_line_decreases(s: Seq<char>, dialect: Dialect, q: int, hi: int, next: Option<i32>) {
    if 0 <= q <= hi <= s.len() {
        lemma_match_bounds(s, dialect, q, hi);
    }
}

/// The constants found from `q` to the line's end `hi`: the grammar is tried at
/// `q`, and again where each match ends. With them comes the value that a
/// constant without one would take next.
pub open spec fn scan_line(s: Seq<char>, dialect: Dialect, q: int, hi: int, next: Option<i32>) -> Result<
    (Seq<Sym>, Option<i32>),
    ScanFailure,
>
    decreases hi - q,
    via scan_line_decreases
{
    if !(0 <= q <= hi <= s.len()) {
        Ok((Seq::empty(), next))
    } else {
        match match_at(s, dialect, q, hi) {
            None => Ok((Seq::empty(), next)),
            Some(m) => match capture_value(s, m, next) {
                Err(t) => Err(t),
                Ok(v) => match scan_line(s, dialect, m.end, hi, next_value(v)) {
                    Err(t) => Err(t),
                    Ok((rest, n)) => Ok((seq![(v, s.subrange(m.name_lo, m.name_hi))] + rest, n)),
                },
            },
        }
    }
}

#[via_fn]
proof fn scan_text_decreases(s: Seq<char>, dialect: Dialect, p: int, next: Option<i32>) {
    if 0 <= p <= s.len() {
        lemma_line_end(s, p);
    }
}

/// The constants of the lines that start at or after `p`, in text order; or the
/// first failure.
pub open spec fn scan_text(s: Seq<char>, dialect: Dialect, p: int, next: Option<i32>) -> Result<
    Seq<Sym>,
    ScanFailure,
>
    decreases s.len() + 1 - p,
    via scan_text_decreases
{
    if !(0 <= p <= s.len()) {
        Ok(Seq::empty())
    } else {
        let le = line_end(s, p);
        match scan_line(s, dialect, p, le, next) {
            Err(t) => Err(t),
            Ok((found, n)) => match scan_text(s, dialect, le + 1, n) {
                Err(t) => Err(t),
                Ok(rest) => Ok(found + rest),
            },
        }
    }
}

/// The constants of `text` in text order, the first without a value taking 0.
pub open spec fn extracted(text: Seq<char>, dialect: Dialect) -> Result<Seq<Sym>, ScanFailure> {
    scan_text(text, dialect, 0, Some(0))
}

/// The executable form of a capture.
pub type Found = (usize, usize, Option<(usize, usize)>, usize);

pub open spec fn capture_of(f: Found) -> Capture {
    Capture {
        name_lo: f.0 as int,
        name_hi: f.1 as int,
        value: match f.2 {
            Some((x, y)) => Some((x as int, y as int)),
            None => None,
        },
        end: f.3 as int,
    }
}

pub open spec fn found_matches(r: Option<Found>, m: Option<Capture>) -> bool {
    match r {
        Some(f) => m == Some(capture_of(f)),
        None => m is None,
    }
}

fn find_comma_before(s: &Vec<char>, d: usize, g: usize) -> (e: Option<usize>)
    requires
        d <= g <= s.len(),
    ensures
        match e {
            Some(e) => comma_before(s@, d as int, g as int) == e && d < e < g,
            None => comma_before(s@, d as int, g as int) == -1,
        },
{
    let mut i: usize = g;
    proof {
        lemma_comma_before(s@, d as int, g as int);
    }
    while i - d > 1 && s[i - 1] != ','
        invariant
            d <= i <= g <= s.len(),
            comma_before(s@, d as int, i as int) == comma_before(s@, d as int, g as int),
        decreases i,
    {
        i = i - 1;
    }
    if i - d > 1 {
        Some(i - 1)
    } else {
        None
    }
}

fn find_enum(s: &Vec<char>, lo: usize, hi: usize) -> (r: Option<Found>)
    requires
        lo <= hi <= s.len(),
    ensures
        found_matches(r, match_enum(s@, lo as int, hi as int)),
{
    let a = skip_class(s, lo, hi, CharClass::Space);
    let b = skip_class(s, a, hi, CharClass::Word);
    if b == a {
        return None;
    }
    let c = skip_class(s, b, hi, CharClass::Space);
    if c < hi && s[c] == '=' {
        let d = skip_class(s, c + 1, hi, CharClass::Space);
        let g = skip_class(s, d, hi, CharClass::Graph);
        let f = skip_class(s, g, hi, CharClass::Space);
        if g > d && f < hi && s[f] == ',' {
            return Some((a, b, Some((d, g)), f + 1));
        }
        match find_comma_before(s, d, g) {
            Some(e) => {
                return Some((a, b, Some((d, e)), e + 1));
            },
            None => {},
        }
    }
    if c < hi && s[c] == ',' {
        Some((a, b, None, c + 1))
    } else {
        None
    }
}

fn find_define(s: &Vec<char>, lo: usize, hi: usize) -> (r: Option<Found>)
    requires
        lo <= hi <= s.len(),
    ensures
        found_matches(r, match_define(s@, lo as int, hi as int)),
{
    if !(hi - lo >= 7 && s[lo] == '#' && s[lo + 1] == 'd' && s[lo + 2] == 'e' && s[lo + 3] == 'f'
        && s[lo + 4] == 'i' && s[lo + 5] == 'n' && s[lo + 6] == 'e') {
        return None;
    }
    let a = skip_class(s, lo + 7, hi, CharClass::Space);
    let b = skip_class(s, a, hi, CharClass::Graph);
    let c = skip_class(s, b, hi, CharClass::Space);
    let d = skip_class(s, c, hi, CharClass::Graph);
    if a > lo + 7 && b > a && c > b && d > c {
        Some((a, b, Some((c, d)), d))
    } else {
        None
    }
}

fn find_match(s: &Vec<char>, dialect: Dialect, lo: usize, hi: usize) -> (r: Option<Found>)
    requires
        lo <= hi <= s.len(),
    ensures
        found_matches(r, match_at(s@, dialect, lo as int, hi as int)),
{
    match dialect {
        Dialect::EnumStyle => find_enum(s, lo, hi),
        Dialect::DefineStyle => find_define(s, lo, hi),
    }
}

fn string_of(s: &Vec<char>, lo: usize, hi: usize) -> (r: String)
    requires
        lo <= hi <= s.len(),
    ensures
        r@ == s@.subrange(lo as int, hi as int),
{
    let mut r = String::new();
    let cs = copy_range(s, lo, hi);
    push_chars(&mut r, &cs);
    r
}

fn find_line_end(s: &Vec<char>, p: usize) -> (r: usize)
    requires
        p <= s.len(),
    ensures
        r == line_end(s@, p as int),
        p <= r <= s.len(),
{
    let mut i: usize = p;
    while i < s.len() && s[i] != '\n'
        invariant
            p <= i <= s.len(),
            line_end(s@, i as int) == line_end(s@, p as int),
        decreases s.len() - i,
    {
        i = i + 1;
    }
    i
}

/// Appends the constants of `s[q..hi]` to `out`; see `scan_line`.
fn scan_line_into(
    s: &Vec<char>,
    dialect: Dialect,
    q: usize,
    hi: usize,
    next: Option<i32>,
    out: &mut Vec<CEnum>,
) -> (r: Result<Option<i32>, DeriveError>)
    requires
        q <= hi <= s.len(),
    ensures
        match scan_line(s@, dialect, q as int, hi as int, next) {
            Ok((found, n)) => r == Ok::<Option<i32>, DeriveError>(n) && syms(final(out)@) == syms(
                old(out)@,
            ) + found,
            Err(f) => r is Err && reports(r->Err_0, f),
        },
    decreases hi - q,
{
    proof {
        lemma_match_bounds(s@, dialect, q as int, hi as int);
    }
    match find_match(s, dialect, q, hi) {
        None => Ok(next),
        Some((a, b, value, end)) => {
            let v: i32 = match value {
                Some((x, y)) => {
                    let tok = copy_range(s, x, y);
                    match eval_literal(&tok) {
                        Some(v) => v,
                        None => {
                            return Err(DeriveError::MalformedLiteral(string_of(s, x, y)));
                        },
                    }
                },
                None => match next {
                    Some(n) => n,
                    None => {
                        return Err(DeriveError::ValueOverflow(string_of(s, a, b)));
                    },
                },
            };
            let name = string_of(s, a, b);
            let ghost before = out@;
            let c = CEnum { i: v, s: name };
            let ghost cs = sym(c);
            out.push(c);
            assert(syms(out@) =~= syms(before).push(cs));
            let nv: Option<i32> = if v == i32::MAX {
                None
            } else {
                Some(v + 1)
            };
            let r = scan_line_into(s, dialect, end, hi, nv, out);
            proof {
                match scan_line(s@, dialect, end as int, hi as int, nv) {
                    Ok((rest, n)) => {
                        assert(syms(before).push(cs) + rest =~= syms(before) + (seq![cs]
                            + rest));
                    },
                    Err(_) => {},
                }
            }
            r
        },
    }
}

pub open spec fn after_prefix(pre: Seq<Sym>, r: Result<Seq<Sym>, ScanFailure>) -> Result<
    Seq<Sym>,
    ScanFailure,
> {
    match r {
        Ok(x) => Ok(pre + x),
        Err(t) => Err(t),
    }
}

/// The constants of `text` in text order; `MalformedLiteral` with the first
/// value token that is not a literal, or `ValueOverflow` with the first
/// constant that has no value and follows one of the largest value. The
/// result is a function of the text and the dialect alone.
pub fn extract(text: &str, dialect: Dialect) -> (r: Result<Vec<CEnum>, DeriveError>)
    ensures
        match extracted(text@, dialect) {
            Ok(m) => r is Ok && syms(r->Ok_0@) == m,
            Err(f) => r is Err && reports(r->Err_0, f),
        },
{
    let s = chars_of(text);
    let n = s.len();
    let mut out: Vec<CEnum> = Vec::new();
    let mut p: usize = 0;
    let mut next: Option<i32> = Some(0);
    assert(syms(out@) =~= Seq::<Sym>::empty());
    assert(after_prefix(Seq::empty(), scan_text(s@, dialect, 0, Some(0))) =~= scan_text(
        s@,
        dialect,
        0,
        Some(0),
    )) by {
        match scan_text(s@, dialect, 0, Some(0)) {
            Ok(x) => {
                assert(Seq::<Sym>::empty() + x =~= x);
            },
            Err(_) => {},
        }
    }
    loop
        invariant
            n == s.len(),
            s@ == text@,
            p <= n,
            extracted(s@, dialect) == after_prefix(syms(out@), scan_text(s@, dialect, p as int, next)),
        decreases n - p,
    {
        let le = find_line_end(&s, p);
        let ghost before = syms(out@);
        match scan_line_into(&s, dialect, p, le, next, &mut out) {
            Err(e) => {
                return Err(e);
            },
            Ok(nx) => {
                proof {
                    match scan_line(s@, dialect, p as int, le as int, next) {
                        Ok((found, _)) => {
                            match scan_text(s@, dialect, le + 1, nx) {
                                Ok(rest) => {
                                    assert(before + (found + rest) =~= syms(out@) + rest);
                                },
                                Err(_) => {},
                            }
                        },
                        Err(_) => {},
                    }
                }
                if le == n {
                    assert(syms(out@) + Seq::<Sym>::empty() =~= syms(out@));
                    return Ok(out);
                }
                next = nx;
                p = le + 1;
            },
        }
    }
}

/// The dialect that the flag `parse_enum` names.
pub open spec fn dialect_for(parse_enum: bool) -> Dialect {
    if parse_enum {
        Dialect::EnumStyle
    } else {
        Dialect::DefineStyle
    }
}

/// The constants of `text`, enum-style when `parse_enum` holds and
/// define-style otherwise, ordered by value (equal values in text order).
pub fn parse_buff(text: &str, parse_enum: bool) -> (r: Result<Vec<CEnum>, DeriveError>)
    ensures
        match extracted(text@, dialect_for(parse_enum)) {
            Ok(m) => r is Ok && syms(r->Ok_0@) == sort_by_value(m) && sorted_by_value(
                syms(r->Ok_0@),
            ) && syms(r->Ok_0@).to_multiset() == m.to_multiset() && forall|x: i32|
                with_value(syms(r->Ok_0@), x) == with_value(m, x),
            Err(f) => r is Err && reports(r->Err_0, f),
        },
{
    let dialect = if parse_enum {
        Dialect::EnumStyle
    } else {
        Dialect::DefineStyle
    };
    match extract(text, dialect) {
        Ok(v) => {
            proof {
                lemma_sort_by_value(syms(v@));
                assert forall|x: i32| with_value(sort_by_value(syms(v@)), x) == with_value(
                    syms(v@),
                    x,
                ) by {
                    lemma_sort_is_stable(syms(v@), x);
                }
            }
            Ok(sort_symbols(v))
        },
        Err(e) => Err(e),
    }
}

} // verus!
