//! The numeric literals that a constant may be given: decimal, hexadecimal
//! after `0x`, and one left shift of two decimal numbers.

use vstd::prelude::*;
use crate::text::{
    CharClass, in_class, run_end, lemma_run_end_bounds, skip_class, digit_value, digits_value,
    chars_of,
};
use crate::error::DeriveError;

verus! {

/// Every character of `s` is in class `k`.
pub open spec fn all_in(s: Seq<char>, k: CharClass) -> bool {
    forall|i: int| 0 <= i < s.len() ==> in_class(#[trigger] s[i], k)
}

/// A number read from digits, as an `i32` when it is one.
pub open spec fn as_i32(v: int) -> Option<i32> {
    if 0 <= v <= i32::MAX {
        Some(v as i32)
    } else {
        None
    }
}

/// `t` is `0x` followed by one or more hexadecimal digits.
pub open spec fn is_hex_form(t: Seq<char>) -> bool {
    t.len() > 2 && t[0] == '0' && t[1] == 'x' && all_in(t.skip(2), CharClass::HexDigit)
}

/// The two operands of `t` read as `<digits> <spaces> << <spaces> <digits>`.
pub open spec fn shift_operands(t: Seq<char>) -> Option<(Seq<char>, Seq<char>)> {
    let n = t.len() as int;
    let i = run_end(t, 0, n, CharClass::Digit);
    let j = run_end(t, i, n, CharClass::Space);
    if 0 < i && j < n && n - j >= 2 && t[j] == '<' && t[j + 1] == '<' {
        let k = run_end(t, j + 2, n, CharClass::Space);
        if k < n && all_in(t.subrange(k, n), CharClass::Digit) {
            Some((t.subrange(0, i), t.subrange(k, n)))
        } else {
            None
        }
    } else {
        None
    }
}

/// The value of the literal `t`, or `None` when `t` is not a literal.
///
/// A token of hexadecimal digits that is not `0x...` is read in base ten, so
/// `abc` and `12abc` are not literals. Each number read must fit in an `i32`;
/// a shift moves the bits of its left operand by fewer than 32 places, and the
/// bits that leave the word are lost.
pub open spec fn literal_value(t: Seq<char>) -> Option<i32> {
    if is_hex_form(t) {
        as_i32(digits_value(t.skip(2), 16))
    } else if t.len() > 0 && all_in(t, CharClass::HexDigit) {
        if all_in(t, CharClass::Digit) {
            as_i32(digits_value(t, 10))
        } else {
            None
        }
    } else {
        match shift_operands(t) {
            Some((a, b)) => {
                let l = digits_value(a, 10);
                let r = digits_value(b, 10);
                if l <= i32::MAX && r < 32 {
                    Some((l as i32) << (r as u32))
                } else {
                    None
                }
            },
            None => None,
        }
    }
}

proof fn lemma_digits_nonneg(s: Seq<char>, base: int)
    requires
        base >= 1,
        all_in(s, CharClass::HexDigit),
    ensures
        digits_value(s, base) >= 0,
    decreases s.len(),
{
    if s.len() > 0 {
        assert(in_class(s[s.len() - 1], CharClass::HexDigit));
        lemma_digits_nonneg(s.drop_last(), base);
        assert(digits_value(s.drop_last(), base) * base >= 0) by (nonlinear_arith)
            requires
                digits_value(s.drop_last(), base) >= 0,
                base >= 1,
        ;
    }
}

/// A longer run of digits never reads as a smaller number.
proof fn lemma_digits_grow(s: Seq<char>, i: int, j: int, base: int)
    requires
        0 <= i <= j <= s.len(),
        base >= 1,
        all_in(s, CharClass::HexDigit),
    ensures
        digits_value(s.subrange(0, i), base) <= digits_value(s.subrange(0, j), base),
    decreases j - i,
{
    if i < j {
        lemma_digits_grow(s, i, j - 1, base);
        let p = s.subrange(0, j - 1);
        assert(s.subrange(0, j).drop_last() == p);
        assert(in_class(s[j - 1], CharClass::HexDigit));
        assert(all_in(p, CharClass::HexDigit));
        lemma_digits_nonneg(p, base);
        let v = digits_value(p, base);
        assert(v * base >= v) by (nonlinear_arith)
            requires
                v >= 0,
                base >= 1,
        ;
    }
}

fn digit_of(c: char) -> (d: u64)
    requires
        in_class(c, CharClass::HexDigit),
    ensures
        d == digit_value(c),
        d < 16,
{
    if '0' <= c && c <= '9' {
        (c as u32 - '0' as u32) as u64
    } else if 'a' <= c && c <= 'f' {
        (c as u32 - 'a' as u32 + 10) as u64
    } else {
        (c as u32 - 'A' as u32 + 10) as u64
    }
}

/// Reads the digits `t[lo..]` in base `base`, as `i32::from_str_radix` does on
/// unsigned input: `None` when the number does not fit.
fn read_digits(t: &Vec<char>, lo: usize, base: u64) -> (r: Option<i32>)
    requires
        lo <= t.len(),
        base == 10 || base == 16,
        all_in(t@.subrange(lo as int, t.len() as int), CharClass::HexDigit),
        base == 10 ==> all_in(t@.subrange(lo as int, t.len() as int), CharClass::Digit),
    ensures
        r == as_i32(digits_value(t@.subrange(lo as int, t.len() as int), base as int)),
{
    let ghost s = t@.subrange(lo as int, t.len() as int);
    let mut acc: u64 = 0;
    let mut i: usize = lo;
    assert(s.subrange(0, 0) =~= Seq::<char>::empty());
    while i < t.len()
        invariant
            lo <= i <= t.len(),
            s == t@.subrange(lo as int, t.len() as int),
            base == 10 || base == 16,
            all_in(s, CharClass::HexDigit),
            acc == digits_value(s.subrange(0, i - lo), base as int),
            acc <= i32::MAX,
        decreases t.len() - i,
    {
        assert(in_class(s[i - lo], CharClass::HexDigit));
        let d = digit_of(t[i]);
        assert(s.subrange(0, i - lo + 1).drop_last() == s.subrange(0, i - lo));
        assert(acc * base <= 0x7fff_ffff * 16) by (nonlinear_arith)
            requires
                acc <= 0x7fff_ffff,
                base <= 16,
        ;
        let next: u64 = acc * base + d;
        if next > 0x7fff_ffff {
            proof {
                lemma_digits_grow(s, i - lo + 1, s.len() as int, base as int);
                assert(s.subrange(0, s.len() as int) == s);
            }
            return None;
        }
        acc = next;
        i = i + 1;
    }
    assert(s.subrange(0, s.len() as int) == s);
    Some(acc as i32)
}

/// The characters `s[lo..hi]`.
pub fn copy_range(s: &Vec<char>, lo: usize, hi: usize) -> (r: Vec<char>)
    requires
        lo <= hi <= s.len(),
    ensures
        r@ == s@.subrange(lo as int, hi as int),
{
    let mut r: Vec<char> = Vec::new();
    let mut i: usize = lo;
    while i < hi
        invariant
            lo <= i <= hi <= s.len(),
            r@ == s@.subrange(lo as int, i as int),
        decreases hi - i,
    {
        r.push(s[i]);
        i = i + 1;
    }
    r
}

/// Whether every character of `t[lo..]` is in class `k`.
fn all_of_class(t: &Vec<char>, lo: usize, k: CharClass) -> (b: bool)
    requires
        lo <= t.len(),
    ensures
        b == all_in(t@.subrange(lo as int, t.len() as int), k),
{
    let n = t.len();
    let e = skip_class(t, lo, n, k);
    proof {
        lemma_run_end_bounds(t@, lo as int, n as int, k);
        let s = t@.subrange(lo as int, n as int);
        if e < n {
            assert(!in_class(s[e - lo], k));
        } else {
            assert forall|i: int| 0 <= i < s.len() implies in_class(#[trigger] s[i], k) by {
                assert(s[i] == t@[lo + i]);
            }
        }
    }
    e == n
}

/// The value of the literal `t`; see `literal_value`.
pub fn eval_literal(t: &Vec<char>) -> (r: Option<i32>)
    ensures
        r == literal_value(t@),
{
    let n = t.len();
    if n > 2 && t[0] == '0' && t[1] == 'x' && all_of_class(t, 2, CharClass::HexDigit) {
        assert(t@.skip(2) == t@.subrange(2, n as int));
        return read_digits(t, 2, 16);
    }
    assert(t@.subrange(0, n as int) == t@);
    if n > 0 && all_of_class(t, 0, CharClass::HexDigit) {
        if all_of_class(t, 0, CharClass::Digit) {
            return read_digits(t, 0, 10);
        }
        return None;
    }
    let i = skip_class(t, 0, n, CharClass::Digit);
    let j = skip_class(t, i, n, CharClass::Space);
    if 0 < i && j < n && n - j >= 2 && t[j] == '<' && t[j + 1] == '<' {
        let k = skip_class(t, j + 2, n, CharClass::Space);
        if k < n && all_of_class(t, k, CharClass::Digit) {
            let a = copy_range(t, 0, i);
            let b = copy_range(t, k, n);
            proof {
                lemma_run_end_bounds(t@, 0, n as int, CharClass::Digit);
                assert(a@.subrange(0, i as int) == a@);
                assert(b@.subrange(0, b.len() as int) == b@);
                assert(all_in(a@.subrange(0, a.len() as int), CharClass::Digit));
                assert(all_in(a@, CharClass::HexDigit));
                assert(all_in(b@, CharClass::HexDigit));
                lemma_digits_nonneg(a@, 10);
                lemma_digits_nonneg(b@, 10);
            }
            let l = read_digits(&a, 0, 10);
            let r = read_digits(&b, 0, 10);
            match (l, r) {
                (Some(l), Some(r)) => {
                    if r < 32 {
                        return Some(l << (r as u32));
                    }
                    return None;
                },
                _ => {
                    return None;
                },
            }
        }
    }
    None
}

/// The value of the literal `s`; see `literal_value`. `MalformedLiteral`,
/// with `s`, when `s` is not a literal.
pub fn get_num(s: &str) -> (r: Result<i32, DeriveError>)
    ensures
        match literal_value(s@) {
            Some(v) => r == Ok::<i32, DeriveError>(v),
            None => r is Err && (r->Err_0 matches DeriveError::MalformedLiteral(t) && t@ == s@),
        },
{
    let t = chars_of(s);
    match eval_literal(&t) {
        Some(v) => Ok(v),
        None => Err(DeriveError::MalformedLiteral(s.to_owned())),
    }
}

} // verus!
