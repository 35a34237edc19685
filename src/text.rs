//! Character classes, digit values and the helpers that build output text.

use vstd::prelude::*;

verus! {

/// The characters of `s`, one element each.
pub fn chars_of(s: &str) -> (r: Vec<char>)
    ensures
        r@ == s@,
{
    let mut r: Vec<char> = Vec::new();
    for c in it: s.chars()
        invariant
            r@ == it.seq().subrange(0, it.index() as int),
    {
        r.push(c);
    }
    r
}

/// Whether `a` and `b` hold the same characters.
pub fn same_text(a: &str, b: &str) -> (r: bool)
    ensures
        r == (a@ == b@),
{
    let x = chars_of(a);
    let y = chars_of(b);
    if x.len() != y.len() {
        return false;
    }
    let mut i: usize = 0;
    while i < x.len()
        invariant
            i <= x.len() == y.len(),
            x@ == a@,
            y@ == b@,
            forall|j: int| 0 <= j < i ==> x@[j] == y@[j],
        decreases x.len() - i,
    {
        if x[i] != y[i] {
            assert(a@[i as int] != b@[i as int]);
            return false;
        }
        i = i + 1;
    }
    assert(x@ =~= y@);
    true
}

/// Relies on `String::push`: the character is added at the end.
#[verifier::external_body]
pub(crate) fn push_char(out: &mut String, c: char)
    ensures
        final(out)@ == old(out)@.push(c),
{
    out.push(c);
}

/// Appends every character of `s` to `out`.
pub fn push_chars(out: &mut String, s: &Vec<char>)
    ensures
        final(out)@ == old(out)@ + s@,
{
    let ghost start = out@;
    let mut i: usize = 0;
    while i < s.len()
        invariant
            i <= s.len(),
            out@ == start + s@.subrange(0, i as int),
        decreases s.len() - i,
    {
        push_char(out, s[i]);
        i = i + 1;
        assert(s@.subrange(0, i as int) == s@.subrange(0, i - 1).push(s@[i - 1]));
    }
    assert(s@.subrange(0, s.len() as int) == s@);
}

/// Appends every character of `s` to `out`.
pub fn push_str(out: &mut String, s: &str)
    ensures
        final(out)@ == old(out)@ + s@,
{
    let cs = chars_of(s);
    push_chars(out, &cs);
}

/// The classes of ASCII characters that the input grammars are built from.
#[derive(Clone, Copy, PartialEq, Eq, Debug)]
pub enum CharClass {
    /// Tab, line feed, vertical tab, form feed, carriage return and space.
    Space,
    /// Letters, decimal digits and the underscore.
    Word,
    /// The printable characters other than space, `!` to `~`.
    Graph,
    /// Decimal digits.
    Digit,
    /// Decimal digits and the letters `a` to `f` in either case.
    HexDigit,
}

pub open spec fn is_dec_digit(c: char) -> bool {
    '0' <= c <= '9'
}

pub open spec fn is_hex_digit(c: char) -> bool {
    is_dec_digit(c) || ('a' <= c <= 'f') || ('A' <= c <= 'F')
}

pub open spec fn is_space(c: char) -> bool {
    c == ' ' || c == '\t' || c == '\n' || c == '\x0B' || c == '\x0C' || c == '\r'
}

pub open spec fn is_word(c: char) -> bool {
    is_dec_digit(c) || ('a' <= c <= 'z') || ('A' <= c <= 'Z') || c == '_'
}

pub open spec fn is_graph(c: char) -> bool {
    '!' <= c <= '~'
}

pub open spec fn in_class(c: char, k: CharClass) -> bool {
    match k {
        CharClass::Space => is_space(c),
        CharClass::Word => is_word(c),
        CharClass::Graph => is_graph(c),
        CharClass::Digit => is_dec_digit(c),
        CharClass::HexDigit => is_hex_digit(c),
    }
}

pub fn class_has(c: char, k: CharClass) -> (r: bool)
    ensures
        r == in_class(c, k),
{
    match k {
        CharClass::Space => c == ' ' || c == '\t' || c == '\n' || c == '\x0B' || c == '\x0C'
            || c == '\r',
        CharClass::Word => ('0' <= c && c <= '9') || ('a' <= c && c <= 'z') || ('A' <= c && c
            <= 'Z') || c == '_',
        CharClass::Graph => '!' <= c && c <= '~',
        CharClass::Digit => '0' <= c && c <= '9',
        CharClass::HexDigit => ('0' <= c && c <= '9') || ('a' <= c && c <= 'f') || ('A' <= c
            && c <= 'F'),
    }
}

/// Where the run of characters of class `k` that starts at `i` ends, looking no
/// further than `hi`.
pub open spec fn run_end(s: Seq<char>, i: int, hi: int, k: CharClass) -> int
    decreases hi - i,
{
    if i >= hi || !in_class(s[i], k) {
        i
    } else {
        run_end(s, i + 1, hi, k)
    }
}

pub proof fn lemma_run_end_bounds(s: Seq<char>, i: int, hi: int, k: CharClass)
    requires
        i <= hi,
    ensures
        i <= run_end(s, i, hi, k) <= hi,
        run_end(s, i, hi, k) < hi ==> !in_class(s[run_end(s, i, hi, k)], k),
        forall|j: int| i <= j < run_end(s, i, hi, k) ==> in_class(#[trigger] s[j], k),
    decreases hi - i,
{
    if i < hi && in_class(s[i], k) {
        lemma_run_end_bounds(s, i + 1, hi, k);
    }
}

/// Executable `run_end`.
pub fn skip_class(s: &Vec<char>, i: usize, hi: usize, k: CharClass) -> (r: usize)
    requires
        i <= hi <= s.len(),
    ensures
        r == run_end(s@, i as int, hi as int, k),
        i <= r <= hi,
{
    let mut j: usize = i;
    proof {
        lemma_run_end_bounds(s@, i as int, hi as int, k);
    }
    while j < hi && class_has(s[j], k)
        invariant
            i <= j <= hi <= s.len(),
            run_end(s@, j as int, hi as int, k) == run_end(s@, i as int, hi as int, k),
        decreases hi - j,
    {
        j = j + 1;
    }
    j
}

/// The value of a digit character, in any base up to sixteen.
pub open spec fn digit_value(c: char) -> int {
    if is_dec_digit(c) {
        c as int - '0' as int
    } else if 'a' <= c <= 'f' {
        c as int - 'a' as int + 10
    } else {
        c as int - 'A' as int + 10
    }
}

/// The number that the digits `s` write in base `base`, most significant first.
pub open spec fn digits_value(s: Seq<char>, base: int) -> int
    decreases s.len(),
{
    if s.len() == 0 {
        0
    } else {
        digits_value(s.drop_last(), base) * base + digit_value(s.last())
    }
}

/// The character that writes the digit `d`, upper case for ten and above.
pub open spec fn digit_char(d: int) -> char {
    if d == 0 { '0' } else if d == 1 { '1' } else if d == 2 { '2' } else if d == 3 { '3' }
    else if d == 4 { '4' } else if d == 5 { '5' } else if d == 6 { '6' } else if d == 7 { '7' }
    else if d == 8 { '8' } else if d == 9 { '9' } else if d == 10 { 'A' } else if d == 11 { 'B' }
    else if d == 12 { 'C' } else if d == 13 { 'D' } else if d == 14 { 'E' } else { 'F' }
}

/// The digits of `n` in base `base`, most significant first, without leading zeros
/// (zero is written `0`).
pub open spec fn nat_text(n: nat, base: nat) -> Seq<char>
    decreases n,
    via nat_text_decreases
{
    if base < 2 || n < base {
        seq![digit_char(n as int)]
    } else {
        nat_text(n / base, base).push(digit_char((n % base) as int))
    }
}

#[via_fn]
proof fn nat_text_decreases(n: nat, base: nat) {
    if !(base < 2 || n < base) {
        assert(n / base < n) by (nonlinear_arith)
            requires
                base >= 2,
                n >= base,
        ;
    }
}

proof fn lemma_digit_char(d: int)
    requires
        0 <= d < 16,
    ensures
        digit_value(digit_char(d)) == d,
        is_hex_digit(digit_char(d)),
{
}

/// Reading the digits of `n` back gives `n`; none of them is `x` or `-`.
pub proof fn lemma_nat_text(n: nat, base: nat)
    requires
        base == 10 || base == 16,
    ensures
        digits_value(nat_text(n, base), base as int) == n,
        nat_text(n, base).len() > 0,
        forall|i: int|
            0 <= i < nat_text(n, base).len() ==> is_hex_digit(#[trigger] nat_text(n, base)[i]),
    decreases n,
{
    if n < base {
        lemma_digit_char(n as int);
        let t = nat_text(n, base);
        assert(t == seq![digit_char(n as int)]);
        assert(t.drop_last() =~= Seq::<char>::empty());
        assert(digits_value(Seq::<char>::empty(), base as int) == 0);
        assert(digits_value(t, base as int) == 0 * (base as int) + digit_value(t.last()));
    } else {
        assert(n / base < n) by (nonlinear_arith)
            requires
                base >= 2,
                n >= base,
        ;
        lemma_nat_text(n / base, base);
        lemma_digit_char((n % base) as int);
        let t = nat_text(n, base);
        assert(t.drop_last() == nat_text(n / base, base));
        assert(t.last() == digit_char((n % base) as int));
        assert(digits_value(t, base as int) == (n / base) * (base as int) + (n % base));
        assert forall|i: int| 0 <= i < t.len() implies is_hex_digit(#[trigger] t[i]) by {
            if i < t.len() - 1 {
                assert(t[i] == nat_text(n / base, base)[i]);
            }
        }
        assert((n / base) * base + n % base == n) by (nonlinear_arith)
            requires
                base >= 2,
        ;
    }
}

/// An `i32` in decimal, with a leading `-` when it is negative.
pub open spec fn decimal_text(v: i32) -> Seq<char> {
    if v < 0 {
        seq!['-'] + nat_text((-v) as nat, 10)
    } else {
        nat_text(v as nat, 10)
    }
}

/// The magnitude of an `i32` in upper-case hexadecimal, without leading zeros.
pub open spec fn hex_text(v: i32) -> Seq<char> {
    if v < 0 {
        nat_text((-v) as nat, 16)
    } else {
        nat_text(v as nat, 16)
    }
}

fn digit_char_of(d: u64) -> (c: char)
    requires
        d < 16,
    ensures
        c == digit_char(d as int),
{
    if d == 0 { '0' } else if d == 1 { '1' } else if d == 2 { '2' } else if d == 3 { '3' }
    else if d == 4 { '4' } else if d == 5 { '5' } else if d == 6 { '6' } else if d == 7 { '7' }
    else if d == 8 { '8' } else if d == 9 { '9' } else if d == 10 { 'A' } else if d == 11 { 'B' }
    else if d == 12 { 'C' } else if d == 13 { 'D' } else if d == 14 { 'E' } else { 'F' }
}

fn push_nat(out: &mut String, n: u64, base: u64)
    requires
        2 <= base <= 16,
    ensures
        final(out)@ == old(out)@ + nat_text(n as nat, base as nat),
    decreases n,
{
    if n >= base {
        assert(n / base < n) by (nonlinear_arith)
            requires
                base >= 2,
                n >= base,
        ;
        push_nat(out, n / base, base);
    }
    push_char(out, digit_char_of(n % base));
    proof {
        if n < base {
            assert(n % base == n) by (nonlinear_arith)
                requires
                    n < base,
            ;
        }
    }
}

/// Appends `v` in decimal.
pub fn push_decimal(out: &mut String, v: i32)
    ensures
        final(out)@ == old(out)@ + decimal_text(v),
{
    if v < 0 {
        push_char(out, '-');
        let m: u64 = (0i64 - v as i64) as u64;
        push_nat(out, m, 10);
    } else {
        push_nat(out, v as u64, 10);
    }
}

/// Appends the magnitude of `v` in upper-case hexadecimal.
pub fn push_hex(out: &mut String, v: i32)
    ensures
        final(out)@ == old(out)@ + hex_text(v),
{
    let m: u64 = if v < 0 {
        (0i64 - v as i64) as u64
    } else {
        v as u64
    };
    push_nat(out, m, 16);
}

} // verus!
