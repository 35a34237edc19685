//! What the generated implementations compute when they run: each `match`
//! takes its first arm whose pattern fits, in table order. These models state
//! the round trips that the emitted code promises, and let them be run here.

use vstd::prelude::*;
use vstd::arithmetic::power2::{pow2, lemma_pow2_unfold, lemma2_to64};
use crate::symbol::{CEnum, Sym, sym, syms};
use crate::text::{push_char, push_str, same_text};

verus! {

/// The name that `Display` writes for the member `member`: the text of the
/// first arm whose pattern is that member.
pub open spec fn displayed_from(t: Seq<Sym>, member: Seq<char>, j: int) -> Option<Seq<char>>
    decreases t.len() - j,
{
    if j < 0 || j >= t.len() {
        None
    } else if t[j].1 == member {
        Some(t[j].1)
    } else {
        displayed_from(t, member, j + 1)
    }
}

pub open spec fn displayed(t: Seq<Sym>, member: Seq<char>) -> Option<Seq<char>> {
    displayed_from(t, member, 0)
}

/// The member that `from_str` yields for `text`: that of the first arm whose
/// quoted pattern is `text`; `None` for the catch-all arm.
pub open spec fn parsed_from(t: Seq<Sym>, text: Seq<char>, j: int) -> Option<Seq<char>>
    decreases t.len() - j,
{
    if j < 0 || j >= t.len() {
        None
    } else if t[j].1 == text {
        Some(t[j].1)
    } else {
        parsed_from(t, text, j + 1)
    }
}

pub open spec fn parsed(t: Seq<Sym>, text: Seq<char>) -> Option<Seq<char>> {
    parsed_from(t, text, 0)
}

/// The constant whose arm `from_i64(n)` or `from_u64(n)` takes first, if any.
/// An arm's literal, decimal or hexadecimal, stands for the constant's value
/// (`lemma_literal_text_value`).
pub open spec fn from_number_from(t: Seq<Sym>, n: int, j: int) -> Option<Sym>
    decreases t.len() - j,
{
    if j < 0 || j >= t.len() {
        None
    } else if t[j].0 == n {
        Some(t[j])
    } else {
        from_number_from(t, n, j + 1)
    }
}

pub open spec fn from_number(t: Seq<Sym>, n: int) -> Option<Sym> {
    from_number_from(t, n, 0)
}

proof fn lemma_displayed_from(t: Seq<Sym>, member: Seq<char>, j: int, i: int)
    requires
        0 <= j <= i < t.len(),
        t[i].1 == member,
    ensures
        displayed_from(t, member, j) == Some(member),
        parsed_from(t, member, j) == Some(member),
    decreases i - j,
{
    if t[j].1 != member {
        lemma_displayed_from(t, member, j + 1, i);
    }
}

/// Parsing the text that `Display` writes for a member gives that member back.
pub proof fn lemma_display_then_parse(t: Seq<Sym>, i: int)
    requires
        0 <= i < t.len(),
    ensures
        displayed(t, t[i].1) == Some(t[i].1),
        parsed(t, displayed(t, t[i].1)->Some_0) == Some(t[i].1),
{
    lemma_displayed_from(t, t[i].1, 0, i);
}

proof fn lemma_from_number_found(t: Seq<Sym>, j: int, i: int)
    requires
        0 <= j <= i < t.len(),
        forall|k: int| j <= k < i ==> (#[trigger] t[k]).0 != t[i].0,
    ensures
        from_number_from(t, t[i].0 as int, j) == Some(t[i]),
    decreases i - j,
{
    if j < i {
        assert(t[j].0 != t[i].0);
        lemma_from_number_found(t, j + 1, i);
    }
}

proof fn lemma_from_number_some(t: Seq<Sym>, j: int, i: int)
    requires
        0 <= j <= i < t.len(),
    ensures
        from_number_from(t, t[i].0 as int, j) matches Some(c) && c.0 == t[i].0,
    decreases i - j,
{
    if j < i && t[j].0 != t[i].0 {
        lemma_from_number_some(t, j + 1, i);
    }
}

proof fn lemma_from_number_absent(t: Seq<Sym>, n: int, j: int)
    requires
        0 <= j <= t.len(),
        forall|k: int| 0 <= k < t.len() ==> (#[trigger] t[k]).0 != n,
    ensures
        from_number_from(t, n, j) is None,
    decreases t.len() - j,
{
    if j < t.len() {
        assert(t[j].0 != n);
        lemma_from_number_absent(t, n, j + 1);
    }
}

/// `from_i64` (and `from_u64`, for values that are not negative) yields a
/// member of the value asked for, and the very constant when no constant
/// before it has the same value; a value that no constant has yields `None`.
pub proof fn lemma_from_number(t: Seq<Sym>, i: int, n: int)
    requires
        0 <= i < t.len(),
    ensures
        from_number(t, t[i].0 as int) matches Some(c) && c.0 == t[i].0,
        (forall|k: int| 0 <= k < i ==> (#[trigger] t[k]).0 != t[i].0) ==> from_number(
            t,
            t[i].0 as int,
        ) == Some(t[i]),
        (forall|k: int| 0 <= k < t.len() ==> (#[trigger] t[k]).0 != n) ==> from_number(t, n)
            is None,
{
    lemma_from_number_some(t, 0, i);
    if forall|k: int| 0 <= k < i ==> (#[trigger] t[k]).0 != t[i].0 {
        lemma_from_number_found(t, 0, i);
    }
    if forall|k: int| 0 <= k < t.len() ==> (#[trigger] t[k]).0 != n {
        lemma_from_number_absent(t, n, 0);
    }
}

/// The name that `Display` writes for the member `member` of the table `t`;
/// `None` when `t` has no such member.
pub fn display_member(t: &Vec<CEnum>, member: &str) -> (r: Option<String>)
    ensures
        match r {
            Some(s) => displayed(syms(t@), member@) == Some(s@),
            None => displayed(syms(t@), member@) is None,
        },
{
    let ghost m = syms(t@);
    let mut j: usize = 0;
    while j < t.len()
        invariant
            j <= t.len(),
            m == syms(t@),
            displayed_from(m, member@, j as int) == displayed(m, member@),
        decreases t.len() - j,
    {
        assert(m[j as int] == sym(t@[j as int]));
        if same_text(t[j].s.as_str(), member) {
            return Some(t[j].s.clone());
        }
        j = j + 1;
    }
    None
}

/// The member that `from_str` yields for `text` over the table `t`; `None`
/// when it yields the error.
pub fn parse_member(t: &Vec<CEnum>, text: &str) -> (r: Option<String>)
    ensures
        match r {
            Some(s) => parsed(syms(t@), text@) == Some(s@),
            None => parsed(syms(t@), text@) is None,
        },
{
    let ghost m = syms(t@);
    let mut j: usize = 0;
    while j < t.len()
        invariant
            j <= t.len(),
            m == syms(t@),
            parsed_from(m, text@, j as int) == parsed(m, text@),
        decreases t.len() - j,
    {
        assert(m[j as int] == sym(t@[j as int]));
        if same_text(t[j].s.as_str(), text) {
            return Some(t[j].s.clone());
        }
        j = j + 1;
    }
    None
}

/// The 32 bits of `v` read unsigned, as `v as u32` gives them.
pub open spec fn as_u32(v: i32) -> int {
    if v < 0 {
        v + 0x1_0000_0000
    } else {
        v as int
    }
}

fn as_u32_of(v: i32) -> (r: i64)
    ensures
        r == as_u32(v),
{
    if v < 0 {
        v as i64 + 0x1_0000_0000i64
    } else {
        v as i64
    }
}

/// The index of the constant whose arm `from_i64(n)` takes over the table `t`;
/// `None` for the catch-all arm.
pub fn member_for_number(t: &Vec<CEnum>, n: i64) -> (r: Option<usize>)
    ensures
        match r {
            Some(j) => j < t.len() && from_number(syms(t@), n as int) == Some(syms(t@)[j as int]),
            None => from_number(syms(t@), n as int) is None,
        },
{
    let ghost m = syms(t@);
    let mut j: usize = 0;
    while j < t.len()
        invariant
            j <= t.len(),
            m == syms(t@),
            from_number_from(m, n as int, j as int) == from_number(m, n as int),
        decreases t.len() - j,
    {
        assert(m[j as int] == sym(t@[j as int]));
        if t[j].i as i64 == n {
            return Some(j);
        }
        j = j + 1;
    }
    None
}

/// Bit `k` of `mask` is set.
pub open spec fn bit_set(mask: u32, k: nat) -> bool {
    (mask as int / pow2(k) as int) % 2 == 1
}

/// The largest bit that `pretty_fmt` tests: the last member's value as `u32`.
pub open spec fn flag_limit(t: Seq<Sym>) -> int {
    as_u32(t.last().0)
}

/// What `pretty_fmt(flags)` writes from bit `k` on, `found` telling whether a
/// name was written before: for each set bit up to the limit, the name of the
/// member that `from_u32` gives for it, joined by `|`. `None` where the
/// generated code panics: a set bit that no member has, or a limit that makes
/// the shift reach 32.
pub open spec fn flags_from(t: Seq<Sym>, mask: u32, k: nat, found: bool) -> Option<
    Seq<char>,
>
    decreases 32 - k,
{
    if k >= 32 {
        None
    } else if pow2(k) > flag_limit(t) {
        Some(Seq::empty())
    } else if bit_set(mask, k) {
        match from_number(t, pow2(k) as int) {
            None => None,
            Some(c) => match flags_from(t, mask, k + 1, true) {
                None => None,
                Some(rest) => Some((if found {
                    seq!['|']
                } else {
                    Seq::empty()
                }) + c.1 + rest),
            },
        }
    } else {
        flags_from(t, mask, k + 1, found)
    }
}

/// What `pretty_fmt(mask)` writes for the non-empty table `t`.
pub open spec fn flags_text(t: Seq<Sym>, mask: u32) -> Option<Seq<char>> {
    if t.len() == 0 {
        None
    } else {
        flags_from(t, mask, 0, false)
    }
}

pub open spec fn after_text(acc: Seq<char>, r: Option<Seq<char>>) -> Option<Seq<char>> {
    match r {
        Some(x) => Some(acc + x),
        None => None,
    }
}

/// What the generated `pretty_fmt` writes for `mask` over the table `t`;
/// `None` where it would panic, or when `t` is empty.
pub fn pretty_format(t: &Vec<CEnum>, mask: u32) -> (r: Option<String>)
    ensures
        match r {
            Some(s) => flags_text(syms(t@), mask) == Some(s@),
            None => flags_text(syms(t@), mask) is None,
        },
{
    if t.len() == 0 {
        return None;
    }
    let ghost m = syms(t@);
    let limit = as_u32_of(t[t.len() - 1].i);
    assert(m.last() == sym(t@[t.len() - 1]));
    let mut out = String::new();
    let mut found = false;
    let mut k: u32 = 0;
    let mut bit: u64 = 1;
    proof {
        lemma2_to64();
        assert(Seq::<char>::empty() + flags_from(m, mask, 0, false)->Some_0 =~= flags_from(
            m,
            mask,
            0,
            false,
        )->Some_0);
    }
    loop
        invariant
            k <= 32,
            bit == pow2(k as nat),
            m == syms(t@),
            t@.len() > 0,
            limit == flag_limit(m),
            flags_text(m, mask) == after_text(out@, flags_from(m, mask, k as nat, found)),
        decreases 32 - k,
    {
        proof {
            lemma2_to64();
        }
        if k == 32 {
            return None;
        }
        if bit as i64 > limit {
            assert(out@ + Seq::<char>::empty() =~= out@);
            return Some(out);
        }
        let ghost before = out@;
        let ghost was_found = found;
        if (mask as u64 / bit) % 2 == 1 {
            match member_for_number(t, bit as i64) {
                None => {
                    return None;
                },
                Some(j) => {
                    if found {
                        push_char(&mut out, '|');
                    }
                    push_str(&mut out, t[j].s.as_str());
                    found = true;
                    proof {
                        match flags_from(m, mask, (k + 1) as nat, true) {
                            Some(rest) => {
                                assert(before + ((if was_found {
                                    seq!['|']
                                } else {
                                    Seq::empty()
                                }) + m[j as int].1 + rest) =~= out@ + rest);
                            },
                            None => {},
                        }
                    }
                },
            }
        }
        proof {
            lemma_pow2_unfold((k + 1) as nat);
        }
        k = k + 1;
        bit = bit * 2;
    }
}

} // verus!
