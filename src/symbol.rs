//! One named constant, and the value order in which a table holds them.

use vstd::prelude::*;
use crate::error::DeriveError;

verus! {

broadcast use vstd::seq_lib::group_to_multiset_ensures;

/// The mathematical model of a constant: its value and its name.
pub type Sym = (i32, Seq<char>);

/// A named integer constant. Two constants compare by value alone.
#[derive(Debug)]
pub struct CEnum {
    /// The value.
    pub i: i32,
    /// The name.
    pub s: String,
}

impl CEnum {
    pub fn new(i: i32, s: &str) -> (r: CEnum)
        ensures
            r.i == i,
            r.s@ == s@,
    {
        CEnum { i, s: s.to_owned() }
    }
}

pub open spec fn sym(c: CEnum) -> Sym {
    (c.i, c.s@)
}

/// The models of a sequence of constants.
pub open spec fn syms(v: Seq<CEnum>) -> Seq<Sym> {
    v.map_values(|c: CEnum| sym(c))
}

impl PartialEq for CEnum {
    fn eq(&self, other: &CEnum) -> (r: bool) {
        self.i == other.i
    }
}

impl vstd::std_specs::cmp::PartialEqSpecImpl for CEnum {
    open spec fn obeys_eq_spec() -> bool {
        true
    }

    open spec fn eq_spec(&self, other: &CEnum) -> bool {
        self.i == other.i
    }
}

impl Eq for CEnum {

}

impl PartialOrd for CEnum {
    fn partial_cmp(&self, other: &CEnum) -> (r: Option<core::cmp::Ordering>) {
        if self.i < other.i {
            Some(core::cmp::Ordering::Less)
        } else if self.i > other.i {
            Some(core::cmp::Ordering::Greater)
        } else {
            Some(core::cmp::Ordering::Equal)
        }
    }
}

impl vstd::std_specs::cmp::PartialOrdSpecImpl for CEnum {
    open spec fn obeys_partial_cmp_spec() -> bool {
        true
    }

    open spec fn partial_cmp_spec(&self, other: &CEnum) -> Option<core::cmp::Ordering> {
        if self.i < other.i {
            Some(core::cmp::Ordering::Less)
        } else if self.i > other.i {
            Some(core::cmp::Ordering::Greater)
        } else {
            Some(core::cmp::Ordering::Equal)
        }
    }
}

/// Values never decrease along `s`.
pub open spec fn sorted_by_value(s: Seq<Sym>) -> bool {
    forall|a: int, b: int| 0 <= a < b < s.len() ==> s[a].0 <= s[b].0
}

/// Where `x` goes in `s`: after every element, from the end backwards, whose
/// value is larger, so that it stays behind the elements of equal value.
pub open spec fn insert_pos(s: Seq<Sym>, x: Sym) -> int
    decreases s.len(),
{
    if s.len() == 0 {
        0
    } else if s.last().0 <= x.0 {
        s.len() as int
    } else {
        insert_pos(s.drop_last(), x)
    }
}

/// `s` ordered by value; elements of equal value keep their order in `s`.
pub open spec fn sort_by_value(s: Seq<Sym>) -> Seq<Sym>
    decreases s.len(),
{
    if s.len() == 0 {
        s
    } else {
        let t = sort_by_value(s.drop_last());
        t.insert(insert_pos(t, s.last()), s.last())
    }
}

proof fn lemma_insert_pos(s: Seq<Sym>, x: Sym)
    requires
        sorted_by_value(s),
    ensures
        0 <= insert_pos(s, x) <= s.len(),
        forall|a: int| 0 <= a < insert_pos(s, x) ==> s[a].0 <= x.0,
        forall|a: int| insert_pos(s, x) <= a < s.len() ==> s[a].0 > x.0,
    decreases s.len(),
{
    if s.len() > 0 {
        let n = s.len() - 1;
        if s.last().0 <= x.0 {
            assert forall|a: int| 0 <= a < s.len() implies s[a].0 <= x.0 by {
                if a < n {
                    assert(s[a].0 <= s[n].0);
                }
            }
        } else {
            let t = s.drop_last();
            assert forall|a: int, b: int| 0 <= a < b < t.len() implies t[a].0 <= t[b].0 by {
                assert(t[a] == s[a] && t[b] == s[b]);
            }
            lemma_insert_pos(t, x);
            assert forall|a: int| insert_pos(s, x) <= a < s.len() implies s[a].0 > x.0 by {
                if a < n {
                    assert(s[a] == t[a]);
                }
            }
            assert forall|a: int| 0 <= a < insert_pos(s, x) implies s[a].0 <= x.0 by {
                assert(s[a] == t[a]);
            }
        }
    }
}

/// Sorting keeps every element and orders the result by value.
pub proof fn lemma_sort_by_value(s: Seq<Sym>)
    ensures
        sorted_by_value(sort_by_value(s)),
        sort_by_value(s).to_multiset() == s.to_multiset(),
        sort_by_value(s).len() == s.len(),
    decreases s.len(),
{
    if s.len() > 0 {
        let t = sort_by_value(s.drop_last());
        lemma_sort_by_value(s.drop_last());
        lemma_insert_pos(t, s.last());
        let p = insert_pos(t, s.last());
        let u = t.insert(p, s.last());
        assert forall|a: int, b: int| 0 <= a < b < u.len() implies u[a].0 <= u[b].0 by {
            if b < p {
            } else if b == p {
            } else if a < p {
            } else if a == p {
            } else {
                assert(u[a] == t[a - 1] && u[b] == t[b - 1]);
            }
        }
        vstd::seq_lib::to_multiset_insert(t, p, s.last());
        assert(s == s.drop_last().push(s.last()));
    }
}

/// The elements of `s` whose value is `x`, in their order in `s`.
pub open spec fn with_value(s: Seq<Sym>, x: i32) -> Seq<Sym>
    decreases s.len(),
{
    if s.len() == 0 {
        s
    } else if s.last().0 == x {
        with_value(s.drop_last(), x).push(s.last())
    } else {
        with_value(s.drop_last(), x)
    }
}

proof fn lemma_with_value_add(a: Seq<Sym>, b: Seq<Sym>, x: i32)
    ensures
        with_value(a + b, x) == with_value(a, x) + with_value(b, x),
    decreases b.len(),
{
    if b.len() == 0 {
        assert(a + b == a);
        assert(with_value(a, x) + with_value(b, x) == with_value(a, x));
    } else {
        lemma_with_value_add(a, b.drop_last(), x);
        assert((a + b).drop_last() == a + b.drop_last());
        assert((a + b).last() == b.last());
        if b.last().0 == x {
            assert(with_value(a, x) + with_value(b.drop_last(), x).push(b.last()) == (with_value(
                a,
                x,
            ) + with_value(b.drop_last(), x)).push(b.last()));
        }
    }
}

proof fn lemma_with_value_none(s: Seq<Sym>, x: i32)
    requires
        forall|a: int| 0 <= a < s.len() ==> s[a].0 != x,
    ensures
        with_value(s, x) == Seq::<Sym>::empty(),
    decreases s.len(),
{
    if s.len() > 0 {
        assert(s.last() == s[s.len() - 1]);
        lemma_with_value_none(s.drop_last(), x);
    }
}

/// Sorting is stable: for every value, the elements that have it come out in
/// the order they had.
pub proof fn lemma_sort_is_stable(s: Seq<Sym>, x: i32)
    ensures
        with_value(sort_by_value(s), x) == with_value(s, x),
    decreases s.len(),
{
    if s.len() > 0 {
        let y = s.last();
        let t = sort_by_value(s.drop_last());
        lemma_sort_is_stable(s.drop_last(), x);
        lemma_sort_by_value(s.drop_last());
        lemma_insert_pos(t, y);
        let p = insert_pos(t, y);
        let lo = t.subrange(0, p);
        let hi = t.subrange(p, t.len() as int);
        assert(t.insert(p, y) == lo + seq![y] + hi);
        assert(t == lo + hi);
        lemma_with_value_add(lo + seq![y], hi, x);
        lemma_with_value_add(lo, seq![y], x);
        lemma_with_value_add(lo, hi, x);
        assert(seq![y].drop_last() == Seq::<Sym>::empty());
        assert(with_value(Seq::<Sym>::empty(), x) == Seq::<Sym>::empty());
        assert(s == s.drop_last().push(y));
        if y.0 == x {
            assert forall|a: int| 0 <= a < hi.len() implies hi[a].0 != x by {
                assert(hi[a] == t[p + a]);
            }
            lemma_with_value_none(hi, x);
            assert(with_value(seq![y], x) == seq![y]);
            assert(with_value(lo, x) + seq![y] + Seq::<Sym>::empty() == (with_value(lo, x)
                + Seq::<Sym>::empty()).push(y));
        } else {
            assert(with_value(seq![y], x) == Seq::<Sym>::empty());
            assert(with_value(lo, x) + Seq::<Sym>::empty() == with_value(lo, x));
        }
    }
}

/// Insertion of `x` into a table sorted by value.
fn insert_by_value(r: &mut Vec<CEnum>, x: CEnum)
    ensures
        syms(final(r)@) == syms(old(r)@).insert(insert_pos(syms(old(r)@), sym(x)), sym(x)),
{
    let ghost m = syms(r@);
    let mut p: usize = r.len();
    assert(m.subrange(0, p as int) == m);
    while p > 0 && r[p - 1].i > x.i
        invariant
            p <= r.len(),
            m == syms(r@),
            insert_pos(m, sym(x)) == insert_pos(m.subrange(0, p as int), sym(x)),
        decreases p,
    {
        assert(m.subrange(0, p as int).drop_last() == m.subrange(0, p - 1));
        p = p - 1;
    }
    let ghost xs = sym(x);
    r.insert(p, x);
    assert(syms(r@) =~= m.insert(p as int, xs));
}

/// `v` ordered by value, stable for equal values.
pub fn sort_symbols(v: Vec<CEnum>) -> (r: Vec<CEnum>)
    ensures
        syms(r@) == sort_by_value(syms(v@)),
{
    let ghost orig = syms(v@);
    let mut rest = v;
    let mut r: Vec<CEnum> = Vec::new();
    let mut k: usize = 0;
    let n = rest.len();
    assert(orig.subrange(0, 0) == Seq::<Sym>::empty());
    while rest.len() > 0
        invariant
            k + rest.len() == n,
            n == orig.len(),
            syms(rest@) == orig.subrange(k as int, n as int),
            syms(r@) == sort_by_value(orig.subrange(0, k as int)),
        decreases rest.len(),
    {
        let ghost before = rest@;
        let x = rest.remove(0);
        assert(syms(before)[0] == sym(x));
        assert(sym(x) == orig[k as int]);
        assert forall|j: int| 0 <= j < rest@.len() implies #[trigger] syms(rest@)[j]
            == orig[k + 1 + j] by {
            assert(rest@[j] == before[j + 1]);
            assert(syms(before)[j + 1] == orig[k + 1 + j]);
        }
        assert(syms(rest@) =~= orig.subrange(k + 1, n as int));
        insert_by_value(&mut r, x);
        assert(orig.subrange(0, k + 1).drop_last() == orig.subrange(0, k as int));
        k = k + 1;
    }
    assert(orig.subrange(0, n as int) == orig);
    r
}

/// The table of `v`: its constants ordered by value, equal values in input
/// order; `EmptyTable` when there are none.
pub fn canonicalize(v: Vec<CEnum>) -> (r: Result<Vec<CEnum>, DeriveError>)
    ensures
        v@.len() == 0 <==> r is Err,
        r is Err ==> r->Err_0 is EmptyTable,
        r is Ok ==> syms(r->Ok_0@) == sort_by_value(syms(v@)),
        r is Ok ==> sorted_by_value(syms(r->Ok_0@)),
        r is Ok ==> syms(r->Ok_0@).to_multiset() == syms(v@).to_multiset(),
        r is Ok ==> forall|x: i32| with_value(syms(r->Ok_0@), x) == with_value(syms(v@), x),
{
    assert forall|x: i32| with_value(sort_by_value(syms(v@)), x) == with_value(syms(v@), x) by {
        lemma_sort_is_stable(syms(v@), x);
    }
    proof {
        lemma_sort_by_value(syms(v@));
    }
    if v.len() == 0 {
        return Err(DeriveError::EmptyTable);
    }
    Ok(sort_symbols(v))
}

} // verus!
