//! Stable sorting by an integer key.
//!
//! The result of a sort is a spec function of its input, so that callers can
//! state what comes out, and so that the order in which the input arrived can
//! be shown not to matter where the keys are distinct.

use vstd::multiset::*;
use vstd::prelude::*;
use vstd::seq_lib::*;

verus! {

/// A value that is ordered by an integer key.
pub trait SortKey {
    spec fn spec_sort_key(&self) -> u64;

    fn sort_key(&self) -> (k: u64)
        ensures
            k == self.spec_sort_key(),
    ;
}

impl SortKey for u32 {
    open spec fn spec_sort_key(&self) -> u64 {
        *self as u64
    }

    fn sort_key(&self) -> (k: u64) {
        *self as u64
    }
}

/// Number of leading items of `s` whose key is below that of `x`.
pub open spec fn spec_rank<T: SortKey>(x: T, s: Seq<T>) -> int
    decreases s.len(),
{
    if s.len() == 0 || x.spec_sort_key() <= s[0].spec_sort_key() {
        0
    } else {
        1 + spec_rank(x, s.drop_first())
    }
}

/// The items of `s` by ascending key; items with equal keys keep their order.
pub open spec fn spec_sort<T: SortKey>(s: Seq<T>) -> Seq<T>
    decreases s.len(),
{
    if s.len() == 0 {
        s
    } else {
        let rest = spec_sort(s.drop_first());
        rest.insert(spec_rank(s[0], rest), s[0])
    }
}

pub open spec fn ascending<T: SortKey>(s: Seq<T>) -> bool {
    forall|i: int, j: int|
        0 <= i < j < s.len() ==> #[trigger] s[i].spec_sort_key() <= #[trigger] s[j].spec_sort_key()
}

pub open spec fn strictly_ascending<T: SortKey>(s: Seq<T>) -> bool {
    forall|i: int, j: int|
        0 <= i < j < s.len() ==> #[trigger] s[i].spec_sort_key() < #[trigger] s[j].spec_sort_key()
}

pub open spec fn distinct_keys<T: SortKey>(s: Seq<T>) -> bool {
    forall|i: int, j: int|
        0 <= i < j < s.len() ==> #[trigger] s[i].spec_sort_key() != #[trigger] s[j].spec_sort_key()
}

/// The rank of `x` splits `s` into the items below `x` and, where `s` ascends,
/// the items not below it.
pub proof fn lemma_rank<T: SortKey>(x: T, s: Seq<T>)
    ensures
        0 <= spec_rank(x, s) <= s.len(),
        forall|k: int| 0 <= k < spec_rank(x, s) ==> #[trigger] s[k].spec_sort_key() < x.spec_sort_key(),
        spec_rank(x, s) < s.len() ==> x.spec_sort_key() <= s[spec_rank(x, s)].spec_sort_key(),
    decreases s.len(),
{
    if s.len() == 0 || x.spec_sort_key() <= s[0].spec_sort_key() {
    } else {
        let t = s.drop_first();
        lemma_rank(x, t);
        assert forall|k: int| 0 <= k < spec_rank(x, s) implies #[trigger] s[k].spec_sort_key()
            < x.spec_sort_key() by {
            if k > 0 {
                assert(s[k] == t[k - 1]);
            }
        }
        if spec_rank(x, s) < s.len() {
            assert(s[spec_rank(x, s)] == t[spec_rank(x, t)]);
        }
    }
}

/// A position with only smaller keys before it and no smaller key at it is the rank.
pub proof fn lemma_rank_is<T: SortKey>(x: T, s: Seq<T>, pos: int)
    requires
        0 <= pos <= s.len(),
        forall|k: int| 0 <= k < pos ==> #[trigger] s[k].spec_sort_key() < x.spec_sort_key(),
        pos < s.len() ==> x.spec_sort_key() <= s[pos].spec_sort_key(),
    ensures
        spec_rank(x, s) == pos,
    decreases s.len(),
{
    if pos == 0 {
    } else {
        let t = s.drop_first();
        assert(s[0].spec_sort_key() < x.spec_sort_key());
        assert forall|k: int| 0 <= k < pos - 1 implies #[trigger] t[k].spec_sort_key()
            < x.spec_sort_key() by {
            assert(t[k] == s[k + 1]);
        }
        if pos - 1 < t.len() {
            assert(t[pos - 1] == s[pos]);
        }
        lemma_rank_is(x, t, pos - 1);
    }
}

/// Sorting keeps the items, each as often as it occurred, and puts them in
/// ascending order of their keys.
pub proof fn lemma_sort_properties<T: SortKey>(s: Seq<T>)
    ensures
        spec_sort(s).len() == s.len(),
        spec_sort(s).to_multiset() == s.to_multiset(),
        ascending(spec_sort(s)),
    decreases s.len(),
{
    if s.len() == 0 {
    } else {
        let t = s.drop_first();
        let rest = spec_sort(t);
        let x = s[0];
        let pos = spec_rank(x, rest);
        lemma_sort_properties(t);
        lemma_rank(x, rest);
        let out = rest.insert(pos, x);
        to_multiset_insert(rest, pos, x);
        assert(s =~= t.insert(0, x));
        to_multiset_insert(t, 0, x);
        assert forall|i: int, j: int| 0 <= i < j < out.len() implies #[trigger] out[i].spec_sort_key()
            <= #[trigger] out[j].spec_sort_key() by {
            if j < pos {
                assert(out[i] == rest[i] && out[j] == rest[j]);
            } else if j == pos {
                assert(out[i] == rest[i]);
            } else if i < pos {
                assert(out[i] == rest[i] && out[j] == rest[j - 1]);
                assert(rest[pos].spec_sort_key() <= rest[j - 1].spec_sort_key() || pos == j - 1);
            } else if i == pos {
                assert(out[j] == rest[j - 1]);
                assert(rest[pos].spec_sort_key() <= rest[j - 1].spec_sort_key() || pos == j - 1);
            } else {
                assert(out[i] == rest[i - 1] && out[j] == rest[j - 1]);
            }
        }
    }
}

/// Two strictly ascending sequences that hold the same items are equal.
pub proof fn lemma_strictly_ascending_unique<T: SortKey>(a: Seq<T>, b: Seq<T>)
    requires
        strictly_ascending(a),
        strictly_ascending(b),
        a.to_multiset() == b.to_multiset(),
    ensures
        a == b,
    decreases a.len(),
{
    to_multiset_len(a);
    to_multiset_len(b);
    if a.len() == 0 {
        assert(a =~= b);
    } else {
        let n = a.len() as int;
        let x = a[n - 1];
        let y = b[n - 1];
        assert(a.contains(x));
        to_multiset_contains(a, x);
        to_multiset_contains(b, x);
        let j = choose|j: int| 0 <= j < n && b[j] == x;
        assert(b.contains(y));
        to_multiset_contains(b, y);
        to_multiset_contains(a, y);
        let i = choose|i: int| 0 <= i < n && a[i] == y;
        assert(x.spec_sort_key() <= y.spec_sort_key()) by {
            if j < n - 1 {
                assert(b[j].spec_sort_key() < b[n - 1].spec_sort_key());
            }
        }
        assert(y.spec_sort_key() <= x.spec_sort_key()) by {
            if i < n - 1 {
                assert(a[i].spec_sort_key() < a[n - 1].spec_sort_key());
            }
        }
        assert(j == n - 1) by {
            if j < n - 1 {
                assert(b[j].spec_sort_key() < b[n - 1].spec_sort_key());
            }
        }
        assert(x == y);
        to_multiset_remove(a, n - 1);
        to_multiset_remove(b, n - 1);
        let a0 = a.drop_last();
        let b0 = b.drop_last();
        assert(a0 =~= a.remove(n - 1));
        assert(b0 =~= b.remove(n - 1));
        assert forall|p: int, q: int| 0 <= p < q < a0.len() implies #[trigger] a0[p].spec_sort_key()
            < #[trigger] a0[q].spec_sort_key() by {
            assert(a0[p] == a[p] && a0[q] == a[q]);
        }
        assert forall|p: int, q: int| 0 <= p < q < b0.len() implies #[trigger] b0[p].spec_sort_key()
            < #[trigger] b0[q].spec_sort_key() by {
            assert(b0[p] == b[p] && b0[q] == b[q]);
        }
        lemma_strictly_ascending_unique(a0, b0);
        assert(a =~= a0.push(x));
        assert(b =~= b0.push(y));
    }
}

/// A sequence that holds the items of one with distinct keys has distinct keys too.
pub proof fn lemma_distinct_keys_carry<T: SortKey>(a: Seq<T>, b: Seq<T>)
    requires
        distinct_keys(a),
        a.to_multiset() == b.to_multiset(),
    ensures
        distinct_keys(b),
{
    assert(a.no_duplicates()) by {
        assert forall|i: int, j: int| 0 <= i < a.len() && 0 <= j < a.len() && i != j implies a[i]
            != a[j] by {
            if i < j {
                assert(a[i].spec_sort_key() != a[j].spec_sort_key());
            } else {
                assert(a[j].spec_sort_key() != a[i].spec_sort_key());
            }
        }
    }
    a.lemma_multiset_has_no_duplicates();
    assert forall|x: T| b.to_multiset().contains(x) implies b.to_multiset().count(x) == 1 by {}
    b.lemma_multiset_has_no_duplicates_conv();
    assert forall|i: int, j: int| 0 <= i < j < b.len() implies #[trigger] b[i].spec_sort_key()
        != #[trigger] b[j].spec_sort_key() by {
        assert(b.contains(b[i]));
        assert(b.contains(b[j]));
        to_multiset_contains(b, b[i]);
        to_multiset_contains(b, b[j]);
        to_multiset_contains(a, b[i]);
        to_multiset_contains(a, b[j]);
        let p = choose|p: int| 0 <= p < a.len() && a[p] == b[i];
        let q = choose|q: int| 0 <= q < a.len() && a[q] == b[j];
        assert(b[i] != b[j]);
        if p < q {
            assert(a[p].spec_sort_key() != a[q].spec_sort_key());
        } else {
            assert(a[q].spec_sort_key() != a[p].spec_sort_key());
        }
    }
}

/// Where no two items share a key, the sorted sequence does not depend on the
/// order in which the items arrived.
pub proof fn lemma_sort_ignores_arrival_order<T: SortKey>(a: Seq<T>, b: Seq<T>)
    requires
        distinct_keys(a),
        a.to_multiset() == b.to_multiset(),
    ensures
        spec_sort(a) == spec_sort(b),
{
    lemma_sort_properties(a);
    lemma_sort_properties(b);
    let sa = spec_sort(a);
    let sb = spec_sort(b);
    lemma_distinct_keys_carry(a, sa);
    lemma_distinct_keys_carry(a, sb);
    assert(strictly_ascending(sa)) by {
        assert forall|i: int, j: int| 0 <= i < j < sa.len() implies #[trigger] sa[i].spec_sort_key()
            < #[trigger] sa[j].spec_sort_key() by {
            assert(sa[i].spec_sort_key() <= sa[j].spec_sort_key());
            assert(sa[i].spec_sort_key() != sa[j].spec_sort_key());
        }
    }
    assert(strictly_ascending(sb)) by {
        assert forall|i: int, j: int| 0 <= i < j < sb.len() implies #[trigger] sb[i].spec_sort_key()
            < #[trigger] sb[j].spec_sort_key() by {
            assert(sb[i].spec_sort_key() <= sb[j].spec_sort_key());
            assert(sb[i].spec_sort_key() != sb[j].spec_sort_key());
        }
    }
    lemma_strictly_ascending_unique(sa, sb);
}

/// Sorts by ascending key; items with equal keys keep their order.
pub fn sort_by_key<T: SortKey>(items: Vec<T>) -> (r: Vec<T>)
    ensures
        r@ == spec_sort(items@),
        r@.len() == items@.len(),
        r@.to_multiset() == items@.to_multiset(),
        ascending(r@),
{
    let mut rest: Vec<T> = items;
    let mut out: Vec<T> = Vec::new();
    let ghost orig: Seq<T> = rest@;
    assert(orig.subrange(orig.len() as int, orig.len() as int) =~= Seq::<T>::empty());
    while rest.len() > 0
        invariant
            rest@ == orig.subrange(0, rest.len() as int),
            rest.len() <= orig.len(),
            out@ == spec_sort(orig.subrange(rest.len() as int, orig.len() as int)),
        decreases rest.len(),
    {
        let ghost tail = orig.subrange(rest.len() as int, orig.len() as int);
        let x: T = rest.pop().unwrap();
        let xk: u64 = x.sort_key();
        let ghost next = orig.subrange(rest.len() as int, orig.len() as int);
        proof {
            lemma_sort_properties(tail);
            assert(next.drop_first() =~= tail);
            assert(next[0] == x);
        }
        let mut pos: usize = 0;
        while pos < out.len() && out[pos].sort_key() < xk
            invariant
                pos <= out.len(),
                xk == x.spec_sort_key(),
                forall|k: int| 0 <= k < pos ==> #[trigger] out[k].spec_sort_key() < xk,
            decreases out.len() - pos,
        {
            pos = pos + 1;
        }
        proof {
            lemma_rank_is(x, out@, pos as int);
        }
        out.insert(pos, x);
    }
    proof {
        assert(orig.subrange(0, orig.len() as int) =~= orig);
        lemma_sort_properties(orig);
    }
    out
}

} // verus!
