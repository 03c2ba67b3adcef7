//! The mathematical vocabulary of the contracts: ascending order, rearrangement,
//! and the lemmas that connect them.

use vstd::prelude::*;

verus! {

/// One recorded step, as the contracts see it: the array at that moment and
/// the highlighted positions or values.
pub struct Snapshot {
    pub values: Seq<u32>,
    pub highlight: Seq<u32>,
}

/// `s` is ascending between `lo` (inclusive) and `hi` (exclusive).
pub open spec fn sorted_between(s: Seq<u32>, lo: int, hi: int) -> bool {
    forall|a: int, b: int| lo <= a <= b < hi ==> s[a] <= s[b]
}

/// `s` is ascending.
pub open spec fn sorted(s: Seq<u32>) -> bool {
    sorted_between(s, 0, s.len() as int)
}

/// `a` holds the same values as `b`, each as often.
pub open spec fn rearranged(a: Seq<u32>, b: Seq<u32>) -> bool {
    a.len() == b.len() && a.to_multiset() == b.to_multiset()
}

/// `a` and `b` agree everywhere but between `lo` (inclusive) and `hi` (exclusive).
pub open spec fn same_outside(a: Seq<u32>, b: Seq<u32>, lo: int, hi: int) -> bool {
    a.len() == b.len() && forall|k: int| 0 <= k < a.len() && !(lo <= k < hi) ==> a[k] == b[k]
}

/// `s` with the values at `i` and `j` exchanged.
pub open spec fn swapped(s: Seq<u32>, i: int, j: int) -> Seq<u32> {
    s.update(i, s[j]).update(j, s[i])
}

/// Exchanging two values rearranges a sequence.
pub proof fn lemma_swapped_rearranged(s: Seq<u32>, i: int, j: int)
    requires
        0 <= i < s.len(),
        0 <= j < s.len(),
    ensures
        rearranged(swapped(s, i, j), s),
{
    broadcast use vstd::seq_lib::group_to_multiset_ensures;
    let t = s.update(i, s[j]);
    vstd::seq_lib::to_multiset_update(s, i, s[j]);
    vstd::seq_lib::to_multiset_update(t, j, s[i]);
    assert(s.to_multiset().count(s[i]) > 0) by {
        assert(s.contains(s[i]));
    }
    assert(s.to_multiset().count(s[j]) > 0) by {
        assert(s.contains(s[j]));
    }
    assert(swapped(s, i, j).to_multiset() =~= s.to_multiset());
}

/// A sequence splits into three parts whose multisets add up to its own.
pub proof fn lemma_three_parts(s: Seq<u32>, lo: int, hi: int)
    requires
        0 <= lo <= hi <= s.len(),
    ensures
        s.to_multiset() =~= s.subrange(0, lo).to_multiset().add(
            s.subrange(lo, hi).to_multiset(),
        ).add(s.subrange(hi, s.len() as int).to_multiset()),
{
    let a = s.subrange(0, lo);
    let b = s.subrange(lo, hi);
    let c = s.subrange(hi, s.len() as int);
    assert(s =~= (a + b) + c);
    vstd::seq_lib::lemma_multiset_commutative(a + b, c);
    vstd::seq_lib::lemma_multiset_commutative(a, b);
}

/// Rearranging a sequence without touching what lies outside a range
/// rearranges the range.
pub proof fn lemma_range_rearranged(s: Seq<u32>, t: Seq<u32>, lo: int, hi: int)
    requires
        0 <= lo <= hi <= s.len(),
        rearranged(t, s),
        same_outside(t, s, lo, hi),
    ensures
        t.subrange(lo, hi).to_multiset() =~= s.subrange(lo, hi).to_multiset(),
{
    lemma_three_parts(s, lo, hi);
    lemma_three_parts(t, lo, hi);
    assert(s.subrange(0, lo) =~= t.subrange(0, lo));
    assert(s.subrange(hi, s.len() as int) =~= t.subrange(hi, t.len() as int));
    let a = s.subrange(0, lo).to_multiset();
    let c = s.subrange(hi, s.len() as int).to_multiset();
    let sm = s.subrange(lo, hi).to_multiset();
    let tm = t.subrange(lo, hi).to_multiset();
    assert forall|v: u32| tm.count(v) == sm.count(v) by {
        assert(s.to_multiset().count(v) == a.add(sm).add(c).count(v));
        assert(t.to_multiset().count(v) == a.add(tm).add(c).count(v));
        assert(a.add(sm).add(c).count(v) == a.count(v) + sm.count(v) + c.count(v));
        assert(a.add(tm).add(c).count(v) == a.count(v) + tm.count(v) + c.count(v));
    }
}

/// Rearranging a range without touching what lies outside it rearranges the
/// whole sequence.
pub proof fn lemma_whole_rearranged(s: Seq<u32>, t: Seq<u32>, lo: int, hi: int)
    requires
        0 <= lo <= hi <= s.len(),
        same_outside(t, s, lo, hi),
        t.subrange(lo, hi).to_multiset() =~= s.subrange(lo, hi).to_multiset(),
    ensures
        rearranged(t, s),
{
    lemma_three_parts(s, lo, hi);
    lemma_three_parts(t, lo, hi);
    assert(s.subrange(0, lo) =~= t.subrange(0, lo));
    assert(s.subrange(hi, s.len() as int) =~= t.subrange(hi, t.len() as int));
    assert(t.to_multiset() =~= s.to_multiset());
}

/// An upper bound on a range survives a rearrangement of that range.
pub proof fn lemma_upper_bound_kept(s: Seq<u32>, t: Seq<u32>, lo: int, hi: int, bound: int)
    requires
        0 <= lo <= hi <= s.len(),
        rearranged(t, s),
        same_outside(t, s, lo, hi),
        forall|k: int| lo <= k < hi ==> s[k] <= bound,
    ensures
        forall|k: int| lo <= k < hi ==> t[k] <= bound,
{
    broadcast use vstd::seq_lib::group_to_multiset_ensures;
    lemma_range_rearranged(s, t, lo, hi);
    let ss = s.subrange(lo, hi);
    let ts = t.subrange(lo, hi);
    assert forall|k: int| lo <= k < hi implies t[k] <= bound by {
        assert(ts[k - lo] == t[k]);
        assert(ts.contains(t[k]));
        assert(ts.to_multiset().count(t[k]) > 0);
        assert(ss.to_multiset().count(t[k]) > 0);
        assert(ss.contains(t[k]));
        let w = choose|w: int| 0 <= w < ss.len() && ss[w] == t[k];
        assert(ss[w] == s[w + lo]);
    }
}

/// A lower bound on a range survives a rearrangement of that range.
pub proof fn lemma_lower_bound_kept(s: Seq<u32>, t: Seq<u32>, lo: int, hi: int, bound: int)
    requires
        0 <= lo <= hi <= s.len(),
        rearranged(t, s),
        same_outside(t, s, lo, hi),
        forall|k: int| lo <= k < hi ==> s[k] >= bound,
    ensures
        forall|k: int| lo <= k < hi ==> t[k] >= bound,
{
    broadcast use vstd::seq_lib::group_to_multiset_ensures;
    lemma_range_rearranged(s, t, lo, hi);
    let ss = s.subrange(lo, hi);
    let ts = t.subrange(lo, hi);
    assert forall|k: int| lo <= k < hi implies t[k] >= bound by {
        assert(ts[k - lo] == t[k]);
        assert(ts.contains(t[k]));
        assert(ts.to_multiset().count(t[k]) > 0);
        assert(ss.to_multiset().count(t[k]) > 0);
        assert(ss.contains(t[k]));
        let w = choose|w: int| 0 <= w < ss.len() && ss[w] == t[k];
        assert(ss[w] == s[w + lo]);
    }
}

/// Two ascending sequences that hold the same values are the same sequence.
pub proof fn lemma_sorted_rearranged_equal(a: Seq<u32>, b: Seq<u32>)
    requires
        sorted(a),
        sorted(b),
        rearranged(a, b),
    ensures
        a == b,
{
    let leq = |x: u32, y: u32| x <= y;
    assert(vstd::relations::total_ordering(leq));
    assert(vstd::relations::sorted_by(a, leq));
    assert(vstd::relations::sorted_by(b, leq));
    vstd::seq_lib::lemma_sorted_unique(a, b, leq);
}

} // verus!
