//! Sums over the entries of a finite map from strings to counts, and how
//! they change when one entry is added, changed or removed.
use vstd::prelude::*;

verus! {

/// The sum of `f(k, m[k])` over the keys `k` of a finite map `m`.
pub open spec fn sum_over(m: Map<Seq<char>, usize>, f: spec_fn(Seq<char>, usize) -> int) -> int
    decreases m.dom().len(),
{
    if m.dom().finite() && m.dom().len() > 0 {
        let k = m.dom().choose();
        f(k, m[k]) + sum_over(m.remove(k), f)
    } else {
        0
    }
}

/// Any key may be taken out first: the sum is that entry's term plus the
/// sum over the other entries.
pub proof fn lemma_sum_remove(m: Map<Seq<char>, usize>, f: spec_fn(Seq<char>, usize) -> int, k: Seq<char>)
    requires
        m.dom().finite(),
        m.dom().contains(k),
    ensures
        sum_over(m, f) == f(k, m[k]) + sum_over(m.remove(k), f),
    decreases m.dom().len(),
{
    let c = m.dom().choose();
    if c != k {
        let mc = m.remove(c);
        let mk = m.remove(k);
        lemma_sum_remove(mc, f, k);
        lemma_sum_remove(mk, f, c);
        assert(mc.remove(k) =~= mk.remove(c));
    }
}

/// The sum over an empty map is zero.
pub proof fn lemma_sum_empty(f: spec_fn(Seq<char>, usize) -> int)
    ensures
        sum_over(Map::<Seq<char>, usize>::empty(), f) == 0,
{
}

/// Setting the value of a key, new or present, changes the sum by the
/// difference of that key's terms.
pub proof fn lemma_sum_insert(m: Map<Seq<char>, usize>, f: spec_fn(Seq<char>, usize) -> int, k: Seq<char>, v: usize)
    requires
        m.dom().finite(),
    ensures
        sum_over(m.insert(k, v), f) == sum_over(m, f) + f(k, v) - (if m.dom().contains(k) {
            f(k, m[k])
        } else {
            0
        }),
{
    let mi = m.insert(k, v);
    lemma_sum_remove(mi, f, k);
    if m.dom().contains(k) {
        lemma_sum_remove(m, f, k);
        assert(mi.remove(k) =~= m.remove(k));
    } else {
        assert(mi.remove(k) =~= m);
    }
}

} // verus!
