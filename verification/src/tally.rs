//! Sums of the values of a finite map.
use vstd::prelude::*;

verus! {

/// Sum of all values of a finite map (0 for an infinite one).
pub open spec fn map_sum(m: Map<u64, usize>) -> int
    decreases m.dom().len(),
{
    if m.dom().finite() && m.dom().len() > 0 {
        let k = m.dom().choose();
        proof {
            assert(m.dom().contains(k));
            assert(m.remove(k).dom() =~= m.dom().remove(k));
        }
        m[k] + map_sum(m.remove(k))
    } else {
        0
    }
}

/// Taking any one key out of the map takes exactly its value out of the sum.
pub proof fn lemma_map_sum_remove(m: Map<u64, usize>, k: u64)
    requires
        m.dom().finite(),
        m.contains_key(k),
    ensures
        map_sum(m) == m[k] + map_sum(m.remove(k)),
    decreases m.dom().len(),
{
    assert(m.remove(k).dom() =~= m.dom().remove(k));
    let c = m.dom().choose();
    assert(m.dom().contains(c));
    if c != k {
        let mc = m.remove(c);
        let mk = m.remove(k);
        assert(mc.dom() =~= m.dom().remove(c));
        assert(mk.dom() =~= m.dom().remove(k));
        lemma_map_sum_remove(mc, k);
        lemma_map_sum_remove(mk, c);
        assert(mc.remove(k) =~= mk.remove(c));
    }
}

/// The sum of the empty map is zero.
pub proof fn lemma_map_sum_empty()
    ensures
        map_sum(Map::<u64, usize>::empty()) == 0,
{
    assert(Map::<u64, usize>::empty().dom() =~= Set::empty());
}

/// Setting a key's value replaces its old contribution to the sum.
pub proof fn lemma_map_sum_insert(m: Map<u64, usize>, k: u64, v: usize)
    requires
        m.dom().finite(),
    ensures
        map_sum(m.insert(k, v)) == v + map_sum(m.remove(k)),
        m.contains_key(k) ==> map_sum(m) == m[k] + map_sum(m.remove(k)),
        !m.contains_key(k) ==> map_sum(m.remove(k)) == map_sum(m),
{
    let mi = m.insert(k, v);
    assert(mi.dom() =~= m.dom().insert(k));
    lemma_map_sum_remove(mi, k);
    assert(mi.remove(k) =~= m.remove(k));
    if m.contains_key(k) {
        lemma_map_sum_remove(m, k);
    } else {
        assert(m.remove(k) =~= m);
    }
}

/// Every sum is non-negative.
pub proof fn lemma_map_sum_nonneg(m: Map<u64, usize>)
    ensures
        map_sum(m) >= 0,
    decreases m.dom().len(),
{
    if m.dom().finite() && m.dom().len() > 0 {
        let k = m.dom().choose();
        assert(m.dom().contains(k));
        assert(m.remove(k).dom() =~= m.dom().remove(k));
        lemma_map_sum_nonneg(m.remove(k));
    }
}

} // verus!
