//! The sum of the values of a finite map of amounts, and how it moves when
//! one entry changes.

use vstd::prelude::*;

verus! {

/// The sum of all values of a finite map.
pub open spec fn map_total<K>(m: Map<K, i128>) -> int
    decreases m.dom().len(),
    when m.dom().finite()
{
    if m.dom().len() == 0 {
        0
    } else {
        let k = m.dom().choose();
        m[k] + map_total(m.remove(k))
    }
}

/// Taking any one key out of the sum leaves the sum of the rest.
pub proof fn lemma_total_remove<K>(m: Map<K, i128>, k: K)
    requires
        m.dom().finite(),
        m.dom().contains(k),
    ensures
        map_total(m) == m[k] + map_total(m.remove(k)),
    decreases m.dom().len(),
{
    let c = m.dom().choose();
    if c != k {
        lemma_total_remove(m.remove(c), k);
        lemma_total_remove(m.remove(k), c);
        assert(m.remove(c).remove(k) =~= m.remove(k).remove(c));
    }
}

/// Setting one key to a value changes the sum by the difference.
pub proof fn lemma_total_insert<K>(m: Map<K, i128>, k: K, v: i128)
    requires
        m.dom().finite(),
    ensures
        map_total(m.insert(k, v)) == map_total(m) - (if m.dom().contains(k) {
            m[k] as int
        } else {
            0int
        }) + v,
{
    let n = m.insert(k, v);
    lemma_total_remove(n, k);
    if m.dom().contains(k) {
        lemma_total_remove(m, k);
        assert(n.remove(k) =~= m.remove(k));
    } else {
        assert(n.remove(k) =~= m);
    }
}

/// The sum of a map of non-negative amounts is at least each amount.
pub proof fn lemma_total_bounds<K>(m: Map<K, i128>)
    requires
        m.dom().finite(),
        forall|x: K| m.dom().contains(x) ==> m[x] >= 0,
    ensures
        map_total(m) >= 0,
        forall|x: K| m.dom().contains(x) ==> m[x] <= map_total(m),
    decreases m.dom().len(),
{
    if m.dom().len() > 0 {
        let c = m.dom().choose();
        lemma_total_bounds(m.remove(c));
        assert forall|x: K| m.dom().contains(x) implies m[x] <= map_total(m) by {
            if x != c {
                assert(m.remove(c).dom().contains(x));
            }
        }
    }
}

} // verus!
