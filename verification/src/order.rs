//! The order in which requested features are drawn.

use std::collections::BTreeSet;
use vstd::prelude::*;
use vstd::std_specs::btree::{
    axiom_increasing_seq_meaning, group_btree_axioms, spec_btree_keys_iter,
};
use vstd::std_specs::cmp::OrdSpec;
use vstd::std_specs::iter::IteratorSpec;

verus! {

/// Each identifier is smaller than the next.
pub open spec fn strictly_ascending(ids: Seq<i64>) -> bool {
    forall|i: int, j: int| 0 <= i < j < ids.len() ==> ids[i] < ids[j]
}

/// `order` lists exactly the identifiers in `ids`, each once, smallest
/// first.
pub open spec fn lists_ascending(order: Seq<i64>, ids: Set<i64>) -> bool {
    strictly_ascending(order) && order.to_set() == ids
}

/// The identifiers in `ids`, each once, smallest first.
pub open spec fn ascending(ids: Set<i64>) -> Seq<i64> {
    choose|order: Seq<i64>| lists_ascending(order, ids)
}

/// A set has at most one ascending listing.
pub proof fn lemma_ascending_unique(first: Seq<i64>, second: Seq<i64>)
    requires
        strictly_ascending(first),
        strictly_ascending(second),
        first.to_set() == second.to_set(),
    ensures
        first == second,
    decreases first.len(),
{
    if first.len() == 0 {
        if second.len() > 0 {
            assert(second.to_set().contains(second[0]));
            assert(first.contains(second[0]));
        }
        assert(first =~= second);
    } else {
        let top = first.last();
        assert(first.to_set().contains(top));
        assert(second.contains(top));
        let at = choose|at: int| 0 <= at < second.len() && second[at] == top;
        if at < second.len() - 1 {
            let higher = second.last();
            assert(second.to_set().contains(higher));
            assert(first.contains(higher));
        }
        let shorter = first.drop_last();
        let other = second.drop_last();
        assert forall|id: i64| shorter.to_set().contains(id) <==> other.to_set().contains(
            id,
        ) by {
            if shorter.contains(id) {
                let k = choose|k: int| 0 <= k < shorter.len() && shorter[k] == id;
                assert(first[k] == id);
                assert(first.to_set().contains(id));
                assert(second.contains(id));
                let m = choose|m: int| 0 <= m < second.len() && second[m] == id;
                assert(other[m] == id);
            }
            if other.contains(id) {
                let k = choose|k: int| 0 <= k < other.len() && other[k] == id;
                assert(second[k] == id);
                assert(second.to_set().contains(id));
                assert(first.contains(id));
                let m = choose|m: int| 0 <= m < first.len() && first[m] == id;
                assert(shorter[m] == id);
            }
        }
        assert(shorter.to_set() =~= other.to_set());
        lemma_ascending_unique(shorter, other);
        assert(first =~= shorter.push(top));
        assert(second =~= other.push(top));
    }
}

/// A finite set that is not empty has a largest identifier.
proof fn lemma_largest(ids: Set<i64>) -> (top: i64)
    requires
        ids.finite(),
        ids.len() > 0,
    ensures
        ids.contains(top),
        forall|id: i64| ids.contains(id) ==> id <= top,
    decreases ids.len(),
{
    let any = ids.choose();
    let rest = ids.remove(any);
    if rest.len() == 0 {
        assert forall|id: i64| ids.contains(id) implies id <= any by {
            if id != any {
                assert(rest.contains(id));
            }
        }
        any
    } else {
        let top = lemma_largest(rest);
        if any > top {
            any
        } else {
            top
        }
    }
}

/// Every finite set has an ascending listing, so `ascending` lists it.
pub proof fn lemma_ascending_lists(ids: Set<i64>)
    requires
        ids.finite(),
    ensures
        lists_ascending(ascending(ids), ids),
    decreases ids.len(),
{
    if ids.len() == 0 {
        let order = Seq::<i64>::empty();
        assert(order.to_set() =~= ids);
        assert(lists_ascending(order, ids));
    } else {
        let top = lemma_largest(ids);
        let rest = ids.remove(top);
        lemma_ascending_lists(rest);
        let lower = ascending(rest);
        let order = lower.push(top);
        assert forall|i: int, j: int| 0 <= i < j < order.len() implies order[i] < order[j] by {
            if j == lower.len() {
                assert(lower.to_set().contains(lower[i]));
            }
        }
        assert forall|id: i64| order.to_set().contains(id) <==> ids.contains(id) by {
            if order.contains(id) {
                let k = choose|k: int| 0 <= k < order.len() && order[k] == id;
                if k < lower.len() {
                    assert(lower.to_set().contains(lower[k]));
                }
            }
            if ids.contains(id) {
                if id == top {
                    assert(order[lower.len() as int] == id);
                } else {
                    assert(lower.to_set().contains(id));
                    let k = choose|k: int| 0 <= k < lower.len() && lower[k] == id;
                    assert(order[k] == id);
                }
            }
        }
        assert(order.to_set() =~= ids);
        assert(lists_ascending(order, ids));
    }
}

/// Whatever lists a set in ascending order is its ascending listing.
pub proof fn lemma_ascending_is(order: Seq<i64>, ids: Set<i64>)
    requires
        lists_ascending(order, ids),
    ensures
        ascending(ids) == order,
{
    lemma_ascending_unique(ascending(ids), order);
}

/// The identifiers in `ids`, smallest first.
pub fn ascending_ids(ids: &BTreeSet<i64>) -> (order: Vec<i64>)
    ensures
        lists_ascending(order@, ids@),
        order@ == ascending(ids@),
{
    broadcast use group_btree_axioms;
    broadcast use vstd::laws_cmp::group_laws_cmp;

    let mut order: Vec<i64> = Vec::new();
    for id in walk: ids.iter()
        invariant
            order@.len() == walk.index(),
            walk.seq() == spec_btree_keys_iter(ids).remaining(),
            forall|i: int| 0 <= i < order@.len() ==> order@[i] == *walk.seq()[i],
    {
        order.push(*id);
    }
    proof {
        let keys = spec_btree_keys_iter(ids).remaining();
        assert(order@ =~= keys.unref());
        axiom_increasing_seq_meaning(keys);
        assert forall|i: int, j: int| 0 <= i < j < order@.len() implies order@[i] < order@[j] by {
            assert(OrdSpec::cmp_spec(&keys[i], &keys[j]) is Less);
        }
        lemma_ascending_is(order@, ids@);
    }
    order
}

} // verus!
