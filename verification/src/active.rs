//! The relations that are being rendered at one moment.

use std::collections::BTreeSet;
use vstd::prelude::*;
use vstd::std_specs::btree::group_btree_axioms;

verus! {

/// The identifiers of the relations that rendering has entered and not yet
/// left: the relation being rendered and those that contain it.
pub struct ActiveSet {
    ids: BTreeSet<i64>,
}

impl View for ActiveSet {
    type V = Set<i64>;

    closed spec fn view(&self) -> Set<i64> {
        self.ids@
    }
}

impl ActiveSet {
    /// The set that holds `id` alone.
    pub fn only(id: i64) -> (active: ActiveSet)
        ensures
            active@ == set![id],
    {
        broadcast use group_btree_axioms;
        broadcast use vstd::laws_cmp::group_laws_cmp;

        let mut ids: BTreeSet<i64> = BTreeSet::new();
        ids.insert(id);
        assert(ids@ =~= set![id]);
        ActiveSet { ids }
    }

    /// Whether relation `id` is being rendered.
    pub fn contains(&self, id: i64) -> (active: bool)
        ensures
            active == self@.contains(id),
    {
        broadcast use group_btree_axioms;
        broadcast use vstd::laws_cmp::group_laws_cmp;

        self.ids.contains(&id)
    }

    /// Records that rendering enters relation `id`.
    pub fn enter(&mut self, id: i64)
        ensures
            final(self)@ == old(self)@.insert(id),
    {
        broadcast use group_btree_axioms;
        broadcast use vstd::laws_cmp::group_laws_cmp;

        self.ids.insert(id);
    }

    /// Records that rendering leaves relation `id`.
    pub fn leave(&mut self, id: i64)
        ensures
            final(self)@ == old(self)@.remove(id),
    {
        broadcast use group_btree_axioms;
        broadcast use vstd::laws_cmp::group_laws_cmp;

        self.ids.remove(&id);
    }
}

} // verus!
