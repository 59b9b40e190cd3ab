//! Stores whose relations do not contain themselves.

use crate::diagnostic::Diagnostic;
use crate::objects::{MemberRef, StoreView};
use crate::render::{
    missing_nodes, rendered_members, rendered_relation, rendered_top_relation, unentered,
    lemma_enter_decreases,
};
use vstd::prelude::*;

verus! {

/// `rank` numbers the relations so that every relation that `store` holds
/// and that is listed as a member has a smaller number than the relation
/// that lists it.
pub open spec fn ranks(store: StoreView, rank: spec_fn(i64) -> nat) -> bool {
    forall|outer: i64, k: int|
        store.relations.contains_key(outer) && 0 <= k < store.relations[outer].refs.len() ==> (
        #[trigger] store.relations[outer].refs[k] matches MemberRef::Relation(inner)
            ==> store.relations.contains_key(inner) ==> rank(inner) < rank(outer))
}

/// No relation of `store` is, directly or through other relations, a member
/// of itself.
pub open spec fn acyclic(store: StoreView) -> bool {
    exists|rank: spec_fn(i64) -> nat| ranks(store, rank)
}

/// None of the reports says that a relation was cut off.
pub open spec fn reports_no_cycle(log: Seq<Diagnostic>) -> bool {
    forall|i: int| 0 <= i < log.len() ==> !(#[trigger] log[i] is MemberCycle)
}

proof fn lemma_reports_no_cycle_concat(first: Seq<Diagnostic>, second: Seq<Diagnostic>)
    requires
        reports_no_cycle(first),
        reports_no_cycle(second),
    ensures
        reports_no_cycle(first + second),
{
    assert forall|i: int| 0 <= i < (first + second).len() implies !(#[trigger] (first
        + second)[i] is MemberCycle) by {
        if i < first.len() {
            assert((first + second)[i] == first[i]);
        } else {
            assert((first + second)[i] == second[i - first.len()]);
        }
    }
}

proof fn lemma_missing_nodes_report_no_cycle(
    nodes: Map<i64, crate::bound::GeoPoint>,
    refs: Seq<i64>,
    way: i64,
)
    ensures
        reports_no_cycle(missing_nodes(nodes, refs, way)),
    decreases refs.len(),
{
    if refs.len() > 0 {
        lemma_missing_nodes_report_no_cycle(nodes, refs.drop_last(), way);
        if !nodes.contains_key(refs.last()) {
            lemma_reports_no_cycle_concat(
                missing_nodes(nodes, refs.drop_last(), way),
                seq![Diagnostic::NodeNotFound { node: refs.last(), way }],
            );
        }
    }
}

proof fn lemma_members_report_no_cycle(
    store: StoreView,
    rank: spec_fn(i64) -> nat,
    id: i64,
    active: Set<i64>,
    count: nat,
)
    requires
        store.relations.dom().finite(),
        ranks(store, rank),
        store.relations.contains_key(id),
        forall|a: i64| active.contains(a) ==> rank(id) <= rank(a),
        count <= store.relations[id].refs.len(),
    ensures
        reports_no_cycle(rendered_members(store, store.relations[id], active, count).log),
    decreases unentered(store, active), count,
{
    let relation = store.relations[id];
    if count > 0 {
        lemma_members_report_no_cycle(store, rank, id, active, (count - 1) as nat);
        let before = rendered_members(store, relation, active, (count - 1) as nat);
        let member = relation.refs[count - 1];
        let missing = seq![Diagnostic::MemberNotFound { member, relation: relation.id }];
        assert(before.log.push(missing[0]) == before.log + missing);
        lemma_reports_no_cycle_concat(before.log, missing);
        match member {
            MemberRef::Node(_) => {},
            MemberRef::Way(way) => {
                if store.ways.contains_key(way) {
                    let found = store.ways[way];
                    lemma_missing_nodes_report_no_cycle(store.nodes, found.nodes, found.id);
                    lemma_reports_no_cycle_concat(
                        before.log,
                        missing_nodes(store.nodes, found.nodes, found.id),
                    );
                }
            },
            MemberRef::Relation(inner) => {
                if store.relations.contains_key(inner) {
                    assert(rank(inner) < rank(id));
                    assert(!active.contains(inner));
                    lemma_enter_decreases(store, active, inner);
                    lemma_members_report_no_cycle(
                        store,
                        rank,
                        inner,
                        active.insert(inner),
                        store.relations[inner].refs.len(),
                    );
                    lemma_reports_no_cycle_concat(
                        before.log,
                        rendered_relation(store, store.relations[inner], active.insert(inner)).log,
                    );
                }
            },
        }
    }
}

/// Rendering a relation of a store without cycles never cuts a member off:
/// every relation that the store holds is drawn wherever it is listed.
pub proof fn lemma_acyclic_reports_no_cycle(store: StoreView, id: i64)
    requires
        store.relations.dom().finite(),
        store.filed_by_id(),
        acyclic(store),
        store.relations.contains_key(id),
    ensures
        reports_no_cycle(rendered_top_relation(store, store.relations[id]).log),
{
    let rank = choose|rank: spec_fn(i64) -> nat| ranks(store, rank);
    let relation = store.relations[id];
    lemma_members_report_no_cycle(store, rank, id, set![id], relation.refs.len());
}

} // verus!
