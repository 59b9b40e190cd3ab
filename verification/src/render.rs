//! Rendering of ways into paths and of relations into groups.

use crate::active::ActiveSet;
use crate::bound::{lemma_widen_all_concat, widen_all, Bound, GeoPoint};
use crate::diagnostic::Diagnostic;
use crate::element::{
    elements_points, elements_view, lemma_elements_points_push, lemma_elements_view_push,
    ElementView, Fill, GroupElement, GroupView, PathElement, PathView, StyledElement,
};
use crate::objects::{
    MemberRef, ObjectStore, Relation, RelationView, StoreView, Way, WayView,
};
use crate::style::{resolve_stroke, stroke_of_tags};
use vstd::prelude::*;

verus! {

/// The positions of those of `refs` that `nodes` holds, in the order of
/// `refs`.
pub open spec fn resolved_points(nodes: Map<i64, GeoPoint>, refs: Seq<i64>) -> Seq<GeoPoint> {
    refs.filter_map(|node: i64| nodes.get(node))
}

/// One report for each of `refs` that `nodes` lacks, in the order of `refs`.
pub open spec fn missing_nodes(nodes: Map<i64, GeoPoint>, refs: Seq<i64>, way: i64) -> Seq<
    Diagnostic,
> {
    refs.filter_map(
        |node: i64|
            if nodes.contains_key(node) {
                None
            } else {
                Some(Diagnostic::NodeNotFound { node, way })
            },
    )
}

/// Every node that a way runs through is either drawn or reported: none
/// is dropped in silence, and none is both.
pub proof fn lemma_nodes_accounted(nodes: Map<i64, GeoPoint>, refs: Seq<i64>, way: i64)
    ensures
        resolved_points(nodes, refs).len() + missing_nodes(nodes, refs, way).len() == refs.len(),
    decreases refs.len(),
{
    if refs.len() > 0 {
        lemma_nodes_accounted(nodes, refs.drop_last(), way);
    }
}

/// The path that a way renders to.
pub open spec fn rendered_way(store: StoreView, way: WayView) -> PathView {
    PathView {
        id: way.id,
        stroke: stroke_of_tags(way.tags),
        fill: Fill::Hollow,
        points: resolved_points(store.nodes, way.nodes),
    }
}

/// Renders `way` as a path through those of its nodes that `store` holds.
/// Each such node widens `bound`; each missing one is reported to `log` and
/// left out of the path.
pub fn way_to_path(
    store: &ObjectStore,
    bound: &mut Bound,
    way: &Way,
    log: &mut Vec<Diagnostic>,
) -> (path: PathElement)
    ensures
        path@ == rendered_way(store@, way@),
        final(bound)@ == widen_all(old(bound)@, path@.points),
        final(log)@ == old(log)@ + missing_nodes(store@.nodes, way@.nodes, way.id),
{
    let ghost nodes = store@.nodes;
    let ghost refs = way.nodes@;
    let ghost found = |node: i64| nodes.get(node);
    let ghost missed = |node: i64|
        if nodes.contains_key(node) {
            None
        } else {
            Some(Diagnostic::NodeNotFound { node, way: way.id })
        };
    let mut points: Vec<GeoPoint> = Vec::new();
    let mut i: usize = 0;
    while i < way.nodes.len()
        invariant
            i <= way.nodes.len(),
            refs == way.nodes@,
            nodes == store@.nodes,
            found == |node: i64| nodes.get(node),
            missed == |node: i64|
                if nodes.contains_key(node) {
                    None
                } else {
                    Some(Diagnostic::NodeNotFound { node, way: way.id })
                },
            points@ == refs.take(i as int).filter_map(found),
            bound@ == widen_all(old(bound)@, points@),
            log@ == old(log)@ + refs.take(i as int).filter_map(missed),
        decreases way.nodes.len() - i,
    {
        let node = way.nodes[i];
        proof {
            refs.lemma_filter_map_take_succ(found, i as int);
            refs.lemma_filter_map_take_succ(missed, i as int);
        }
        match store.node(node) {
            Some(at) => {
                bound.update(at);
                points.push(at);
                assert(points@.drop_last() == refs.take(i as int).filter_map(found));
            },
            None => {
                log.push(Diagnostic::NodeNotFound { node, way: way.id });
            },
        }
        i += 1;
    }
    assert(refs.take(i as int) == refs);
    PathElement { id: way.id, stroke: resolve_stroke(&way.tags), fill: Fill::Hollow, points }
}

/// What a list of features renders to: the elements drawn for them and the
/// reports made on the way, both in the order of the list.
pub struct Rendering {
    pub elements: Seq<ElementView>,
    pub log: Seq<Diagnostic>,
}

/// What a relation renders to: its group and the reports made on the way.
pub struct GroupRendering {
    pub group: GroupView,
    pub log: Seq<Diagnostic>,
}

impl Rendering {
    /// Nothing drawn, nothing reported.
    pub open spec fn nothing() -> Rendering {
        Rendering { elements: Seq::empty(), log: Seq::empty() }
    }

    /// The same elements, with one more report.
    pub open spec fn report(self, diagnostic: Diagnostic) -> Rendering {
        Rendering { elements: self.elements, log: self.log.push(diagnostic) }
    }

    /// One more element, and the reports made while it was drawn.
    pub open spec fn draw(self, element: ElementView, log: Seq<Diagnostic>) -> Rendering {
        Rendering { elements: self.elements.push(element), log: self.log + log }
    }
}

/// How many relations of `store` are not in `active`. It bounds the depth
/// to which relations can still be entered.
pub open spec fn unentered(store: StoreView, active: Set<i64>) -> nat {
    store.relations.dom().difference(active).len()
}

/// Entering a relation that the store holds and that is not yet active
/// leaves fewer relations to enter.
pub proof fn lemma_enter_decreases(store: StoreView, active: Set<i64>, id: i64)
    requires
        store.relations.dom().finite(),
        store.relations.contains_key(id),
        !active.contains(id),
    ensures
        unentered(store, active.insert(id)) < unentered(store, active),
{
    let before = store.relations.dom().difference(active);
    let after = store.relations.dom().difference(active.insert(id));
    assert(before.contains(id));
    assert(after =~= before.remove(id));
}

/// The group that `relation` renders to while the relations in `active`
/// are being rendered around it, and the reports made on the way.
pub open spec fn rendered_relation(
    store: StoreView,
    relation: RelationView,
    active: Set<i64>,
) -> GroupRendering
    decreases unentered(store, active), relation.refs.len() + 1,
    when store.relations.dom().finite()
{
    let members = rendered_members(store, relation, active, relation.refs.len());
    GroupRendering {
        group: GroupView {
            id: relation.id,
            stroke: stroke_of_tags(relation.tags),
            children: members.elements,
        },
        log: members.log,
    }
}

/// What the first `count` members of `relation` render to. A node draws
/// nothing. A way draws its path. A relation draws its group, unless it is
/// in `active`: then it is reported and left out. A member that the store
/// lacks is reported and left out.
pub open spec fn rendered_members(
    store: StoreView,
    relation: RelationView,
    active: Set<i64>,
    count: nat,
) -> Rendering
    decreases unentered(store, active), count,
    when store.relations.dom().finite()
{
    if count == 0 {
        Rendering::nothing()
    } else {
        let before = rendered_members(store, relation, active, (count - 1) as nat);
        let member = relation.refs[count - 1];
        let missing = Diagnostic::MemberNotFound { member, relation: relation.id };
        match member {
            MemberRef::Node(id) => if store.nodes.contains_key(id) {
                before
            } else {
                before.report(missing)
            },
            MemberRef::Way(id) => if store.ways.contains_key(id) {
                let way = store.ways[id];
                before.draw(
                    ElementView::Path(rendered_way(store, way)),
                    missing_nodes(store.nodes, way.nodes, way.id),
                )
            } else {
                before.report(missing)
            },
            MemberRef::Relation(id) => if !store.relations.contains_key(id) {
                before.report(missing)
            } else if active.contains(id) {
                before.report(Diagnostic::MemberCycle { entered: id, relation: relation.id })
            } else {
                proof {
                    lemma_enter_decreases(store, active, id);
                }
                let inner = rendered_relation(store, store.relations[id], active.insert(id));
                before.draw(ElementView::Group(inner.group), inner.log)
            },
        }
    }
}

/// Renders `relation` while the relations in `active` are being rendered
/// around it. `active` is the same after the call as before.
fn render_relation(
    store: &ObjectStore,
    bound: &mut Bound,
    relation: &Relation,
    active: &mut ActiveSet,
    log: &mut Vec<Diagnostic>,
) -> (group: GroupElement)
    ensures
        group@ == rendered_relation(store@, relation@, old(active)@).group,
        final(log)@ == old(log)@ + rendered_relation(store@, relation@, old(active)@).log,
        final(bound)@ == widen_all(old(bound)@, elements_points(group@.children)),
        final(active)@ == old(active)@,
    decreases unentered(store@, old(active)@),
{
    proof {
        store.lemma_finite();
    }
    let ghost entered = active@;
    let mut children: Vec<StyledElement> = Vec::new();
    let mut i: usize = 0;
    assert(log@ == old(log)@ + Seq::<Diagnostic>::empty());
    while i < relation.refs.len()
        invariant
            i <= relation.refs.len(),
            store@.finite(),
            active@ == entered,
            entered == old(active)@,
            elements_view(children@) == rendered_members(
                store@,
                relation@,
                entered,
                i as nat,
            ).elements,
            log@ == old(log)@ + rendered_members(store@, relation@, entered, i as nat).log,
            bound@ == widen_all(old(bound)@, elements_points(elements_view(children@))),
        decreases relation.refs.len() - i,
    {
        let member = relation.refs[i];
        let ghost before = rendered_members(store@, relation@, entered, i as nat);
        let ghost drawn = elements_view(children@);
        let missing = Diagnostic::MemberNotFound { member, relation: relation.id };
        match member {
            MemberRef::Node(id) => {
                if store.node(id).is_none() {
                    log.push(missing);
                    assert(log@ == old(log)@ + before.log.push(missing));
                }
            },
            MemberRef::Way(id) => {
                match store.way(id) {
                    Some(way) => {
                        let path = way_to_path(store, bound, way, log);
                        let ghost reports = missing_nodes(store@.nodes, way@.nodes, way.id);
                        assert(log@ == old(log)@ + (before.log + reports));
                        proof {
                            lemma_elements_view_push(children@, StyledElement::Path(path));
                            lemma_elements_points_push(drawn, ElementView::Path(path@));
                            lemma_widen_all_concat(
                                old(bound)@,
                                elements_points(drawn),
                                path@.points,
                            );
                        }
                        children.push(StyledElement::Path(path));
                    },
                    None => {
                        log.push(missing);
                        assert(log@ == old(log)@ + before.log.push(missing));
                    },
                }
            },
            MemberRef::Relation(id) => {
                match store.relation(id) {
                    None => {
                        log.push(missing);
                        assert(log@ == old(log)@ + before.log.push(missing));
                    },
                    Some(inner) => {
                        if active.contains(id) {
                            let cycle = Diagnostic::MemberCycle {
                                entered: id,
                                relation: relation.id,
                            };
                            log.push(cycle);
                            assert(log@ == old(log)@ + before.log.push(cycle));
                        } else {
                            proof {
                                lemma_enter_decreases(store@, entered, id);
                            }
                            active.enter(id);
                            let group = render_relation(store, bound, inner, active, log);
                            active.leave(id);
                            assert(active@ =~= entered);
                            let ghost reports = rendered_relation(
                                store@,
                                inner@,
                                entered.insert(id),
                            ).log;
                            assert(log@ == old(log)@ + (before.log + reports));
                            proof {
                                lemma_elements_view_push(children@, StyledElement::Group(group));
                                lemma_elements_points_push(drawn, ElementView::Group(group@));
                                lemma_widen_all_concat(
                                    old(bound)@,
                                    elements_points(drawn),
                                    elements_points(group@.children),
                                );
                            }
                            children.push(StyledElement::Group(group));
                        }
                    },
                }
            },
        }
        i += 1;
    }
    GroupElement { id: relation.id, stroke: resolve_stroke(&relation.tags), children }
}

/// The group that a relation renders to when nothing is being rendered
/// around it, and the reports made on the way.
pub open spec fn rendered_top_relation(store: StoreView, relation: RelationView) -> GroupRendering {
    rendered_relation(store, relation, set![relation.id])
}

/// Renders `relation` as a group of what its members render to, in member
/// order: a path for each way, a group for each relation, nothing for a
/// node. Every node of every path widens `bound`. A member that `store`
/// lacks is reported to `log` and left out, and so is a relation that is
/// listed, directly or through other relations, among its own members.
pub fn relation_to_group(
    store: &ObjectStore,
    bound: &mut Bound,
    relation: &Relation,
    log: &mut Vec<Diagnostic>,
) -> (group: GroupElement)
    ensures
        group@ == rendered_top_relation(store@, relation@).group,
        final(log)@ == old(log)@ + rendered_top_relation(store@, relation@).log,
        final(bound)@ == widen_all(old(bound)@, elements_points(group@.children)),
{
    let mut active = ActiveSet::only(relation.id);
    render_relation(store, bound, relation, &mut active, log)
}

} // verus!
