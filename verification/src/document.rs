//! The whole drawing: the requested features and the region they cover.

use crate::bound::{
    lemma_widen_all_concat, lemma_widen_all_smallest, widen_all, Bound, GeoPoint, Rect,
};
use crate::diagnostic::Diagnostic;
use crate::element::{
    elements_points, elements_view, lemma_elements_points_push, lemma_elements_view_push,
    ElementView, StyledElement,
};
use crate::objects::{MemberRef, ObjectStore, StoreView};
use crate::order::{ascending, ascending_ids};
use crate::render::{
    missing_nodes, relation_to_group, rendered_top_relation, rendered_way, way_to_path,
    Rendering,
};
use std::collections::BTreeSet;
use vstd::prelude::*;

verus! {

/// The two corners of the visible region, still in geographic coordinates.
/// Latitude grows northwards while a drawing's vertical axis grows
/// downwards, so the upper left corner has the largest latitude and the
/// smallest longitude, the lower right corner the smallest latitude and the
/// largest longitude.
#[derive(Clone, Copy, Debug, PartialEq, Eq, Structural)]
pub struct Corners {
    pub upper_left: GeoPoint,
    pub lower_right: GeoPoint,
}

/// The corners of the region that covers `extent`; none if nothing was
/// drawn.
pub open spec fn corners_of(extent: Option<Rect>) -> Option<Corners> {
    match extent {
        None => None,
        Some(r) => Some(
            Corners {
                upper_left: GeoPoint { decimicro_lat: r.lat_end, decimicro_lon: r.lon_start },
                lower_right: GeoPoint { decimicro_lat: r.lat_start, decimicro_lon: r.lon_end },
            },
        ),
    }
}

impl Corners {
    /// The rectangle between the two corners.
    pub open spec fn rect(self) -> Rect {
        Rect {
            lat_start: self.lower_right.decimicro_lat,
            lat_end: self.upper_left.decimicro_lat,
            lon_start: self.upper_left.decimicro_lon,
            lon_end: self.lower_right.decimicro_lon,
        }
    }
}

/// A drawing without points has no viewport. Any other drawing has one, and
/// it is tight: the rectangle between its corners contains every point
/// drawn, and every rectangle that does so encloses it.
pub proof fn lemma_viewport_tight(points: Seq<GeoPoint>)
    ensures
        corners_of(widen_all(None, points)) is None <==> points.len() == 0,
        corners_of(widen_all(None, points)) matches Some(corners) ==> {
            &&& corners.rect().ordered()
            &&& forall|i: int|
                0 <= i < points.len() ==> corners.rect().contains(#[trigger] points[i])
            &&& forall|other: Rect|
                (forall|i: int| 0 <= i < points.len() ==> other.contains(#[trigger] points[i]))
                    ==> #[trigger] other.encloses(corners.rect())
        },
{
    lemma_widen_all_smallest(None, points);
    if let Some(hull) = widen_all(None, points) {
        assert(corners_of(Some(hull))->0.rect() == hull);
    }
}

/// The corners of the visible region for a drawing that covers `bound`.
pub fn viewport_corners(bound: &Bound) -> (corners: Option<Corners>)
    ensures
        corners == corners_of(bound@),
{
    match bound.rect() {
        None => None,
        Some(r) => Some(
            Corners {
                upper_left: GeoPoint { decimicro_lat: r.lat_end, decimicro_lon: r.lon_start },
                lower_right: GeoPoint { decimicro_lat: r.lat_start, decimicro_lon: r.lon_end },
            },
        ),
    }
}

/// The relations and ways that a drawing is asked to show.
#[derive(Clone, Debug, PartialEq, Eq)]
pub struct Request {
    pub relations: BTreeSet<i64>,
    pub ways: BTreeSet<i64>,
}

/// The mathematical content of a [`Request`].
pub struct RequestView {
    pub relations: Set<i64>,
    pub ways: Set<i64>,
}

impl View for Request {
    type V = RequestView;

    open spec fn view(&self) -> RequestView {
        RequestView { relations: self.relations@, ways: self.ways@ }
    }
}

impl RequestView {
    /// Whether the request names `object` itself. Nodes are never named:
    /// they come in through the ways that run through them.
    pub open spec fn names(self, object: MemberRef) -> bool {
        match object {
            MemberRef::Node(_) => false,
            MemberRef::Way(id) => self.ways.contains(id),
            MemberRef::Relation(id) => self.relations.contains(id),
        }
    }
}

/// A finished drawing: its top-level elements, bottom-most first, and the
/// corners of the region they cover, if they hold any point at all.
#[derive(Debug, PartialEq, Eq)]
pub struct Document {
    pub elements: Vec<StyledElement>,
    pub viewport: Option<Corners>,
}

/// The mathematical content of a [`Document`].
pub struct DocumentView {
    pub elements: Seq<ElementView>,
    pub viewport: Option<Corners>,
}

impl View for Document {
    type V = DocumentView;

    open spec fn view(&self) -> DocumentView {
        DocumentView { elements: elements_view(self.elements@), viewport: self.viewport }
    }
}

/// What the requested relations `ids` render to, drawn in the order of
/// `ids`. One that the store lacks is reported and left out.
pub open spec fn rendered_relations(store: StoreView, ids: Seq<i64>) -> Rendering
    decreases ids.len(),
{
    if ids.len() == 0 {
        Rendering::nothing()
    } else {
        let before = rendered_relations(store, ids.drop_last());
        let id = ids.last();
        if store.relations.contains_key(id) {
            let rendering = rendered_top_relation(store, store.relations[id]);
            before.draw(ElementView::Group(rendering.group), rendering.log)
        } else {
            before.report(Diagnostic::RelationNotFound { relation: id })
        }
    }
}

/// What the requested ways `ids` render to, drawn in the order of `ids`.
/// One that the store lacks is reported and left out.
pub open spec fn rendered_ways(store: StoreView, ids: Seq<i64>) -> Rendering
    decreases ids.len(),
{
    if ids.len() == 0 {
        Rendering::nothing()
    } else {
        let before = rendered_ways(store, ids.drop_last());
        let id = ids.last();
        if store.ways.contains_key(id) {
            let way = store.ways[id];
            before.draw(
                ElementView::Path(rendered_way(store, way)),
                missing_nodes(store.nodes, way.nodes, way.id),
            )
        } else {
            before.report(Diagnostic::WayNotFound { way: id })
        }
    }
}

/// The elements of the drawing for `request`, and the reports made while
/// drawing them: first the relations by ascending identifier, then the ways
/// by ascending identifier.
pub open spec fn assembled(store: StoreView, request: RequestView) -> Rendering {
    let relations = rendered_relations(store, ascending(request.relations));
    let ways = rendered_ways(store, ascending(request.ways));
    Rendering {
        elements: relations.elements + ways.elements,
        log: relations.log + ways.log,
    }
}

impl Request {
    /// Whether the request names `object` itself.
    pub fn names(&self, object: MemberRef) -> (named: bool)
        ensures
            named == self@.names(object),
    {
        match object {
            MemberRef::Node(_) => false,
            MemberRef::Way(id) => set_holds(&self.ways, id),
            MemberRef::Relation(id) => set_holds(&self.relations, id),
        }
    }
}

/// Whether `ids` holds `id`.
fn set_holds(ids: &BTreeSet<i64>, id: i64) -> (held: bool)
    ensures
        held == ids@.contains(id),
{
    broadcast use vstd::std_specs::btree::group_btree_axioms;
    broadcast use vstd::laws_cmp::group_laws_cmp;

    ids.contains(&id)
}

/// Draws what `request` names: each relation, by ascending identifier, as
/// a group, then each way, by ascending identifier, as a path, so that of
/// two overlapping features the later one lies on top. A requested feature
/// that `store` lacks is reported to `log` and left out, as is every
/// reference inside a feature that cannot be followed. The viewport covers
/// exactly the points drawn.
pub fn assemble(store: &ObjectStore, request: &Request, log: &mut Vec<Diagnostic>) -> (document:
    Document)
    ensures
        document@.elements == assembled(store@, request@).elements,
        document.viewport == corners_of(
            widen_all(None, elements_points(document@.elements)),
        ),
        final(log)@ == old(log)@ + assembled(store@, request@).log,
{
    let mut bound = Bound::new();
    let mut elements: Vec<StyledElement> = Vec::new();
    let relations = ascending_ids(&request.relations);
    let ways = ascending_ids(&request.ways);
    let ghost none: Option<Rect> = None;
    assert(log@ == old(log)@ + Seq::<Diagnostic>::empty());
    let mut i: usize = 0;
    while i < relations.len()
        invariant
            i <= relations.len(),
            none is None,
            elements_view(elements@) == rendered_relations(
                store@,
                relations@.take(i as int),
            ).elements,
            log@ == old(log)@ + rendered_relations(store@, relations@.take(i as int)).log,
            bound@ == widen_all(none, elements_points(elements_view(elements@))),
        decreases relations.len() - i,
    {
        let id = relations[i];
        let ghost before = rendered_relations(store@, relations@.take(i as int));
        let ghost drawn = elements_view(elements@);
        assert(relations@.take(i + 1).drop_last() == relations@.take(i as int));
        match store.relation(id) {
            Some(relation) => {
                let group = relation_to_group(store, &mut bound, relation, log);
                let ghost reports = rendered_top_relation(store@, relation@).log;
                assert(log@ == old(log)@ + (before.log + reports));
                proof {
                    lemma_elements_view_push(elements@, StyledElement::Group(group));
                    lemma_elements_points_push(drawn, ElementView::Group(group@));
                    lemma_widen_all_concat(
                        none,
                        elements_points(drawn),
                        elements_points(group@.children),
                    );
                }
                elements.push(StyledElement::Group(group));
            },
            None => {
                let report = Diagnostic::RelationNotFound { relation: id };
                log.push(report);
                assert(log@ == old(log)@ + before.log.push(report));
            },
        }
        i += 1;
    }
    assert(relations@.take(i as int) == relations@);
    let ghost groups = rendered_relations(store@, relations@);
    let mut j: usize = 0;
    assert(elements_view(elements@) == groups.elements + Seq::<ElementView>::empty());
    assert(log@ == old(log)@ + (groups.log + Seq::<Diagnostic>::empty()));
    while j < ways.len()
        invariant
            j <= ways.len(),
            none is None,
            elements_view(elements@) == groups.elements + rendered_ways(
                store@,
                ways@.take(j as int),
            ).elements,
            log@ == old(log)@ + (groups.log + rendered_ways(store@, ways@.take(j as int)).log),
            bound@ == widen_all(none, elements_points(elements_view(elements@))),
        decreases ways.len() - j,
    {
        let id = ways[j];
        let ghost before = rendered_ways(store@, ways@.take(j as int));
        let ghost drawn = elements_view(elements@);
        assert(ways@.take(j + 1).drop_last() == ways@.take(j as int));
        match store.way(id) {
            Some(way) => {
                let path = way_to_path(store, &mut bound, way, log);
                let ghost reports = missing_nodes(store@.nodes, way@.nodes, way.id);
                assert(log@ == old(log)@ + (groups.log + (before.log + reports)));
                proof {
                    lemma_elements_view_push(elements@, StyledElement::Path(path));
                    lemma_elements_points_push(drawn, ElementView::Path(path@));
                    lemma_widen_all_concat(none, elements_points(drawn), path@.points);
                    assert(drawn.push(ElementView::Path(path@)) == groups.elements
                        + before.elements.push(ElementView::Path(path@)));
                }
                elements.push(StyledElement::Path(path));
            },
            None => {
                let report = Diagnostic::WayNotFound { way: id };
                log.push(report);
                assert(log@ == old(log)@ + (groups.log + before.log.push(report)));
            },
        }
        j += 1;
    }
    assert(ways@.take(j as int) == ways@);
    Document { elements, viewport: viewport_corners(&bound) }
}

} // verus!
