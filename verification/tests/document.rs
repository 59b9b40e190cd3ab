use osmpbfreader::Tags;
use osmsvg::bound::GeoPoint;
use osmsvg::diagnostic::Diagnostic;
use osmsvg::document::{assemble, Corners, Request};
use osmsvg::element::{Fill, GroupElement, PathElement, StyledElement};
use osmsvg::objects::{MemberRef, ObjectStore, Relation, Way};
use osmsvg::order::ascending_ids;
use std::collections::BTreeSet;

fn point(lat: i32, lon: i32) -> GeoPoint {
    GeoPoint { decimicro_lat: lat, decimicro_lon: lon }
}

fn request(relations: &[i64], ways: &[i64]) -> Request {
    Request {
        relations: relations.iter().copied().collect(),
        ways: ways.iter().copied().collect(),
    }
}

fn way(id: i64, nodes: &[i64]) -> Way {
    Way { id, tags: Tags::new(), nodes: nodes.to_vec() }
}

fn relation(id: i64, refs: &[MemberRef]) -> Relation {
    Relation { id, tags: Tags::new(), refs: refs.to_vec() }
}

fn line(id: i64, points: &[GeoPoint]) -> StyledElement {
    StyledElement::Path(PathElement {
        id,
        stroke: None,
        fill: Fill::Hollow,
        points: points.to_vec(),
    })
}

fn town() -> ObjectStore {
    let mut store = ObjectStore::new();
    store.insert_node(1, point(100, 900));
    store.insert_node(2, point(300, 700));
    store.insert_node(3, point(200, 800));
    store.insert_node(4, point(-50, 50));
    store.insert_way(way(10, &[1, 2, 3]));
    store.insert_way(way(11, &[3, 4]));
    store.insert_relation(relation(20, &[MemberRef::Way(11)]));
    store.insert_relation(relation(21, &[MemberRef::Way(10), MemberRef::Relation(20)]));
    store
}

#[test]
fn single_way_sets_viewport_to_its_own_bound() {
    let store = town();
    let mut log = Vec::new();
    let document = assemble(&store, &request(&[], &[10]), &mut log);
    assert_eq!(
        document.elements,
        vec![line(10, &[point(100, 900), point(300, 700), point(200, 800)])]
    );
    assert_eq!(
        document.viewport,
        Some(Corners { upper_left: point(300, 700), lower_right: point(100, 900) })
    );
    assert!(log.is_empty());
}

#[test]
fn nothing_requested_gives_empty_document_without_viewport() {
    let store = town();
    let mut log = Vec::new();
    let document = assemble(&store, &request(&[], &[]), &mut log);
    assert!(document.elements.is_empty());
    assert_eq!(document.viewport, None);
    assert!(log.is_empty());
}

#[test]
fn missing_relation_is_reported_and_others_are_drawn() {
    let store = town();
    let mut log = Vec::new();
    let document = assemble(&store, &request(&[20, 404], &[11]), &mut log);
    assert_eq!(
        document.elements,
        vec![
            StyledElement::Group(GroupElement {
                id: 20,
                stroke: None,
                children: vec![line(11, &[point(200, 800), point(-50, 50)])],
            }),
            line(11, &[point(200, 800), point(-50, 50)]),
        ]
    );
    assert_eq!(log, vec![Diagnostic::RelationNotFound { relation: 404 }]);
}

#[test]
fn missing_way_is_reported_and_others_are_drawn() {
    let store = town();
    let mut log = Vec::new();
    let document = assemble(&store, &request(&[], &[404, 11]), &mut log);
    assert_eq!(document.elements, vec![line(11, &[point(200, 800), point(-50, 50)])]);
    assert_eq!(log, vec![Diagnostic::WayNotFound { way: 404 }]);
    assert_eq!(
        document.viewport,
        Some(Corners { upper_left: point(200, 50), lower_right: point(-50, 800) })
    );
}

#[test]
fn relations_come_before_ways_each_by_ascending_identifier() {
    let store = town();
    let mut log = Vec::new();
    let document = assemble(&store, &request(&[21, 20], &[11, 10]), &mut log);
    let ids: Vec<i64> = document
        .elements
        .iter()
        .map(|element| match element {
            StyledElement::Path(path) => path.id,
            StyledElement::Group(group) => group.id,
        })
        .collect();
    assert_eq!(ids, vec![20, 21, 10, 11]);
    assert!(matches!(document.elements[0], StyledElement::Group(_)));
    assert!(matches!(document.elements[1], StyledElement::Group(_)));
    assert!(matches!(document.elements[2], StyledElement::Path(_)));
    assert!(matches!(document.elements[3], StyledElement::Path(_)));
}

#[test]
fn viewport_covers_everything_drawn_inside_relations() {
    let store = town();
    let mut log = Vec::new();
    let document = assemble(&store, &request(&[21], &[]), &mut log);
    assert_eq!(
        document.viewport,
        Some(Corners { upper_left: point(300, 50), lower_right: point(-50, 900) })
    );
}

#[test]
fn requested_features_without_points_leave_viewport_unset() {
    let mut store = ObjectStore::new();
    store.insert_way(way(10, &[1, 2]));
    store.insert_relation(relation(20, &[MemberRef::Node(1)]));
    let mut log = Vec::new();
    let document = assemble(&store, &request(&[20], &[10]), &mut log);
    assert_eq!(
        document.elements,
        vec![
            StyledElement::Group(GroupElement { id: 20, stroke: None, children: vec![] }),
            line(10, &[]),
        ]
    );
    assert_eq!(document.viewport, None);
    assert_eq!(
        log,
        vec![
            Diagnostic::MemberNotFound { member: MemberRef::Node(1), relation: 20 },
            Diagnostic::NodeNotFound { node: 1, way: 10 },
            Diagnostic::NodeNotFound { node: 2, way: 10 },
        ]
    );
}

#[test]
fn reports_follow_what_was_logged_before() {
    let store = town();
    let mut log = vec![Diagnostic::WayNotFound { way: 1 }];
    assemble(&store, &request(&[7], &[8]), &mut log);
    assert_eq!(
        log,
        vec![
            Diagnostic::WayNotFound { way: 1 },
            Diagnostic::RelationNotFound { relation: 7 },
            Diagnostic::WayNotFound { way: 8 },
        ]
    );
}

#[test]
fn requested_cycle_is_drawn_once_from_each_entry() {
    let mut store = town();
    store.insert_relation(relation(30, &[MemberRef::Relation(31), MemberRef::Way(11)]));
    store.insert_relation(relation(31, &[MemberRef::Relation(30)]));
    let mut log = Vec::new();
    let document = assemble(&store, &request(&[30], &[]), &mut log);
    assert_eq!(
        document.elements,
        vec![StyledElement::Group(GroupElement {
            id: 30,
            stroke: None,
            children: vec![
                StyledElement::Group(GroupElement { id: 31, stroke: None, children: vec![] }),
                line(11, &[point(200, 800), point(-50, 50)]),
            ],
        })]
    );
    assert_eq!(log, vec![Diagnostic::MemberCycle { entered: 30, relation: 31 }]);
}

#[test]
fn request_names_only_its_ways_and_relations() {
    let wanted = request(&[20], &[10]);
    assert!(wanted.names(MemberRef::Way(10)));
    assert!(wanted.names(MemberRef::Relation(20)));
    assert!(!wanted.names(MemberRef::Way(20)));
    assert!(!wanted.names(MemberRef::Relation(10)));
    assert!(!wanted.names(MemberRef::Node(10)));
    assert!(!wanted.names(MemberRef::Node(20)));
}

#[test]
fn identifiers_are_listed_smallest_first() {
    let ids: BTreeSet<i64> = [5, -3, 9, 0, i64::MIN, i64::MAX, 5].into_iter().collect();
    assert_eq!(ascending_ids(&ids), vec![i64::MIN, -3, 0, 5, 9, i64::MAX]);
    assert_eq!(ascending_ids(&BTreeSet::new()), Vec::<i64>::new());
}
