//! Ways, relations and the store that resolves references to them.

use crate::bound::GeoPoint;
use crate::style::tag_map;
use osmpbfreader::Tags;
use std::collections::BTreeMap;
use vstd::prelude::*;
use vstd::std_specs::btree::group_btree_axioms;

verus! {

/// A reference to a member of a relation: the kind of object and its
/// identifier within that kind.
#[derive(Clone, Copy, Debug, PartialEq, Eq, Structural)]
pub enum MemberRef {
    Node(i64),
    Way(i64),
    Relation(i64),
}

/// A polyline feature: the nodes it runs through, in drawing order. A node
/// may occur more than once.
#[derive(Debug, PartialEq, Eq)]
pub struct Way {
    pub id: i64,
    pub tags: Tags,
    pub nodes: Vec<i64>,
}

/// A container feature: its members, in drawing order.
#[derive(Debug, PartialEq, Eq)]
pub struct Relation {
    pub id: i64,
    pub tags: Tags,
    pub refs: Vec<MemberRef>,
}

/// The mathematical content of a [`Way`].
pub struct WayView {
    pub id: i64,
    pub tags: Map<Seq<char>, Seq<char>>,
    pub nodes: Seq<i64>,
}

/// The mathematical content of a [`Relation`].
pub struct RelationView {
    pub id: i64,
    pub tags: Map<Seq<char>, Seq<char>>,
    pub refs: Seq<MemberRef>,
}

impl View for Way {
    type V = WayView;

    open spec fn view(&self) -> WayView {
        WayView { id: self.id, tags: tag_map(self.tags), nodes: self.nodes@ }
    }
}

impl View for Relation {
    type V = RelationView;

    open spec fn view(&self) -> RelationView {
        RelationView { id: self.id, tags: tag_map(self.tags), refs: self.refs@ }
    }
}

/// The mathematical content of an [`ObjectStore`]: one finite mapping per
/// kind of object, from identifier to object.
pub struct StoreView {
    pub nodes: Map<i64, GeoPoint>,
    pub ways: Map<i64, WayView>,
    pub relations: Map<i64, RelationView>,
}

impl StoreView {
    /// Each of the three mappings holds finitely many objects.
    pub open spec fn finite(self) -> bool {
        &&& self.nodes.dom().finite()
        &&& self.ways.dom().finite()
        &&& self.relations.dom().finite()
    }

    /// Every way and relation is filed under its own identifier. A store
    /// that is filled through [`ObjectStore::insert_way`] and
    /// [`ObjectStore::insert_relation`] alone keeps this true.
    pub open spec fn filed_by_id(self) -> bool {
        &&& forall|id: i64| #[trigger] self.ways.contains_key(id) ==> self.ways[id].id == id
        &&& forall|id: i64| #[trigger]
            self.relations.contains_key(id) ==> self.relations[id].id == id
    }
}

/// The resolved objects that rendering reads: every node, way and relation
/// that a requested feature may refer to, found by kind and identifier.
pub struct ObjectStore {
    nodes: BTreeMap<i64, GeoPoint>,
    ways: BTreeMap<i64, Way>,
    relations: BTreeMap<i64, Relation>,
}

impl View for ObjectStore {
    type V = StoreView;

    closed spec fn view(&self) -> StoreView {
        StoreView {
            nodes: self.nodes@,
            ways: self.ways@.map_values(|w: Way| w@),
            relations: self.relations@.map_values(|r: Relation| r@),
        }
    }
}

impl ObjectStore {
    /// A store holds finitely many objects.
    pub proof fn lemma_finite(&self)
        ensures
            self@.finite(),
    {
        broadcast use group_btree_axioms;

        assert(self@.ways.dom() =~= self.ways@.dom());
        assert(self@.relations.dom() =~= self.relations@.dom());
    }

    /// A store that holds nothing.
    pub fn new() -> (store: ObjectStore)
        ensures
            store@.nodes == Map::<i64, GeoPoint>::empty(),
            store@.ways == Map::<i64, WayView>::empty(),
            store@.relations == Map::<i64, RelationView>::empty(),
    {
        let store = ObjectStore {
            nodes: BTreeMap::new(),
            ways: BTreeMap::new(),
            relations: BTreeMap::new(),
        };
        assert(store@.ways =~= Map::<i64, WayView>::empty());
        assert(store@.relations =~= Map::<i64, RelationView>::empty());
        store
    }

    /// Files the position of node `id`, in place of any filed before.
    pub fn insert_node(&mut self, id: i64, at: GeoPoint)
        ensures
            final(self)@.nodes == old(self)@.nodes.insert(id, at),
            final(self)@.ways == old(self)@.ways,
            final(self)@.relations == old(self)@.relations,
    {
        broadcast use group_btree_axioms;
        broadcast use vstd::laws_cmp::group_laws_cmp;

        self.nodes.insert(id, at);
    }

    /// Files `way` under its identifier, in place of any filed before.
    pub fn insert_way(&mut self, way: Way)
        ensures
            final(self)@.nodes == old(self)@.nodes,
            final(self)@.ways == old(self)@.ways.insert(way.id, way@),
            final(self)@.relations == old(self)@.relations,
    {
        broadcast use group_btree_axioms;
        broadcast use vstd::laws_cmp::group_laws_cmp;

        let ghost content = way@;
        let id = way.id;
        self.ways.insert(id, way);
        assert(self@.ways =~= old(self)@.ways.insert(id, content));
    }

    /// Files `relation` under its identifier, in place of any filed before.
    pub fn insert_relation(&mut self, relation: Relation)
        ensures
            final(self)@.nodes == old(self)@.nodes,
            final(self)@.ways == old(self)@.ways,
            final(self)@.relations == old(self)@.relations.insert(relation.id, relation@),
    {
        broadcast use group_btree_axioms;
        broadcast use vstd::laws_cmp::group_laws_cmp;

        let ghost content = relation@;
        let id = relation.id;
        self.relations.insert(id, relation);
        assert(self@.relations =~= old(self)@.relations.insert(id, content));
    }

    /// The position of node `id`, if the store holds that node.
    pub fn node(&self, id: i64) -> (found: Option<GeoPoint>)
        ensures
            found == if self@.nodes.contains_key(id) {
                Some(self@.nodes[id])
            } else {
                None
            },
    {
        broadcast use group_btree_axioms;
        broadcast use vstd::laws_cmp::group_laws_cmp;

        match self.nodes.get(&id) {
            Some(at) => Some(*at),
            None => None,
        }
    }

    /// Way `id`, if the store holds it.
    pub fn way(&self, id: i64) -> (found: Option<&Way>)
        ensures
            match found {
                Some(way) => self@.ways.contains_key(id) && way@ == self@.ways[id],
                None => !self@.ways.contains_key(id),
            },
    {
        broadcast use group_btree_axioms;
        broadcast use vstd::laws_cmp::group_laws_cmp;

        self.ways.get(&id)
    }

    /// Relation `id`, if the store holds it.
    pub fn relation(&self, id: i64) -> (found: Option<&Relation>)
        ensures
            match found {
                Some(relation) => self@.relations.contains_key(id) && relation@
                    == self@.relations[id],
                None => !self@.relations.contains_key(id),
            },
    {
        broadcast use group_btree_axioms;
        broadcast use vstd::laws_cmp::group_laws_cmp;

        self.relations.get(&id)
    }
}

} // verus!
