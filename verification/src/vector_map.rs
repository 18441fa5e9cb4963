//! The feature graph: identifiers, vertices, edges and the primitive
//! operations that add, remove and look them up.

use crate::keys::{
    ascending, lemma_joined_contains, lemma_push_fresh, lemma_take_next, lists, rising,
    sorted_keys,
};
use std::collections::BTreeMap;
use vstd::prelude::*;

verus! {

/// A point of the plane. The scalar type `C` is chosen by the caller; the
/// library only stores and copies coordinates.
#[derive(Debug, PartialEq)]
pub struct Coord2D<C> {
    pub x: C,
    pub y: C,
}

impl<C: Copy> Clone for Coord2D<C> {
    fn clone(&self) -> (r: Self)
        ensures
            r == *self,
    {
        *self
    }
}

impl<C: Copy> Copy for Coord2D<C> {

}

impl<C> Coord2D<C> {
    pub fn new(x: C, y: C) -> (c: Self)
        ensures
            c == (Coord2D { x, y }),
    {
        Coord2D { x, y }
    }
}

/// A corner: a point feature with its identifier.
#[derive(Debug, PartialEq)]
pub struct Vertex<C> {
    pub id: usize,
    pub position: Coord2D<C>,
}

impl<C: Copy> Clone for Vertex<C> {
    fn clone(&self) -> (r: Self)
        ensures
            r == *self,
    {
        *self
    }
}

impl<C: Copy> Copy for Vertex<C> {

}

impl<C> Vertex<C> {
    pub fn new(id: usize, position: Coord2D<C>) -> (v: Self)
        ensures
            v == (Vertex { id, position }),
    {
        Vertex { id, position }
    }
}

/// A wall segment between two vertices, which it names by their identifiers.
/// The order of the two ends is kept as given.
#[derive(Clone, Copy, Debug, PartialEq, Eq, Structural)]
pub struct Edge {
    pub id: usize,
    pub vertex_id_a: usize,
    pub vertex_id_b: usize,
}

impl Edge {
    pub fn new(id: usize, vertex_id_a: usize, vertex_id_b: usize) -> (e: Self)
        ensures
            e == (Edge { id, vertex_id_a, vertex_id_b }),
    {
        Edge { id, vertex_id_a, vertex_id_b }
    }

    /// Whether one of the two ends is the vertex `v`.
    pub open spec fn touches(self, v: usize) -> bool {
        self.vertex_id_a == v || self.vertex_id_b == v
    }

    /// Whether both ends are the same vertex.
    pub open spec fn is_self_loop(self) -> bool {
        self.vertex_id_a == self.vertex_id_b
    }

    /// The edge with each end that was `gone` moved to `kept`.
    pub open spec fn redirect(self, gone: usize, kept: usize) -> Edge {
        Edge {
            id: self.id,
            vertex_id_a: if self.vertex_id_a == gone {
                kept
            } else {
                self.vertex_id_a
            },
            vertex_id_b: if self.vertex_id_b == gone {
                kept
            } else {
                self.vertex_id_b
            },
        }
    }

    /// Whether the edge ends in `gone` and would, with that end moved to
    /// `kept`, join `kept` to itself.
    pub open spec fn collapses(self, gone: usize, kept: usize) -> bool {
        self.touches(gone) && self.redirect(gone, kept).is_self_loop()
    }
}

/// A piece of text put on the map. It takes no part in the geometry: no
/// operation on vertices and edges touches it.
#[derive(Debug, PartialEq)]
pub struct Label<C> {
    pub id: usize,
    pub text: String,
    pub position: Coord2D<C>,
    pub size: C,
    pub is_braille: bool,
}

impl<C: Copy> Clone for Label<C> {
    fn clone(&self) -> (r: Self)
        ensures
            r == *self,
    {
        Label {
            id: self.id,
            text: self.text.clone(),
            position: self.position,
            size: self.size,
            is_braille: self.is_braille,
        }
    }
}

/// The vertices and edges of a map as two lists: what a map can be built
/// from, and what it reports of itself.
#[derive(Debug, PartialEq)]
pub struct VerticesAndEdges<C> {
    pub vertices: Vec<Vertex<C>>,
    pub edges: Vec<Edge>,
}

/// Why an operation on the map was refused.
#[derive(Clone, Copy, Debug, PartialEq, Eq, Structural)]
pub enum MapError {
    /// An edge was to join a vertex that the map does not hold.
    InvalidReference,
    /// Two features were to have one identifier.
    DuplicateId,
    /// The identifier names no feature of the kind asked for.
    LookupMiss,
}

/// The mathematical content of a [`VectorMap`]: which vertices, edges and
/// labels it holds, each under its identifier, and how many identifiers it
/// has handed out so far.
pub struct GraphModel<C> {
    pub vertices: Map<usize, Vertex<C>>,
    pub edges: Map<usize, Edge>,
    pub labels: Map<usize, Label<C>>,
    pub allocated: nat,
}

impl<C> GraphModel<C> {
    /// The map that holds nothing and has handed out no identifier.
    pub open spec fn empty() -> Self {
        GraphModel { vertices: Map::empty(), edges: Map::empty(), labels: Map::empty(), allocated: 0 }
    }

    /// Whether `id` names a feature, of whatever kind.
    pub open spec fn is_live(self, id: usize) -> bool {
        self.vertices.contains_key(id) || self.edges.contains_key(id) || self.labels.contains_key(
            id,
        )
    }

    /// Every feature is stored under its own identifier, no identifier in use
    /// is above the last that was handed out, and no identifier names two
    /// features of different kinds.
    pub open spec fn wf(self) -> bool {
        &&& self.vertices.dom().finite()
        &&& self.edges.dom().finite()
        &&& self.labels.dom().finite()
        &&& forall|k: usize| #[trigger]
            self.vertices.contains_key(k) ==> self.vertices[k].id == k && k <= self.allocated
        &&& forall|k: usize| #[trigger]
            self.edges.contains_key(k) ==> self.edges[k].id == k && k <= self.allocated
        &&& forall|k: usize| #[trigger]
            self.labels.contains_key(k) ==> self.labels[k].id == k && k <= self.allocated
        &&& forall|k: usize|
            !(#[trigger] self.vertices.contains_key(k) && #[trigger] self.edges.contains_key(k))
        &&& forall|k: usize|
            !(#[trigger] self.vertices.contains_key(k) && #[trigger] self.labels.contains_key(k))
        &&& forall|k: usize|
            !(#[trigger] self.edges.contains_key(k) && #[trigger] self.labels.contains_key(k))
    }

    /// The identifier that the next insertion gets.
    pub open spec fn next_id(self) -> nat {
        self.allocated + 1
    }

    /// Whether some edge runs from `a` to `b`, in that order.
    pub open spec fn has_edge(self, a: usize, b: usize) -> bool {
        exists|k: usize| #[trigger]
            self.edges.contains_key(k) && self.edges[k].vertex_id_a == a
                && self.edges[k].vertex_id_b == b
    }

    /// Whether both ends of every edge are vertices of the map.
    pub open spec fn edges_resolve(self) -> bool {
        forall|k: usize| #[trigger]
            self.edges.contains_key(k) ==> self.vertices.contains_key(self.edges[k].vertex_id_a)
                && self.vertices.contains_key(self.edges[k].vertex_id_b)
    }

    /// The map after a vertex at `position` was added.
    pub open spec fn add_vertex(self, position: Coord2D<C>) -> Self
        recommends
            self.next_id() <= usize::MAX,
    {
        let id = self.next_id() as usize;
        GraphModel {
            vertices: self.vertices.insert(id, Vertex { id, position }),
            edges: self.edges,
            labels: self.labels,
            allocated: self.next_id(),
        }
    }

    /// The map after the vertex `id` was taken out. Edges are left as they
    /// are, also those that end in `id`.
    pub open spec fn remove_vertex(self, id: usize) -> Self {
        GraphModel {
            vertices: self.vertices.remove(id),
            edges: self.edges,
            labels: self.labels,
            allocated: self.allocated,
        }
    }

    /// Whether `add_edge(a, b)` is refused: one of the two is no vertex.
    pub open spec fn edge_refused(self, a: usize, b: usize) -> bool {
        !self.vertices.contains_key(a) || !self.vertices.contains_key(b)
    }

    /// The map after an edge from `a` to `b` was asked for: unchanged where
    /// the request is refused or such an edge is there already.
    pub open spec fn add_edge(self, a: usize, b: usize) -> Self
        recommends
            self.next_id() <= usize::MAX,
    {
        if self.edge_refused(a, b) || self.has_edge(a, b) {
            self
        } else {
            let id = self.next_id() as usize;
            GraphModel {
                vertices: self.vertices,
                edges: self.edges.insert(id, Edge { id, vertex_id_a: a, vertex_id_b: b }),
                labels: self.labels,
                allocated: self.next_id(),
            }
        }
    }

    /// The map after the edge `id` was taken out.
    pub open spec fn remove_edge(self, id: usize) -> Self {
        GraphModel {
            vertices: self.vertices,
            edges: self.edges.remove(id),
            labels: self.labels,
            allocated: self.allocated,
        }
    }

    /// The map after a label was added.
    pub open spec fn add_label(
        self,
        text: String,
        position: Coord2D<C>,
        size: C,
        is_braille: bool,
    ) -> Self
        recommends
            self.next_id() <= usize::MAX,
    {
        let id = self.next_id() as usize;
        GraphModel {
            vertices: self.vertices,
            edges: self.edges,
            labels: self.labels.insert(id, Label { id, text, position, size, is_braille }),
            allocated: self.next_id(),
        }
    }

    /// The map after the label `id` was taken out.
    pub open spec fn remove_label(self, id: usize) -> Self {
        GraphModel {
            vertices: self.vertices,
            edges: self.edges,
            labels: self.labels.remove(id),
            allocated: self.allocated,
        }
    }

    /// The map after the vertex `id` was put at `position`: unchanged where
    /// `id` is no vertex.
    pub open spec fn move_vertex(self, id: usize, position: Coord2D<C>) -> Self {
        if self.vertices.contains_key(id) {
            GraphModel {
                vertices: self.vertices.insert(id, Vertex { id, position }),
                edges: self.edges,
                labels: self.labels,
                allocated: self.allocated,
            }
        } else {
            self
        }
    }

    /// Whether the vertex `gone` can be merged into `kept`: both are vertices
    /// of the map, and not the same one.
    pub open spec fn can_absorb(self, kept: usize, gone: usize) -> bool {
        kept != gone && self.vertices.contains_key(kept) && self.vertices.contains_key(gone)
    }

    /// The map after the vertex `gone` was merged into `kept`: `gone` has
    /// left, every edge that ended in `gone` now ends in `kept` and has kept
    /// its identifier and its other end, and an edge that would join `kept` to
    /// itself that way has left too. All else is as before.
    pub open spec fn absorb(self, kept: usize, gone: usize) -> Self {
        GraphModel {
            vertices: self.vertices.remove(gone),
            edges: Map::new(
                |k: usize| self.edges.contains_key(k) && !self.edges[k].collapses(gone, kept),
                |k: usize| self.edges[k].redirect(gone, kept),
            ),
            labels: self.labels,
            allocated: self.allocated,
        }
    }
}

/// The identifiers of the vertices `vertices`, in their order.
pub open spec fn vertex_ids_of<C>(vertices: Seq<Vertex<C>>) -> Seq<usize> {
    vertices.map_values(|v: Vertex<C>| v.id)
}

/// The identifiers of the edges `edges`, in their order.
pub open spec fn edge_ids_of(edges: Seq<Edge>) -> Seq<usize> {
    edges.map_values(|e: Edge| e.id)
}

/// The largest of `ids`, and 0 where there is none.
pub open spec fn max_id(ids: Seq<usize>) -> nat
    decreases ids.len(),
{
    if ids.len() == 0 {
        0
    } else if ids.last() > max_id(ids.drop_last()) {
        ids.last() as nat
    } else {
        max_id(ids.drop_last())
    }
}

impl<C> GraphModel<C> {
    /// Whether the features given can make up a map: no two of them, vertex
    /// or edge, have one identifier.
    pub open spec fn distinct(vertices: Seq<Vertex<C>>, edges: Seq<Edge>) -> bool {
        (vertex_ids_of(vertices) + edge_ids_of(edges)).no_duplicates()
    }

    /// Whether both ends of each of `edges` are among `vertices`.
    pub open spec fn joined(vertices: Seq<Vertex<C>>, edges: Seq<Edge>) -> bool {
        forall|i: int|
            0 <= i < edges.len() ==> vertex_ids_of(vertices).contains(
                (#[trigger] edges[i]).vertex_id_a,
            ) && vertex_ids_of(vertices).contains(edges[i].vertex_id_b)
    }

    /// The map that holds just the vertices and edges given, each under the
    /// identifier it comes with, and no label, and in which the largest of these identifiers counts as
    /// the last that was handed out.
    pub open spec fn holding(vertices: Seq<Vertex<C>>, edges: Seq<Edge>) -> Self {
        GraphModel {
            vertices: Map::new(
                |k: usize| vertex_ids_of(vertices).contains(k),
                |k: usize| vertices[vertex_ids_of(vertices).index_of(k)],
            ),
            edges: Map::new(
                |k: usize| edge_ids_of(edges).contains(k),
                |k: usize| edges[edge_ids_of(edges).index_of(k)],
            ),
            labels: Map::empty(),
            allocated: max_id(vertex_ids_of(vertices) + edge_ids_of(edges)),
        }
    }
}

/// No element of a list is above the list's largest.
pub proof fn lemma_max_id_bounds(ids: Seq<usize>)
    ensures
        forall|i: int| 0 <= i < ids.len() ==> ids[i] <= max_id(ids),
        max_id(ids) <= usize::MAX,
    decreases ids.len(),
{
    if ids.len() > 0 {
        lemma_max_id_bounds(ids.drop_last());
        assert forall|i: int| 0 <= i < ids.len() implies ids[i] <= max_id(ids) by {
            if i < ids.len() - 1 {
                assert(ids.drop_last()[i] == ids[i]);
            }
        }
    }
}

/// The largest of a list is one of the list, unless there is none.
pub proof fn lemma_max_id_is_member(ids: Seq<usize>)
    ensures
        ids.len() > 0 ==> ids.contains(max_id(ids) as usize),
        ids.len() == 0 ==> max_id(ids) == 0,
    decreases ids.len(),
{
    if ids.len() > 0 {
        lemma_max_id_is_member(ids.drop_last());
        lemma_max_id_bounds(ids.drop_last());
        if ids.last() > max_id(ids.drop_last()) {
            assert(ids[ids.len() - 1] == max_id(ids));
        } else if ids.len() > 1 {
            let j = choose|j: int|
                0 <= j < ids.drop_last().len() && ids.drop_last()[j] == max_id(ids.drop_last());
            assert(ids[j] == max_id(ids));
        } else {
            assert(ids[0] == max_id(ids));
        }
    }
}

/// A map can be built again from a listing of its features: listed by rising
/// identifier, the vertices and edges of a valid map share no identifier and
/// make up a map with the same vertices and edges, which has handed out no
/// more identifiers than the first.
pub proof fn lemma_listing_rebuilds<C>(g: GraphModel<C>, vids: Seq<usize>, eids: Seq<usize>)
    requires
        g.wf(),
        rising(vids),
        lists(vids, g.vertices.dom()),
        rising(eids),
        lists(eids, g.edges.dom()),
    ensures
        ({
            let vs = vids.map_values(|k: usize| g.vertices[k]);
            let es = eids.map_values(|k: usize| g.edges[k]);
            &&& GraphModel::distinct(vs, es)
            &&& GraphModel::holding(vs, es).vertices == g.vertices
            &&& GraphModel::holding(vs, es).edges == g.edges
            &&& GraphModel::holding(vs, es).allocated <= g.allocated
            &&& g.edges_resolve() ==> GraphModel::joined(vs, es)
        }),
{
    let vs = vids.map_values(|k: usize| g.vertices[k]);
    let es = eids.map_values(|k: usize| g.edges[k]);
    assert(vertex_ids_of(vs) =~= vids) by {
        assert forall|i: int| 0 <= i < vids.len() implies vertex_ids_of(vs)[i] == vids[i] by {
            assert(vids.contains(vids[i]));
        }
    }
    assert(edge_ids_of(es) =~= eids) by {
        assert forall|i: int| 0 <= i < eids.len() implies edge_ids_of(es)[i] == eids[i] by {
            assert(eids.contains(eids[i]));
        }
    }
    let all = vids + eids;
    assert forall|a: int, b: int| 0 <= a < b < all.len() implies all[a] != all[b] by {
        if b < vids.len() {
            assert(vids[a] < vids[b]);
        } else if a >= vids.len() {
            assert(eids[a - vids.len()] < eids[b - vids.len()]);
        } else {
            assert(vids.contains(vids[a]));
            assert(eids.contains(eids[b - vids.len()]));
        }
    }
    let built = GraphModel::holding(vs, es);
    assert forall|k: usize| #[trigger] built.vertices.contains_key(k) implies built.vertices[k]
        == g.vertices[k] by {
        let j = vids.index_of(k);
        assert(vs[j] == g.vertices[vids[j]]);
    }
    assert(built.vertices =~= g.vertices);
    assert forall|k: usize| #[trigger] built.edges.contains_key(k) implies built.edges[k]
        == g.edges[k] by {
        let j = eids.index_of(k);
        assert(es[j] == g.edges[eids[j]]);
    }
    assert(built.edges =~= g.edges);
    lemma_max_id_is_member(all);
    lemma_max_id_bounds(all);
    assert(built.allocated == max_id(all));
    if all.len() > 0 {
        let top = max_id(all) as usize;
        lemma_joined_contains(vids, eids);
        assert(vids.contains(top) || eids.contains(top));
        assert(g.vertices.contains_key(top) || g.edges.contains_key(top));
    }
    if g.edges_resolve() {
        assert forall|i: int| 0 <= i < es.len() implies vertex_ids_of(vs).contains(
            (#[trigger] es[i]).vertex_id_a,
        ) && vertex_ids_of(vs).contains(es[i].vertex_id_b) by {
            assert(eids.contains(eids[i]));
            assert(g.edges.contains_key(eids[i]));
        }
    }
}

/// One primitive change to a map.
pub enum Operation<C> {
    AddVertex(Coord2D<C>),
    RemoveVertex(usize),
    AddEdge(usize, usize),
    RemoveEdge(usize),
    AddLabel(String, Coord2D<C>, C, bool),
    RemoveLabel(usize),
}

impl<C> GraphModel<C> {
    /// No two features share an identifier: two vertices with one identifier
    /// are one vertex, likewise two edges and two labels, and no two features
    /// of different kinds have one identifier.
    pub open spec fn ids_unique(self) -> bool {
        &&& forall|j: usize, k: usize|
            #![trigger self.vertices[j], self.vertices[k]]
            self.vertices.contains_key(j) && self.vertices.contains_key(k) && self.vertices[j].id
                == self.vertices[k].id ==> j == k
        &&& forall|j: usize, k: usize|
            #![trigger self.edges[j], self.edges[k]]
            self.edges.contains_key(j) && self.edges.contains_key(k) && self.edges[j].id
                == self.edges[k].id ==> j == k
        &&& forall|j: usize, k: usize|
            #![trigger self.labels[j], self.labels[k]]
            self.labels.contains_key(j) && self.labels.contains_key(k) && self.labels[j].id
                == self.labels[k].id ==> j == k
        &&& forall|j: usize, k: usize|
            #![trigger self.vertices[j], self.edges[k]]
            self.vertices.contains_key(j) && self.edges.contains_key(k) ==> self.vertices[j].id
                != self.edges[k].id
        &&& forall|j: usize, k: usize|
            #![trigger self.vertices[j], self.labels[k]]
            self.vertices.contains_key(j) && self.labels.contains_key(k) ==> self.vertices[j].id
                != self.labels[k].id
        &&& forall|j: usize, k: usize|
            #![trigger self.edges[j], self.labels[k]]
            self.edges.contains_key(j) && self.labels.contains_key(k) ==> self.edges[j].id
                != self.labels[k].id
    }

    /// The map after one primitive change.
    pub open spec fn apply(self, op: Operation<C>) -> Self {
        match op {
            Operation::AddVertex(position) => self.add_vertex(position),
            Operation::RemoveVertex(id) => self.remove_vertex(id),
            Operation::AddEdge(a, b) => self.add_edge(a, b),
            Operation::RemoveEdge(id) => self.remove_edge(id),
            Operation::AddLabel(text, position, size, is_braille) => self.add_label(
                text,
                position,
                size,
                is_braille,
            ),
            Operation::RemoveLabel(id) => self.remove_label(id),
        }
    }

    /// The map after the changes `ops`, made in order.
    pub open spec fn run(self, ops: Seq<Operation<C>>) -> Self
        decreases ops.len(),
    {
        if ops.len() == 0 {
            self
        } else {
            self.run(ops.drop_last()).apply(ops.last())
        }
    }
}

/// In a valid map no two features share an identifier.
pub proof fn lemma_valid_ids_unique<C>(g: GraphModel<C>)
    requires
        g.wf(),
    ensures
        g.ids_unique(),
{
}

/// One primitive change keeps a map valid, hands out at most one
/// identifier, and never takes one back.
pub proof fn lemma_apply_keeps_valid<C>(g: GraphModel<C>, op: Operation<C>)
    requires
        g.wf(),
        g.allocated < usize::MAX,
    ensures
        g.apply(op).wf(),
        g.allocated <= g.apply(op).allocated <= g.allocated + 1,
        forall|id: usize| g.apply(op).is_live(id) && !g.is_live(id) ==> id == g.allocated + 1,
{
}

/// Whatever is added and removed, starting from the empty map, no two
/// features ever share an identifier, and every identifier in use is one of
/// the first `allocated` that were handed out. The list must be short enough
/// for its identifiers to be machine integers.
pub proof fn lemma_ids_stay_unique<C>(ops: Seq<Operation<C>>)
    requires
        ops.len() <= usize::MAX,
    ensures
        GraphModel::<C>::empty().run(ops).wf(),
        GraphModel::<C>::empty().run(ops).ids_unique(),
        GraphModel::<C>::empty().run(ops).allocated <= ops.len(),
    decreases ops.len(),
{
    if ops.len() > 0 {
        lemma_ids_stay_unique(ops.drop_last());
        lemma_apply_keeps_valid(GraphModel::<C>::empty().run(ops.drop_last()), ops.last());
    }
}

/// An identifier that was handed out is not handed out again: after further
/// changes, whatever was removed in between, a feature that is new has an
/// identifier above all that had been handed out before.
pub proof fn lemma_ids_never_reused<C>(g: GraphModel<C>, ops: Seq<Operation<C>>)
    requires
        g.wf(),
        g.allocated + ops.len() <= usize::MAX,
    ensures
        g.run(ops).wf(),
        g.allocated <= g.run(ops).allocated <= g.allocated + ops.len(),
        forall|id: usize| g.run(ops).is_live(id) && id <= g.allocated ==> g.is_live(id),
    decreases ops.len(),
{
    if ops.len() > 0 {
        lemma_ids_never_reused(g, ops.drop_last());
        lemma_apply_keeps_valid(g.run(ops.drop_last()), ops.last());
    }
}

/// A vector map: vertices, edges and labels, each under an identifier of its
/// own.
///
/// Identifiers are handed out in rising order, in a map that began empty
/// from 1 on, and are never handed out twice, whatever is removed in between.
#[derive(Debug)]
pub struct VectorMap<C> {
    vertices: BTreeMap<usize, Vertex<C>>,
    edges: BTreeMap<usize, Edge>,
    labels: BTreeMap<usize, Label<C>>,
    allocated: usize,
}

impl<C> View for VectorMap<C> {
    type V = GraphModel<C>;

    closed spec fn view(&self) -> GraphModel<C> {
        GraphModel {
            vertices: self.vertices@,
            edges: self.edges@,
            labels: self.labels@,
            allocated: self.allocated as nat,
        }
    }
}

impl<C: Copy> Clone for VectorMap<C> {
    fn clone(&self) -> (r: Self)
        ensures
            r@ == self@,
    {
        VectorMap {
            vertices: self.vertices.clone(),
            edges: self.edges.clone(),
            labels: self.labels.clone(),
            allocated: self.allocated,
        }
    }
}

impl<C: Copy> VectorMap<C> {
    /// The validity of a map: that of its content.
    pub open spec fn wf(&self) -> bool {
        self@.wf()
    }

    /// An empty map.
    pub fn new() -> (m: Self)
        ensures
            m.wf(),
            m@ == GraphModel::<C>::empty(),
    {
        VectorMap {
            vertices: BTreeMap::new(),
            edges: BTreeMap::new(),
            labels: BTreeMap::new(),
            allocated: 0,
        }
    }

    /// The map that holds the features given, each under the identifier it
    /// comes with; the next identifier it hands out is the one after the
    /// largest of these. Features that share an identifier are refused; where
    /// there are none, an edge with an end that is not among the vertices
    /// given is refused.
    pub fn from_features(vertices: &Vec<Vertex<C>>, edges: &Vec<Edge>) -> (built: Result<
        Self,
        MapError,
    >)
        ensures
            match built {
                Ok(m) => m.wf() && m@ == GraphModel::holding(vertices@, edges@) && m@.edges_resolve(),
                Err(e) => e == (if GraphModel::distinct(vertices@, edges@) {
                    MapError::InvalidReference
                } else {
                    MapError::DuplicateId
                }),
            },
            built is Ok <==> GraphModel::distinct(vertices@, edges@) && GraphModel::joined(
                vertices@,
                edges@,
            ),
    {
        let ghost vids = vertex_ids_of(vertices@);
        let ghost eids = edge_ids_of(edges@);
        let ghost all = vids + eids;
        let mut m: VectorMap<C> = VectorMap::new();
        let mut i: usize = 0;
        while i < vertices.len()
            invariant
                i <= vertices.len(),
                vids == vertex_ids_of(vertices@),
                eids == edge_ids_of(edges@),
                all == vids + eids,
                vids.take(i as int).no_duplicates(),
                m.edges@ == Map::<usize, Edge>::empty(),
                m.labels@ == Map::<usize, Label<C>>::empty(),
                forall|k: usize| #[trigger]
                    m.vertices@.contains_key(k) <==> vids.take(i as int).contains(k),
                forall|j: int|
                    0 <= j < i ==> m.vertices@[(#[trigger] vertices@[j]).id] == vertices@[j],
                m.allocated == max_id(vids.take(i as int)),
            decreases vertices.len() - i,
        {
            let v: Vertex<C> = vertices[i];
            let ghost done = vids.take(i as int);
            let ghost next = vids.take(i as int + 1);
            proof {
                assert(next.drop_last() =~= done);
                assert(next =~= done.push(v.id));
                lemma_push_fresh(done, v.id);
            }
            if m.vertices.get(&v.id).is_some() {
                proof {
                    let j = choose|j: int| 0 <= j < done.len() && done[j] == v.id;
                    assert(all[j] == v.id && all[i as int] == v.id);
                }
                return Err(MapError::DuplicateId);
            }
            if v.id > m.allocated {
                m.allocated = v.id;
            }
            m.vertices.insert(v.id, v);
            proof {
                assert forall|j: int| 0 <= j < i + 1 implies m.vertices@[(
                #[trigger] vertices@[j]).id] == vertices@[j] by {
                    if j < i {
                        assert(done[j] == vertices@[j].id);
                        assert(done.contains(vertices@[j].id));
                    }
                }
            }
            i += 1;
        }
        proof {
            assert(vids.take(vertices@.len() as int) =~= vids);
            assert(vids + eids.take(0) =~= vids);
        }
        let mut i: usize = 0;
        while i < edges.len()
            invariant
                i <= edges.len(),
                vids == vertex_ids_of(vertices@),
                eids == edge_ids_of(edges@),
                all == vids + eids,
                (vids + eids.take(i as int)).no_duplicates(),
                m.labels@ == Map::<usize, Label<C>>::empty(),
                forall|k: usize| #[trigger] m.vertices@.contains_key(k) <==> vids.contains(k),
                forall|j: int|
                    0 <= j < vertices@.len() ==> m.vertices@[(#[trigger] vertices@[j]).id]
                        == vertices@[j],
                forall|k: usize| #[trigger]
                    m.edges@.contains_key(k) <==> eids.take(i as int).contains(k),
                forall|j: int| 0 <= j < i ==> m.edges@[(#[trigger] edges@[j]).id] == edges@[j],
                m.allocated == max_id(vids + eids.take(i as int)),
            decreases edges.len() - i,
        {
            let e: Edge = edges[i];
            let ghost done = vids + eids.take(i as int);
            let ghost next = vids + eids.take(i as int + 1);
            proof {
                assert(next.drop_last() =~= done);
                assert(next =~= done.push(e.id));
                assert(eids.take(i as int + 1) =~= eids.take(i as int).push(e.id));
                lemma_push_fresh(done, e.id);
                lemma_push_fresh(eids.take(i as int), e.id);
                lemma_joined_contains(vids, eids.take(i as int));
            }
            if m.vertices.get(&e.id).is_some() || m.edges.get(&e.id).is_some() {
                proof {
                    assert(done.contains(e.id));
                    let j = choose|j: int| 0 <= j < done.len() && done[j] == e.id;
                    assert(all[j] == e.id && all[vids.len() + i] == e.id);
                }
                return Err(MapError::DuplicateId);
            }
            if e.id > m.allocated {
                m.allocated = e.id;
            }
            m.edges.insert(e.id, e);
            proof {
                assert forall|j: int| 0 <= j < i + 1 implies m.edges@[(#[trigger] edges@[j]).id]
                    == edges@[j] by {
                    if j < i {
                        assert(eids.take(i as int)[j] == edges@[j].id);
                        assert(eids.take(i as int).contains(edges@[j].id));
                    }
                }
            }
            i += 1;
        }
        proof {
            assert(eids.take(edges@.len() as int) =~= eids);
            assert(GraphModel::distinct(vertices@, edges@));
        }
        let mut i: usize = 0;
        while i < edges.len()
            invariant
                i <= edges.len(),
                vids == vertex_ids_of(vertices@),
                GraphModel::distinct(vertices@, edges@),
                forall|k: usize| #[trigger] m.vertices@.contains_key(k) <==> vids.contains(k),
                forall|j: int|
                    0 <= j < i ==> vids.contains((#[trigger] edges@[j]).vertex_id_a)
                        && vids.contains(edges@[j].vertex_id_b),
            decreases edges.len() - i,
        {
            let e: Edge = edges[i];
            if m.vertices.get(&e.vertex_id_a).is_none() || m.vertices.get(&e.vertex_id_b).is_none()
            {
                assert(!GraphModel::joined(vertices@, edges@)) by {
                    assert(edges@[i as int] == e);
                }
                return Err(MapError::InvalidReference);
            }
            i += 1;
        }
        proof {
            lemma_max_id_bounds(all);
            let target = GraphModel::holding(vertices@, edges@);
            assert forall|k: usize| #[trigger] m@.vertices.contains_key(k) implies m@.vertices[k]
                == target.vertices[k] && m@.vertices[k].id == k && k <= m@.allocated by {
                let j = vids.index_of(k);
                assert(vertices@[j].id == k);
                assert(all[j] == k);
            }
            assert forall|k: usize| #[trigger] m@.edges.contains_key(k) implies m@.edges[k]
                == target.edges[k] && m@.edges[k].id == k && k <= m@.allocated
                && !m@.vertices.contains_key(k) by {
                let j = eids.index_of(k);
                assert(edges@[j].id == k);
                assert(all[vids.len() + j] == k);
                if vids.contains(k) {
                    let a = vids.index_of(k);
                    assert(all[a] == k);
                }
            }
            assert(m@.vertices =~= target.vertices);
            assert(m@.edges =~= target.edges);
            assert forall|k: usize| #[trigger] m@.edges.contains_key(k) implies m@.vertices.contains_key(
                m@.edges[k].vertex_id_a,
            ) && m@.vertices.contains_key(m@.edges[k].vertex_id_b) by {
                let j = eids.index_of(k);
                assert(edges@[j].id == k);
                assert(m@.edges[k] == edges@[j]);
            }
        }
        Ok(m)
    }

    /// How many identifiers the map has handed out.
    pub fn allocated(&self) -> (n: usize)
        ensures
            n == self@.allocated,
    {
        self.allocated
    }

    /// Adds a vertex at `position` and returns its identifier, the next one
    /// in line.
    pub fn add_vertex(&mut self, position: &Coord2D<C>) -> (id: usize)
        requires
            old(self).wf(),
            old(self)@.allocated < usize::MAX,
        ensures
            final(self).wf(),
            id == old(self)@.next_id(),
            !old(self)@.is_live(id),
            final(self)@ == old(self)@.add_vertex(*position),
    {
        let id: usize = self.allocated + 1;
        self.allocated = id;
        self.vertices.insert(id, Vertex { id, position: *position });
        id
    }

    /// Takes the vertex `id` out, if the map holds it. Edges that end in it
    /// stay: the caller rewires or removes them.
    pub fn remove_vertex(&mut self, id: usize)
        requires
            old(self).wf(),
        ensures
            final(self).wf(),
            final(self)@ == old(self)@.remove_vertex(id),
    {
        self.vertices.remove(&id);
    }

    /// Whether some edge runs from `vertex_id_a` to `vertex_id_b`, in that
    /// order.
    pub fn edge_exists(&self, vertex_id_a: usize, vertex_id_b: usize) -> (found: bool)
        ensures
            found == self@.has_edge(vertex_id_a, vertex_id_b),
    {
        let ids = sorted_keys(&self.edges);
        let mut i: usize = 0;
        while i < ids.len()
            invariant
                i <= ids.len(),
                forall|k: usize| ids@.contains(k) <==> self@.edges.contains_key(k),
                forall|j: int|
                    0 <= j < i ==> !(self@.edges[#[trigger] ids@[j]].vertex_id_a == vertex_id_a
                        && self@.edges[ids@[j]].vertex_id_b == vertex_id_b),
            decreases ids.len() - i,
        {
            assert(ids@.contains(ids@[i as int]));
            if let Some(e) = self.edges.get(&ids[i]) {
                if e.vertex_id_a == vertex_id_a && e.vertex_id_b == vertex_id_b {
                    return true;
                }
            }
            i += 1;
        }
        assert forall|k: usize| #[trigger] self@.edges.contains_key(k) implies !(
        self@.edges[k].vertex_id_a == vertex_id_a && self@.edges[k].vertex_id_b == vertex_id_b)
        by {
            assert(ids@.contains(k));
        }
        false
    }

    /// Adds an edge from `vertex_id_a` to `vertex_id_b` and returns its
    /// identifier, the next one in line. Where one of the two is no vertex of
    /// the map the request is refused; where such an edge is there already
    /// nothing is added and nothing returned. Either way the map stays as it
    /// was.
    pub fn add_edge(&mut self, vertex_id_a: usize, vertex_id_b: usize) -> (added: Result<
        Option<usize>,
        MapError,
    >)
        requires
            old(self).wf(),
            old(self)@.allocated < usize::MAX,
        ensures
            final(self).wf(),
            final(self)@ == old(self)@.add_edge(vertex_id_a, vertex_id_b),
            added == (if old(self)@.edge_refused(vertex_id_a, vertex_id_b) {
                Err(MapError::InvalidReference)
            } else if old(self)@.has_edge(vertex_id_a, vertex_id_b) {
                Ok(None)
            } else {
                Ok(Some(old(self)@.next_id() as usize))
            }),
            added matches Ok(Some(id)) ==> !old(self)@.is_live(id),
    {
        if self.vertices.get(&vertex_id_a).is_none() || self.vertices.get(&vertex_id_b).is_none() {
            return Err(MapError::InvalidReference);
        }
        if self.edge_exists(vertex_id_a, vertex_id_b) {
            return Ok(None);
        }
        let id: usize = self.allocated + 1;
        self.allocated = id;
        self.edges.insert(id, Edge { id, vertex_id_a, vertex_id_b });
        Ok(Some(id))
    }

    /// Takes the edge `id` out, if the map holds it.
    pub fn remove_edge(&mut self, id: usize)
        requires
            old(self).wf(),
        ensures
            final(self).wf(),
            final(self)@ == old(self)@.remove_edge(id),
    {
        self.edges.remove(&id);
    }

    /// Merges the vertex `gone` into the vertex `kept` and says whether it did.
    /// It does so where both are vertices of the map and differ; else the map
    /// stays as it was.
    pub fn absorb_vertex(&mut self, kept: usize, gone: usize) -> (merged: bool)
        requires
            old(self).wf(),
        ensures
            final(self).wf(),
            merged == old(self)@.can_absorb(kept, gone),
            final(self)@ == (if merged {
                old(self)@.absorb(kept, gone)
            } else {
                old(self)@
            }),
    {
        if kept == gone || self.vertices.get(&kept).is_none() || self.vertices.get(&gone).is_none()
        {
            return false;
        }
        let ids = sorted_keys(&self.edges);
        let ghost before = self.edges@;
        let mut i: usize = 0;
        while i < ids.len()
            invariant
                i <= ids.len(),
                kept != gone,
                forall|k: usize| ids@.contains(k) <==> before.contains_key(k),
                rising(ids@),
                self.vertices == old(self).vertices,
                self.labels == old(self).labels,
                self.allocated == old(self).allocated,
                forall|k: usize| #[trigger]
                    self.edges@.contains_key(k) <==> before.contains_key(k) && !(ids@.take(
                        i as int,
                    ).contains(k) && before[k].collapses(gone, kept)),
                forall|k: usize| #[trigger]
                    self.edges@.contains_key(k) ==> self.edges@[k] == (if ids@.take(
                        i as int,
                    ).contains(k) {
                        before[k].redirect(gone, kept)
                    } else {
                        before[k]
                    }),
            decreases ids.len() - i,
        {
            let id: usize = ids[i];
            proof {
                lemma_take_next(ids@, i as int);
            }
            if let Some(e) = self.edges.get(&id) {
                let e: Edge = *e;
                if e.vertex_id_a == gone || e.vertex_id_b == gone {
                    let a: usize = if e.vertex_id_a == gone {
                        kept
                    } else {
                        e.vertex_id_a
                    };
                    let b: usize = if e.vertex_id_b == gone {
                        kept
                    } else {
                        e.vertex_id_b
                    };
                    if a == b {
                        self.edges.remove(&id);
                    } else {
                        self.edges.insert(id, Edge { id: e.id, vertex_id_a: a, vertex_id_b: b });
                    }
                }
            }
            i += 1;
        }
        self.vertices.remove(&gone);
        proof {
            assert(ids@.take(ids@.len() as int) =~= ids@);
            assert(self@.edges =~= old(self)@.absorb(kept, gone).edges);
        }
        true
    }

    /// Puts the vertex `id` at `position`. It keeps its identifier, and the
    /// edges that end in it. Where `id` is no vertex of the map, the map stays
    /// as it was and the miss is reported.
    pub fn move_vertex(&mut self, id: usize, position: &Coord2D<C>) -> (moved: Result<(), MapError>)
        requires
            old(self).wf(),
        ensures
            final(self).wf(),
            final(self)@ == old(self)@.move_vertex(id, *position),
            moved == (if old(self)@.vertices.contains_key(id) {
                Ok(())
            } else {
                Err(MapError::LookupMiss)
            }),
    {
        if self.vertices.get(&id).is_none() {
            return Err(MapError::LookupMiss);
        }
        self.vertices.insert(id, Vertex { id, position: *position });
        Ok(())
    }

    /// The identifiers of the vertices, smallest first.
    pub fn vertex_ids(&self) -> (ids: Vec<usize>)
        ensures
            ids@ == ascending(self@.vertices.dom()),
            rising(ids@),
            forall|k: usize| ids@.contains(k) <==> self@.vertices.contains_key(k),
            ids@.len() == self@.vertices.dom().len(),
    {
        sorted_keys(&self.vertices)
    }

    /// The identifiers of the edges, smallest first.
    pub fn edge_ids(&self) -> (ids: Vec<usize>)
        ensures
            ids@ == ascending(self@.edges.dom()),
            rising(ids@),
            forall|k: usize| ids@.contains(k) <==> self@.edges.contains_key(k),
            ids@.len() == self@.edges.dom().len(),
    {
        sorted_keys(&self.edges)
    }

    /// The vertices of the map, by rising identifier.
    pub fn vertex_list(&self) -> (list: Vec<Vertex<C>>)
        ensures
            list@ == ascending(self@.vertices.dom()).map_values(|k: usize| self@.vertices[k]),
            rising(ascending(self@.vertices.dom())),
            lists(ascending(self@.vertices.dom()), self@.vertices.dom()),
    {
        let ids = sorted_keys(&self.vertices);
        let mut list: Vec<Vertex<C>> = Vec::new();
        let mut i: usize = 0;
        while i < ids.len()
            invariant
                i <= ids.len(),
                ids@ == ascending(self@.vertices.dom()),
                forall|k: usize| ids@.contains(k) <==> self@.vertices.contains_key(k),
                list@ == ids@.take(i as int).map_values(|k: usize| self@.vertices[k]),
            decreases ids.len() - i,
        {
            assert(ids@.contains(ids@[i as int]));
            if let Some(v) = self.vertices.get(&ids[i]) {
                list.push(*v);
            }
            assert(list@ =~= ids@.take(i as int + 1).map_values(|k: usize| self@.vertices[k]));
            i += 1;
        }
        assert(ids@.take(ids@.len() as int) =~= ids@);
        list
    }

    /// The edges of the map, by rising identifier.
    pub fn edge_list(&self) -> (list: Vec<Edge>)
        ensures
            list@ == ascending(self@.edges.dom()).map_values(|k: usize| self@.edges[k]),
            rising(ascending(self@.edges.dom())),
            lists(ascending(self@.edges.dom()), self@.edges.dom()),
    {
        let ids = sorted_keys(&self.edges);
        let mut list: Vec<Edge> = Vec::new();
        let mut i: usize = 0;
        while i < ids.len()
            invariant
                i <= ids.len(),
                ids@ == ascending(self@.edges.dom()),
                forall|k: usize| ids@.contains(k) <==> self@.edges.contains_key(k),
                list@ == ids@.take(i as int).map_values(|k: usize| self@.edges[k]),
            decreases ids.len() - i,
        {
            assert(ids@.contains(ids@[i as int]));
            if let Some(e) = self.edges.get(&ids[i]) {
                list.push(*e);
            }
            assert(list@ =~= ids@.take(i as int + 1).map_values(|k: usize| self@.edges[k]));
            i += 1;
        }
        assert(ids@.take(ids@.len() as int) =~= ids@);
        list
    }

    /// The vertices and edges of the map, each by rising identifier.
    /// The map can be built again from them by [`VectorMap::from_features`],
    /// where each of its edges ends in two of its vertices.
    pub fn features(&self) -> (all: VerticesAndEdges<C>)
        requires
            self.wf(),
        ensures
            all.vertices@ == ascending(self@.vertices.dom()).map_values(
                |k: usize| self@.vertices[k],
            ),
            all.edges@ == ascending(self@.edges.dom()).map_values(|k: usize| self@.edges[k]),
            GraphModel::distinct(all.vertices@, all.edges@),
            self@.edges_resolve() ==> GraphModel::joined(all.vertices@, all.edges@),
            GraphModel::holding(all.vertices@, all.edges@).vertices == self@.vertices,
            GraphModel::holding(all.vertices@, all.edges@).edges == self@.edges,
    {
        let ghost vids = ascending(self@.vertices.dom());
        let ghost eids = ascending(self@.edges.dom());
        let vertices = self.vertex_list();
        let edges = self.edge_list();
        proof {
            lemma_listing_rebuilds(self@, vids, eids);
        }
        VerticesAndEdges { vertices, edges }
    }

    /// How many vertices the map holds.
    pub fn vertex_count(&self) -> (n: usize)
        ensures
            n == self@.vertices.dom().len(),
    {
        self.vertices.len()
    }

    /// How many edges the map holds.
    pub fn edge_count(&self) -> (n: usize)
        ensures
            n == self@.edges.dom().len(),
    {
        self.edges.len()
    }

    /// Adds a label and returns its identifier, the next one in line.
    pub fn add_label(&mut self, text: String, position: &Coord2D<C>, size: C, is_braille: bool) -> (id:
        usize)
        requires
            old(self).wf(),
            old(self)@.allocated < usize::MAX,
        ensures
            final(self).wf(),
            id == old(self)@.next_id(),
            !old(self)@.is_live(id),
            final(self)@ == old(self)@.add_label(text, *position, size, is_braille),
    {
        let id: usize = self.allocated + 1;
        self.allocated = id;
        self.labels.insert(id, Label { id, text, position: *position, size, is_braille });
        id
    }

    /// Takes the label `id` out, if the map holds it.
    pub fn remove_label(&mut self, id: usize)
        requires
            old(self).wf(),
        ensures
            final(self).wf(),
            final(self)@ == old(self)@.remove_label(id),
    {
        self.labels.remove(&id);
    }

    /// The label `id`, or nothing where `id` names a feature of another kind
    /// or none.
    pub fn get_label(&self, id: usize) -> (found: Option<&Label<C>>)
        ensures
            found == (if self@.labels.contains_key(id) {
                Some(&self@.labels[id])
            } else {
                None
            }),
    {
        self.labels.get(&id)
    }

    /// The identifiers of the labels, smallest first.
    pub fn label_ids(&self) -> (ids: Vec<usize>)
        ensures
            ids@ == ascending(self@.labels.dom()),
            rising(ids@),
            forall|k: usize| ids@.contains(k) <==> self@.labels.contains_key(k),
            ids@.len() == self@.labels.dom().len(),
    {
        sorted_keys(&self.labels)
    }

    /// The vertex `id`, or nothing where `id` names a feature of another kind
    /// or none.
    pub fn get_vertex(&self, id: usize) -> (found: Option<Vertex<C>>)
        ensures
            found == (if self@.vertices.contains_key(id) {
                Some(self@.vertices[id])
            } else {
                None
            }),
    {
        match self.vertices.get(&id) {
            Some(v) => Some(*v),
            None => None,
        }
    }

    /// The edge `id`, or nothing where `id` names a feature of another kind or
    /// none.
    pub fn get_edge(&self, id: usize) -> (found: Option<Edge>)
        ensures
            found == (if self@.edges.contains_key(id) {
                Some(self@.edges[id])
            } else {
                None
            }),
    {
        match self.edges.get(&id) {
            Some(e) => Some(*e),
            None => None,
        }
    }
}

} // verus!
