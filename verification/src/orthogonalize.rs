//! Snapping walls to the axes.
//!
//! Whether a wall is near enough to an axis, and where it then comes to lie, is
//! the caller's judgement. What is verified here is how such a judgement is
//! written into the map, and in what order the walls are judged.

use crate::keys::ascending;
use crate::vector_map::{Coord2D, GraphModel, MapError, VectorMap, Vertex};
use vstd::prelude::*;

verus! {

/// A judgement on one wall.
#[derive(Debug, PartialEq)]
pub enum Snap<C> {
    /// The wall is upright: both its ends get this `x`.
    Vertical(C),
    /// The wall is level: both its ends get this `y`.
    Horizontal(C),
    /// The wall stays as it is.
    Keep,
}

impl<C: Copy> Clone for Snap<C> {
    fn clone(&self) -> (r: Self)
        ensures
            r == *self,
    {
        *self
    }
}

impl<C: Copy> Copy for Snap<C> {

}

impl<C> Snap<C> {
    /// Where a vertex at `from` comes to lie under this judgement.
    pub open spec fn place(self, from: Coord2D<C>) -> Coord2D<C> {
        match self {
            Snap::Vertical(x) => Coord2D { x, y: from.y },
            Snap::Horizontal(y) => Coord2D { x: from.x, y },
            Snap::Keep => from,
        }
    }
}

impl<C> GraphModel<C> {
    /// The two ends of the edge `edge_id`, first end first, where the edge is
    /// in the map and both its ends are vertices of the map.
    pub open spec fn edge_ends(self, edge_id: usize) -> Option<(Vertex<C>, Vertex<C>)> {
        if self.edges.contains_key(edge_id) && self.vertices.contains_key(
            self.edges[edge_id].vertex_id_a,
        ) && self.vertices.contains_key(self.edges[edge_id].vertex_id_b) {
            Some(
                (
                    self.vertices[self.edges[edge_id].vertex_id_a],
                    self.vertices[self.edges[edge_id].vertex_id_b],
                ),
            )
        } else {
            None
        }
    }

    /// The map after the judgement `snap` on the edge `edge_id` was written
    /// in: each end of the edge lies where the judgement puts it, under the
    /// identifier it had. Nothing else changes, and nothing at all where the
    /// edge or one of its ends is missing.
    pub open spec fn snap(self, edge_id: usize, snap: Snap<C>) -> Self {
        match self.edge_ends(edge_id) {
            Some((a, b)) => self.move_vertex(
                self.edges[edge_id].vertex_id_a,
                snap.place(a.position),
            ).move_vertex(self.edges[edge_id].vertex_id_b, snap.place(b.position)),
            None => self,
        }
    }

    /// The map after the judgements `snaps` on the edges `ids` were written
    /// in, one after the other.
    pub open spec fn snap_all(self, ids: Seq<usize>, snaps: Seq<Snap<C>>) -> Self
        decreases ids.len(),
    {
        if ids.len() == 0 {
            self
        } else {
            self.snap_all(ids.drop_last(), snaps.drop_last()).snap(ids.last(), snaps.last())
        }
    }
}

/// The two ends of the edge `edge_id`, first end first. A miss is reported
/// where the map holds no such edge, a bad reference where the edge ends in
/// what is no vertex of the map.
pub fn edge_endpoints<C: Copy>(vmap: &VectorMap<C>, edge_id: usize) -> (ends: Result<
    (Vertex<C>, Vertex<C>),
    MapError,
>)
    ensures
        ends == (match vmap@.edge_ends(edge_id) {
            Some(pair) => Ok(pair),
            None => Err(
                if vmap@.edges.contains_key(edge_id) {
                    MapError::InvalidReference
                } else {
                    MapError::LookupMiss
                },
            ),
        }),
{
    match vmap.get_edge(edge_id) {
        None => Err(MapError::LookupMiss),
        Some(e) => match (vmap.get_vertex(e.vertex_id_a), vmap.get_vertex(e.vertex_id_b)) {
            (Some(a), Some(b)) => Ok((a, b)),
            _ => Err(MapError::InvalidReference),
        },
    }
}

/// Writes the judgement `snap` on the edge `edge_id` into the map: both ends
/// of the edge get the coordinate that the judgement names and keep the
/// other one. Where the edge or one of its ends is missing, the map stays as
/// it was, and this is reported as by [`edge_endpoints`].
pub fn snap_edge<C: Copy>(vmap: &mut VectorMap<C>, edge_id: usize, snap: Snap<C>) -> (done: Result<
    (),
    MapError,
>)
    requires
        old(vmap).wf(),
    ensures
        final(vmap).wf(),
        final(vmap)@ == old(vmap)@.snap(edge_id, snap),
        done == (match old(vmap)@.edge_ends(edge_id) {
            Some(_) => Ok(()),
            None => Err(
                if old(vmap)@.edges.contains_key(edge_id) {
                    MapError::InvalidReference
                } else {
                    MapError::LookupMiss
                },
            ),
        }),
{
    match edge_endpoints(vmap, edge_id) {
        Err(e) => Err(e),
        Ok((a, b)) => {
            let to_a = place(snap, a.position);
            let to_b = place(snap, b.position);
            let _ = vmap.move_vertex(a.id, &to_a);
            let _ = vmap.move_vertex(b.id, &to_b);
            Ok(())
        },
    }
}

/// Where a vertex at `from` comes to lie under the judgement `snap`.
pub fn place<C: Copy>(snap: Snap<C>, from: Coord2D<C>) -> (to: Coord2D<C>)
    ensures
        to == snap.place(from),
{
    match snap {
        Snap::Vertical(x) => Coord2D { x, y: from.y },
        Snap::Horizontal(y) => Coord2D { x: from.x, y },
        Snap::Keep => from,
    }
}

/// Whether `snaps` are judgements that `classify` can have given on the edges
/// `ids` of the map `first`, taken in order and each written in before the
/// next edge is judged: one judgement for each edge, made on the two ends as
/// they lie by then. An edge that is missing, or has an end missing, is not
/// judged and stays.
pub open spec fn judged<C, F: Fn(Coord2D<C>, Coord2D<C>) -> Snap<C>>(
    classify: F,
    first: GraphModel<C>,
    ids: Seq<usize>,
    snaps: Seq<Snap<C>>,
) -> bool {
    &&& snaps.len() == ids.len()
    &&& forall|i: int|
        0 <= i < ids.len() ==> match (#[trigger] first.snap_all(
            ids.take(i),
            snaps.take(i),
        )).edge_ends(ids[i]) {
            Some((a, b)) => classify.ensures((a.position, b.position), snaps[i]),
            None => snaps[i] == Snap::<C>::Keep,
        }
}

/// Snaps the walls of the map that `classify` judges near an axis. The edges
/// are taken by rising identifier. For each, `classify` is asked about its
/// two ends as they lie by then, first end first, and its judgement is written
/// in: so a vertex that two walls share is moved once for each, the second
/// time from where the first left it. An edge with an end that is no vertex of
/// the map is passed over.
pub fn orthogonalize_map<C: Copy, F: Fn(Coord2D<C>, Coord2D<C>) -> Snap<C>>(
    vmap: VectorMap<C>,
    classify: F,
) -> (out: VectorMap<C>)
    requires
        vmap.wf(),
        forall|a: Coord2D<C>, b: Coord2D<C>| classify.requires((a, b)),
    ensures
        out.wf(),
        exists|snaps: Seq<Snap<C>>|
            judged(classify, vmap@, ascending(vmap@.edges.dom()), snaps) && out@
                == vmap@.snap_all(ascending(vmap@.edges.dom()), snaps),
        out@.edges == vmap@.edges,
        out@.labels == vmap@.labels,
        out@.vertices.dom() == vmap@.vertices.dom(),
        out@.allocated == vmap@.allocated,
{
    let mut out = vmap;
    let ids = out.edge_ids();
    let ghost mut snaps: Seq<Snap<C>> = Seq::empty();
    let mut i: usize = 0;
    while i < ids.len()
        invariant
            i <= ids.len(),
            out.wf(),
            ids@ == ascending(vmap@.edges.dom()),
            forall|a: Coord2D<C>, b: Coord2D<C>| classify.requires((a, b)),
            snaps.len() == i,
            judged(classify, vmap@, ids@.take(i as int), snaps),
            out@ == vmap@.snap_all(ids@.take(i as int), snaps),
        decreases ids.len() - i,
    {
        let id: usize = ids[i];
        let ghost before = out@;
        let ghost done = snaps;
        match edge_endpoints(&out, id) {
            Ok((a, b)) => {
                let snap = classify(a.position, b.position);
                let _ = snap_edge(&mut out, id, snap);
                proof {
                    snaps = snaps.push(snap);
                }
            },
            Err(_) => {
                proof {
                    snaps = snaps.push(Snap::Keep);
                }
            },
        }
        proof {
            let longer = ids@.take(i as int + 1);
            assert(longer.drop_last() =~= ids@.take(i as int));
            assert(snaps.drop_last() =~= done);
            assert forall|j: int| 0 <= j < longer.len() implies match (#[trigger] vmap@.snap_all(
                longer.take(j),
                snaps.take(j),
            )).edge_ends(longer[j]) {
                Some((a, b)) => classify.ensures((a.position, b.position), snaps[j]),
                None => snaps[j] == Snap::<C>::Keep,
            } by {
                if j < i {
                    assert(longer.take(j) =~= ids@.take(i as int).take(j));
                    assert(snaps.take(j) =~= done.take(j));
                } else {
                    assert(longer.take(j) =~= ids@.take(i as int));
                    assert(snaps.take(j) =~= done);
                }
            }
        }
        i += 1;
    }
    proof {
        assert(ids@.take(ids@.len() as int) =~= ids@);
        lemma_snap_all_keeps_features(vmap@, ids@, snaps);
    }
    out
}

impl<C> GraphModel<C> {
    /// Whether the judgement `snap` leaves both ends of the edge `edge_id`
    /// where they are: it keeps the wall, or names the coordinate that the two
    /// ends share already.
    pub open spec fn in_place(self, edge_id: usize, snap: Snap<C>) -> bool {
        match self.edge_ends(edge_id) {
            Some((a, b)) => snap.place(a.position) == a.position && snap.place(b.position)
                == b.position,
            None => true,
        }
    }
}

/// Writing a judgement in moves the two ends of its edge and nothing else:
/// the edges and labels stay, the vertices keep their identifiers, and every
/// vertex that is no end of the edge stays where it is.
pub proof fn lemma_snap_moves_only_ends<C>(g: GraphModel<C>, edge_id: usize, snap: Snap<C>)
    requires
        g.wf(),
    ensures
        g.snap(edge_id, snap).wf(),
        g.snap(edge_id, snap).edges == g.edges,
        g.snap(edge_id, snap).labels == g.labels,
        g.snap(edge_id, snap).allocated == g.allocated,
        g.snap(edge_id, snap).vertices.dom() == g.vertices.dom(),
        forall|v: usize| #[trigger]
            g.vertices.contains_key(v) && !(g.edges.contains_key(edge_id) && g.edges[edge_id].touches(
                v,
            )) ==> g.snap(edge_id, snap).vertices[v] == g.vertices[v],
        g.edge_ends(edge_id) matches Some((a, b)) ==> g.snap(edge_id, snap).edge_ends(edge_id)
            == Some(
            (
                Vertex { id: a.id, position: snap.place(a.position) },
                Vertex { id: b.id, position: snap.place(b.position) },
            ),
        ),
{
    let out = g.snap(edge_id, snap);
    assert(out.vertices.dom() =~= g.vertices.dom());
}

/// A wall that lies on an axis already stays as it is: a judgement that
/// names the coordinate that both ends of an edge share, or keeps the wall,
/// changes nothing in the map.
pub proof fn lemma_snap_in_place<C>(g: GraphModel<C>, edge_id: usize, snap: Snap<C>)
    requires
        g.wf(),
        g.in_place(edge_id, snap),
    ensures
        g.snap(edge_id, snap) == g,
{
    let out = g.snap(edge_id, snap);
    assert(out.vertices =~= g.vertices);
}

/// Where every judgement leaves its wall in place, the whole map stays as it
/// is.
pub proof fn lemma_snap_all_in_place<C>(g: GraphModel<C>, ids: Seq<usize>, snaps: Seq<Snap<C>>)
    requires
        g.wf(),
        snaps.len() == ids.len(),
        forall|i: int| 0 <= i < ids.len() ==> g.in_place(#[trigger] ids[i], snaps[i]),
    ensures
        g.snap_all(ids, snaps) == g,
    decreases ids.len(),
{
    if ids.len() > 0 {
        assert forall|i: int| 0 <= i < ids.drop_last().len() implies g.in_place(
            #[trigger] ids.drop_last()[i],
            snaps.drop_last()[i],
        ) by {
            assert(g.in_place(ids[i], snaps[i]));
        }
        lemma_snap_all_in_place(g, ids.drop_last(), snaps.drop_last());
        assert(g.in_place(ids[ids.len() - 1], snaps[ids.len() - 1]));
        lemma_snap_in_place(g, ids.last(), snaps.last());
    }
}

/// Snapping takes no wall and no corner away and adds none: whatever the
/// judgements, the map keeps its edges and labels, its vertices keep their
/// identifiers, and the map stays valid.
pub proof fn lemma_snap_all_keeps_features<C>(
    g: GraphModel<C>,
    ids: Seq<usize>,
    snaps: Seq<Snap<C>>,
)
    requires
        g.wf(),
    ensures
        g.snap_all(ids, snaps).wf(),
        g.snap_all(ids, snaps).edges == g.edges,
        g.snap_all(ids, snaps).labels == g.labels,
        g.snap_all(ids, snaps).allocated == g.allocated,
        g.snap_all(ids, snaps).vertices.dom() == g.vertices.dom(),
    decreases ids.len(),
{
    if ids.len() > 0 {
        lemma_snap_all_keeps_features(g, ids.drop_last(), snaps.drop_last());
        lemma_snap_moves_only_ends(
            g.snap_all(ids.drop_last(), snaps.drop_last()),
            ids.last(),
            snaps.last(),
        );
    }
}

} // verus!
