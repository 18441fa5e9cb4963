//! What holds of every merge: a closed description of its result, and the
//! laws that follow from it.

use crate::simplify::{
    adds_no_self_loop, chosen, is_subsequence, merge_table, merged, resolve, retargeted, MergeState,
};
use crate::vector_map::{Edge, GraphModel};
use vstd::prelude::*;

verus! {

impl<C> MergeState<C> {
    /// The edge `e` with each end taken to the vertex that stands for it.
    pub open spec fn moved(self, e: Edge) -> Edge {
        Edge {
            id: e.id,
            vertex_id_a: resolve(self.table, e.vertex_id_a),
            vertex_id_b: resolve(self.table, e.vertex_id_b),
        }
    }

    /// Whether the edge `e` of the first map is still there: its two ends
    /// stand for different vertices, or it joined a vertex to itself from the
    /// start and that vertex was never merged away.
    pub open spec fn keeps(self, e: Edge) -> bool {
        resolve(self.table, e.vertex_id_a) != resolve(self.table, e.vertex_id_b) || (
        e.vertex_id_a == e.vertex_id_b && !self.table.contains_key(e.vertex_id_a))
    }

    /// The state is one that a merge of the map `first` can be in:
    /// - only vertices of `first` were merged away, each into a vertex that
    ///   is still there;
    /// - the vertices still there are those of `first` that were not merged
    ///   away, unchanged;
    /// - the edges still there are those of `first` that are kept, each with
    ///   its ends taken to the vertices that stand for them;
    /// - the labels are those of `first`, and no identifier was handed out.
    pub open spec fn tracks(self, first: GraphModel<C>) -> bool {
        &&& self.graph.allocated == first.allocated
        &&& self.graph.labels == first.labels
        &&& forall|v: usize| #[trigger]
            self.table.contains_key(v) ==> first.vertices.contains_key(v)
                && self.graph.vertices.contains_key(self.table[v])
        &&& self.graph.vertices == first.vertices.remove_keys(self.table.dom())
        &&& forall|k: usize| #[trigger]
            self.graph.edges.contains_key(k) <==> first.edges.contains_key(k) && self.keeps(
                first.edges[k],
            )
        &&& forall|k: usize| #[trigger]
            self.graph.edges.contains_key(k) ==> self.graph.edges[k] == self.moved(first.edges[k])
    }
}

/// After `gone` was merged into `kept`, what stood for `gone` stands for
/// `kept`, and all else stands for what it stood for.
pub proof fn lemma_resolve_retargeted(table: Map<usize, usize>, gone: usize, kept: usize, v: usize)
    requires
        !table.contains_key(gone),
    ensures
        resolve(retargeted(table, gone, kept), v) == (if resolve(table, v) == gone {
            kept
        } else {
            resolve(table, v)
        }),
{
}

/// One pair takes a state that a merge of `first` can be in to another such
/// state.
pub proof fn lemma_step_tracks<C>(s: MergeState<C>, first: GraphModel<C>, pair: (usize, usize))
    requires
        s.tracks(first),
    ensures
        s.step(pair).tracks(first),
{
    let kept = resolve(s.table, pair.0);
    let gone = resolve(s.table, pair.1);
    if s.graph.can_absorb(kept, gone) {
        let t = s.step(pair);
        assert(!s.table.contains_key(gone));
        assert(!s.table.contains_key(kept));
        assert forall|v: usize| true implies resolve(t.table, v) == (if resolve(s.table, v)
            == gone {
            kept
        } else {
            resolve(s.table, v)
        }) by {
            lemma_resolve_retargeted(s.table, gone, kept, v);
        }
        assert(t.graph.vertices =~= first.vertices.remove_keys(t.table.dom()));
        assert forall|k: usize| #[trigger]
            t.graph.edges.contains_key(k) <==> first.edges.contains_key(k) && t.keeps(
                first.edges[k],
            ) by {
            if first.edges.contains_key(k) {
                let e = first.edges[k];
                if s.graph.edges.contains_key(k) {
                    assert(s.graph.edges[k] == s.moved(e));
                }
            }
        }
        assert forall|k: usize| #[trigger] t.graph.edges.contains_key(k) implies t.graph.edges[k]
            == t.moved(first.edges[k]) by {
            assert(s.graph.edges.contains_key(k));
            assert(s.graph.edges[k] == s.moved(first.edges[k]));
        }
    }
}

/// Every merge of `first` ends in a state described by [`MergeState::tracks`].
pub proof fn lemma_run_tracks<C>(first: GraphModel<C>, pairs: Seq<(usize, usize)>)
    ensures
        MergeState::start(first).run(pairs).tracks(first),
    decreases pairs.len(),
{
    if pairs.len() == 0 {
        assert(first.vertices.remove_keys(Map::<usize, usize>::empty().dom()) =~= first.vertices);
    } else {
        lemma_run_tracks(first, pairs.drop_last());
        lemma_step_tracks(MergeState::start(first).run(pairs.drop_last()), first, pairs.last());
    }
}

/// A merge takes nothing but vertices and edges out: what is left of the
/// vertices is as it was, position and all, every edge that is left has its
/// identifier, and the labels are as they were.
pub proof fn lemma_merge_only_removes<C>(first: GraphModel<C>, pairs: Seq<(usize, usize)>)
    ensures
        merged(first, pairs).allocated == first.allocated,
        merged(first, pairs).labels == first.labels,
        forall|v: usize| #[trigger]
            merged(first, pairs).vertices.contains_key(v) ==> first.vertices.contains_key(v)
                && merged(first, pairs).vertices[v] == first.vertices[v],
        forall|k: usize| #[trigger]
            merged(first, pairs).edges.contains_key(k) ==> first.edges.contains_key(k) && merged(
                first,
                pairs,
            ).edges[k].id == first.edges[k].id,
        first.wf() ==> merged(first, pairs).wf(),
{
    lemma_run_tracks(first, pairs);
    if first.wf() {
        let out = merged(first, pairs);
        assert(out.vertices.dom().subset_of(first.vertices.dom()));
        assert(out.edges.dom().subset_of(first.edges.dom()));
        vstd::set_lib::lemma_set_subset_finite(first.vertices.dom(), out.vertices.dom());
        vstd::set_lib::lemma_set_subset_finite(first.edges.dom(), out.edges.dom());
    }
}

/// A merge leaves no edge dangling: an end of an edge that was a vertex
/// before the merge is a vertex after it. So where both ends of every edge
/// were vertices before, they are after.
pub proof fn lemma_merge_keeps_edges_resolved<C>(first: GraphModel<C>, pairs: Seq<(usize, usize)>)
    ensures
        forall|k: usize| #[trigger]
            merged(first, pairs).edges.contains_key(k) ==> (first.vertices.contains_key(
                first.edges[k].vertex_id_a,
            ) ==> merged(first, pairs).vertices.contains_key(
                merged(first, pairs).edges[k].vertex_id_a,
            )) && (first.vertices.contains_key(first.edges[k].vertex_id_b) ==> merged(
                first,
                pairs,
            ).vertices.contains_key(merged(first, pairs).edges[k].vertex_id_b)),
        first.edges_resolve() ==> merged(first, pairs).edges_resolve(),
{
    lemma_run_tracks(first, pairs);
    let s = MergeState::start(first).run(pairs);
    assert forall|v: usize| first.vertices.contains_key(v) implies s.graph.vertices.contains_key(
        resolve(s.table, v),
    ) by {
        if s.table.contains_key(v) {
        } else {
            assert(first.vertices.remove_keys(s.table.dom()).contains_key(v));
        }
    }
    assert forall|k: usize| #[trigger] s.graph.edges.contains_key(k) implies s.graph.edges[k]
        == s.moved(first.edges[k]) by {}
}

/// A merge makes no edge that joins a vertex to itself. An edge between two
/// vertices that have come to stand for one vertex is gone, and so is an edge
/// from a vertex to itself once that vertex was merged away. An edge of the
/// result that joins a vertex to itself did so from the start, and is
/// unchanged.
pub proof fn lemma_merge_adds_no_self_loop<C>(first: GraphModel<C>, pairs: Seq<(usize, usize)>)
    ensures
        forall|k: usize| #[trigger]
            first.edges.contains_key(k) && !first.edges[k].is_self_loop() && resolve(
                merge_table(first, pairs),
                first.edges[k].vertex_id_a,
            ) == resolve(merge_table(first, pairs), first.edges[k].vertex_id_b) ==> !merged(
                first,
                pairs,
            ).edges.contains_key(k),
        forall|k: usize| #[trigger]
            first.edges.contains_key(k) && first.edges[k].is_self_loop() && merge_table(
                first,
                pairs,
            ).contains_key(first.edges[k].vertex_id_a) ==> !merged(first, pairs).edges.contains_key(
                k,
            ),
        adds_no_self_loop(first, merged(first, pairs)),
        (forall|k: usize| #[trigger]
            first.edges.contains_key(k) ==> !first.edges[k].is_self_loop()) ==> (forall|k: usize|
         #[trigger]
            merged(first, pairs).edges.contains_key(k) ==> !merged(
                first,
                pairs,
            ).edges[k].is_self_loop()),
{
    lemma_run_tracks(first, pairs);
    let s = MergeState::start(first).run(pairs);
    assert forall|k: usize| #[trigger] s.graph.edges.contains_key(k) implies s.graph.edges[k]
        == s.moved(first.edges[k]) && s.keeps(first.edges[k]) && first.edges.contains_key(k) by {}
}

/// Whether any two vertices of `first` that stand for one vertex in `s1` do so
/// in `s2` as well.
pub open spec fn coarser<C>(s1: MergeState<C>, s2: MergeState<C>, first: GraphModel<C>) -> bool {
    forall|u: usize, v: usize|
        #![trigger resolve(s1.table, u), resolve(s1.table, v)]
        first.vertices.contains_key(u) && first.vertices.contains_key(v) && resolve(s1.table, u)
            == resolve(s1.table, v) ==> resolve(s2.table, u) == resolve(s2.table, v)
}

/// In a state that a merge of `first` can be in, a vertex of `first` stands
/// for a vertex that is still there, and a vertex that is still there stands
/// for itself.
pub proof fn lemma_resolve_is_live<C>(s: MergeState<C>, first: GraphModel<C>, v: usize)
    requires
        s.tracks(first),
    ensures
        first.vertices.contains_key(v) ==> s.graph.vertices.contains_key(resolve(s.table, v)),
        s.graph.vertices.contains_key(v) ==> resolve(s.table, v) == v && first.vertices.contains_key(
            v,
        ),
        first.vertices.contains_key(resolve(s.table, v)) ==> first.vertices.contains_key(v),
{
    if first.vertices.contains_key(v) && !s.table.contains_key(v) {
        assert(first.vertices.remove_keys(s.table.dom()).contains_key(v));
    }
}

/// One pair merges classes and splits none.
pub proof fn lemma_step_coarsens<C>(s: MergeState<C>, first: GraphModel<C>, pair: (usize, usize))
    requires
        s.tracks(first),
    ensures
        coarser(s, s.step(pair), first),
{
    let kept = resolve(s.table, pair.0);
    let gone = resolve(s.table, pair.1);
    if s.graph.can_absorb(kept, gone) {
        lemma_resolve_is_live(s, first, gone);
        assert forall|u: usize, v: usize|
            #![trigger resolve(s.table, u), resolve(s.table, v)]
            resolve(s.table, u) == resolve(s.table, v) implies resolve(s.step(pair).table, u)
            == resolve(s.step(pair).table, v) by {
            lemma_resolve_retargeted(s.table, gone, kept, u);
            lemma_resolve_retargeted(s.table, gone, kept, v);
        }
    }
}

/// The same pair, taken in two states of which the second is the coarser,
/// leaves the second the coarser.
pub proof fn lemma_step_both<C>(
    s1: MergeState<C>,
    s2: MergeState<C>,
    first: GraphModel<C>,
    pair: (usize, usize),
)
    requires
        s1.tracks(first),
        s2.tracks(first),
        coarser(s1, s2, first),
    ensures
        coarser(s1.step(pair), s2.step(pair), first),
{
    let t1 = s1.step(pair);
    let t2 = s2.step(pair);
    let kept1 = resolve(s1.table, pair.0);
    let gone1 = resolve(s1.table, pair.1);
    let kept2 = resolve(s2.table, pair.0);
    let gone2 = resolve(s2.table, pair.1);
    lemma_step_coarsens(s2, first, pair);
    lemma_step_tracks(s2, first, pair);
    assert forall|u: usize, v: usize|
        #![trigger resolve(t1.table, u), resolve(t1.table, v)]
        first.vertices.contains_key(u) && first.vertices.contains_key(v) && resolve(t1.table, u)
            == resolve(t1.table, v) implies resolve(t2.table, u) == resolve(t2.table, v) by {
        if resolve(s1.table, u) == resolve(s1.table, v) {
            assert(resolve(s2.table, u) == resolve(s2.table, v));
        } else {
            // The pair has joined the classes of `u` and `v` in the first state.
            assert(s1.graph.can_absorb(kept1, gone1));
            lemma_resolve_is_live(s1, first, gone1);
            lemma_resolve_is_live(s1, first, kept1);
            lemma_resolve_retargeted(s1.table, gone1, kept1, u);
            lemma_resolve_retargeted(s1.table, gone1, kept1, v);
            lemma_resolve_is_live(s1, first, pair.0);
            lemma_resolve_is_live(s1, first, pair.1);
            lemma_resolve_is_live(s2, first, pair.0);
            lemma_resolve_is_live(s2, first, pair.1);
            let (x, y) = if resolve(s1.table, u) == gone1 {
                (u, v)
            } else {
                (v, u)
            };
            assert(resolve(s1.table, x) == resolve(s1.table, pair.1));
            assert(resolve(s1.table, y) == resolve(s1.table, pair.0));
            assert(resolve(s2.table, x) == resolve(s2.table, pair.1));
            assert(resolve(s2.table, y) == resolve(s2.table, pair.0));
            if s2.graph.can_absorb(kept2, gone2) {
                lemma_resolve_is_live(s2, first, gone2);
                lemma_resolve_retargeted(s2.table, gone2, kept2, x);
                lemma_resolve_retargeted(s2.table, gone2, kept2, y);
            }
        }
    }
}

/// Merging more pairs gives a coarser state: with `fewer` being `more` with
/// pairs left out, vertices that the merge of `fewer` has brought together
/// are brought together by the merge of `more`.
pub proof fn lemma_more_pairs_coarser<C>(
    first: GraphModel<C>,
    fewer: Seq<(usize, usize)>,
    more: Seq<(usize, usize)>,
)
    requires
        is_subsequence(fewer, more),
    ensures
        coarser(MergeState::start(first).run(fewer), MergeState::start(first).run(more), first),
    decreases more.len(),
{
    let start = MergeState::start(first);
    let s1 = start.run(fewer);
    let s2 = start.run(more);
    lemma_run_tracks(first, fewer);
    lemma_run_tracks(first, more);
    if more.len() == 0 {
    } else {
        let shorter = more.drop_last();
        lemma_run_tracks(first, shorter);
        if fewer.len() > 0 && fewer.last() == more.last() && is_subsequence(
            fewer.drop_last(),
            shorter,
        ) {
            lemma_run_tracks(first, fewer.drop_last());
            lemma_more_pairs_coarser(first, fewer.drop_last(), shorter);
            lemma_step_both(start.run(fewer.drop_last()), start.run(shorter), first, more.last());
        } else {
            lemma_more_pairs_coarser(first, fewer, shorter);
            lemma_step_coarsens(start.run(shorter), first, more.last());
            let mid = start.run(shorter);
            assert forall|u: usize, v: usize|
                #![trigger resolve(s1.table, u), resolve(s1.table, v)]
                first.vertices.contains_key(u) && first.vertices.contains_key(v) && resolve(
                    s1.table,
                    u,
                ) == resolve(s1.table, v) implies resolve(s2.table, u) == resolve(s2.table, v) by {
                assert(resolve(mid.table, u) == resolve(mid.table, v));
            }
        }
    }
}

/// Merging more pairs never leaves more vertices: with `fewer` being `more`
/// with pairs left out, the merge of `more` leaves at most as many vertices
/// as the merge of `fewer`.
pub proof fn lemma_more_pairs_fewer_vertices<C>(
    first: GraphModel<C>,
    fewer: Seq<(usize, usize)>,
    more: Seq<(usize, usize)>,
)
    requires
        first.wf(),
        is_subsequence(fewer, more),
    ensures
        merged(first, more).vertices.dom().len() <= merged(first, fewer).vertices.dom().len(),
{
    let s1 = MergeState::start(first).run(fewer);
    let s2 = MergeState::start(first).run(more);
    lemma_run_tracks(first, fewer);
    lemma_run_tracks(first, more);
    lemma_merge_only_removes(first, fewer);
    lemma_merge_only_removes(first, more);
    lemma_more_pairs_coarser(first, fewer, more);
    let left1 = s1.graph.vertices.dom();
    let left2 = s2.graph.vertices.dom();
    let stands = |v: usize| resolve(s1.table, v);
    assert forall|v: usize, w: usize|
        left2.contains(v) && left2.contains(w) && #[trigger] stands(v) == #[trigger] stands(
            w,
        ) implies v == w by {
        lemma_resolve_is_live(s2, first, v);
        lemma_resolve_is_live(s2, first, w);
        assert(resolve(s1.table, v) == resolve(s1.table, w));
    }
    assert(left2.map(stands).subset_of(left1)) by {
        assert forall|x: usize| left2.map(stands).contains(x) implies left1.contains(x) by {
            let v = choose|v: usize| left2.contains(v) && x == stands(v);
            lemma_resolve_is_live(s2, first, v);
            lemma_resolve_is_live(s1, first, v);
        }
    }
    vstd::set_lib::lemma_map_size(left2, left2.map(stands), stands);
    vstd::set_lib::lemma_len_subset(left2.map(stands), left1);
}

/// Picking more gives more: where `wide` says yes wherever `narrow` does, the
/// pairs that `narrow` picks are among those that `wide` picks, in their
/// order.
pub proof fn lemma_wider_choice_has_more(
    pairs: Seq<(usize, usize)>,
    narrow: Seq<bool>,
    wide: Seq<bool>,
)
    requires
        narrow.len() == pairs.len(),
        wide.len() == pairs.len(),
        forall|k: int| 0 <= k < pairs.len() && narrow[k] ==> wide[k],
    ensures
        is_subsequence(chosen(pairs, narrow), chosen(pairs, wide)),
    decreases pairs.len(),
{
    if pairs.len() > 0 {
        lemma_wider_choice_has_more(pairs.drop_last(), narrow.drop_last(), wide.drop_last());
        let fewer = chosen(pairs.drop_last(), narrow.drop_last());
        let more = chosen(pairs.drop_last(), wide.drop_last());
        if wide.last() {
            assert(more.push(pairs.last()).drop_last() =~= more);
            if narrow.last() {
                assert(fewer.push(pairs.last()).drop_last() =~= fewer);
            }
        }
    }
}

/// Finding more pairs close never leaves more vertices. Let two judgements
/// be given on the same pairs of vertices, the second saying yes wherever the
/// first does, as it is with a larger merge radius. Then the merge of what
/// the second picks leaves at most as many vertices as the merge of what the
/// first picks.
pub proof fn lemma_wider_choice_fewer_vertices<C>(
    first: GraphModel<C>,
    pairs: Seq<(usize, usize)>,
    narrow: Seq<bool>,
    wide: Seq<bool>,
)
    requires
        first.wf(),
        narrow.len() == pairs.len(),
        wide.len() == pairs.len(),
        forall|k: int| 0 <= k < pairs.len() && narrow[k] ==> wide[k],
    ensures
        merged(first, chosen(pairs, wide)).vertices.dom().len() <= merged(
            first,
            chosen(pairs, narrow),
        ).vertices.dom().len(),
{
    lemma_wider_choice_has_more(pairs, narrow, wide);
    lemma_more_pairs_fewer_vertices(first, chosen(pairs, narrow), chosen(pairs, wide));
}

} // verus!
