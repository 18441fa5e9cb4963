//! Merging vertices that lie close together.
//!
//! Which vertices are close is the caller's judgement: a function of two
//! positions that says yes or no, or a list of pairs of vertex identifiers.
//! What is verified here is which pairs are put to that function and in what
//! order, and everything that follows from its answers.
//!
//! A pair may name a vertex that an earlier pair has merged away. It then
//! means the vertex that has taken that one in.

use crate::keys::{ascending, lemma_take_next, rising, sorted_keys};
use crate::merge_laws::{
    lemma_merge_adds_no_self_loop, lemma_merge_keeps_edges_resolved, lemma_merge_only_removes,
};
use crate::vector_map::{Coord2D, GraphModel, VectorMap};
use std::collections::BTreeMap;
use vstd::prelude::*;

verus! {

/// Where a vertex has gone: `table` names, for each vertex that was merged
/// away, the vertex that stands for it now. Any other identifier stands for
/// itself.
pub open spec fn resolve(table: Map<usize, usize>, v: usize) -> usize {
    if table.contains_key(v) {
        table[v]
    } else {
        v
    }
}

/// The table after `gone` was merged into `kept`: `gone`, and all that had
/// gone to `gone` before, now go to `kept`.
pub open spec fn retargeted(table: Map<usize, usize>, gone: usize, kept: usize) -> Map<
    usize,
    usize,
> {
    Map::new(
        |v: usize| v == gone || table.contains_key(v),
        |v: usize|
            if v == gone || table[v] == gone {
                kept
            } else {
                table[v]
            },
    )
}

/// A merge under way: the map as it stands, and where the vertices that were
/// merged away have gone.
pub struct MergeState<C> {
    pub graph: GraphModel<C>,
    pub table: Map<usize, usize>,
}

impl<C> MergeState<C> {
    /// The state before any pair was looked at.
    pub open spec fn start(graph: GraphModel<C>) -> Self {
        MergeState { graph, table: Map::empty() }
    }

    /// The state after one pair. Each of its two identifiers is first taken
    /// to the vertex that stands for it now. Where the two then are distinct
    /// vertices of the map, the second is merged into the first. Any other
    /// pair changes nothing.
    pub open spec fn step(self, pair: (usize, usize)) -> Self {
        let kept = resolve(self.table, pair.0);
        let gone = resolve(self.table, pair.1);
        if self.graph.can_absorb(kept, gone) {
            MergeState {
                graph: self.graph.absorb(kept, gone),
                table: retargeted(self.table, gone, kept),
            }
        } else {
            self
        }
    }

    /// The state after the pairs `pairs`, taken in order.
    pub open spec fn run(self, pairs: Seq<(usize, usize)>) -> Self
        decreases pairs.len(),
    {
        if pairs.len() == 0 {
            self
        } else {
            self.run(pairs.drop_last()).step(pairs.last())
        }
    }
}

/// The map `graph` with the pairs `pairs` merged, in order.
pub open spec fn merged<C>(graph: GraphModel<C>, pairs: Seq<(usize, usize)>) -> GraphModel<C> {
    MergeState::start(graph).run(pairs).graph
}

/// Where the vertices that the merge of `pairs` took out of `graph` have gone.
pub open spec fn merge_table<C>(graph: GraphModel<C>, pairs: Seq<(usize, usize)>) -> Map<
    usize,
    usize,
> {
    MergeState::start(graph).run(pairs).table
}

/// Whether `fewer` is `more` with some of its elements left out, the others
/// in their order.
pub open spec fn is_subsequence<T>(fewer: Seq<T>, more: Seq<T>) -> bool
    decreases more.len(),
{
    if fewer.len() == 0 {
        true
    } else if more.len() == 0 {
        false
    } else {
        (fewer.last() == more.last() && is_subsequence(fewer.drop_last(), more.drop_last()))
            || is_subsequence(fewer, more.drop_last())
    }
}

/// The pairs that `ids[i]` makes with each later element of `ids`, in the
/// order of the list.
pub open spec fn pairs_from(ids: Seq<usize>, i: int) -> Seq<(usize, usize)> {
    Seq::new((ids.len() - i - 1) as nat, |k: int| (ids[i], ids[i + 1 + k]))
}

/// The pairs that each of the first `n` elements of `ids` makes with each
/// element after it: first those of `ids[0]`, then those of `ids[1]`, and so
/// on.
pub open spec fn pairs_below(ids: Seq<usize>, n: nat) -> Seq<(usize, usize)>
    decreases n,
{
    if n == 0 {
        Seq::empty()
    } else {
        pairs_below(ids, (n - 1) as nat) + pairs_from(ids, n - 1)
    }
}

/// Every pair of two elements of `ids`, the earlier one first, each pair
/// once.
pub open spec fn all_pairs(ids: Seq<usize>) -> Seq<(usize, usize)> {
    pairs_below(ids, ids.len())
}

/// A pair is among [`all_pairs`] just when it is made of an element of the
/// list and a later one.
pub proof fn lemma_all_pairs_complete(ids: Seq<usize>, n: nat, pair: (usize, usize))
    requires
        n <= ids.len(),
    ensures
        pairs_below(ids, n).contains(pair) <==> exists|i: int, j: int|
            0 <= i < n && i < j < ids.len() && pair == (#[trigger] ids[i], #[trigger] ids[j]),
    decreases n,
{
    if n == 0 {
        if pairs_below(ids, n).contains(pair) {
            let k = choose|k: int| 0 <= k < pairs_below(ids, n).len() && pairs_below(ids, n)[k] == pair;
        }
    } else {
        let before = pairs_below(ids, (n - 1) as nat);
        let row = pairs_from(ids, n - 1);
        lemma_all_pairs_complete(ids, (n - 1) as nat, pair);
        if pairs_below(ids, n).contains(pair) {
            let k = choose|k: int| 0 <= k < (before + row).len() && (before + row)[k] == pair;
            if k < before.len() {
                assert(before[k] == pair);
                assert(before.contains(pair));
                let (i, j) = choose|i: int, j: int|
                    0 <= i < n - 1 && i < j < ids.len() && pair == (
                        #[trigger] ids[i],
                        #[trigger] ids[j],
                    );
                assert(0 <= i < n && i < j < ids.len() && pair == (ids[i], ids[j]));
            } else {
                let m = k - before.len();
                assert(row[m] == pair);
                assert(pair == (ids[n - 1], ids[n + m]));
            }
        }
        if exists|i: int, j: int|
            0 <= i < n && i < j < ids.len() && pair == (#[trigger] ids[i], #[trigger] ids[j]) {
            let (i, j) = choose|i: int, j: int|
                0 <= i < n && i < j < ids.len() && pair == (#[trigger] ids[i], #[trigger] ids[j]);
            if i < n - 1 {
                assert(before.contains(pair));
                let k = choose|k: int| 0 <= k < before.len() && before[k] == pair;
                assert((before + row)[k] == pair);
            } else {
                assert(row[j - n] == pair);
                assert((before + row)[before.len() + (j - n)] == pair);
            }
        }
    }
}

/// The pairs of `pairs` that were picked: those at the places where `picked`
/// says yes, in their order.
pub open spec fn chosen(pairs: Seq<(usize, usize)>, picked: Seq<bool>) -> Seq<(usize, usize)>
    decreases pairs.len(),
{
    if pairs.len() == 0 {
        Seq::empty()
    } else if picked.last() {
        chosen(pairs.drop_last(), picked.drop_last()).push(pairs.last())
    } else {
        chosen(pairs.drop_last(), picked.drop_last())
    }
}

/// Whether `picked` are answers that `near` can have given on the pairs
/// `pairs` of vertices of the map `graph`: one answer for each pair, on the
/// positions of its two vertices, first vertex first.
pub open spec fn judged_near<C, F: Fn(Coord2D<C>, Coord2D<C>) -> bool>(
    near: F,
    graph: GraphModel<C>,
    pairs: Seq<(usize, usize)>,
    picked: Seq<bool>,
) -> bool {
    &&& picked.len() == pairs.len()
    &&& forall|k: int|
        0 <= k < pairs.len() ==> near.ensures(
            (graph.vertices[pairs[k].0].position, graph.vertices[pairs[k].1].position),
            #[trigger] picked[k],
        )
}

/// Whether every edge of `after` that joins a vertex to itself is an edge of
/// `before`, unchanged.
pub open spec fn adds_no_self_loop<C>(before: GraphModel<C>, after: GraphModel<C>) -> bool {
    forall|k: usize| #[trigger]
        after.edges.contains_key(k) && after.edges[k].is_self_loop() ==> before.edges.contains_key(
            k,
        ) && before.edges[k] == after.edges[k]
}

fn lookup(table: &BTreeMap<usize, usize>, v: usize) -> (r: usize)
    ensures
        r == resolve(table@, v),
{
    match table.get(&v) {
        Some(t) => *t,
        None => v,
    }
}

fn retarget(table: &mut BTreeMap<usize, usize>, gone: usize, kept: usize)
    ensures
        final(table)@ == retargeted(old(table)@, gone, kept),
{
    let ids = sorted_keys(table);
    let ghost before = table@;
    let mut i: usize = 0;
    while i < ids.len()
        invariant
            i <= ids.len(),
            rising(ids@),
            forall|k: usize| ids@.contains(k) <==> before.contains_key(k),
            table@.dom() == before.dom(),
            forall|k: usize| #[trigger]
                before.contains_key(k) ==> table@[k] == (if ids@.take(i as int).contains(k)
                    && before[k] == gone {
                    kept
                } else {
                    before[k]
                }),
        decreases ids.len() - i,
    {
        let id: usize = ids[i];
        proof {
            lemma_take_next(ids@, i as int);
        }
        if lookup(table, id) == gone {
            table.insert(id, kept);
            assert(table@.dom() =~= before.dom());
        }
        i += 1;
    }
    table.insert(gone, kept);
    proof {
        assert(ids@.take(ids@.len() as int) =~= ids@);
        assert(table@ =~= retargeted(before, gone, kept));
    }
}

/// Every pair of two vertices of the map, by their identifiers: the smaller
/// identifier first, the pairs of the smallest vertex first, and among the
/// pairs of one vertex the smaller partner first. These are the pairs among
/// which a caller looks for vertices that lie close together.
pub fn vertex_pairs<C: Copy>(vmap: &VectorMap<C>) -> (pairs: Vec<(usize, usize)>)
    ensures
        pairs@ == all_pairs(ascending(vmap@.vertices.dom())),
        forall|k: int|
            0 <= k < pairs@.len() ==> vmap@.vertices.contains_key((#[trigger] pairs@[k]).0)
                && vmap@.vertices.contains_key(pairs@[k].1) && pairs@[k].0 < pairs@[k].1,
{
    let ids = vmap.vertex_ids();
    let mut pairs: Vec<(usize, usize)> = Vec::new();
    let mut i: usize = 0;
    while i < ids.len()
        invariant
            i <= ids.len(),
            rising(ids@),
            forall|k: usize| ids@.contains(k) <==> vmap@.vertices.contains_key(k),
            pairs@ == pairs_below(ids@, i as nat),
            forall|k: int|
                0 <= k < pairs@.len() ==> vmap@.vertices.contains_key((#[trigger] pairs@[k]).0)
                    && vmap@.vertices.contains_key(pairs@[k].1) && pairs@[k].0 < pairs@[k].1,
        decreases ids.len() - i,
    {
        let ghost before = pairs@;
        let mut j: usize = i + 1;
        while j < ids.len()
            invariant
                i < ids.len(),
                i < j <= ids.len(),
                rising(ids@),
                forall|k: usize| ids@.contains(k) <==> vmap@.vertices.contains_key(k),
                pairs@.len() == before.len() + (j - i - 1),
                forall|k: int| 0 <= k < before.len() ==> pairs@[k] == before[k],
                forall|k: int|
                    0 <= k < pairs@.len() ==> vmap@.vertices.contains_key(
                        (#[trigger] pairs@[k]).0,
                    ) && vmap@.vertices.contains_key(pairs@[k].1) && pairs@[k].0 < pairs@[k].1,
                forall|k: int|
                    before.len() <= k < pairs@.len() ==> pairs@[k] == (
                        ids@[i as int],
                        ids@[i + 1 + (k - before.len())],
                    ),
            decreases ids.len() - j,
        {
            proof {
                assert(ids@.contains(ids@[i as int]));
                assert(ids@.contains(ids@[j as int]));
            }
            pairs.push((ids[i], ids[j]));
            j += 1;
        }
        proof {
            assert(pairs@ =~= before + pairs_from(ids@, i as int));
        }
        i += 1;
    }
    pairs
}

/// Merges vertices pair by pair. For each pair of `pairs`, in order, the
/// vertex that stands for the second is merged into the vertex that stands
/// for the first: it leaves the map, the edges that ended in it end in the
/// other, and an edge between the two leaves too. A pair that names no two
/// distinct vertices of the map, as it stands by then, changes nothing.
/// Edges that come to join the same two vertices all stay.
pub fn merge_pairs<C: Copy>(vmap: VectorMap<C>, pairs: &Vec<(usize, usize)>) -> (out: VectorMap<C>)
    requires
        vmap.wf(),
    ensures
        out.wf(),
        out@ == merged(vmap@, pairs@),
        out@.labels == vmap@.labels,
        vmap@.edges_resolve() ==> out@.edges_resolve(),
        adds_no_self_loop(vmap@, out@),
{
    let mut out = vmap;
    let mut table: BTreeMap<usize, usize> = BTreeMap::new();
    let mut i: usize = 0;
    while i < pairs.len()
        invariant
            i <= pairs.len(),
            out.wf(),
            (MergeState { graph: out@, table: table@ }) == MergeState::start(vmap@).run(
                pairs@.take(i as int),
            ),
        decreases pairs.len() - i,
    {
        let pair: (usize, usize) = pairs[i];
        let kept: usize = lookup(&table, pair.0);
        let gone: usize = lookup(&table, pair.1);
        proof {
            assert(pairs@.take(i as int + 1).drop_last() =~= pairs@.take(i as int));
        }
        if out.absorb_vertex(kept, gone) {
            retarget(&mut table, gone, kept);
        }
        i += 1;
    }
    proof {
        assert(pairs@.take(pairs@.len() as int) =~= pairs@);
        lemma_merge_only_removes(vmap@, pairs@);
        lemma_merge_keeps_edges_resolved(vmap@, pairs@);
        lemma_merge_adds_no_self_loop(vmap@, pairs@);
    }
    out
}

/// The pairs of vertices of the map that `near` finds close together, in the
/// order of [`vertex_pairs`]. Each pair of two vertices is put to `near` once,
/// by the positions of the two, the vertex with the smaller identifier first.
pub fn near_pairs<C: Copy, F: Fn(Coord2D<C>, Coord2D<C>) -> bool>(vmap: &VectorMap<C>, near: F) -> (
    found: Vec<(usize, usize)>)
    requires
        forall|a: Coord2D<C>, b: Coord2D<C>| near.requires((a, b)),
    ensures
        exists|picked: Seq<bool>|
            judged_near(near, vmap@, all_pairs(ascending(vmap@.vertices.dom())), picked) && found@
                == chosen(all_pairs(ascending(vmap@.vertices.dom())), picked),
{
    let pairs = vertex_pairs(vmap);
    let mut found: Vec<(usize, usize)> = Vec::new();
    let ghost mut picked: Seq<bool> = Seq::empty();
    let mut k: usize = 0;
    while k < pairs.len()
        invariant
            k <= pairs.len(),
            pairs@ == all_pairs(ascending(vmap@.vertices.dom())),
            forall|j: int|
                0 <= j < pairs@.len() ==> vmap@.vertices.contains_key((#[trigger] pairs@[j]).0)
                    && vmap@.vertices.contains_key(pairs@[j].1),
            forall|a: Coord2D<C>, b: Coord2D<C>| near.requires((a, b)),
            judged_near(near, vmap@, pairs@.take(k as int), picked),
            found@ == chosen(pairs@.take(k as int), picked),
        decreases pairs.len() - k,
    {
        let pair: (usize, usize) = pairs[k];
        let ghost done = picked;
        match (vmap.get_vertex(pair.0), vmap.get_vertex(pair.1)) {
            (Some(a), Some(b)) => {
                let yes = near(a.position, b.position);
                if yes {
                    found.push(pair);
                }
                proof {
                    picked = picked.push(yes);
                }
            },
            _ => {
                proof {
                    picked = picked.push(false);
                }
            },
        }
        proof {
            assert(pairs@.take(k as int + 1).drop_last() =~= pairs@.take(k as int));
            assert(picked.drop_last() =~= done);
        }
        k += 1;
    }
    proof {
        assert(pairs@.take(pairs@.len() as int) =~= pairs@);
    }
    found
}

/// Merges the vertices of the map that `near` finds close together. First
/// every pair of two vertices is put to `near`, in the order of
/// [`vertex_pairs`], on the map as it is given. Then the pairs it found close
/// are merged as by [`merge_pairs`], in that order: of two vertices the one
/// with the smaller identifier takes the other in, unless it was itself taken
/// in before.
pub fn merge_near_vertices<C: Copy, F: Fn(Coord2D<C>, Coord2D<C>) -> bool>(
    vmap: VectorMap<C>,
    near: F,
) -> (out: VectorMap<C>)
    requires
        vmap.wf(),
        forall|a: Coord2D<C>, b: Coord2D<C>| near.requires((a, b)),
    ensures
        out.wf(),
        exists|picked: Seq<bool>|
            judged_near(near, vmap@, all_pairs(ascending(vmap@.vertices.dom())), picked) && out@
                == merged(vmap@, chosen(all_pairs(ascending(vmap@.vertices.dom())), picked)),
        out@.labels == vmap@.labels,
        vmap@.edges_resolve() ==> out@.edges_resolve(),
        adds_no_self_loop(vmap@, out@),
{
    let found = near_pairs(&vmap, near);
    merge_pairs(vmap, &found)
}

} // verus!
