use tactil_rs::simplify::{merge_near_vertices, merge_pairs, near_pairs, vertex_pairs};
use tactil_rs::vector_map::{Coord2D, Edge, VectorMap, Vertex};

fn at(x: f32, y: f32) -> Coord2D<f32> {
    Coord2D::new(x, y)
}

fn distance(a: Coord2D<f32>, b: Coord2D<f32>) -> f32 {
    f32::sqrt((a.x - b.x).powf(2.) + (a.y - b.y).powf(2.))
}

fn merge_within(vmap: VectorMap<f32>, merge_radius: f32) -> VectorMap<f32> {
    merge_near_vertices(vmap, |a: Coord2D<f32>, b: Coord2D<f32>| distance(a, b) < merge_radius)
}

/// Vertices `1:(1,2)`, `2:(1,5)`, `4:(1.1,2.1)`, `5:(2,3)`, edges `1->2` and
/// `4->5` (under the identifiers 6 and 7).
fn floor_plan() -> VectorMap<f32> {
    let mut vmap: VectorMap<f32> = VectorMap::new();
    vmap.add_vertex(&at(1., 2.));
    vmap.add_vertex(&at(1., 5.));
    vmap.add_vertex(&at(9., 9.));
    vmap.add_vertex(&at(1.1, 2.1));
    vmap.add_vertex(&at(2., 3.));
    vmap.remove_vertex(3);
    assert_eq!(vmap.add_edge(1, 2), Ok(Some(6)));
    assert_eq!(vmap.add_edge(4, 5), Ok(Some(7)));
    vmap
}

/// A hub `2` with two close neighbours `3` and `4`, and `1` a little further
/// from the hub and far from the other two.
fn hub() -> VectorMap<f32> {
    let mut vmap: VectorMap<f32> = VectorMap::new();
    vmap.add_vertex(&at(0., 0.9));
    vmap.add_vertex(&at(0., 0.));
    vmap.add_vertex(&at(0.5, 0.));
    vmap.add_vertex(&at(-0.5, 0.));
    vmap
}

#[test]
fn vertex_pairs_come_in_rising_order() {
    let vmap = floor_plan();
    assert_eq!(
        vertex_pairs(&vmap),
        vec![(1, 2), (1, 4), (1, 5), (2, 4), (2, 5), (4, 5)]
    );
}

#[test]
fn vertex_pairs_of_small_maps() {
    let mut vmap: VectorMap<f32> = VectorMap::new();
    assert_eq!(vertex_pairs(&vmap), Vec::<(usize, usize)>::new());
    vmap.add_vertex(&at(0., 0.));
    assert_eq!(vertex_pairs(&vmap), Vec::<(usize, usize)>::new());
    vmap.add_vertex(&at(1., 0.));
    assert_eq!(vertex_pairs(&vmap), vec![(1, 2)]);
}

#[test]
fn near_pairs_asks_about_every_pair_once() {
    let vmap = floor_plan();
    let asked = std::cell::RefCell::new(Vec::<(Coord2D<f32>, Coord2D<f32>)>::new());
    let found = near_pairs(&vmap, |a: Coord2D<f32>, b: Coord2D<f32>| {
        asked.borrow_mut().push((a, b));
        a.x == 1. && b.y == 3.
    });
    assert_eq!(found, vec![(1, 5), (2, 5)]);
    assert_eq!(
        asked.into_inner(),
        vec![
            (at(1., 2.), at(1., 5.)),
            (at(1., 2.), at(1.1, 2.1)),
            (at(1., 2.), at(2., 3.)),
            (at(1., 5.), at(1.1, 2.1)),
            (at(1., 5.), at(2., 3.)),
            (at(1.1, 2.1), at(2., 3.)),
        ]
    );
}

#[test]
fn near_pairs_by_distance() {
    let vmap = floor_plan();
    let found = near_pairs(&vmap, |a: Coord2D<f32>, b: Coord2D<f32>| distance(a, b) < 0.6);
    assert_eq!(found, vec![(1, 4)]);
    let found = near_pairs(&vmap, |a: Coord2D<f32>, b: Coord2D<f32>| distance(a, b) < 1.3);
    assert_eq!(found, vec![(1, 4), (4, 5)]);
}

#[test]
fn merge_rewires_the_edge_of_the_merged_vertex() {
    let out = merge_within(floor_plan(), 0.6);
    assert_eq!(out.vertex_ids(), vec![1, 2, 5]);
    assert_eq!(
        out.edge_list(),
        vec![
            Edge { id: 6, vertex_id_a: 1, vertex_id_b: 2 },
            Edge { id: 7, vertex_id_a: 1, vertex_id_b: 5 },
        ]
    );
    assert_eq!(
        out.vertex_list(),
        vec![
            Vertex { id: 1, position: at(1., 2.) },
            Vertex { id: 2, position: at(1., 5.) },
            Vertex { id: 5, position: at(2., 3.) },
        ]
    );
    assert_eq!(out.allocated(), 7);
}

#[test]
fn merge_with_tiny_radius_changes_nothing() {
    let out = merge_within(floor_plan(), 0.001);
    assert_eq!(out.vertex_list(), floor_plan().vertex_list());
    assert_eq!(out.edge_list(), floor_plan().edge_list());
}

#[test]
fn merge_of_no_pairs_changes_nothing() {
    let out = merge_pairs(floor_plan(), &Vec::new());
    assert_eq!(out.vertex_list(), floor_plan().vertex_list());
    assert_eq!(out.edge_list(), floor_plan().edge_list());
}

#[test]
fn merge_drops_the_edge_between_merged_vertices() {
    let mut vmap = floor_plan();
    assert_eq!(vmap.add_edge(1, 4), Ok(Some(8)));
    assert_eq!(vmap.add_edge(4, 1), Ok(Some(9)));
    let out = merge_within(vmap, 0.6);
    assert_eq!(
        out.edge_list(),
        vec![
            Edge { id: 6, vertex_id_a: 1, vertex_id_b: 2 },
            Edge { id: 7, vertex_id_a: 1, vertex_id_b: 5 },
        ]
    );
    for e in out.edge_list() {
        assert_ne!(e.vertex_id_a, e.vertex_id_b);
    }
}

#[test]
fn merge_leaves_no_edge_dangling() {
    let mut vmap = hub();
    assert_eq!(vmap.add_edge(1, 2), Ok(Some(5)));
    assert_eq!(vmap.add_edge(2, 3), Ok(Some(6)));
    assert_eq!(vmap.add_edge(3, 4), Ok(Some(7)));
    assert_eq!(vmap.add_edge(4, 1), Ok(Some(8)));
    for radius in [0.1f32, 0.6, 0.95, 1.1, 5.0] {
        let out = merge_within(hub_with_ring(), radius);
        for e in out.edge_list() {
            assert!(out.get_vertex(e.vertex_id_a).is_some());
            assert!(out.get_vertex(e.vertex_id_b).is_some());
            assert_ne!(e.vertex_id_a, e.vertex_id_b);
        }
    }
    let out = merge_within(vmap, 0.6);
    // 3 and 4 went into 2: the ring 1-2-3-4-1 keeps 1->2 and 4->1, now 2->1
    assert_eq!(out.vertex_ids(), vec![1, 2]);
    assert_eq!(
        out.edge_list(),
        vec![
            Edge { id: 5, vertex_id_a: 1, vertex_id_b: 2 },
            Edge { id: 8, vertex_id_a: 2, vertex_id_b: 1 },
        ]
    );
}

fn hub_with_ring() -> VectorMap<f32> {
    let mut vmap = hub();
    let _ = vmap.add_edge(1, 2);
    let _ = vmap.add_edge(2, 3);
    let _ = vmap.add_edge(3, 4);
    let _ = vmap.add_edge(4, 1);
    vmap
}

#[test]
fn merge_keeps_parallel_edges() {
    let mut vmap = floor_plan();
    assert_eq!(vmap.add_edge(1, 5), Ok(Some(8)));
    let out = merge_within(vmap, 0.6);
    assert_eq!(
        out.edge_list(),
        vec![
            Edge { id: 6, vertex_id_a: 1, vertex_id_b: 2 },
            Edge { id: 7, vertex_id_a: 1, vertex_id_b: 5 },
            Edge { id: 8, vertex_id_a: 1, vertex_id_b: 5 },
        ]
    );
}

#[test]
fn a_pair_is_taken_to_the_vertices_that_stand_for_it() {
    // 2 goes into 1; the pair (2, 3) then means (1, 3)
    let mut vmap = hub();
    assert_eq!(vmap.add_edge(3, 4), Ok(Some(5)));
    let out = merge_pairs(vmap, &vec![(1, 2), (2, 3)]);
    assert_eq!(out.vertex_ids(), vec![1, 4]);
    assert_eq!(out.edge_list(), vec![Edge { id: 5, vertex_id_a: 1, vertex_id_b: 4 }]);
}

#[test]
fn the_first_of_a_pair_survives() {
    let out = merge_pairs(hub(), &vec![(3, 1)]);
    assert_eq!(out.vertex_ids(), vec![2, 3, 4]);
    // 1 went into 3; the pair (2, 1) merges 3 into 2
    let out = merge_pairs(hub(), &vec![(3, 1), (2, 1)]);
    assert_eq!(out.vertex_ids(), vec![2, 4]);
}

#[test]
fn pairs_that_name_no_two_vertices_change_nothing() {
    let mut vmap = hub();
    assert_eq!(vmap.add_edge(1, 2), Ok(Some(5)));
    let out = merge_pairs(vmap, &vec![(1, 1), (1, 9), (9, 1), (5, 1), (1, 5), (0, 0)]);
    assert_eq!(out.vertex_ids(), vec![1, 2, 3, 4]);
    assert_eq!(out.edge_list(), vec![Edge { id: 5, vertex_id_a: 1, vertex_id_b: 2 }]);
    // a pair that was merged already
    let out = merge_pairs(hub(), &vec![(1, 2), (1, 2), (2, 1)]);
    assert_eq!(out.vertex_ids(), vec![1, 3, 4]);
}

#[test]
fn a_self_loop_goes_with_its_vertex() {
    let mut vmap = hub();
    assert_eq!(vmap.add_edge(2, 2), Ok(Some(5)));
    assert_eq!(vmap.add_edge(3, 3), Ok(Some(6)));
    let out = merge_pairs(vmap, &vec![(1, 2)]);
    // the loop on 2 is gone with 2; the loop on 3 was not touched
    assert_eq!(out.edge_list(), vec![Edge { id: 6, vertex_id_a: 3, vertex_id_b: 3 }]);
}

#[test]
fn a_dangling_end_is_left_as_it_is() {
    let mut vmap = hub();
    assert_eq!(vmap.add_edge(3, 4), Ok(Some(5)));
    vmap.remove_vertex(4);
    let out = merge_pairs(vmap, &vec![(1, 3)]);
    assert_eq!(out.edge_list(), vec![Edge { id: 5, vertex_id_a: 1, vertex_id_b: 4 }]);
}

#[test]
fn a_larger_radius_never_leaves_more_vertices() {
    let radii = [0.0f32, 0.1, 0.6, 0.95, 1.04, 1.1, 2.0];
    let mut last = hub().vertex_count();
    for radius in radii {
        let left = merge_within(hub(), radius).vertex_count();
        assert!(left <= last);
        last = left;
    }
    assert_eq!(merge_within(hub(), 0.6).vertex_ids(), vec![1, 2]);
    assert_eq!(merge_within(hub(), 0.95).vertex_ids(), vec![1]);
    assert_eq!(merge_within(hub(), 2.0).vertex_ids(), vec![1]);
}

#[test]
fn more_pairs_never_leave_more_vertices() {
    let fewer = vec![(2, 3), (2, 4)];
    let more = vec![(1, 2), (2, 3), (2, 4)];
    let left_fewer = merge_pairs(hub(), &fewer).vertex_count();
    let left_more = merge_pairs(hub(), &more).vertex_count();
    assert_eq!(left_fewer, 2);
    assert_eq!(left_more, 1);
}
