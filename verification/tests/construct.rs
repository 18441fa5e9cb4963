use tactil_rs::simplify::merge_near_vertices;
use tactil_rs::vector_map::{Coord2D, Edge, MapError, VectorMap, Vertex, VerticesAndEdges};

fn at(x: f32, y: f32) -> Coord2D<f32> {
    Coord2D::new(x, y)
}

fn corners() -> Vec<Vertex<f32>> {
    vec![
        Vertex { id: 1, position: at(1., 2.) },
        Vertex { id: 2, position: at(1., 5.) },
        Vertex { id: 4, position: at(1.1, 2.1) },
        Vertex { id: 5, position: at(2., 3.) },
    ]
}

fn walls() -> Vec<Edge> {
    vec![
        Edge { id: 6, vertex_id_a: 1, vertex_id_b: 2 },
        Edge { id: 7, vertex_id_a: 4, vertex_id_b: 5 },
    ]
}

#[test]
fn from_features_holds_what_it_was_given() {
    let vmap = VectorMap::from_features(&corners(), &walls()).unwrap();
    assert_eq!(vmap.vertex_list(), corners());
    assert_eq!(vmap.edge_list(), walls());
    assert_eq!(vmap.allocated(), 7);
    assert_eq!(vmap.get_vertex(4), Some(Vertex { id: 4, position: at(1.1, 2.1) }));
    assert_eq!(vmap.get_vertex(3), None);
}

#[test]
fn from_features_sorts_by_identifier() {
    let mut given = corners();
    given.reverse();
    let mut given_walls = walls();
    given_walls.reverse();
    let vmap = VectorMap::from_features(&given, &given_walls).unwrap();
    assert_eq!(vmap.vertex_list(), corners());
    assert_eq!(vmap.edge_list(), walls());
}

#[test]
fn from_features_of_nothing_is_the_empty_map() {
    let vmap: VectorMap<f32> = VectorMap::from_features(&Vec::new(), &Vec::new()).unwrap();
    assert_eq!(vmap.allocated(), 0);
    assert_eq!(vmap.vertex_count(), 0);
    assert_eq!(vmap.edge_count(), 0);
}

#[test]
fn the_next_identifier_follows_the_largest_given() {
    let mut vmap = VectorMap::from_features(&corners(), &Vec::new()).unwrap();
    assert_eq!(vmap.allocated(), 5);
    assert_eq!(vmap.add_vertex(&at(0., 0.)), 6);
    assert_eq!(vmap.add_edge(1, 6), Ok(Some(7)));
}

#[test]
fn from_features_refuses_a_shared_identifier() {
    let mut twice = corners();
    twice.push(Vertex { id: 2, position: at(0., 0.) });
    assert_eq!(
        VectorMap::from_features(&twice, &walls()).err(),
        Some(MapError::DuplicateId)
    );
    let mut edge_twice = walls();
    edge_twice.push(Edge { id: 6, vertex_id_a: 2, vertex_id_b: 5 });
    assert_eq!(
        VectorMap::from_features(&corners(), &edge_twice).err(),
        Some(MapError::DuplicateId)
    );
    let clash = vec![Edge { id: 4, vertex_id_a: 1, vertex_id_b: 2 }];
    assert_eq!(
        VectorMap::from_features(&corners(), &clash).err(),
        Some(MapError::DuplicateId)
    );
}

#[test]
fn from_features_refuses_an_edge_to_nowhere() {
    let loose = vec![Edge { id: 6, vertex_id_a: 1, vertex_id_b: 3 }];
    assert_eq!(
        VectorMap::from_features(&corners(), &loose).err(),
        Some(MapError::InvalidReference)
    );
    let loose = vec![Edge { id: 6, vertex_id_a: 9, vertex_id_b: 1 }];
    assert_eq!(
        VectorMap::from_features(&corners(), &loose).err(),
        Some(MapError::InvalidReference)
    );
}

#[test]
fn a_shared_identifier_is_reported_before_an_edge_to_nowhere() {
    let both = vec![
        Edge { id: 6, vertex_id_a: 1, vertex_id_b: 3 },
        Edge { id: 6, vertex_id_a: 1, vertex_id_b: 2 },
    ];
    assert_eq!(
        VectorMap::from_features(&corners(), &both).err(),
        Some(MapError::DuplicateId)
    );
}

#[test]
fn features_lists_vertices_and_edges() {
    let vmap = VectorMap::from_features(&corners(), &walls()).unwrap();
    assert_eq!(
        vmap.features(),
        VerticesAndEdges { vertices: corners(), edges: walls() }
    );
}

#[test]
fn a_map_can_be_built_again_from_its_features() {
    let mut vmap: VectorMap<f32> = VectorMap::new();
    vmap.add_vertex(&at(0., 0.));
    vmap.add_vertex(&at(1., 0.));
    vmap.add_vertex(&at(2., 0.));
    vmap.remove_vertex(2);
    assert_eq!(vmap.add_edge(1, 3), Ok(Some(4)));
    assert_eq!(vmap.add_edge(3, 1), Ok(Some(5)));
    vmap.remove_edge(5);
    let listed = vmap.features();
    let again = VectorMap::from_features(&listed.vertices, &listed.edges).unwrap();
    assert_eq!(again.features(), listed);
    // the identifier of the edge that was removed is free again in the copy
    assert_eq!(vmap.allocated(), 5);
    assert_eq!(again.allocated(), 4);
}

#[test]
fn merge_of_the_floor_plan() {
    let vmap = VectorMap::from_features(&corners(), &walls()).unwrap();
    let out = merge_near_vertices(vmap, |a: Coord2D<f32>, b: Coord2D<f32>| {
        f32::sqrt((a.x - b.x).powf(2.) + (a.y - b.y).powf(2.)) < 0.6
    });
    assert_eq!(out.vertex_ids(), vec![1, 2, 5]);
    assert_eq!(
        out.edge_list(),
        vec![
            Edge { id: 6, vertex_id_a: 1, vertex_id_b: 2 },
            Edge { id: 7, vertex_id_a: 1, vertex_id_b: 5 },
        ]
    );
}
