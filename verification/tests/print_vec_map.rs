use tactil_rs::vector_map::{Coord2D, Edge, VectorMap, Vertex};

#[test]
fn can_draw_map() -> () {
    let vec1 = Vertex {
        id: 1,
        position: Coord2D { x: 1., y: 2. },
    };
    let vec2 = Vertex {
        id: 2,
        position: Coord2D { x: 1., y: 5. },
    };
    let vec3 = Vertex {
        id: 4,
        position: Coord2D { x: 1.1, y: 2.1 },
    };
    let vec4 = Vertex {
        id: 5,
        position: Coord2D { x: 2., y: 3. },
    };

    let mut vmap: VectorMap<f32> = VectorMap::new();
    vmap.add_vertex(&vec1.position);
    vmap.add_vertex(&vec2.position);
    vmap.add_vertex(&vec3.position);
    vmap.add_vertex(&vec4.position);
    let _ = vmap.add_edge(1, 2);
    let _ = vmap.add_edge(3, 4);

    let vertices = vmap.vertex_list();
    let edges = vmap.edge_list();
    for vertex in &vertices {
        println!(
            "{}: ({:.2}, {:.2})",
            vertex.id, vertex.position.x, vertex.position.y
        );
    }
    for edge in &edges {
        println!("{}: [{}->{}]", edge.id, edge.vertex_id_a, edge.vertex_id_b);
    }

    assert_eq!(
        vertices,
        vec![
            Vertex { id: 1, position: Coord2D { x: 1., y: 2. } },
            Vertex { id: 2, position: Coord2D { x: 1., y: 5. } },
            Vertex { id: 3, position: Coord2D { x: 1.1, y: 2.1 } },
            Vertex { id: 4, position: Coord2D { x: 2., y: 3. } },
        ]
    );
    assert_eq!(
        edges,
        vec![
            Edge { id: 5, vertex_id_a: 1, vertex_id_b: 2 },
            Edge { id: 6, vertex_id_a: 3, vertex_id_b: 4 },
        ]
    );
}
