use tactil_rs::orthogonalize::{orthogonalize_map, Snap};
use tactil_rs::simplify::merge_pairs;
use tactil_rs::vector_map::{Coord2D, Label, VectorMap};

fn at(x: f32, y: f32) -> Coord2D<f32> {
    Coord2D::new(x, y)
}

fn labelled() -> VectorMap<f32> {
    let mut vmap: VectorMap<f32> = VectorMap::new();
    assert_eq!(vmap.add_vertex(&at(0., 0.)), 1);
    assert_eq!(vmap.add_vertex(&at(10., 1.)), 2);
    assert_eq!(vmap.add_edge(1, 2), Ok(Some(3)));
    assert_eq!(vmap.add_label(String::from("kitchen"), &at(5., 5.), 12., false), 4);
    assert_eq!(vmap.add_label(String::from("exit"), &at(9., 0.), 8., true), 5);
    vmap
}

fn kitchen() -> Label<f32> {
    Label { id: 4, text: String::from("kitchen"), position: at(5., 5.), size: 12., is_braille: false }
}

fn exit() -> Label<f32> {
    Label { id: 5, text: String::from("exit"), position: at(9., 0.), size: 8., is_braille: true }
}

#[test]
fn add_label_takes_the_next_id() {
    let vmap = labelled();
    assert_eq!(vmap.allocated(), 5);
    assert_eq!(vmap.label_ids(), vec![4, 5]);
    assert_eq!(vmap.get_label(4), Some(&kitchen()));
    assert_eq!(vmap.get_label(5), Some(&exit()));
    assert_eq!(vmap.get_label(4).unwrap().clone(), kitchen());
}

#[test]
fn label_lookups_go_by_kind() {
    let vmap = labelled();
    assert_eq!(vmap.get_label(1), None);
    assert_eq!(vmap.get_label(3), None);
    assert_eq!(vmap.get_label(9), None);
    assert_eq!(vmap.get_vertex(4), None);
    assert_eq!(vmap.get_edge(4), None);
}

#[test]
fn remove_label_takes_the_label_out() {
    let mut vmap = labelled();
    vmap.remove_label(4);
    assert_eq!(vmap.get_label(4), None);
    assert_eq!(vmap.label_ids(), vec![5]);
    // a vertex is no label, and the identifier is not handed out again
    vmap.remove_label(1);
    assert_eq!(vmap.vertex_count(), 2);
    assert_eq!(vmap.add_label(String::from("hall"), &at(1., 1.), 10., false), 6);
}

#[test]
fn a_label_cannot_end_an_edge() {
    let mut vmap = labelled();
    assert!(vmap.add_edge(1, 4).is_err());
    assert!(!vmap.absorb_vertex(1, 4));
    assert!(vmap.move_vertex(4, &at(0., 0.)).is_err());
    assert_eq!(vmap.get_label(4), Some(&kitchen()));
}

#[test]
fn merging_passes_labels_through() {
    let out = merge_pairs(labelled(), &vec![(1, 2), (1, 4), (4, 5)]);
    assert_eq!(out.vertex_ids(), vec![1]);
    assert_eq!(out.edge_count(), 0);
    assert_eq!(out.label_ids(), vec![4, 5]);
    assert_eq!(out.get_label(4), Some(&kitchen()));
    assert_eq!(out.get_label(5), Some(&exit()));
}

#[test]
fn snapping_passes_labels_through() {
    let out = orthogonalize_map(labelled(), |a: Coord2D<f32>, b: Coord2D<f32>| {
        Snap::Horizontal((a.y + b.y) / 2.)
    });
    assert_eq!(out.get_vertex(2).unwrap().position, at(10., 0.5));
    assert_eq!(out.get_label(4), Some(&kitchen()));
    assert_eq!(out.get_label(5), Some(&exit()));
}
