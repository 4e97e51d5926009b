use vbd_strand::scene::{alternating_stiffnesses, end_weighted_masses};
use vbd_strand::strand::{RestLength, VBDStrand};

#[test]
fn new_empty_has_no_vertices_or_springs() {
    let s: VBDStrand<f32> = VBDStrand::new_empty(0.0);
    assert_eq!(s.num_verts, 0);
    assert_eq!(s.n_edges, 0);
    assert!(s.edges.is_empty());
    assert!(s.vert_adjacent_edges.is_empty());
    assert_eq!(s.stiffness, 0.0);
    assert_eq!(s.stiffness_skip_spring, 0.0);
}

#[test]
fn horizontal_chain_without_skip_springs() {
    let mut s: VBDStrand<f32> = VBDStrand::new_empty(0.0);
    let masses = [1.0f32, 1.0, 1000.0];
    let lengths = [0.1f32, 0.1];
    s.from_uniform(&masses, &lengths, 1e6, false, 1e2);
    assert_eq!(s.num_verts, 3);
    assert_eq!(s.n_edges, 2);
    assert_eq!(s.edges, vec![[0, 1], [1, 2]]);
    assert_eq!(s.vert_adjacent_edges, vec![vec![0], vec![0, 1], vec![1]]);
    assert_eq!(s.edges_stiffness, vec![1e6f32, 1e6]);
    assert_eq!(s.org_lengths, vec![RestLength::Single(0.1f32), RestLength::Single(0.1)]);
    assert_eq!(s.vertex_mass, vec![1.0f32, 1.0, 1000.0]);
    assert_eq!(s.stiffness, 1e6);
    assert_eq!(s.stiffness_skip_spring, 1e2);
}

#[test]
fn skip_springs_interleave_with_stretch_springs() {
    let mut s: VBDStrand<f32> = VBDStrand::new_empty(0.0);
    let masses = [1.0f32, 2.0, 3.0, 4.0];
    let lengths = [0.5f32, 0.25, 0.125];
    s.from_uniform(&masses, &lengths, 10.0, true, 3.0);
    assert_eq!(s.n_edges, 5);
    assert_eq!(s.edges, vec![[0, 1], [0, 2], [1, 2], [1, 3], [2, 3]]);
    assert_eq!(
        s.vert_adjacent_edges,
        vec![vec![0, 1], vec![0, 2, 3], vec![1, 2, 4], vec![3, 4]]
    );
    assert_eq!(s.edges_stiffness, vec![10.0f32, 3.0, 10.0, 3.0, 10.0]);
    assert_eq!(
        s.org_lengths,
        vec![
            RestLength::Single(0.5f32),
            RestLength::Joined(0.5, 0.25),
            RestLength::Single(0.25),
            RestLength::Joined(0.25, 0.125),
            RestLength::Single(0.125),
        ]
    );
}

#[test]
fn tilted_scene_topology() {
    let mut s: VBDStrand<f32> = VBDStrand::new_empty(0.0);
    let masses = end_weighted_masses(20, 1.0f32, 1000.0);
    let lengths = vec![0.05f32; 19];
    s.from_uniform(&masses, &lengths, 1e8, true, 100.0);
    assert_eq!(s.num_verts, 20);
    assert_eq!(s.n_edges, 37);
    assert_eq!(s.vert_adjacent_edges[2], vec![1, 2, 4, 5]);
    assert_eq!(s.vert_adjacent_edges[19], vec![35, 36]);
    assert_eq!(s.edges[36], [18, 19]);
    assert_eq!(s.edges[35], [17, 19]);
}

#[test]
fn single_vertex_strand_has_no_springs() {
    let mut s: VBDStrand<f32> = VBDStrand::new_empty(0.0);
    s.from_uniform(&[2.0f32], &[], 5.0, true, 1.0);
    assert_eq!(s.num_verts, 1);
    assert_eq!(s.n_edges, 0);
    assert_eq!(s.vert_adjacent_edges, vec![Vec::<i32>::new()]);
}

#[test]
fn per_edge_stiffness_table_keeps_given_values_then_uniform_copies() {
    let mut s: VBDStrand<f32> = VBDStrand::new_empty(0.0);
    let masses = end_weighted_masses(5, 0.1f32, 0.1);
    let lengths = [0.1f32, 0.2, 0.3, 0.4];
    let stiff = alternating_stiffnesses(4, 1e4f32, 1e8);
    s.from_per_edge(&masses, &lengths, stiff);
    assert_eq!(s.n_edges, 4);
    assert_eq!(s.edges, vec![[0, 1], [1, 2], [2, 3], [3, 4]]);
    assert_eq!(
        s.edges_stiffness,
        vec![1e4f32, 1e8, 1e4, 1e8, 0.0, 0.0, 0.0, 0.0]
    );
    assert_eq!(s.org_lengths[3], RestLength::Single(0.4f32));
    assert_eq!(s.stiffness, 0.0);
}

#[test]
fn per_edge_after_uniform_appends_previous_uniform_stiffness() {
    let mut s: VBDStrand<f32> = VBDStrand::new_empty(0.0);
    s.from_uniform(&[1.0f32, 1.0], &[1.0], 7.0, false, 2.0);
    s.from_per_edge(&[1.0f32, 1.0, 1.0], &[1.0, 1.0], vec![5.0]);
    assert_eq!(s.edges_stiffness, vec![5.0f32, 7.0, 7.0]);
    assert_eq!(s.stiffness, 7.0);
    assert_eq!(s.stiffness_skip_spring, 2.0);
    assert_eq!(s.vert_adjacent_edges, vec![vec![0], vec![0, 1], vec![1]]);
}

#[test]
fn springs_at_reports_sign_and_parameters() {
    let mut s: VBDStrand<f32> = VBDStrand::new_empty(0.0);
    s.from_uniform(&[1.0f32, 1.0, 1.0, 1.0], &[0.5, 0.25, 0.125], 10.0, true, 3.0);
    let terms = s.springs_at(1);
    assert_eq!(terms.len(), 3);
    assert_eq!((terms[0].edge, terms[0].v1, terms[0].v2), (0, 0, 1));
    assert!(!terms[0].vertex_is_first);
    assert_eq!((terms[1].edge, terms[1].v1, terms[1].v2), (2, 1, 2));
    assert!(terms[1].vertex_is_first);
    assert_eq!((terms[2].edge, terms[2].v1, terms[2].v2), (3, 1, 3));
    assert!(terms[2].vertex_is_first);
    assert_eq!(terms[2].stiffness, 3.0);
    assert_eq!(terms[2].rest_length, RestLength::Joined(0.25f32, 0.125));
    let last = s.springs_at(3);
    assert_eq!(last.iter().map(|t| t.edge).collect::<Vec<_>>(), vec![3, 4]);
    assert!(last.iter().all(|t| !t.vertex_is_first));
}

#[test]
fn end_weighted_masses_puts_heavy_mass_last() {
    assert_eq!(end_weighted_masses(3, 1.0f32, 1000.0), vec![1.0f32, 1.0, 1000.0]);
    assert_eq!(end_weighted_masses(1, 1.0f32, 1000.0), vec![1000.0f32]);
    assert!(end_weighted_masses(0, 1.0f32, 1000.0).is_empty());
}

#[test]
fn alternating_stiffnesses_start_with_the_first_value() {
    assert_eq!(alternating_stiffnesses(4, 1e4f32, 1e8), vec![1e4f32, 1e8, 1e4, 1e8]);
    assert_eq!(alternating_stiffnesses(1, 1e4f32, 1e8), vec![1e4f32]);
}
