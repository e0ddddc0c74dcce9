use neo_granseal::mesh::{
    append_shifted, fan_indices, line_indices, oval_filled_indices, oval_outlined_indices,
    path_fan_indices, vertex_neighbor_indices,
};

#[test]
fn fan_of_four_vertices() {
    assert_eq!(fan_indices(4), vec![0, 1, 0, 0, 2, 1, 0, 3, 2, 0, 1, 3]);
}

#[test]
fn fan_of_centre_only() {
    assert_eq!(fan_indices(1), vec![0, 1, 0]);
}

#[test]
fn path_fan_of_three_vertices() {
    assert_eq!(path_fan_indices(3), vec![0, 2, 1, 0, 3, 2, 0, 1, 2]);
}

#[test]
fn oval_fill_of_two_steps() {
    assert_eq!(
        oval_filled_indices(2),
        vec![0, 1, 0, 0, 2, 1, 0, 4, 3, 0, 3, 2]
    );
}

#[test]
fn oval_fill_of_no_steps() {
    assert_eq!(oval_filled_indices(0), vec![0, 2, 1, 0, 1, 0]);
}

#[test]
fn oval_outline_of_one_step() {
    assert_eq!(
        oval_outlined_indices(1),
        vec![0, 1, 2, 2, 1, 3, 2, 3, 4, 4, 3, 5]
    );
}

#[test]
fn line_winding_follows_direction() {
    assert_eq!(line_indices(true), vec![2, 1, 0, 3, 2, 0]);
    assert_eq!(line_indices(false), vec![0, 1, 2, 0, 2, 3]);
}

#[test]
fn appended_indices_are_rebased() {
    let mut indices = vec![2, 1, 0, 3, 2, 0];
    append_shifted(&mut indices, &vec![0, 1, 2], 4);
    assert_eq!(indices, vec![2, 1, 0, 3, 2, 0, 4, 5, 6]);
    let mut empty: Vec<u32> = vec![];
    append_shifted(&mut empty, &vec![], 9);
    assert!(empty.is_empty());
}

#[test]
fn neighbors_of_square_corner() {
    let edges = vec![(0, 1), (1, 2), (2, 3), (3, 0)];
    assert_eq!(vertex_neighbor_indices(&edges, 0), vec![1, 3]);
    assert_eq!(vertex_neighbor_indices(&edges, 2), vec![1, 3]);
}

#[test]
fn neighbors_of_path_end_and_lone_vertex() {
    let edges = vec![(0, 1), (1, 2)];
    assert_eq!(vertex_neighbor_indices(&edges, 2), vec![1]);
    assert_eq!(vertex_neighbor_indices(&edges, 5), Vec::<usize>::new());
}

#[test]
fn neighbors_with_three_edges_are_none() {
    let edges = vec![(0, 1), (0, 2), (3, 0)];
    assert_eq!(vertex_neighbor_indices(&edges, 0), Vec::<usize>::new());
}

#[test]
fn neighbors_of_self_loop() {
    let edges = vec![(4, 4)];
    assert_eq!(vertex_neighbor_indices(&edges, 4), vec![4]);
}
