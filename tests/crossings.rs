use edge_match::crossing::DistanceGrid;

/// Squared distance between two points, as a key that orders as the distance does.
fn key(p: (f32, f32), q: (f32, f32)) -> u32 {
    let d = (p.0 - q.0).powi(2) + (p.1 - q.1).powi(2);
    d.to_bits()
}

fn grid_of(path1: &[(f32, f32)], path2: &[(f32, f32)]) -> DistanceGrid {
    let mut keys = Vec::new();
    for p in path1 {
        for q in path2 {
            keys.push(key(*p, *q));
        }
    }
    DistanceGrid::new(path1.len(), path2.len(), keys).unwrap()
}

fn threshold() -> u32 {
    0.01f32.powi(2).to_bits()
}

#[test]
fn identical_paths_cross_at_every_interior_index() {
    let path: Vec<(f32, f32)> =
        vec![(0.0, 0.0), (0.2, 0.1), (0.4, 0.15), (0.6, 0.1), (0.8, 0.05), (1.0, 0.0)];
    let grid = grid_of(&path, &path);
    assert_eq!(grid.crossings(threshold()), vec![(1, 1), (2, 2), (3, 3), (4, 4)]);
}

#[test]
fn crossing_paths_meet_once() {
    let path1: Vec<(f32, f32)> = vec![(0.0, 0.0), (0.25, 0.1), (0.5, 0.0), (0.75, -0.1), (1.0, 0.0)];
    let path2: Vec<(f32, f32)> = vec![(0.0, 0.0), (0.25, -0.1), (0.5, 0.0), (0.75, 0.1), (1.0, 0.0)];
    let grid = grid_of(&path1, &path2);
    assert_eq!(grid.crossings(threshold()), vec![(2, 2)]);
}

#[test]
fn far_apart_paths_do_not_cross() {
    let path1: Vec<(f32, f32)> = vec![(0.0, 0.0), (0.5, 0.5), (1.0, 0.0)];
    let path2: Vec<(f32, f32)> = vec![(0.0, 0.0), (0.5, -0.5), (1.0, 0.0)];
    assert_eq!(grid_of(&path1, &path2).crossings(threshold()), vec![]);
}

#[test]
fn border_cells_are_never_reported() {
    // The minimum sits on the border row; nothing inside is below the threshold.
    let keys = vec![0, 9, 9, 9, 9, 9, 9, 9, 9];
    let grid = DistanceGrid::new(3, 3, keys).unwrap();
    assert_eq!(grid.crossings(5), vec![]);
}

#[test]
fn a_plateau_reports_every_tied_cell_in_row_major_order() {
    let keys = vec![
        9, 9, 9, 9, //
        9, 1, 1, 9, //
        9, 1, 4, 9, //
        9, 9, 9, 9,
    ];
    let grid = DistanceGrid::new(4, 4, keys).unwrap();
    assert_eq!(grid.crossings(5), vec![(1, 1), (1, 2), (2, 1)]);
}

#[test]
fn threshold_is_strict() {
    let keys = vec![9, 9, 9, 9, 3, 9, 9, 9, 9];
    let grid = DistanceGrid::new(3, 3, keys.clone()).unwrap();
    assert_eq!(grid.crossings(3), vec![]);
    let grid = DistanceGrid::new(3, 3, keys).unwrap();
    assert_eq!(grid.crossings(4), vec![(1, 1)]);
}

#[test]
fn a_cell_above_a_neighbour_is_no_crossing() {
    let keys = vec![9, 9, 9, 9, 3, 9, 9, 9, 2];
    let grid = DistanceGrid::new(3, 3, keys).unwrap();
    assert_eq!(grid.crossings(10), vec![]);
}

#[test]
fn grids_narrower_than_three_have_no_interior() {
    let grid = DistanceGrid::new(2, 4, vec![0; 8]).unwrap();
    assert_eq!(grid.crossings(10), vec![]);
    let grid = DistanceGrid::new(0, 0, vec![]).unwrap();
    assert_eq!(grid.crossings(10), vec![]);
}

#[test]
fn rectangular_grid_uses_its_own_row_length() {
    // Three rows of five: the minimum at row 1, column 3.
    let keys = vec![
        9, 9, 9, 9, 9, //
        9, 8, 7, 1, 9, //
        9, 9, 9, 9, 9,
    ];
    let grid = DistanceGrid::new(3, 5, keys).unwrap();
    assert_eq!(grid.rows(), 3);
    assert_eq!(grid.cols(), 5);
    assert_eq!(grid.key_at(1, 3), 1);
    assert_eq!(grid.crossings(2), vec![(1, 3)]);
}

#[test]
fn keys_that_do_not_fill_the_grid_are_refused() {
    assert!(DistanceGrid::new(3, 3, vec![0; 8]).is_none());
    assert!(DistanceGrid::new(usize::MAX, 2, vec![]).is_none());
}
