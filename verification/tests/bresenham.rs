use pixel_editor::bresenham;
use pixel_editor::bresenham::full;

#[test]
fn full_shallow_down_right() {
    assert_eq!(full(3, 1), vec![[0, 0], [1, 0], [2, 1], [3, 1]]);
}

#[test]
fn full_steep_down_right() {
    assert_eq!(full(1, 3), vec![[0, 0], [0, 1], [1, 2], [1, 3]]);
}

#[test]
fn full_mirrored_directions() {
    assert_eq!(full(-3, 1), vec![[0, 0], [-1, 0], [-2, 1], [-3, 1]]);
    assert_eq!(full(3, -1), vec![[0, 0], [1, 0], [2, -1], [3, -1]]);
    assert_eq!(full(-1, -3), vec![[0, 0], [0, -1], [-1, -2], [-1, -3]]);
}

#[test]
fn full_diagonal_and_axes() {
    assert_eq!(full(2, 2), vec![[0, 0], [1, 1], [2, 2]]);
    assert_eq!(full(0, 3), vec![[0, 0], [0, 1], [0, 2], [0, 3]]);
    assert_eq!(full(-2, 0), vec![[0, 0], [-1, 0], [-2, 0]]);
}

#[test]
fn full_single_point() {
    assert_eq!(full(0, 0), vec![[0, 0]]);
}

#[test]
fn full_tie_goes_to_lower_row() {
    // The ideal line to (2, 1) passes through (1, 0.5): the tie picks row 0.
    assert_eq!(full(2, 1), vec![[0, 0], [1, 0], [2, 1]]);
}

#[test]
fn line_leaves_out_start() {
    assert_eq!(bresenham::line([1, 1], [4, 2]), vec![[2, 1], [3, 2], [4, 2]]);
}

#[test]
fn line_towards_origin() {
    assert_eq!(bresenham::line([4, 2], [1, 1]), vec![[3, 2], [2, 1], [1, 1]]);
}

#[test]
fn line_same_point_is_empty() {
    assert_eq!(bresenham::line([5, 5], [5, 5]), Vec::<[usize; 2]>::new());
}

#[test]
fn line_ends_at_end_and_steps_by_neighbours() {
    let start = [10usize, 3];
    let end = [2usize, 9];
    let points = bresenham::line(start, end);
    // One pixel per step along the longer axis.
    assert_eq!(points.len(), 8);
    assert_eq!(*points.last().unwrap(), end);
    let mut prev = start;
    for p in &points {
        assert!((p[0] as i64 - prev[0] as i64).abs() <= 1);
        assert!((p[1] as i64 - prev[1] as i64).abs() <= 1);
        assert!(p[0] >= 2 && p[0] <= 10 && p[1] >= 3 && p[1] <= 9);
        prev = *p;
    }
}

#[test]
fn swapping_offsets_mirrors_the_line() {
    let shallow = full(5, 2);
    let steep = full(2, 5);
    let mirrored: Vec<[i32; 2]> = shallow.iter().map(|p| [p[1], p[0]]).collect();
    assert_eq!(steep, mirrored);
    let diagonal = full(4, 4);
    let mirrored_diagonal: Vec<[i32; 2]> = diagonal.iter().map(|p| [p[1], p[0]]).collect();
    assert_eq!(diagonal, mirrored_diagonal);
}
