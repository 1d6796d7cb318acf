//! End-to-end extraction scenarios: single shapes, holes, disjoint shapes,
//! and determinism.

use edges::{BinImage, Edges, IVec2, UVec2};

fn image_with(width: u32, height: u32, on: &[(u32, u32)]) -> BinImage {
    let mut data = vec![0u8; (width * height) as usize];
    for &(x, y) in on {
        data[(y * width + x) as usize] = 1;
    }
    BinImage::new(height, width, &data).unwrap()
}

fn filled_rect(width: u32, height: u32, x0: u32, y0: u32, x1: u32, y1: u32) -> Vec<(u32, u32)> {
    let mut on = Vec::new();
    for y in y0..=y1 {
        for x in x0..=x1 {
            on.push((x, y));
        }
    }
    on
}

fn p(x: u32, y: u32) -> UVec2 {
    UVec2::new(x, y)
}

fn q(x: i64, y: i64) -> IVec2 {
    IVec2::new(x, y)
}

#[test]
fn isolated_pixel_single_point_polygon() {
    let img = image_with(6, 5, &[(2, 3)]);
    let edges = Edges(img);
    let polys = edges.multi_raw();
    assert_eq!(polys, vec![vec![p(2, 3)]]);
}

#[test]
fn empty_image_no_polygons() {
    let img = image_with(4, 4, &[]);
    let edges = Edges(img);
    assert_eq!(edges.multi_raw(), Vec::<Vec<UVec2>>::new());
    assert!(edges.single_raw().is_none());
    assert!(edges.single_translated().is_none());
}

#[test]
fn rectangle_four_corner_polygon_raw() {
    // A 3x3 filled square on a 7x6 canvas, corners at (2,1) and (4,3).
    let img = image_with(7, 6, &filled_rect(7, 6, 2, 1, 4, 3));
    let edges = Edges(img);
    let polys = edges.multi_raw();
    assert_eq!(polys.len(), 1);
    assert_eq!(polys[0], vec![p(2, 1), p(2, 3), p(4, 3), p(4, 1)]);
    assert_eq!(
        edges.single_raw().unwrap(),
        vec![p(2, 1), p(2, 3), p(4, 3), p(4, 1)]
    );
}

#[test]
fn rectangle_four_corner_polygon_translated() {
    // Same square; the translated frame has its origin at (3, 3), Y up.
    let img = image_with(7, 6, &filled_rect(7, 6, 2, 1, 4, 3));
    let edges = Edges(img);
    let translated = edges.multi_translated();
    assert_eq!(translated.len(), 1);
    assert_eq!(
        translated[0],
        vec![q(-1, 2), q(-1, 0), q(1, 0), q(1, 2)]
    );
    assert_eq!(
        edges.single_translated().unwrap(),
        vec![q(-1, 2), q(-1, 0), q(1, 0), q(1, 2)]
    );
}

#[test]
fn hole_yields_outer_and_inner_polygon() {
    // A 5x5 filled block with a one-pixel hole at its center (3,3).
    let mut on = filled_rect(7, 7, 1, 1, 5, 5);
    on.retain(|&(x, y)| !(x == 3 && y == 3));
    let img = image_with(7, 7, &on);
    let edges = Edges(img);
    let polys = edges.multi_raw();
    assert_eq!(polys.len(), 2);
    assert_eq!(polys[0], vec![p(1, 1), p(1, 5), p(5, 5), p(5, 1)]);
    assert_eq!(polys[1], vec![p(2, 2), p(2, 4), p(4, 4), p(4, 2)]);
}

#[test]
fn wide_hole_yields_outer_and_inner_polygon() {
    // A 6x6 filled block with a 2x2 hole; the inner ring's diagonal
    // corners bound the second polygon, and no third polygon appears.
    let mut on = filled_rect(8, 8, 1, 1, 6, 6);
    on.retain(|&(x, y)| !(3 <= x && x <= 4 && 3 <= y && y <= 4));
    let img = image_with(8, 8, &on);
    let edges = Edges(img);
    let polys = edges.multi_raw();
    assert_eq!(polys.len(), 2);
    assert_eq!(polys[0], vec![p(1, 1), p(1, 6), p(6, 6), p(6, 1)]);
    assert_eq!(polys[1], vec![p(2, 2), p(2, 5), p(5, 5), p(5, 2)]);
}

#[test]
fn disjoint_unequal_squares_yield_two_polygons() {
    // A 2x2 square and a 3x3 square, far apart.
    let mut on = filled_rect(10, 6, 1, 1, 2, 2);
    on.extend(filled_rect(10, 6, 5, 1, 7, 3));
    let img = image_with(10, 6, &on);
    let edges = Edges(img);
    let polys = edges.multi_raw();
    assert_eq!(polys.len(), 2);
    assert_eq!(polys[0], vec![p(1, 1), p(1, 2), p(2, 2), p(2, 1)]);
    assert_eq!(polys[1], vec![p(5, 1), p(5, 3), p(7, 3), p(7, 1)]);
}

#[test]
fn disjoint_squares_yield_two_polygons() {
    let mut on = filled_rect(8, 4, 1, 1, 2, 2);
    on.extend(filled_rect(8, 4, 5, 1, 6, 2));
    let img = image_with(8, 4, &on);
    let edges = Edges(img);
    let polys = edges.multi_raw();
    assert_eq!(polys.len(), 2);
    assert_eq!(polys[0], vec![p(1, 1), p(1, 2), p(2, 2), p(2, 1)]);
    assert_eq!(polys[1], vec![p(5, 1), p(5, 2), p(6, 2), p(6, 1)]);
    for a in &polys[0] {
        assert!(!polys[1].contains(a));
    }
}

#[test]
fn thin_walled_hole_pinches_into_one_polygon() {
    // A hole one pixel away from the outer boundary: the wall pixels next
    // to the hole's rows bend the walk inward, so the outer boundary and
    // the hole ring merge into a single polygon.  A hole needs two-pixel
    // walls on every side to keep its own polygon (see the hole tests).
    let mut on = filled_rect(7, 7, 1, 1, 5, 5);
    on.retain(|&(x, y)| !(x == 2 && y == 3));
    let img = image_with(7, 7, &on);
    let edges = Edges(img);
    let polys = edges.multi_raw();
    assert_eq!(polys.len(), 1);
    assert_eq!(
        polys[0],
        vec![
            p(1, 1),
            p(1, 2),
            p(3, 2),
            p(3, 4),
            p(1, 4),
            p(1, 5),
            p(5, 5),
            p(5, 1),
        ]
    );
}

#[test]
fn same_image_twice_same_edges() {
    let mut on = filled_rect(9, 9, 1, 1, 6, 6);
    on.retain(|&(x, y)| !(3 <= x && x <= 4 && 3 <= y && y <= 4));
    let img = image_with(9, 9, &on);
    let edges = Edges(img);
    let first = edges.multi_raw();
    let second = edges.multi_raw();
    assert_eq!(first, second);
    assert_eq!(edges.multi_translated(), edges.multi_translated());
}

#[test]
fn iterator_yields_polygons_one_by_one() {
    let mut on = filled_rect(8, 4, 1, 1, 2, 2);
    on.extend(filled_rect(8, 4, 5, 1, 6, 2));
    let img = image_with(8, 4, &on);
    let edges = Edges(img);
    let mut it = edges.iter();
    let first = it.next().unwrap();
    let second = it.next().unwrap();
    assert_eq!(first, vec![p(1, 1), p(1, 2), p(2, 2), p(2, 1)]);
    assert_eq!(second, vec![p(5, 1), p(5, 2), p(6, 2), p(6, 1)]);
    assert!(it.next().is_none());
    assert!(it.next().is_none());
}

#[test]
fn pinch_pixel_recurs_once_per_pass() {
    // Two pixels joined diagonally through a middle one: the walk passes
    // the pinch pixel twice, once per side, and records it each time.
    // The seed itself never recurs (the closing duplicate is dropped).
    let img = image_with(5, 4, &[(1, 1), (2, 2), (3, 1)]);
    let edges = Edges(img);
    let polys = edges.multi_raw();
    assert_eq!(polys.len(), 1);
    assert_eq!(polys[0], vec![p(1, 1), p(2, 2), p(3, 1), p(2, 2)]);
    for k in 1..polys[0].len() {
        assert_ne!(polys[0][k], polys[0][0]);
    }
}

#[test]
fn one_pixel_wide_line_two_end_polygon() {
    // A horizontal 4-pixel line: its two ends are the only corners.
    let img = image_with(8, 3, &[(2, 1), (3, 1), (4, 1), (5, 1)]);
    let edges = Edges(img);
    let polys = edges.multi_raw();
    assert_eq!(polys.len(), 1);
    assert_eq!(polys[0][0], p(2, 1));
    assert!(polys[0].contains(&p(5, 1)));
}
