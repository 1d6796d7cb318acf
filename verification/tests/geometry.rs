//! Geometric helpers: containment, bounding boxes, centroids, translation.

use edges::{bounding_box, center_of, in_polygon, Anchor, IVec2, UVec2};

fn p(x: u32, y: u32) -> UVec2 {
    UVec2::new(x, y)
}

#[test]
fn in_polygon_square_interior_and_outside() {
    let square = vec![p(1, 1), p(1, 5), p(5, 5), p(5, 1)];
    assert!(in_polygon(2, 2, &square));
    assert!(in_polygon(3, 3, &square));
    assert!(!in_polygon(0, 3, &square));
    assert!(!in_polygon(6, 3, &square));
    assert!(!in_polygon(3, 7, &square));
    assert!(!in_polygon(3, 0, &square));
    assert!(!in_polygon(0, 0, &square));
    assert!(!in_polygon(9, 9, &square));
}

#[test]
fn in_polygon_on_edge_is_contained() {
    // Points exactly on an edge are contained: vertical and horizontal
    // edges, the closing edge, and the vertices themselves.
    let square = vec![p(1, 1), p(1, 5), p(5, 5), p(5, 1)];
    assert!(in_polygon(1, 3, &square)); // west edge
    assert!(in_polygon(5, 3, &square)); // east edge
    assert!(in_polygon(3, 5, &square)); // north edge
    assert!(in_polygon(3, 1, &square)); // south (closing) edge
    assert!(in_polygon(1, 1, &square)); // a vertex
    assert!(in_polygon(5, 5, &square));
}

#[test]
fn in_polygon_closing_edge_of_triangle() {
    // The closing edge runs diagonally from the last vertex back to the
    // first; points on it are contained, points just beyond are not.
    let triangle = vec![p(1, 1), p(5, 1), p(5, 5)];
    assert!(in_polygon(3, 3, &triangle)); // on the closing edge
    assert!(in_polygon(4, 2, &triangle)); // strictly inside
    assert!(!in_polygon(2, 3, &triangle)); // beyond the closing edge
    assert!(!in_polygon(0, 1, &triangle));
}

#[test]
fn in_polygon_degenerate() {
    assert!(!in_polygon(0, 0, &[]));
    // A one-point polygon contains exactly its point.
    assert!(in_polygon(3, 3, &[p(3, 3)]));
    assert!(!in_polygon(4, 3, &[p(3, 3)]));
    // A two-point polygon is a bare segment: its points are contained,
    // everything else is outside.
    let segment = [p(5, 0), p(5, 10)];
    assert!(in_polygon(5, 5, &segment));
    assert!(!in_polygon(0, 5, &segment));
    assert!(!in_polygon(6, 5, &segment));
}

#[test]
fn bounding_box_bounds_and_attains() {
    assert!(bounding_box(&[]).is_none());
    let pts = vec![p(3, 7), p(1, 9), p(5, 2)];
    let (mn, mx) = bounding_box(&pts).unwrap();
    assert_eq!(mn, p(1, 2));
    assert_eq!(mx, p(5, 9));
    let single = bounding_box(&[p(4, 4)]).unwrap();
    assert_eq!(single, (p(4, 4), p(4, 4)));
}

#[test]
fn center_of_is_integer_mean() {
    assert!(center_of(&[]).is_none());
    assert_eq!(center_of(&[p(1, 1), p(3, 5)]).unwrap(), p(2, 3));
    assert_eq!(center_of(&[p(0, 0), p(1, 1), p(1, 2)]).unwrap(), p(0, 1));
    assert_eq!(center_of(&[p(7, 9)]).unwrap(), p(7, 9));
}

#[test]
fn anchor_size_and_translate() {
    let a = Anchor::Center(6, 8);
    assert_eq!(a.size().unwrap(), p(8, 6));
    // Origin (8/2, 6/2) = (4, 3); out = (in.x - 4, 3 - in.y).
    let out = a.translate(&vec![p(0, 0), p(4, 3), p(7, 5)]);
    assert_eq!(
        out,
        vec![
            IVec2::new(-4, 3),
            IVec2::new(0, 0),
            IVec2::new(3, -2),
        ]
    );
}

#[test]
fn anchor_translate_odd_dimensions_floor_division() {
    // Width 5 halves to 2, height 3 halves to 1 under integer division.
    let a = Anchor::Center(3, 5);
    let out = a.translate(&vec![p(0, 0), p(2, 1)]);
    assert_eq!(out, vec![IVec2::new(-2, 1), IVec2::new(0, 0)]);
}

#[test]
fn anchor_absolute_center_uses_centroid() {
    let a = Anchor::AbsoluteCenter;
    assert!(a.size().is_none());
    // Centroid of the four points is (2, 3).
    let out = a.translate(&vec![p(1, 2), p(3, 2), p(1, 4), p(3, 4)]);
    assert_eq!(
        out,
        vec![
            IVec2::new(-1, 1),
            IVec2::new(1, 1),
            IVec2::new(-1, -1),
            IVec2::new(1, -1),
        ]
    );
}

#[test]
fn anchor_translate_polygons_maps_each() {
    let a = Anchor::Center(4, 4);
    let out = a.translate_polygons(&vec![vec![p(0, 0)], vec![p(2, 2), p(3, 1)]]);
    assert_eq!(out.len(), 2);
    assert_eq!(out[0], vec![IVec2::new(-2, 2)]);
    assert_eq!(out[1], vec![IVec2::new(0, 0), IVec2::new(1, 1)]);
}
