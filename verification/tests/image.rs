//! The binary image: construction, sampling, lookup, neighbor masks,
//! corner classification, cropping, and the direction state machine.

use edges::{BinImage, Direction, Error, Neighbors, UVec2};

fn p(x: u32, y: u32) -> UVec2 {
    UVec2::new(x, y)
}

fn image_with(width: u32, height: u32, on: &[(u32, u32)]) -> BinImage {
    let mut data = vec![0u8; (width * height) as usize];
    for &(x, y) in on {
        data[(y * width + x) as usize] = 1;
    }
    BinImage::new(height, width, &data).unwrap()
}

#[test]
fn new_rejects_bad_dimensions() {
    assert!(matches!(BinImage::new(0, 4, &[0; 8]), Err(Error::InvalidDimensions)));
    assert!(matches!(BinImage::new(4, 0, &[0; 8]), Err(Error::InvalidDimensions)));
    assert!(matches!(BinImage::new(3, 3, &[0; 8]), Err(Error::InvalidDimensions)));
    assert!(BinImage::new(3, 3, &[0; 9]).is_ok());
}

#[test]
fn get_reads_back_written_pixels() {
    let img = image_with(5, 4, &[(0, 0), (4, 3), (2, 1)]);
    assert_eq!(img.width(), 5);
    assert_eq!(img.height(), 4);
    for y in 0..4 {
        for x in 0..5 {
            let expected = (x, y) == (0, 0) || (x, y) == (4, 3) || (x, y) == (2, 1);
            assert_eq!(img.get(p(x, y)), expected);
        }
    }
}

#[test]
fn get_out_of_range_is_background() {
    let img = image_with(3, 3, &[(2, 2)]);
    assert!(!img.get(p(3, 0)));
    assert!(!img.get(p(0, 3)));
    assert!(!img.get(p(u32::MAX, u32::MAX)));
}

#[test]
fn multi_byte_samples_threshold_any_nonzero() {
    // Two pixels, two bytes per sample: a pixel is on iff its chunk holds
    // a nonzero byte.
    let img = BinImage::new(1, 2, &[0, 0, 0, 5]).unwrap();
    assert!(!img.get(p(0, 0)));
    assert!(img.get(p(1, 0)));
    let img2 = BinImage::new(1, 2, &[7, 0, 0, 0]).unwrap();
    assert!(img2.get(p(0, 0)));
    assert!(!img2.get(p(1, 0)));
}

#[test]
fn neighbor_mask_flags() {
    // A 3x3 block: its center sees all eight neighbors.
    let mut on = Vec::new();
    for y in 1..4 {
        for x in 1..4 {
            on.push((x, y));
        }
    }
    let img = image_with(5, 5, &on);
    assert_eq!(img.get_neighbors(p(2, 2)), 255);
    // The block's lower-left pixel sees north, east and northeast.
    assert_eq!(img.get_neighbors(p(1, 1)), 0x80 | 0x20 | 0x08);
    // An isolated far pixel sees nothing.
    let lone = image_with(5, 5, &[(2, 2)]);
    assert_eq!(lone.get_neighbors(p(2, 2)), 0);
}

#[test]
fn corner_classification() {
    // Isolated pixel: CORNER by convention; fully surrounded: INTERIOR.
    assert!(Neighbors(0).is_corner());
    assert!(!Neighbors(255).is_corner());
    // Straight runs are INTERIOR: one-pixel lines and solid sides.
    assert!(!Neighbors(0x30).is_corner()); // east and west
    assert!(!Neighbors(0xC0).is_corner()); // north and south
    assert!(!Neighbors(0x09).is_corner()); // northeast and southwest
    assert!(!Neighbors(0x06).is_corner()); // northwest and southeast
    assert!(!Neighbors(115).is_corner()); // solid south side
    assert!(!Neighbors(188).is_corner()); // solid north side
    assert!(!Neighbors(213).is_corner()); // solid west side
    assert!(!Neighbors(234).is_corner()); // solid east side
    // Bends are CORNER.
    assert!(Neighbors(168).is_corner()); // north, east, northeast
    assert!(Neighbors(98).is_corner()); // south, east, southeast
    assert!(Neighbors(81).is_corner()); // south, west, southwest
    assert!(Neighbors(148).is_corner()); // north, west, northwest
    assert!(Neighbors(247).is_corner()); // all but one diagonal
    assert!(Neighbors(0x20).is_corner()); // a line's east end
}

#[test]
fn classification_total_over_all_masks() {
    // Every mask is classified, and flipping INTERIOR yields CORNER.
    let mut corners = 0u32;
    for m in 0..=255u8 {
        if Neighbors(m).is_corner() {
            corners += 1;
        }
    }
    // 0 is CORNER, 255 is INTERIOR, and the INTERIOR set holds exactly
    // the 50 straight-run masks plus the full mask.
    assert!(Neighbors(0).is_corner());
    assert!(!Neighbors(255).is_corner());
    assert_eq!(corners, 256 - 51);
}

#[test]
fn is_corner_needs_foreground() {
    let img = image_with(5, 5, &[(2, 2)]);
    assert!(img.is_corner(p(2, 2)));
    assert!(!img.is_corner(p(1, 1)));
}

#[test]
fn crop_clamps_and_keeps_pixels() {
    let img = image_with(6, 6, &[(2, 2), (4, 4), (0, 0)]);
    let cropped = img.crop(p(1, 1), p(5, 5)).unwrap();
    assert_eq!(cropped.width(), 4);
    assert_eq!(cropped.height(), 4);
    assert!(cropped.get(p(1, 1))); // was (2, 2)
    assert!(cropped.get(p(3, 3))); // was (4, 4)
    assert!(!cropped.get(p(0, 0))); // (1, 1) was background
    // Clamped beyond the image edge.
    let wide = img.crop(p(4, 4), p(9, 9)).unwrap();
    assert_eq!(wide.width(), 2);
    assert_eq!(wide.height(), 2);
    assert!(wide.get(p(0, 0))); // was (4, 4)
}

#[test]
fn crop_rejects_inverted_ranges_and_empties() {
    let img = image_with(4, 4, &[(1, 1)]);
    assert!(matches!(img.crop(p(3, 0), p(1, 3)), Err(Error::InvalidRange)));
    let empty = img.crop(p(2, 2), p(2, 5)).unwrap();
    assert_eq!(empty.width(), 0);
    assert_eq!(empty.height(), 0);
    assert!(!empty.get(p(0, 0)));
}

#[test]
fn translate_centers_and_flips() {
    let img = image_with(7, 6, &[]);
    let out = img.translate(&vec![p(2, 1), p(4, 3)]);
    assert_eq!(out.len(), 2);
    assert_eq!((out[0].x, out[0].y), (-1, 2));
    assert_eq!((out[1].x, out[1].y), (1, 0));
}

#[test]
fn direction_reverse_is_involution() {
    let all = [
        Direction::North,
        Direction::South,
        Direction::East,
        Direction::West,
        Direction::Northeast,
        Direction::Northwest,
        Direction::Southeast,
        Direction::Southwest,
    ];
    for d in all {
        assert_eq!(d.reverse().reverse(), d);
        assert!(d.reverse() != d);
    }
}

#[test]
fn state_machine_straight_runs_keep_direction() {
    assert_eq!(
        Direction::next_direction(Some(Direction::East), Neighbors(0x30)),
        Direction::East
    );
    assert_eq!(
        Direction::next_direction(Some(Direction::North), Neighbors(0xC0)),
        Direction::North
    );
    assert_eq!(
        Direction::next_direction(Some(Direction::North), Neighbors(234)),
        Direction::North
    );
    assert_eq!(
        Direction::next_direction(Some(Direction::East), Neighbors(115)),
        Direction::East
    );
}

#[test]
fn state_machine_turns_at_corners() {
    // The four corners of a filled square, walked clockwise in a Y-up
    // frame: up the left side, along the top, down the right, back west.
    assert_eq!(
        Direction::next_direction(Some(Direction::North), Neighbors(98)),
        Direction::East
    );
    assert_eq!(
        Direction::next_direction(Some(Direction::East), Neighbors(81)),
        Direction::South
    );
    assert_eq!(
        Direction::next_direction(Some(Direction::South), Neighbors(148)),
        Direction::West
    );
    assert_eq!(
        Direction::next_direction(Some(Direction::West), Neighbors(188)),
        Direction::West
    );
}

#[test]
fn state_machine_start_uses_priority_order() {
    assert_eq!(Direction::next_direction(None, Neighbors(168)), Direction::North);
    assert_eq!(Direction::next_direction(None, Neighbors(0x20)), Direction::East);
    assert_eq!(Direction::next_direction(None, Neighbors(0x01)), Direction::Southwest);
    assert_eq!(Direction::next_direction(None, Neighbors(247)), Direction::North);
}

#[test]
fn state_machine_hole_ring_cycle() {
    // Walking the ring around a one-pixel hole: the four near-full masks
    // route the walk around the hole without reversing.
    assert_eq!(
        Direction::next_direction(Some(Direction::North), Neighbors(253)),
        Direction::East
    );
    assert_eq!(
        Direction::next_direction(Some(Direction::East), Neighbors(254)),
        Direction::South
    );
    assert_eq!(
        Direction::next_direction(Some(Direction::South), Neighbors(251)),
        Direction::West
    );
    assert_eq!(
        Direction::next_direction(Some(Direction::West), Neighbors(247)),
        Direction::North
    );
}

#[test]
fn find_in_nearest_in_direction() {
    let pts = vec![p(5, 5), p(5, 9), p(5, 7), p(2, 5), p(8, 8)];
    let from = p(5, 5);
    assert_eq!(Direction::North.find_in(from, &pts), Some(p(5, 7)));
    assert_eq!(Direction::West.find_in(from, &pts), Some(p(2, 5)));
    assert_eq!(Direction::Northeast.find_in(from, &pts), Some(p(8, 8)));
    assert_eq!(Direction::South.find_in(from, &pts), None);
    assert_eq!(Direction::East.find_in(from, &pts), None);
}
