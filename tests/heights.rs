use engrave_stl::height::{height_at, HeightField};
use engrave_stl::mask::{is_background, Mask};

fn mask_from(width: u32, height: u32, content: &[bool]) -> Mask {
    Mask { width, height, cells: content.to_vec() }
}

#[test]
fn background_needs_bright_and_opaque() {
    assert!(is_background(255, 255));
    assert!(!is_background(0, 255));
    assert!(!is_background(255, 0));
    assert!(is_background(181, 181));
    assert!(!is_background(180, 180));
}

#[test]
fn mask_from_buffer() {
    let raw = vec![0u8, 255, 255, 255, 255, 0, 200, 200];
    let m = Mask::from_luma_alpha(2, 2, &raw).unwrap();
    assert_eq!(m.cells, vec![true, false, true, false]);
    assert!(m.is_content(0, 0));
    assert!(!m.is_content(1, 0));
    assert!(!m.is_content(-1, 0));
    assert!(!m.is_content(0, 2));
}

#[test]
fn mask_rejects_wrong_buffer_size() {
    assert!(Mask::from_luma_alpha(2, 2, &vec![0u8; 7]).is_none());
    assert!(Mask::from_luma_alpha(2, 2, &vec![0u8; 10]).is_none());
}

#[test]
fn lone_corner_pixel_is_flat_but_padded_one_is_not() {
    let lone = mask_from(1, 1, &[true]);
    let h_lone = height_at(&lone, 0, 0, 1);
    assert_eq!(h_lone, 0);
    let padded = mask_from(3, 3, &[true; 9]);
    let h_padded = height_at(&padded, 1, 1, 1);
    assert_eq!(h_padded, 8000);
    assert!(h_lone < h_padded);
}

#[test]
fn background_surroundings_give_zero() {
    let m = mask_from(5, 5, &[false; 25]);
    for r in 1..4u32 {
        assert_eq!(height_at(&m, 2, 2, r), 0);
    }
}

#[test]
fn full_disc_saturates_for_small_radii() {
    let m = mask_from(5, 5, &[true; 25]);
    assert_eq!(height_at(&m, 2, 2, 1), 8000);
    assert_eq!(height_at(&m, 2, 2, 2), 16000);
}

#[test]
fn full_disc_stays_on_the_ramp_from_radius_three() {
    let m = mask_from(7, 7, &[true; 49]);
    let h = height_at(&m, 3, 3, 3);
    // Disc weight 9.544444, area 2 * (355 / 113) * 2: height 6.076...
    assert_eq!(h, 6076);
}

#[test]
fn ramp_height_is_exact() {
    // Radius 2, centre of a 5x5 content block with its upper neighbour cleared:
    // score 7 - 2 = 5, area 2 * 355 / 113, height 8 * 5 * 113 / 710 = 6.366...
    let mut cells = [true; 25];
    cells[1 * 5 + 2] = false;
    let m = mask_from(5, 5, &cells);
    assert_eq!(height_at(&m, 2, 2, 2), 6366);
    // Clearing a farther neighbour keeps the score above the area.
    let mut cells = [true; 25];
    cells[2] = false;
    let m = mask_from(5, 5, &cells);
    assert_eq!(height_at(&m, 2, 2, 2), 16000);
}

#[test]
fn adding_content_never_lowers_height() {
    let mut cells = [false; 49];
    cells[3 * 7 + 2] = true;
    cells[2 * 7 + 3] = true;
    cells[4 * 7 + 4] = true;
    for r in 1..4u32 {
        let before = height_at(&mask_from(7, 7, &cells), 3, 3, r);
        let mut more = cells;
        more[3 * 7 + 4] = true;
        let after = height_at(&mask_from(7, 7, &more), 3, 3, r);
        assert!(before <= after);
    }
}

#[test]
fn heights_stay_bounded() {
    let mut cells = [false; 36];
    for (i, c) in cells.iter_mut().enumerate() {
        *c = (i * 7) % 3 != 0;
    }
    let m = mask_from(6, 6, &cells);
    for r in 1..5u32 {
        for y in 0..6 {
            for x in 0..6 {
                assert!(height_at(&m, x, y, r) <= 8000 * r as u64);
            }
        }
    }
}

#[test]
fn field_adds_plate_offset() {
    let m = mask_from(2, 1, &[true, false]);
    let plain = HeightField::compute(&m, 1, false);
    let plated = HeightField::compute(&m, 1, true);
    assert_eq!(plain.cells.len(), 2);
    for i in 0..2 {
        assert_eq!(plated.cells[i], plain.cells[i] + 1);
    }
    assert_eq!(plated.get(1, 0), plain.get(1, 0) + 1);
}

#[test]
fn large_radius_is_accepted() {
    let lone = mask_from(1, 1, &[true]);
    assert_eq!(height_at(&lone, 0, 0, 1001), 0);
    let m = mask_from(3, 3, &[true; 9]);
    let h = height_at(&m, 1, 1, 1001);
    assert!(h <= 8000 * 1001);
}

#[test]
fn padding_with_background_changes_nothing() {
    let small = [true, false, true, true, true, false];
    let m = mask_from(3, 2, &small);
    let mut padded = [false; 7 * 6];
    for y in 0..2 {
        for x in 0..3 {
            padded[(y + 2) * 7 + (x + 2)] = small[y * 3 + x];
        }
    }
    let p = mask_from(7, 6, &padded);
    for r in 1..3u32 {
        for y in 0..2u32 {
            for x in 0..3u32 {
                assert_eq!(height_at(&m, x, y, r), height_at(&p, x + 2, y + 2, r));
            }
        }
    }
}

#[test]
fn centre_and_far_cells_do_not_matter() {
    let mut a = [true; 25];
    let mut b = [true; 25];
    a[12] = false;
    b[0] = false;
    b[4] = false;
    let ma = mask_from(5, 5, &a);
    let mb = mask_from(5, 5, &b);
    let full = mask_from(5, 5, &[true; 25]);
    // At radius 1 the corners are outside the disc of the centre.
    assert_eq!(height_at(&ma, 2, 2, 1), height_at(&full, 2, 2, 1));
    assert_eq!(height_at(&mb, 2, 2, 1), height_at(&full, 2, 2, 1));
}
