use raw_util::distance_field::is_boundary;
use raw_util::{ivec2, Draw, Texture};

#[test]
fn test_texture() {
    let mut t: Texture<bool> = Texture::new(ivec2(4, 4), false);
    t.set(ivec2(0, 0), true);
    assert_eq!(t.sample(ivec2(0, 0)), true);
    assert_eq!(t.sample(ivec2(1, 0)), false);
    assert_eq!(t.sample(ivec2(1, 1)), false);

    t.draw_circle(ivec2(0, 0), 8, true);
    assert_eq!(t.sample(ivec2(0, 0)), true);
    assert_eq!(t.sample(ivec2(3, 3)), true);

    t.fill(false);
    assert_eq!(t.sample(ivec2(0, 0)), false);
    assert_eq!(t.sample(ivec2(3, 3)), false);
}

#[test]
fn new_texture_has_size_and_initial_pixels() {
    let t: Texture<u8> = Texture::new(ivec2(3, 2), 7);
    assert_eq!(t.wh(), ivec2(3, 2));
    assert_eq!(t.data().len(), 6);
    assert!(t.data().iter().all(|&p| p == 7));
}

#[test]
fn set_outside_grid_is_ignored() {
    let mut t: Texture<u8> = Texture::new(ivec2(3, 2), 0);
    t.set(ivec2(-1, 0), 5);
    t.set(ivec2(3, 0), 5);
    t.set(ivec2(0, 2), 5);
    t.set(ivec2(0, -1), 5);
    assert!(t.data().iter().all(|&p| p == 0));
    t.set(ivec2(2, 1), 9);
    assert_eq!(t.data()[5], 9);
    assert_eq!(t.sample(ivec2(2, 1)), 9);
}

#[test]
fn sample_reads_by_storage_position() {
    let mut t: Texture<u8> = Texture::new(ivec2(3, 2), 0);
    t.set(ivec2(0, 1), 4);
    // (3, 0) lies outside the rectangle but at the storage position of (0, 1)
    assert_eq!(t.sample(ivec2(3, 0)), 4);
    assert_eq!(t.sample_checked(ivec2(3, 0)), Some(4));
}

#[test]
fn sample_checked_outside_storage_is_none() {
    let t: Texture<u8> = Texture::new(ivec2(3, 2), 1);
    assert_eq!(t.sample_checked(ivec2(-1, 0)), None);
    assert_eq!(t.sample_checked(ivec2(0, 2)), None);
    assert_eq!(t.sample_checked(ivec2(2, 1)), Some(1));
}

#[test]
fn draw_circle_sets_exactly_the_disk() {
    let mut t: Texture<u8> = Texture::new(ivec2(5, 5), 0);
    t.draw_circle(ivec2(2, 2), 1, 1);
    for y in 0..5 {
        for x in 0..5 {
            let dx = x - 2;
            let dy = y - 2;
            let expected = if dx * dx + dy * dy <= 1 { 1 } else { 0 };
            assert_eq!(t.sample(ivec2(x, y)), expected);
        }
    }
}

#[test]
fn draw_circle_negative_radius_draws_nothing() {
    let mut t: Texture<u8> = Texture::new(ivec2(3, 3), 0);
    t.draw_circle(ivec2(1, 1), -1, 1);
    assert!(t.data().iter().all(|&p| p == 0));
}

#[test]
fn fill_on_empty_rectangle_keeps_pixels() {
    let mut t: Texture<u8> = Texture::new(ivec2(-2, -3), 4);
    assert_eq!(t.data().len(), 6);
    t.fill(9);
    assert!(t.data().iter().all(|&p| p == 4));
}

#[test]
fn boundary_pixels_of_a_block() {
    let mut t: Texture<bool> = Texture::new(ivec2(5, 5), false);
    for y in 1..4 {
        for x in 1..4 {
            t.set(ivec2(x, y), true);
        }
    }
    assert!(is_boundary(&t, ivec2(1, 1)));
    assert!(is_boundary(&t, ivec2(2, 1)));
    assert!(!is_boundary(&t, ivec2(2, 2)));
    assert!(!is_boundary(&t, ivec2(0, 0)));
}

#[test]
fn boundary_looks_up_neighbours_by_storage_position() {
    // a full 2x2 stencil: (0, 1)'s left neighbour is stored at position 1,
    // which is set, so only the neighbours outside the storage count
    let t: Texture<bool> = Texture::new(ivec2(2, 2), true);
    assert!(is_boundary(&t, ivec2(0, 0)));
    assert!(is_boundary(&t, ivec2(1, 1)));
}

#[test]
fn rgba_bytes_encodes_each_pixel_in_order() {
    let mut t: Texture<bool> = Texture::new(ivec2(2, 1), false);
    t.set(ivec2(1, 0), true);
    let bytes = t.rgba_bytes(&|b: bool| if b { [255, 255, 255, 255] } else { [0, 0, 0, 255] });
    assert_eq!(bytes, vec![0, 0, 0, 255, 255, 255, 255, 255]);
}
