use knotted_portal::worlds::{normalize_world, world_palette};

#[test]
fn normalize_keeps_worlds() {
    for w in 0..6 {
        assert_eq!(normalize_world(w), w);
    }
}

#[test]
fn normalize_wraps_large_and_negative() {
    assert_eq!(normalize_world(6), 0);
    assert_eq!(normalize_world(13), 1);
    assert_eq!(normalize_world(-1), 5);
    assert_eq!(normalize_world(-6), 0);
    assert_eq!(normalize_world(-7), 5);
    assert_eq!(normalize_world(i32::MAX), 1);
    assert_eq!(normalize_world(i32::MIN), 4);
}

#[test]
fn palette_fills_one_slot() {
    let p = world_palette(3, 7u8, 0u8);
    assert_eq!(p, [0, 0, 0, 7, 0, 0]);
    let p = world_palette(0, [1.0f32, 0.5, 0.25, 1.0], [0.0; 4]);
    assert_eq!(p[0], [1.0, 0.5, 0.25, 1.0]);
    for slot in &p[1..] {
        assert_eq!(*slot, [0.0; 4]);
    }
}
