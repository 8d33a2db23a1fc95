use knotted_portal::knot::{arc_tints, segment_arc, trefoil, GridPoint, Tint};
use knotted_portal::portal::{pass_under, Arc, Region};

fn gp(along: u32, around: u32) -> GridPoint {
    GridPoint { along, around }
}

#[test]
fn segments_fall_into_three_arcs() {
    assert_eq!(segment_arc(0), Arc::B);
    assert_eq!(segment_arc(27), Arc::B);
    assert_eq!(segment_arc(28), Arc::C);
    assert_eq!(segment_arc(59), Arc::C);
    assert_eq!(segment_arc(60), Arc::A);
    assert_eq!(segment_arc(91), Arc::A);
    assert_eq!(segment_arc(92), Arc::B);
    assert_eq!(segment_arc(95), Arc::B);
    let count = |a: Arc| (0..96).filter(|&s| segment_arc(s) == a).count();
    assert_eq!(count(Arc::A), 32);
    assert_eq!(count(Arc::B), 32);
    assert_eq!(count(Arc::C), 32);
}

#[test]
fn arc_tints_per_world() {
    assert_eq!(arc_tints(Arc::C), [Tint::Blue, Tint::Green, Tint::Green, Tint::Blue, Tint::Red, Tint::Red]);
    assert_eq!(arc_tints(Arc::A), [Tint::Red, Tint::Red, Tint::Blue, Tint::Green, Tint::Green, Tint::Blue]);
    assert_eq!(arc_tints(Arc::B), [Tint::Green, Tint::Blue, Tint::Red, Tint::Red, Tint::Blue, Tint::Green]);
}

#[test]
fn arc_looks_the_same_from_both_sides() {
    let outside = [
        (Arc::A, Region { x_positive: false, left_of_rising: true, left_of_falling: false, outside_ring: true }),
        (Arc::B, Region { x_positive: true, left_of_rising: false, left_of_falling: false, outside_ring: true }),
        (Arc::C, Region { x_positive: false, left_of_rising: false, left_of_falling: true, outside_ring: true }),
    ];
    for (arc, region) in outside {
        let tints = arc_tints(arc);
        for w in 0..6 {
            let other = pass_under(w, region);
            assert_eq!(tints[w as usize], tints[other as usize]);
        }
    }
    for w in 0..6 {
        let (a, b, c) = (arc_tints(Arc::A)[w], arc_tints(Arc::B)[w], arc_tints(Arc::C)[w]);
        assert!(a != b && b != c && c != a);
    }
}

#[test]
fn tube_has_two_triangles_per_cell() {
    let faces = trefoil();
    assert_eq!(faces.len(), 2304);
    assert_eq!(faces[0].corners, [gp(0, 0), gp(1, 0), gp(0, 1)]);
    assert_eq!(faces[1].corners, [gp(1, 1), gp(0, 1), gp(1, 0)]);
    assert_eq!(faces[0].arc, Arc::B);
    // segment 30, facet 5
    let k = 24 * 30 + 2 * 5;
    assert_eq!(faces[k].corners, [gp(30, 5), gp(31, 5), gp(30, 6)]);
    assert_eq!(faces[k + 1].corners, [gp(31, 6), gp(30, 6), gp(31, 5)]);
    assert_eq!(faces[k].arc, Arc::C);
    // the last cell closes the tube on both axes
    assert_eq!(faces[2303].corners, [gp(96, 12), gp(95, 12), gp(96, 11)]);
    assert_eq!(faces[2303].arc, Arc::B);
    assert_eq!(faces[24 * 70].arc, Arc::A);
}
