use knotted_portal::portal::{
    arc_number, cross, enter_sphere, keep_within, on_upper_sheet, order_by_time, pass_under,
    sphere_worlds, travel, world_after, Crossing, Passage, Region,
};

fn region(x_positive: bool, left_of_rising: bool, left_of_falling: bool, outside_ring: bool) -> Region {
    Region { x_positive, left_of_rising, left_of_falling, outside_ring }
}

/// A sector outside the ring under arc A: (2) holds, (1) does not.
fn under_a() -> Region {
    region(false, true, false, true)
}

/// A sector outside the ring under arc B: (1) holds, (3) does not.
fn under_b() -> Region {
    region(true, false, false, true)
}

/// A sector outside the ring under arc C: (3) holds, (2) does not.
fn under_c() -> Region {
    region(false, false, true, true)
}

fn knot(time: u32, region: Region, below: bool) -> Crossing {
    Crossing { time, passage: Passage::Knot { region, below_upper: below, below_lower: below } }
}

fn sphere(time: u32, index: usize) -> Crossing {
    Crossing { time, passage: Passage::Sphere { index } }
}

fn times(cs: &[Crossing]) -> Vec<u32> {
    cs.iter().map(|c| c.time).collect()
}

#[test]
fn upper_sheet_by_parity() {
    assert!(on_upper_sheet(region(false, false, false, false)));
    assert!(!on_upper_sheet(region(true, false, false, false)));
    assert!(on_upper_sheet(region(true, true, false, false)));
    assert!(!on_upper_sheet(region(true, true, true, false)));
    assert!(on_upper_sheet(region(true, true, true, true)));
}

#[test]
fn arc_numbers_follow_the_table() {
    // outside the ring: A = 1, B = 5, C = 3
    assert_eq!(arc_number(under_a()), 1);
    assert_eq!(arc_number(under_b()), 5);
    assert_eq!(arc_number(under_c()), 3);
    // inside the ring: the sectors lie under C, A, B
    assert_eq!(arc_number(region(false, true, false, false)) % 6, 3);
    assert_eq!(arc_number(region(true, false, false, false)) % 6, 1);
    assert_eq!(arc_number(region(false, false, true, false)) % 6, 5);
    // (1) and (3) together: C
    assert_eq!(arc_number(region(true, false, true, true)), 3);
}

#[test]
fn arcs_join_worlds_as_drawn() {
    // C joins 0-3, 1-2, 4-5
    assert_eq!(pass_under(0, under_c()), 3);
    assert_eq!(pass_under(1, under_c()), 2);
    assert_eq!(pass_under(4, under_c()), 5);
    // A joins 0-1, 2-5, 3-4
    assert_eq!(pass_under(0, under_a()), 1);
    assert_eq!(pass_under(2, under_a()), 5);
    assert_eq!(pass_under(3, under_a()), 4);
    // B joins 0-5, 1-4, 2-3
    assert_eq!(pass_under(0, under_b()), 5);
    assert_eq!(pass_under(1, under_b()), 4);
    assert_eq!(pass_under(2, under_b()), 3);
}

#[test]
fn arc_switch_is_undone_by_passing_again() {
    for w in 0..6 {
        for r in [under_a(), under_b(), under_c(), region(true, false, true, false)] {
            let there = pass_under(w, r);
            assert_ne!(there, w);
            assert_eq!(pass_under(there, r), w);
        }
    }
}

#[test]
fn sphere_portals_join_their_worlds() {
    let links = [(0, 1), (2, 3), (4, 5), (0, 2), (1, 3), (4, 0)];
    for (i, &(a, b)) in links.iter().enumerate() {
        assert_eq!(sphere_worlds(i), (a, b));
        assert_eq!(enter_sphere(a, i), b);
        assert_eq!(enter_sphere(b, i), a);
        for w in 0..6 {
            if w != a && w != b {
                assert_eq!(enter_sphere(w, i), w);
            }
            assert_eq!(enter_sphere(enter_sphere(w, i), i), w);
        }
    }
}

#[test]
fn crossing_over_the_knot_changes_nothing() {
    for w in 0..6 {
        assert_eq!(cross(w, knot(5, under_a(), false)), w);
    }
}

#[test]
fn sheet_decides_which_flag_counts() {
    // odd number of inequalities (only (1), inside the ring: arc A): the lower sheet
    let r = region(true, false, false, false);
    let c = Crossing { time: 1, passage: Passage::Knot { region: r, below_upper: true, below_lower: false } };
    assert_eq!(cross(0, c), 0);
    let c = Crossing { time: 1, passage: Passage::Knot { region: r, below_upper: false, below_lower: true } };
    assert_eq!(cross(0, c), 1);
    // even number: the upper sheet
    let r = under_a();
    let c = Crossing { time: 1, passage: Passage::Knot { region: r, below_upper: true, below_lower: false } };
    assert_eq!(cross(0, c), 1);
}

#[test]
fn window_keeps_only_inner_crossings() {
    let cs = vec![sphere(0, 0), sphere(5, 1), sphere(10, 2), sphere(9, 3), sphere(u32::MAX, 4)];
    let kept = keep_within(&cs, 10);
    assert_eq!(times(&kept), vec![5, 9]);
    assert!(keep_within(&cs, 0).is_empty());
}

#[test]
fn ordering_is_sorted_and_stable() {
    let mut cs = vec![sphere(7, 0), sphere(3, 1), sphere(7, 2), sphere(1, 3), sphere(3, 4), sphere(7, 5)];
    order_by_time(&mut cs);
    assert_eq!(times(&cs), vec![1, 3, 3, 7, 7, 7]);
    let order: Vec<usize> = cs
        .iter()
        .map(|c| match c.passage {
            Passage::Sphere { index } => index,
            Passage::Knot { .. } => 99,
        })
        .collect();
    assert_eq!(order, vec![3, 1, 4, 0, 2, 5]);
}

#[test]
fn ordering_empty_and_single() {
    let mut none: Vec<Crossing> = Vec::new();
    order_by_time(&mut none);
    assert!(none.is_empty());
    let mut one = vec![sphere(4, 2)];
    order_by_time(&mut one);
    assert_eq!(times(&one), vec![4]);
}

#[test]
fn world_after_follows_the_crossings() {
    // 0 -sphere 0-> 1 -arc C-> 2 -sphere 1-> 3
    let cs = vec![sphere(1, 0), knot(2, under_c(), true), sphere(3, 1)];
    assert_eq!(world_after(0, &cs), 3);
}

#[test]
fn travel_sorts_by_time_before_crossing() {
    // Given out of order: the sphere 3 (0-2) portal first, then arc A.
    let cs = vec![knot(20, under_a(), true), sphere(10, 3)];
    let mut w = 0;
    travel(&mut w, cs.clone(), 100);
    // 0 -sphere 3-> 2 -arc A-> 5
    assert_eq!(w, 5);
    let mut w = 0;
    let reversed = vec![knot(10, under_a(), true), sphere(20, 3)];
    travel(&mut w, reversed, 100);
    // 0 -arc A-> 1 -sphere 3-> 1
    assert_eq!(w, 1);
}

#[test]
fn travel_ignores_crossings_outside_the_path() {
    let cs = vec![sphere(0, 0), sphere(100, 0), sphere(200, 0)];
    let mut w = 0;
    travel(&mut w, cs, 100);
    assert_eq!(w, 0);
}

#[test]
fn travel_normalizes_the_world() {
    let mut w = -1;
    travel(&mut w, Vec::new(), 10);
    assert_eq!(w, 5);
    let mut w = 14;
    travel(&mut w, vec![sphere(3, 0)], 10);
    // 14 stands for world 2, which sphere 0 (0-1) leaves alone
    assert_eq!(w, 2);
    let mut w = 12;
    travel(&mut w, vec![sphere(3, 0)], 10);
    assert_eq!(w, 1);
}

#[test]
fn travel_keeps_simultaneous_crossings_in_order() {
    // sphere 0 (0-1) then sphere 4 (1-3) at one time: 0 -> 1 -> 3
    let mut w = 0;
    travel(&mut w, vec![sphere(5, 0), sphere(5, 4)], 10);
    assert_eq!(w, 3);
    // the other order: 0 stays under sphere 4, then sphere 0 takes it to 1
    let mut w = 0;
    travel(&mut w, vec![sphere(5, 4), sphere(5, 0)], 10);
    assert_eq!(w, 1);
}

#[test]
fn return_trip_leads_back() {
    let forward = vec![
        sphere(1, 0),
        knot(2, under_c(), true),
        knot(3, under_b(), false),
        sphere(4, 5),
        knot(5, under_a(), true),
    ];
    let backward: Vec<Crossing> = forward
        .iter()
        .rev()
        .enumerate()
        .map(|(k, c)| Crossing { time: k as u32 + 1, passage: c.passage })
        .collect();
    for start in 0..6 {
        let mut w = start;
        travel(&mut w, forward.clone(), 10);
        travel(&mut w, backward.clone(), 10);
        assert_eq!(w, start);
    }
}

#[test]
fn listing_order_across_times_does_not_matter() {
    let found = vec![
        knot(30, under_b(), true),
        sphere(10, 0),
        knot(20, under_c(), true),
        sphere(40, 4),
        knot(50, under_a(), true),
    ];
    let mut first = 0;
    travel(&mut first, found.clone(), 100);
    for shift in 1..found.len() {
        let mut rotated = found.clone();
        rotated.rotate_left(shift);
        let mut w = 0;
        travel(&mut w, rotated, 100);
        assert_eq!(w, first);
    }
    // by time: 0 -sphere 0-> 1 -C-> 2 -B-> 3 -sphere 4-> 1 -A-> 0
    assert_eq!(first, 0);
}

#[test]
fn coming_back_through_reversed_passages_returns() {
    let there = vec![sphere(3, 0), knot(1, under_c(), true), sphere(9, 5), knot(5, under_a(), true)];
    // the way back meets the same passages in reverse time order, at its own times
    let back = vec![knot(8, under_c(), true), sphere(2, 5), sphere(6, 0), knot(4, under_a(), true)];
    for start in -7..13 {
        let mut w = start;
        travel(&mut w, there.clone(), 10);
        travel(&mut w, back.clone(), 10);
        assert_eq!(w, start.rem_euclid(6));
    }
}

#[test]
fn split_trip_matches_whole_trip() {
    let whole = vec![sphere(2, 0), knot(4, under_c(), true), sphere(7, 4), knot(9, under_b(), true)];
    // split at time 5: the second leg meets the later passages at its own times
    let rest = vec![knot(4, under_b(), true), sphere(2, 4)];
    for start in 0..6 {
        let mut a = start;
        travel(&mut a, whole.clone(), 5);
        travel(&mut a, rest.clone(), 10);
        let mut b = start;
        travel(&mut b, whole.clone(), 10);
        assert_eq!(a, b);
    }
}
