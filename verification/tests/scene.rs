use knotted_portal::scene::{environment, layout, place, Group, Height, Placement, Prop, PropKind, StarTint};

#[test]
fn layout_has_four_groups_per_world_but_the_void() {
    let groups = layout();
    assert_eq!(groups.len(), 22);
    for w in 0..6 {
        let n = groups.iter().filter(|g| g.world == w).count();
        assert_eq!(n, if w == 0 { 2 } else { 4 });
    }
}

#[test]
fn first_star_is_skipped_near_the_portal() {
    let stars = layout()[0];
    // star 0 would stand at (-30, -30): far enough
    assert_eq!(
        place(stars, 0),
        Some(Placement {
            prop: Prop::Star { tint: StarTint::Bluish, ringed: true },
            world: 0,
            x: -30,
            y: -30,
            z: 50,
        })
    );
    // star 1 at (13 - 30, 17 - 30) = (-17, -13), z = 23 + 5
    assert_eq!(
        place(stars, 1),
        Some(Placement {
            prop: Prop::Star { tint: StarTint::Yellowish, ringed: false },
            world: 0,
            x: -17,
            y: -13,
            z: 280,
        })
    );
}

#[test]
fn props_near_the_middle_are_left_out() {
    let g = Group { kind: PropKind::Tree, world: 1, count: 10, stride_x: 1, stride_y: 1, modulus: 50, height: Height::Level { z: -20 } };
    // with stride 1, prop i stands at (i - 25, i - 25)
    assert_eq!(place(g, 0).map(|p| (p.x, p.y)), Some((-25, -25)));
    let h = Group { kind: PropKind::Tree, world: 1, count: 30, stride_x: 1, stride_y: 1, modulus: 50, height: Height::Level { z: -20 } };
    assert_eq!(place(h, 25), None);
    assert_eq!(place(h, 29), None); // (4, 4): 32 < 100
    assert_eq!(place(h, 18), None); // (-7, -7): 98 < 100
    assert_eq!(place(h, 17).map(|p| (p.x, p.y)), Some((-8, -8))); // 128
}

#[test]
fn sizes_and_headings_follow_the_index() {
    let groups = layout();
    let volcano = groups.iter().find(|g| g.kind == PropKind::Volcano).copied().unwrap();
    assert_eq!(place(volcano, 0).unwrap().prop, Prop::Volcano { size: 20 });
    let fish = groups.iter().find(|g| g.kind == PropKind::Fish).copied().unwrap();
    let f = place(fish, 3).unwrap();
    assert_eq!(f.prop, Prop::Fish { heading: 3 });
    // z = (3·61 mod 10) − 1 = 2 units
    assert_eq!(f.z, 20);
}

#[test]
fn environment_is_clear_of_the_portal() {
    let props = environment();
    assert!(!props.is_empty());
    for p in &props {
        assert!((0..6).contains(&p.world));
        assert!(p.x * p.x + p.y * p.y >= 100);
        assert!((-50..50).contains(&p.x) && (-50..50).contains(&p.y));
    }
    // the groups follow one another, world by world
    let worlds: Vec<i32> = props.iter().map(|p| p.world).collect();
    let mut sorted = worlds.clone();
    sorted.sort();
    assert_eq!(worlds, sorted);
}

#[test]
fn environment_counts_each_group() {
    let props = environment();
    let expected: usize = layout()
        .iter()
        .map(|g| (0..g.count).filter(|&i| place(*g, i).is_some()).count())
        .sum();
    assert_eq!(props.len(), expected);
    let stars = props.iter().filter(|p| matches!(p.prop, Prop::Star { .. })).count();
    let kept_stars = (0..40u32)
        .filter(|&i| {
            let x = (i * 13 % 60) as i32 - 30;
            let y = (i * 17 % 60) as i32 - 30;
            x * x + y * y >= 100
        })
        .count();
    assert_eq!(stars, kept_stars);
}
