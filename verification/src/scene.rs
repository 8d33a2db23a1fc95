//! Where the props of the six worlds stand. Each kind of prop is scattered over
//! a square by multiplicative strides, leaving the middle of the scene, where the
//! portal stands, clear.
use vstd::prelude::*;

use crate::worlds::is_world;

verus! {

/// The kinds of props that the worlds are furnished with.
#[derive(Clone, Copy, Debug, PartialEq, Eq, Structural)]
pub enum PropKind {
    /// A star of the cosmic void; every fifth one a ringed planet.
    Star,
    Satellite,
    Tree,
    Mushroom,
    Grass,
    /// A grey boulder of the forest.
    Rock,
    Volcano,
    /// A mountain of the volcanic world.
    LavaMountain,
    /// A floating ember.
    Ember,
    /// A block of obsidian.
    Obsidian,
    /// An air bubble of the ocean.
    Bubble,
    /// A crystal of the ocean floor.
    SeaCrystal,
    Coral,
    Fish,
    /// A mountain of the desert.
    DesertMountain,
    Ruin,
    Cactus,
    Tent,
    Snowman,
    Igloo,
    PineTree,
    /// A floating ice crystal.
    IceCrystal,
}

/// The colour of a star.
#[derive(Clone, Copy, Debug, PartialEq, Eq, Structural)]
pub enum StarTint {
    Bluish,
    Yellowish,
    White,
}

/// A prop with what it takes from its place in the scatter: sizes in tenths of
/// a unit, headings in half radians.
#[derive(Clone, Copy, Debug, PartialEq, Eq, Structural)]
pub enum Prop {
    Star { tint: StarTint, ringed: bool },
    Satellite,
    Tree,
    Mushroom,
    Grass,
    Rock,
    Volcano { size: i32 },
    LavaMountain { size: i32 },
    Ember,
    Obsidian,
    Bubble,
    SeaCrystal { size: i32 },
    Coral,
    Fish { heading: u32 },
    DesertMountain { size: i32 },
    Ruin,
    Cactus,
    Tent,
    Snowman,
    Igloo,
    PineTree,
    IceCrystal,
}

/// How high the props of a group stand, in tenths of a unit.
#[derive(Clone, Copy, Debug, PartialEq, Eq, Structural)]
pub enum Height {
    /// All at the same height.
    Level { z: i32 },
    /// Prop `i` at `(i·stride mod modulus + offset)` whole units.
    Cycle { stride: u32, modulus: u32, offset: i32 },
}

/// `count` props of one kind, in one world: prop `i` stands at
/// `x = i·stride_x mod modulus − modulus/2`, `y = i·stride_y mod modulus − modulus/2`,
/// unless that is within 10 units of the middle of the scene.
#[derive(Clone, Copy, Debug, PartialEq, Eq, Structural)]
pub struct Group {
    pub kind: PropKind,
    pub world: i32,
    pub count: u32,
    pub stride_x: u32,
    pub stride_y: u32,
    pub modulus: u32,
    pub height: Height,
}

/// A prop standing in a world, at `(x, y)` in whole units and `z` in tenths.
#[derive(Clone, Copy, Debug, PartialEq, Eq, Structural)]
pub struct Placement {
    pub prop: Prop,
    pub world: i32,
    pub x: i32,
    pub y: i32,
    pub z: i32,
}

/// A group whose numbers stay small enough for the scatter to be exact.
pub open spec fn valid_group(g: Group) -> bool {
    &&& is_world(g.world as int)
    &&& g.count <= 100
    &&& g.stride_x <= 100
    &&& g.stride_y <= 100
    &&& 2 <= g.modulus <= 100
    &&& match g.height {
        Height::Level { z } => -1000 <= z <= 1000,
        Height::Cycle { stride, modulus, offset } => stride <= 100 && 1 <= modulus <= 100 && -100
            <= offset <= 100,
    }
}

/// Where along one axis prop `i` of a scatter stands.
pub open spec fn coordinate(i: int, stride: int, modulus: int) -> int {
    (i * stride) % modulus - modulus / 2
}

/// The height of prop `i`, in tenths.
pub open spec fn height_of(h: Height, i: int) -> int {
    match h {
        Height::Level { z } => z as int,
        Height::Cycle { stride, modulus, offset } => 10 * ((i * stride) % (modulus as int) + offset),
    }
}

/// A point far enough from the middle of the scene: at least 10 units away.
pub open spec fn clear_of_portal(x: int, y: int) -> bool {
    x * x + y * y >= 100
}

/// Prop `i` of kind `kind`.
pub open spec fn prop_of(kind: PropKind, i: int) -> Prop {
    match kind {
        PropKind::Star => Prop::Star {
            tint: if i % 3 == 0 {
                StarTint::Bluish
            } else if i % 3 == 1 {
                StarTint::Yellowish
            } else {
                StarTint::White
            },
            ringed: i % 5 == 0,
        },
        PropKind::Satellite => Prop::Satellite,
        PropKind::Tree => Prop::Tree,
        PropKind::Mushroom => Prop::Mushroom,
        PropKind::Grass => Prop::Grass,
        PropKind::Rock => Prop::Rock,
        PropKind::Volcano => Prop::Volcano { size: (20 + 10 * (i % 3)) as i32 },
        PropKind::LavaMountain => Prop::LavaMountain { size: (15 + 10 * (i % 2)) as i32 },
        PropKind::Ember => Prop::Ember,
        PropKind::Obsidian => Prop::Obsidian,
        PropKind::Bubble => Prop::Bubble,
        PropKind::SeaCrystal => Prop::SeaCrystal { size: (10 + 10 * (i % 2)) as i32 },
        PropKind::Coral => Prop::Coral,
        PropKind::Fish => Prop::Fish { heading: i as u32 },
        PropKind::DesertMountain => Prop::DesertMountain { size: (40 + 10 * (i % 3)) as i32 },
        PropKind::Ruin => Prop::Ruin,
        PropKind::Cactus => Prop::Cactus,
        PropKind::Tent => Prop::Tent,
        PropKind::Snowman => Prop::Snowman,
        PropKind::Igloo => Prop::Igloo,
        PropKind::PineTree => Prop::PineTree,
        PropKind::IceCrystal => Prop::IceCrystal,
    }
}

/// Prop `i` of group `g`, or nothing where its place is too near the portal.
pub open spec fn placement_at(g: Group, i: int) -> Option<Placement> {
    let x = coordinate(i, g.stride_x as int, g.modulus as int);
    let y = coordinate(i, g.stride_y as int, g.modulus as int);
    if clear_of_portal(x, y) {
        Some(
            Placement {
                prop: prop_of(g.kind, i),
                world: g.world,
                x: x as i32,
                y: y as i32,
                z: height_of(g.height, i) as i32,
            },
        )
    } else {
        None
    }
}

/// The props `0..n` of group `g` that stand, in order.
pub open spec fn scatter(g: Group, n: nat) -> Seq<Placement>
    decreases n,
{
    if n == 0 {
        Seq::empty()
    } else {
        let before = scatter(g, (n - 1) as nat);
        match placement_at(g, n - 1) {
            Some(p) => before.push(p),
            None => before,
        }
    }
}

/// The props of all the groups of `gs`, group by group.
pub open spec fn scatter_all(gs: Seq<Group>) -> Seq<Placement>
    decreases gs.len(),
{
    if gs.len() == 0 {
        Seq::empty()
    } else {
        scatter_all(gs.drop_last()) + scatter(gs.last(), gs.last().count as nat)
    }
}

proof fn lemma_products_small(i: int, stride: int)
    requires
        0 <= i < 100,
        0 <= stride <= 100,
    ensures
        0 <= i * stride <= 10000,
{
    assert(0 <= i * stride <= 10000) by (nonlinear_arith)
        requires
            0 <= i < 100,
            0 <= stride <= 100,
    ;
}

proof fn lemma_squares_small(x: int, y: int)
    requires
        -50 <= x <= 50,
        -50 <= y <= 50,
    ensures
        0 <= x * x <= 2500,
        0 <= y * y <= 2500,
{
    assert(0 <= x * x <= 2500) by (nonlinear_arith)
        requires
            -50 <= x <= 50,
    ;
    assert(0 <= y * y <= 2500) by (nonlinear_arith)
        requires
            -50 <= y <= 50,
    ;
}

/// Prop `i` of group `group`, or `None` where its place is too near the portal.
pub fn place(group: Group, i: u32) -> (p: Option<Placement>)
    requires
        valid_group(group),
        i < group.count,
    ensures
        p == placement_at(group, i as int),
{
    proof {
        lemma_products_small(i as int, group.stride_x as int);
        lemma_products_small(i as int, group.stride_y as int);
    }
    let half = (group.modulus / 2) as i32;
    let x = ((i * group.stride_x) % group.modulus) as i32 - half;
    let y = ((i * group.stride_y) % group.modulus) as i32 - half;
    proof {
        lemma_squares_small(x as int, y as int);
    }
    if x * x + y * y < 100 {
        return None;
    }
    let z = match group.height {
        Height::Level { z } => z,
        Height::Cycle { stride, modulus, offset } => {
            proof {
                lemma_products_small(i as int, stride as int);
            }
            10 * (((i * stride) % modulus) as i32 + offset)
        },
    };
    let prop = match group.kind {
        PropKind::Star => Prop::Star {
            tint: if i % 3 == 0 {
                StarTint::Bluish
            } else if i % 3 == 1 {
                StarTint::Yellowish
            } else {
                StarTint::White
            },
            ringed: i % 5 == 0,
        },
        PropKind::Satellite => Prop::Satellite,
        PropKind::Tree => Prop::Tree,
        PropKind::Mushroom => Prop::Mushroom,
        PropKind::Grass => Prop::Grass,
        PropKind::Rock => Prop::Rock,
        PropKind::Volcano => Prop::Volcano { size: 20 + 10 * ((i % 3) as i32) },
        PropKind::LavaMountain => Prop::LavaMountain { size: 15 + 10 * ((i % 2) as i32) },
        PropKind::Ember => Prop::Ember,
        PropKind::Obsidian => Prop::Obsidian,
        PropKind::Bubble => Prop::Bubble,
        PropKind::SeaCrystal => Prop::SeaCrystal { size: 10 + 10 * ((i % 2) as i32) },
        PropKind::Coral => Prop::Coral,
        PropKind::Fish => Prop::Fish { heading: i },
        PropKind::DesertMountain => Prop::DesertMountain { size: 40 + 10 * ((i % 3) as i32) },
        PropKind::Ruin => Prop::Ruin,
        PropKind::Cactus => Prop::Cactus,
        PropKind::Tent => Prop::Tent,
        PropKind::Snowman => Prop::Snowman,
        PropKind::Igloo => Prop::Igloo,
        PropKind::PineTree => Prop::PineTree,
        PropKind::IceCrystal => Prop::IceCrystal,
    };
    Some(Placement { prop, world: group.world, x, y, z })
}

/// Appends the props of `group` that stand, in order, to `out`.
pub fn scatter_group(out: &mut Vec<Placement>, group: Group)
    requires
        valid_group(group),
    ensures
        final(out)@ == old(out)@ + scatter(group, group.count as nat),
{
    let ghost start = out@;
    let mut i: u32 = 0;
    while i < group.count
        invariant
            valid_group(group),
            i <= group.count,
            out@ == start + scatter(group, i as nat),
        decreases group.count - i,
    {
        match place(group, i) {
            Some(p) => {
                out.push(p);
                assert(out@ =~= start + scatter(group, (i + 1) as nat));
            },
            None => {
                assert(out@ =~= start + scatter(group, (i + 1) as nat));
            },
        }
        i = i + 1;
    }
}


/// The groups of props of the six worlds: stars and satellites in the cosmic
/// void (0); trees, mushrooms, grass and rocks in the forest (1); volcanoes,
/// mountains, embers and obsidian in the volcanic world (2); bubbles, crystals,
/// coral and fish in the ocean (3); mountains, ruins, cacti and tents in the
/// desert (4); snowmen, igloos, pine trees and ice crystals in the ice world (5).
pub open spec fn scene_layout() -> Seq<Group> {
    seq![
        Group { kind: PropKind::Star, world: 0i32, count: 40u32, stride_x: 13u32, stride_y: 17u32, modulus: 60u32, height: Height::Cycle { stride: 23u32, modulus: 30u32, offset: 5i32 } },
        Group { kind: PropKind::Satellite, world: 0i32, count: 15u32, stride_x: 19u32, stride_y: 29u32, modulus: 60u32, height: Height::Cycle { stride: 31u32, modulus: 20u32, offset: 10i32 } },
        Group { kind: PropKind::Tree, world: 1i32, count: 25u32, stride_x: 11u32, stride_y: 19u32, modulus: 50u32, height: Height::Level { z: -20i32 } },
        Group { kind: PropKind::Mushroom, world: 1i32, count: 20u32, stride_x: 17u32, stride_y: 23u32, modulus: 50u32, height: Height::Level { z: -20i32 } },
        Group { kind: PropKind::Grass, world: 1i32, count: 30u32, stride_x: 23u32, stride_y: 29u32, modulus: 50u32, height: Height::Level { z: -20i32 } },
        Group { kind: PropKind::Rock, world: 1i32, count: 15u32, stride_x: 31u32, stride_y: 37u32, modulus: 50u32, height: Height::Level { z: -18i32 } },
        Group { kind: PropKind::Volcano, world: 2i32, count: 15u32, stride_x: 7u32, stride_y: 29u32, modulus: 50u32, height: Height::Level { z: -20i32 } },
        Group { kind: PropKind::LavaMountain, world: 2i32, count: 15u32, stride_x: 11u32, stride_y: 37u32, modulus: 50u32, height: Height::Level { z: -20i32 } },
        Group { kind: PropKind::Ember, world: 2i32, count: 40u32, stride_x: 13u32, stride_y: 17u32, modulus: 50u32, height: Height::Cycle { stride: 19u32, modulus: 15u32, offset: -1i32 } },
        Group { kind: PropKind::Obsidian, world: 2i32, count: 20u32, stride_x: 23u32, stride_y: 31u32, modulus: 50u32, height: Height::Level { z: -15i32 } },
        Group { kind: PropKind::Bubble, world: 3i32, count: 50u32, stride_x: 31u32, stride_y: 37u32, modulus: 60u32, height: Height::Cycle { stride: 41u32, modulus: 20u32, offset: -1i32 } },
        Group { kind: PropKind::SeaCrystal, world: 3i32, count: 20u32, stride_x: 13u32, stride_y: 19u32, modulus: 60u32, height: Height::Level { z: -10i32 } },
        Group { kind: PropKind::Coral, world: 3i32, count: 30u32, stride_x: 43u32, stride_y: 47u32, modulus: 60u32, height: Height::Level { z: -20i32 } },
        Group { kind: PropKind::Fish, world: 3i32, count: 20u32, stride_x: 53u32, stride_y: 59u32, modulus: 60u32, height: Height::Cycle { stride: 61u32, modulus: 10u32, offset: -1i32 } },
        Group { kind: PropKind::DesertMountain, world: 4i32, count: 10u32, stride_x: 43u32, stride_y: 47u32, modulus: 60u32, height: Height::Level { z: -20i32 } },
        Group { kind: PropKind::Ruin, world: 4i32, count: 15u32, stride_x: 17u32, stride_y: 23u32, modulus: 60u32, height: Height::Level { z: -20i32 } },
        Group { kind: PropKind::Cactus, world: 4i32, count: 25u32, stride_x: 61u32, stride_y: 67u32, modulus: 60u32, height: Height::Level { z: -20i32 } },
        Group { kind: PropKind::Tent, world: 4i32, count: 15u32, stride_x: 71u32, stride_y: 73u32, modulus: 60u32, height: Height::Level { z: -20i32 } },
        Group { kind: PropKind::Snowman, world: 5i32, count: 15u32, stride_x: 53u32, stride_y: 59u32, modulus: 50u32, height: Height::Level { z: -20i32 } },
        Group { kind: PropKind::Igloo, world: 5i32, count: 20u32, stride_x: 13u32, stride_y: 17u32, modulus: 50u32, height: Height::Level { z: -20i32 } },
        Group { kind: PropKind::PineTree, world: 5i32, count: 30u32, stride_x: 61u32, stride_y: 67u32, modulus: 50u32, height: Height::Level { z: -20i32 } },
        Group { kind: PropKind::IceCrystal, world: 5i32, count: 50u32, stride_x: 71u32, stride_y: 73u32, modulus: 50u32, height: Height::Cycle { stride: 79u32, modulus: 15u32, offset: -1i32 } },
    ]
}

/// The groups of props of the six worlds, in the order they are laid out.
pub fn layout() -> (groups: Vec<Group>)
    ensures
        groups@ == scene_layout(),
{
    let groups = vec![
        Group { kind: PropKind::Star, world: 0, count: 40, stride_x: 13, stride_y: 17, modulus: 60, height: Height::Cycle { stride: 23, modulus: 30, offset: 5 } },
        Group { kind: PropKind::Satellite, world: 0, count: 15, stride_x: 19, stride_y: 29, modulus: 60, height: Height::Cycle { stride: 31, modulus: 20, offset: 10 } },
        Group { kind: PropKind::Tree, world: 1, count: 25, stride_x: 11, stride_y: 19, modulus: 50, height: Height::Level { z: -20 } },
        Group { kind: PropKind::Mushroom, world: 1, count: 20, stride_x: 17, stride_y: 23, modulus: 50, height: Height::Level { z: -20 } },
        Group { kind: PropKind::Grass, world: 1, count: 30, stride_x: 23, stride_y: 29, modulus: 50, height: Height::Level { z: -20 } },
        Group { kind: PropKind::Rock, world: 1, count: 15, stride_x: 31, stride_y: 37, modulus: 50, height: Height::Level { z: -18 } },
        Group { kind: PropKind::Volcano, world: 2, count: 15, stride_x: 7, stride_y: 29, modulus: 50, height: Height::Level { z: -20 } },
        Group { kind: PropKind::LavaMountain, world: 2, count: 15, stride_x: 11, stride_y: 37, modulus: 50, height: Height::Level { z: -20 } },
        Group { kind: PropKind::Ember, world: 2, count: 40, stride_x: 13, stride_y: 17, modulus: 50, height: Height::Cycle { stride: 19, modulus: 15, offset: -1 } },
        Group { kind: PropKind::Obsidian, world: 2, count: 20, stride_x: 23, stride_y: 31, modulus: 50, height: Height::Level { z: -15 } },
        Group { kind: PropKind::Bubble, world: 3, count: 50, stride_x: 31, stride_y: 37, modulus: 60, height: Height::Cycle { stride: 41, modulus: 20, offset: -1 } },
        Group { kind: PropKind::SeaCrystal, world: 3, count: 20, stride_x: 13, stride_y: 19, modulus: 60, height: Height::Level { z: -10 } },
        Group { kind: PropKind::Coral, world: 3, count: 30, stride_x: 43, stride_y: 47, modulus: 60, height: Height::Level { z: -20 } },
        Group { kind: PropKind::Fish, world: 3, count: 20, stride_x: 53, stride_y: 59, modulus: 60, height: Height::Cycle { stride: 61, modulus: 10, offset: -1 } },
        Group { kind: PropKind::DesertMountain, world: 4, count: 10, stride_x: 43, stride_y: 47, modulus: 60, height: Height::Level { z: -20 } },
        Group { kind: PropKind::Ruin, world: 4, count: 15, stride_x: 17, stride_y: 23, modulus: 60, height: Height::Level { z: -20 } },
        Group { kind: PropKind::Cactus, world: 4, count: 25, stride_x: 61, stride_y: 67, modulus: 60, height: Height::Level { z: -20 } },
        Group { kind: PropKind::Tent, world: 4, count: 15, stride_x: 71, stride_y: 73, modulus: 60, height: Height::Level { z: -20 } },
        Group { kind: PropKind::Snowman, world: 5, count: 15, stride_x: 53, stride_y: 59, modulus: 50, height: Height::Level { z: -20 } },
        Group { kind: PropKind::Igloo, world: 5, count: 20, stride_x: 13, stride_y: 17, modulus: 50, height: Height::Level { z: -20 } },
        Group { kind: PropKind::PineTree, world: 5, count: 30, stride_x: 61, stride_y: 67, modulus: 50, height: Height::Level { z: -20 } },
        Group { kind: PropKind::IceCrystal, world: 5, count: 50, stride_x: 71, stride_y: 73, modulus: 50, height: Height::Cycle { stride: 79, modulus: 15, offset: -1 } },
    ];
    assert(groups@ =~= scene_layout());
    groups
}

/// Every group of `gs` is valid.
pub open spec fn all_valid(gs: Seq<Group>) -> bool {
    forall|i: int| 0 <= i < gs.len() ==> valid_group(#[trigger] gs[i])
}

/// The props of all the worlds: the groups of the layout, one after another,
/// each with its props that stand, in order.
pub fn environment() -> (props: Vec<Placement>)
    ensures
        props@ == scatter_all(scene_layout()),
{
    let groups = layout();
    assert(all_valid(groups@));
    let mut props: Vec<Placement> = Vec::new();
    let n = groups.len();
    for k in 0..n
        invariant
            n == groups.len(),
            groups@ == scene_layout(),
            all_valid(groups@),
            props@ == scatter_all(groups@.subrange(0, k as int)),
    {
        proof {
            assert(groups@.subrange(0, k + 1).drop_last() =~= groups@.subrange(0, k as int));
            assert(valid_group(groups@[k as int]));
        }
        scatter_group(&mut props, groups[k]);
    }
    proof {
        assert(groups@.subrange(0, n as int) =~= groups@);
    }
    props
}

proof fn lemma_scatter_placed(g: Group, n: nat)
    requires
        valid_group(g),
    ensures
        forall|i: int|
            0 <= i < scatter(g, n).len() ==> placed_well(#[trigger] scatter(g, n)[i], g.world as int),
    decreases n,
{
    if n > 0 {
        lemma_scatter_placed(g, (n - 1) as nat);
        let i = n - 1;
        let x = coordinate(i, g.stride_x as int, g.modulus as int);
        let y = coordinate(i, g.stride_y as int, g.modulus as int);
        let before = scatter(g, (n - 1) as nat);
        match placement_at(g, i) {
            Some(p) => {
                assert forall|j: int| 0 <= j < before.push(p).len() implies placed_well(
                    #[trigger] before.push(p)[j],
                    g.world as int,
                ) by {
                    if j < before.len() {
                        assert(before.push(p)[j] == before[j]);
                    }
                }
            },
            None => {},
        }
    }
}

/// A prop stands in world `world`, at least 10 units from the middle of the
/// scene, inside the square of side 100 round it.
pub open spec fn placed_well(p: Placement, world: int) -> bool {
    &&& p.world == world
    &&& is_world(p.world as int)
    &&& clear_of_portal(p.x as int, p.y as int)
    &&& -50 <= p.x < 50
    &&& -50 <= p.y < 50
}

/// Every prop stands in one of the six worlds, at least 10 units from the
/// middle of the scene where the portal stands, and inside the square of side
/// 100 round it.
pub proof fn lemma_props_clear_of_portal(gs: Seq<Group>)
    requires
        all_valid(gs),
    ensures
        forall|i: int|
            0 <= i < scatter_all(gs).len() ==> placed_well(
                #[trigger] scatter_all(gs)[i],
                scatter_all(gs)[i].world as int,
            ),
    decreases gs.len(),
{
    if gs.len() > 0 {
        let init = gs.drop_last();
        assert(all_valid(init)) by {
            assert forall|i: int| 0 <= i < init.len() implies valid_group(#[trigger] init[i]) by {
                assert(init[i] == gs[i]);
            }
        }
        lemma_props_clear_of_portal(init);
        assert(valid_group(gs[gs.len() - 1]));
        let g = gs.last();
        lemma_scatter_placed(g, g.count as nat);
        let a = scatter_all(init);
        let b = scatter(g, g.count as nat);
        assert forall|i: int| 0 <= i < (a + b).len() implies placed_well(
            #[trigger] (a + b)[i],
            (a + b)[i].world as int,
        ) by {
            if i < a.len() {
                assert((a + b)[i] == a[i]);
            } else {
                assert((a + b)[i] == b[i - a.len()]);
            }
        }
    }
}

/// The props of the scene all stand clear of the portal, in one of the worlds.
pub proof fn lemma_scene_clear_of_portal()
    ensures
        forall|i: int|
            0 <= i < scatter_all(scene_layout()).len() ==> placed_well(
                #[trigger] scatter_all(scene_layout())[i],
                scatter_all(scene_layout())[i].world as int,
            ),
{
    assert(all_valid(scene_layout()));
    lemma_props_clear_of_portal(scene_layout());
}

/// The first group of the layout is the stars of the cosmic void.
pub proof fn lemma_first_group_is_stars()
    ensures
        scene_layout()[0].kind == PropKind::Star,
        scene_layout()[0].world == 0,
{
}

/// Every fifth star, from star 0 on, is a ringed planet, and the stars' tints
/// run bluish, yellowish, white, over and over: star `i` is ringed exactly when
/// `i` is a multiple of 5, and its tint is fixed by `i` modulo 3.
pub proof fn lemma_star_rings(i: int)
    requires
        0 <= i,
    ensures
        prop_of(PropKind::Star, i) is Star,
        prop_of(PropKind::Star, i)->ringed == (i % 5 == 0),
        prop_of(PropKind::Star, i + 5)->ringed == prop_of(PropKind::Star, i)->ringed,
        prop_of(PropKind::Star, i + 3)->tint == prop_of(PropKind::Star, i)->tint,
        prop_of(PropKind::Star, i)->tint == (if i % 3 == 0 {
            StarTint::Bluish
        } else if i % 3 == 1 {
            StarTint::Yellowish
        } else {
            StarTint::White
        }),
        prop_of(PropKind::Star, 0)->ringed,
        !prop_of(PropKind::Star, 1)->ringed && !prop_of(PropKind::Star, 2)->ringed
            && !prop_of(PropKind::Star, 3)->ringed && !prop_of(PropKind::Star, 4)->ringed,
{
}

/// A placed prop is the prop of its index in its group: a placed star is ringed
/// exactly when its index is a multiple of 5.
pub proof fn lemma_placed_star(g: Group, i: int)
    requires
        g.kind == PropKind::Star,
        0 <= i,
        placement_at(g, i) is Some,
    ensures
        placement_at(g, i)->Some_0.prop->ringed == (i % 5 == 0),
        placement_at(g, i)->Some_0.world == g.world,
{
}

/// The sizes and headings that props take from their index: volcanoes 2, 3, 4
/// units in turn, lava mountains 1.5 and 2.5, sea crystals 1 and 2, desert
/// mountains 4, 5, 6 (in tenths), and fish turned half a radian more each.
pub proof fn lemma_prop_sizes(i: int)
    requires
        0 <= i < 100,
    ensures
        prop_of(PropKind::Volcano, i)->Volcano_size == 20 + 10 * (i % 3),
        prop_of(PropKind::Volcano, i + 3)->Volcano_size == prop_of(PropKind::Volcano, i)->Volcano_size,
        prop_of(PropKind::LavaMountain, i)->LavaMountain_size == 15 + 10 * (i % 2),
        prop_of(PropKind::SeaCrystal, i)->SeaCrystal_size == 10 + 10 * (i % 2),
        prop_of(PropKind::DesertMountain, i)->DesertMountain_size == 40 + 10 * (i % 3),
        prop_of(PropKind::Fish, i)->heading == i,
        prop_of(PropKind::Fish, i + 1)->heading == prop_of(PropKind::Fish, i)->heading + 1,
{
}

/// Where prop `i` of a group stands: `x + modulus/2` is `i·stride_x` modulo
/// the modulus, `y` alike, its height follows the group's rule, and it stands
/// in the group's world; it is left out exactly when that place is within 10
/// units of the portal.
pub proof fn lemma_place_coordinates(g: Group, i: int)
    requires
        valid_group(g),
        0 <= i < g.count,
    ensures
        placement_at(g, i) is Some <==> {
            let x = (i * g.stride_x) % (g.modulus as int) - g.modulus / 2;
            let y = (i * g.stride_y) % (g.modulus as int) - g.modulus / 2;
            x * x + y * y >= 100
        },
        placement_at(g, i) is Some ==> {
            let p = placement_at(g, i)->Some_0;
            &&& p.x + g.modulus / 2 == (i * g.stride_x) % (g.modulus as int)
            &&& p.y + g.modulus / 2 == (i * g.stride_y) % (g.modulus as int)
            &&& p.world == g.world
            &&& p.z == match g.height {
                Height::Level { z } => z as int,
                Height::Cycle { stride, modulus, offset } => 10 * ((i * stride) % (modulus as int)
                    + offset),
            }
        },
{
    lemma_products_small(i, g.stride_x as int);
    lemma_products_small(i, g.stride_y as int);
    match g.height {
        Height::Cycle { stride, .. } => lemma_products_small(i, stride as int),
        _ => {},
    }
}

} // verus!
