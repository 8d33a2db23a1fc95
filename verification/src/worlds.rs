use vstd::prelude::*;

verus! {

/// How many worlds the portals connect.
pub const WORLD_COUNT: i32 = 6;

/// `w` names one of the worlds.
pub open spec fn is_world(w: int) -> bool {
    0 <= w < WORLD_COUNT
}

/// The world that a world number stands for: world numbers are taken modulo the
/// number of worlds.
pub open spec fn world_of(w: int) -> int {
    w % (WORLD_COUNT as int)
}

/// Brings a world number into `0..6`, as `rem_euclid` does.
pub fn normalize_world(world: i32) -> (w: i32)
    ensures
        w == world_of(world as int),
        is_world(w as int),
{
    match world.checked_rem_euclid(WORLD_COUNT) {
        Some(r) => r,
        None => 0,
    }
}

/// The six per-world colour slots of a model that is seen in `world` alone:
/// `color` in that world's slot and `blank` in the five others.
pub fn world_palette<T: Copy>(world: i32, color: T, blank: T) -> (palette: [T; 6])
    requires
        is_world(world as int),
    ensures
        forall|i: int| 0 <= i < 6 ==> palette@[i] == (if i == world { color } else { blank }),
{
    [
        if world == 0 { color } else { blank },
        if world == 1 { color } else { blank },
        if world == 2 { color } else { blank },
        if world == 3 { color } else { blank },
        if world == 4 { color } else { blank },
        if world == 5 { color } else { blank },
    ]
}

/// World numbers six apart stand for the same world, and a world stands for
/// itself.
pub proof fn lemma_world_numbers_wrap(w: int)
    ensures
        world_of(w + WORLD_COUNT) == world_of(w),
        is_world(world_of(w)),
        is_world(w) ==> world_of(w) == w,
{
}

} // verus!
