use vstd::prelude::*;

use crate::worlds::{is_world, normalize_world, world_of};

verus! {

/// On which side of the four dividing curves of the knot diagram a point of the
/// xy-plane lies.
#[derive(Clone, Copy, Debug)]
pub struct Region {
    /// Inequality (1): `x > 0`.
    pub x_positive: bool,
    /// Inequality (2): `x < y·√3`.
    pub left_of_rising: bool,
    /// Inequality (3): `x < -y·√3`.
    pub left_of_falling: bool,
    /// Inequality (4): `r > 1.5`.
    pub outside_ring: bool,
}

/// The three arcs of the knot diagram: `A` top left, `B` right, `C` bottom.
#[derive(Clone, Copy, Debug, PartialEq, Eq, Structural)]
pub enum Arc {
    A,
    B,
    C,
}

/// 1 when `b` holds, else 0.
pub open spec fn count(b: bool) -> int {
    if b { 1 } else { 0 }
}

/// How many of the four inequalities hold in `r`.
pub open spec fn inequalities_holding(r: Region) -> int {
    count(r.x_positive) + count(r.left_of_rising) + count(r.left_of_falling) + count(r.outside_ring)
}

/// A point of the knot above `r` lies on the upper sheet (z > 0) exactly when an
/// even number of the inequalities hold.
pub open spec fn upper_sheet(r: Region) -> bool {
    inequalities_holding(r) % 2 == 0
}

/// The arc of the knot diagram over a point of region `r`: outside the ring the
/// arc that the three sectors show, inside it the arc one step further round.
pub open spec fn region_arc(r: Region) -> Arc {
    let outer = if r.x_positive {
        if r.left_of_falling { Arc::C } else { Arc::B }
    } else {
        if r.left_of_rising { Arc::A } else { Arc::C }
    };
    if r.outside_ring {
        outer
    } else {
        match outer {
            Arc::A => Arc::C,
            Arc::B => Arc::A,
            Arc::C => Arc::B,
        }
    }
}

/// The world that passing under arc `a` leads to from world `w`, as the diagram
/// of the six worlds draws it: A joins 0–1, 2–5, 3–4; B joins 0–5, 1–4, 2–3;
/// C joins 0–3, 1–2, 4–5.
pub open spec fn arc_partner(a: Arc, w: int) -> int {
    match a {
        Arc::A => if w == 0 { 1 } else if w == 1 { 0 } else if w == 2 { 5 } else if w == 5 { 2 }
            else if w == 3 { 4 } else { 3 },
        Arc::B => if w == 0 { 5 } else if w == 5 { 0 } else if w == 1 { 4 } else if w == 4 { 1 }
            else if w == 2 { 3 } else { 2 },
        Arc::C => if w == 0 { 3 } else if w == 3 { 0 } else if w == 1 { 2 } else if w == 2 { 1 }
            else if w == 4 { 5 } else { 4 },
    }
}

/// The number that the worlds an arc joins add up to, modulo six.
pub open spec fn arc_sum(a: Arc) -> int {
    match a {
        Arc::A => 1,
        Arc::B => 5,
        Arc::C => 3,
    }
}

/// Whether a point of the knot above region `region` lies on its upper sheet.
pub fn on_upper_sheet(region: Region) -> (upper: bool)
    ensures
        upper == upper_sheet(region),
{
    !(region.x_positive ^ region.left_of_rising ^ region.left_of_falling ^ region.outside_ring)
}

/// The number of the arc over a point of `r`: by sector 3 where (1) and (3)
/// hold, 5 where (1) holds and (3) does not, 1 where (1) does not hold and (2)
/// does, 3 where neither does; 2 more inside the ring.
pub open spec fn arc_code(r: Region) -> int {
    let sector = if r.x_positive {
        if r.left_of_falling { 3int } else { 5int }
    } else {
        if r.left_of_rising { 1int } else { 3int }
    };
    sector + if r.outside_ring { 0int } else { 2int }
}

/// The number of the arc over `region`: the sum that the two worlds it joins
/// add up to (1 for A, 5 for B, 3 for C) modulo six.
pub fn arc_number(region: Region) -> (n: i32)
    ensures
        n == arc_code(region),
        n % 6 == arc_sum(region_arc(region)),
{
    let mut arc: i32 = if region.x_positive {
        if region.left_of_falling { 3 } else { 5 }
    } else {
        if region.left_of_rising { 1 } else { 3 }
    };
    arc += if region.outside_ring { 0 } else { 2 };
    arc
}

/// The world reached from world `world` (in `0..6`) by passing under the arc
/// over `region`.
pub fn pass_under(world: i32, region: Region) -> (next: i32)
    requires
        is_world(world as int),
    ensures
        next == arc_partner(region_arc(region), world as int),
        is_world(next as int),
{
    let arc = arc_number(region);
    normalize_world(arc - world)
}


/// How many spherical portals the scene holds.
pub const SPHERE_COUNT: usize = 6;

/// The two worlds that spherical portal `i` joins.
pub open spec fn sphere_link(i: int) -> (int, int) {
    if i == 0 { (0, 1) }
    else if i == 1 { (2, 3) }
    else if i == 2 { (4, 5) }
    else if i == 3 { (0, 2) }
    else if i == 4 { (1, 3) }
    else { (4, 0) }
}

/// The world reached from world `w` by entering spherical portal `i`: one of the
/// two worlds it joins leads to the other, and any other world stays.
pub open spec fn sphere_partner(i: int, w: int) -> int {
    let (a, b) = sphere_link(i);
    if w == a { b } else if w == b { a } else { w }
}

/// The two worlds that spherical portal `index` joins.
pub fn sphere_worlds(index: usize) -> (link: (i32, i32))
    requires
        index < SPHERE_COUNT,
    ensures
        link.0 == sphere_link(index as int).0,
        link.1 == sphere_link(index as int).1,
{
    match index {
        0 => (0, 1),
        1 => (2, 3),
        2 => (4, 5),
        3 => (0, 2),
        4 => (1, 3),
        _ => (4, 0),
    }
}

/// The world reached from world `world` (in `0..6`) by entering spherical
/// portal `index`.
pub fn enter_sphere(world: i32, index: usize) -> (next: i32)
    requires
        is_world(world as int),
        index < SPHERE_COUNT,
    ensures
        next == sphere_partner(index as int, world as int),
        is_world(next as int),
{
    let (a, b) = sphere_worlds(index);
    if world == a {
        b
    } else if world == b {
        a
    } else {
        world
    }
}

/// What a straight path meets at one point.
#[derive(Clone, Copy, Debug)]
pub enum Passage {
    /// The path crosses the knot's shadow in the xy-plane, above `region`;
    /// `below_upper` tells whether it passes below the knot's upper sheet there,
    /// `below_lower` whether it passes below its lower sheet.
    Knot { region: Region, below_upper: bool, below_lower: bool },
    /// The path enters spherical portal `index`.
    Sphere { index: usize },
}

/// A point where a path meets the knot or a spherical portal. `time` is a key
/// that orders the points along the path: the larger, the farther from the start.
#[derive(Clone, Copy, Debug)]
pub struct Crossing {
    pub time: u32,
    pub passage: Passage,
}

/// A crossing names an existing spherical portal.
pub open spec fn well_formed(c: Crossing) -> bool {
    match c.passage {
        Passage::Sphere { index } => index < SPHERE_COUNT,
        Passage::Knot { .. } => true,
    }
}

/// Every crossing of `s` names an existing spherical portal.
pub open spec fn all_well_formed(s: Seq<Crossing>) -> bool {
    forall|i: int| 0 <= i < s.len() ==> well_formed(#[trigger] s[i])
}

/// A path that meets the knot above region `r` passes under it: below the sheet
/// that the knot lies on there.
pub open spec fn passes_under(r: Region, below_upper: bool, below_lower: bool) -> bool {
    if upper_sheet(r) { below_upper } else { below_lower }
}

/// The world after one crossing, from world `w`: passing under an arc of the
/// knot or entering a sphere switches worlds, passing over the knot does not.
pub open spec fn after_crossing(w: int, c: Crossing) -> int {
    match c.passage {
        Passage::Knot { region, below_upper, below_lower } =>
            if passes_under(region, below_upper, below_lower) {
                arc_partner(region_arc(region), w)
            } else {
                w
            },
        Passage::Sphere { index } => sphere_partner(index as int, w),
    }
}

/// The world after the crossings of `s`, taken in order, from world `w`.
pub open spec fn after_crossings(w: int, s: Seq<Crossing>) -> int
    decreases s.len(),
{
    if s.len() == 0 {
        w
    } else {
        after_crossing(after_crossings(w, s.drop_last()), s.last())
    }
}

/// The world reached from world `world` (in `0..6`) by one crossing.
pub fn cross(world: i32, crossing: Crossing) -> (next: i32)
    requires
        is_world(world as int),
        well_formed(crossing),
    ensures
        next == after_crossing(world as int, crossing),
        is_world(next as int),
{
    match crossing.passage {
        Passage::Knot { region, below_upper, below_lower } => {
            let below = if on_upper_sheet(region) { below_upper } else { below_lower };
            if below {
                pass_under(world, region)
            } else {
                world
            }
        },
        Passage::Sphere { index } => enter_sphere(world, index),
    }
}


/// A crossing lies strictly between the start of the path and its end, whose
/// key is `limit`.
pub open spec fn in_window(c: Crossing, limit: u32) -> bool {
    0 < c.time && c.time < limit
}

/// The crossings of `s` that lie strictly between the start and the end of the
/// path, in the order of `s`.
pub open spec fn within(s: Seq<Crossing>, limit: u32) -> Seq<Crossing>
    decreases s.len(),
{
    if s.len() == 0 {
        s
    } else {
        let kept = within(s.drop_last(), limit);
        if in_window(s.last(), limit) {
            kept.push(s.last())
        } else {
            kept
        }
    }
}

/// `s` with `c` put after every crossing at the end of `s` that comes later
/// than it: after the last crossing of `s` whose time is at most `c`'s when the
/// later ones all trail it.
pub open spec fn insert_by_time(s: Seq<Crossing>, c: Crossing) -> Seq<Crossing>
    decreases s.len(),
{
    if s.len() == 0 || s.last().time <= c.time {
        s.push(c)
    } else {
        insert_by_time(s.drop_last(), c).push(s.last())
    }
}

/// The crossings of `s` ordered by time; crossings at one time keep the order
/// they have in `s`.
pub open spec fn sort_by_time(s: Seq<Crossing>) -> Seq<Crossing>
    decreases s.len(),
{
    if s.len() == 0 {
        s
    } else {
        insert_by_time(sort_by_time(s.drop_last()), s.last())
    }
}

/// The world that a path meeting `crossings` leads to from world `w`: the
/// crossings between its start and its end (key `limit`), taken by time.
pub open spec fn destination(w: int, crossings: Seq<Crossing>, limit: u32) -> int {
    after_crossings(world_of(w), sort_by_time(within(crossings, limit)))
}

proof fn lemma_insert_len(s: Seq<Crossing>, c: Crossing)
    ensures
        insert_by_time(s, c).len() == s.len() + 1,
    decreases s.len(),
{
    if s.len() > 0 && s.last().time > c.time {
        lemma_insert_len(s.drop_last(), c);
    }
}

proof fn lemma_sort_len(s: Seq<Crossing>)
    ensures
        sort_by_time(s).len() == s.len(),
    decreases s.len(),
{
    if s.len() > 0 {
        lemma_sort_len(s.drop_last());
        lemma_insert_len(sort_by_time(s.drop_last()), s.last());
    }
}

/// Inserting `c` puts it at position `j` when the crossings before `j` are not
/// later than it and those from `j` on are.
proof fn lemma_insert_at(s: Seq<Crossing>, c: Crossing, j: int)
    requires
        0 <= j <= s.len(),
        forall|k: int| j <= k < s.len() ==> (#[trigger] s[k]).time > c.time,
        j == 0 || s[j - 1].time <= c.time,
    ensures
        insert_by_time(s, c) =~= s.subrange(0, j).push(c) + s.subrange(j, s.len() as int),
    decreases s.len(),
{
    if j == s.len() {
        assert(s.subrange(0, j) =~= s);
    } else {
        let init = s.drop_last();
        assert(s.last().time > c.time);
        lemma_insert_at(init, c, j);
        assert(init.subrange(0, j) =~= s.subrange(0, j));
        assert(s.subrange(j, s.len() as int) =~= init.subrange(j, init.len() as int).push(s.last()));
    }
}

proof fn lemma_insert_well_formed(s: Seq<Crossing>, c: Crossing)
    requires
        all_well_formed(s),
        well_formed(c),
    ensures
        all_well_formed(insert_by_time(s, c)),
    decreases s.len(),
{
    if s.len() > 0 && s.last().time > c.time {
        lemma_insert_well_formed(s.drop_last(), c);
        let r = insert_by_time(s.drop_last(), c);
        assert forall|i: int| 0 <= i < r.push(s.last()).len() implies well_formed(
            #[trigger] r.push(s.last())[i],
        ) by {
            if i < r.len() {
                assert(r.push(s.last())[i] == r[i]);
            }
        }
    } else {
        assert forall|i: int| 0 <= i < s.push(c).len() implies well_formed(
            #[trigger] s.push(c)[i],
        ) by {
            if i < s.len() {
                assert(s.push(c)[i] == s[i]);
            }
        }
    }
}

pub proof fn lemma_sort_well_formed(s: Seq<Crossing>)
    requires
        all_well_formed(s),
    ensures
        all_well_formed(sort_by_time(s)),
    decreases s.len(),
{
    if s.len() > 0 {
        assert(all_well_formed(s.drop_last())) by {
            assert forall|i: int| 0 <= i < s.drop_last().len() implies well_formed(
                #[trigger] s.drop_last()[i],
            ) by {
                assert(s.drop_last()[i] == s[i]);
            }
        }
        lemma_sort_well_formed(s.drop_last());
        assert(well_formed(s[s.len() - 1]));
        lemma_insert_well_formed(sort_by_time(s.drop_last()), s.last());
    }
}

pub proof fn lemma_within_well_formed(s: Seq<Crossing>, limit: u32)
    requires
        all_well_formed(s),
    ensures
        all_well_formed(within(s, limit)),
    decreases s.len(),
{
    if s.len() > 0 {
        assert(all_well_formed(s.drop_last())) by {
            assert forall|i: int| 0 <= i < s.drop_last().len() implies well_formed(
                #[trigger] s.drop_last()[i],
            ) by {
                assert(s.drop_last()[i] == s[i]);
            }
        }
        lemma_within_well_formed(s.drop_last(), limit);
        let kept = within(s.drop_last(), limit);
        assert(well_formed(s[s.len() - 1]));
        assert forall|i: int| 0 <= i < kept.push(s.last()).len() implies well_formed(
            #[trigger] kept.push(s.last())[i],
        ) by {
            if i < kept.len() {
                assert(kept.push(s.last())[i] == kept[i]);
            }
        }
    }
}

/// Orders `crossings` by time, keeping the order of crossings at one time.
pub fn order_by_time(crossings: &mut Vec<Crossing>)
    ensures
        final(crossings)@ == sort_by_time(old(crossings)@),
{
    let ghost orig = crossings@;
    let n = crossings.len();
    let mut i: usize = 0;
    while i < n
        invariant
            0 <= i <= n,
            n == orig.len(),
            crossings.len() == n,
            crossings@.subrange(0, i as int) == sort_by_time(orig.subrange(0, i as int)),
            crossings@.subrange(i as int, n as int) == orig.subrange(i as int, n as int),
        decreases n - i,
    {
        let key = crossings[i];
        let ghost sorted = sort_by_time(orig.subrange(0, i as int));
        proof {
            lemma_sort_len(orig.subrange(0, i as int));
            assert(key == orig[i as int]) by {
                assert(crossings@.subrange(i as int, n as int)[0] == orig.subrange(
                    i as int,
                    n as int,
                )[0]);
            }
            assert(crossings@.subrange(i as int + 1, n as int) =~= orig.subrange(
                i as int + 1,
                n as int,
            )) by {
                assert forall|k: int| 0 <= k < n - i - 1 implies #[trigger] crossings@.subrange(
                    i as int + 1,
                    n as int,
                )[k] == orig.subrange(i as int + 1, n as int)[k] by {
                    assert(crossings@.subrange(i as int, n as int)[k + 1] == orig.subrange(
                        i as int,
                        n as int,
                    )[k + 1]);
                }
            }
        }
        let mut j: usize = i;
        while j > 0 && crossings[j - 1].time > key.time
            invariant
                0 <= j <= i < n,
                n == orig.len(),
                crossings.len() == n,
                sorted.len() == i,
                key == orig[i as int],
                crossings@.subrange(0, j as int) == sorted.subrange(0, j as int),
                crossings@.subrange(j as int + 1, i as int + 1) == sorted.subrange(
                    j as int,
                    i as int,
                ),
                crossings@.subrange(i as int + 1, n as int) == orig.subrange(
                    i as int + 1,
                    n as int,
                ),
                forall|k: int| j <= k < i ==> (#[trigger] sorted[k]).time > key.time,
            decreases j,
        {
            let moved = crossings[j - 1];
            proof {
                assert(moved == sorted[j - 1]) by {
                    assert(crossings@.subrange(0, j as int)[j - 1] == sorted.subrange(
                        0,
                        j as int,
                    )[j - 1]);
                }
            }
            let ghost before = crossings@;
            crossings.set(j, moved);
            proof {
                assert(crossings@.subrange(0, j - 1) =~= before.subrange(0, j - 1));
                assert(before.subrange(0, j - 1) =~= before.subrange(0, j as int).subrange(
                    0,
                    j - 1,
                ));
                assert(sorted.subrange(0, j - 1) =~= sorted.subrange(0, j as int).subrange(
                    0,
                    j - 1,
                ));
                assert(crossings@.subrange(j as int, i as int + 1) =~= sorted.subrange(
                    j - 1,
                    i as int,
                )) by {
                    assert forall|k: int| 0 <= k < i + 1 - j implies #[trigger] crossings@.subrange(
                        j as int,
                        i as int + 1,
                    )[k] == sorted.subrange(j - 1, i as int)[k] by {
                        if k > 0 {
                            assert(before.subrange(j as int + 1, i as int + 1)[k - 1]
                                == sorted.subrange(j as int, i as int)[k - 1]);
                        }
                    }
                }
                assert(crossings@.subrange(i as int + 1, n as int) =~= before.subrange(
                    i as int + 1,
                    n as int,
                ));
            }
            j = j - 1;
        }
        let ghost before = crossings@;
        crossings.set(j, key);
        proof {
            let next = orig.subrange(0, i as int + 1);
            assert(next.drop_last() =~= orig.subrange(0, i as int));
            assert(j > 0 ==> sorted[j - 1].time <= key.time) by {
                if j > 0 {
                    assert(before.subrange(0, j as int)[j - 1] == sorted.subrange(0, j as int)[j
                        - 1]);
                }
            }
            lemma_insert_at(sorted, key, j as int);
            assert(crossings@.subrange(0, i as int + 1) =~= sorted.subrange(0, j as int).push(key)
                + sorted.subrange(j as int, i as int)) by {
                assert forall|k: int| 0 <= k < i + 1 implies #[trigger] crossings@.subrange(
                    0,
                    i as int + 1,
                )[k] == (sorted.subrange(0, j as int).push(key) + sorted.subrange(
                    j as int,
                    i as int,
                ))[k] by {
                    if k < j {
                        assert(before.subrange(0, j as int)[k] == sorted.subrange(0, j as int)[k]);
                    } else if k > j {
                        assert(before.subrange(j as int + 1, i as int + 1)[k - j - 1]
                            == sorted.subrange(j as int, i as int)[k - j - 1]);
                    }
                }
            }
            assert(crossings@.subrange(i as int + 1, n as int) =~= before.subrange(
                i as int + 1,
                n as int,
            ));
            assert(sorted.subrange(j as int, i as int) =~= sorted.subrange(
                j as int,
                sorted.len() as int,
            ));
        }
        i = i + 1;
    }
    proof {
        assert(orig.subrange(0, n as int) =~= orig);
        assert(crossings@.subrange(0, n as int) =~= crossings@);
    }
}


/// The crossings of `crossings` that lie strictly between the start of the path
/// and its end, whose key is `limit`, in their order.
pub fn keep_within(crossings: &Vec<Crossing>, limit: u32) -> (kept: Vec<Crossing>)
    ensures
        kept@ == within(crossings@, limit),
{
    let mut kept: Vec<Crossing> = Vec::new();
    let n = crossings.len();
    for i in 0..n
        invariant
            n == crossings.len(),
            kept@ == within(crossings@.subrange(0, i as int), limit),
    {
        let c = crossings[i];
        proof {
            assert(crossings@.subrange(0, i + 1).drop_last() =~= crossings@.subrange(0, i as int));
        }
        if 0 < c.time && c.time < limit {
            kept.push(c);
        }
    }
    proof {
        assert(crossings@.subrange(0, n as int) =~= crossings@);
    }
    kept
}

/// The world reached from world `world` (in `0..6`) through the crossings of
/// `crossings`, taken in order.
pub fn world_after(world: i32, crossings: &Vec<Crossing>) -> (end: i32)
    requires
        is_world(world as int),
        all_well_formed(crossings@),
    ensures
        end == after_crossings(world as int, crossings@),
        is_world(end as int),
{
    let mut w = world;
    let n = crossings.len();
    for i in 0..n
        invariant
            n == crossings.len(),
            all_well_formed(crossings@),
            is_world(w as int),
            w == after_crossings(world as int, crossings@.subrange(0, i as int)),
    {
        proof {
            assert(crossings@.subrange(0, i + 1).drop_last() =~= crossings@.subrange(0, i as int));
            assert(well_formed(crossings@[i as int]));
        }
        w = cross(w, crossings[i]);
    }
    proof {
        assert(crossings@.subrange(0, n as int) =~= crossings@);
    }
    w
}

/// In which world does a straight path end that starts in world `world` and
/// meets `crossings` (the knot crossings, then the spherical portals, each with
/// the key of its place on the path)? Only the crossings strictly between the
/// start and the end, whose key is `limit`, count; they are taken by time, and
/// crossings at one time in the order given. The world number is brought into
/// `0..6`.
pub fn travel(world: &mut i32, crossings: Vec<Crossing>, limit: u32)
    requires
        all_well_formed(crossings@),
    ensures
        *final(world) == destination(*old(world) as int, crossings@, limit),
        is_world(*final(world) as int),
{
    let mut ordered = keep_within(&crossings, limit);
    proof {
        lemma_within_well_formed(crossings@, limit);
    }
    let ghost kept = ordered@;
    order_by_time(&mut ordered);
    proof {
        lemma_sort_well_formed(kept);
    }
    let start = normalize_world(*world);
    *world = world_after(start, &ordered);
}

} // verus!
