//! The mesh of the trefoil tube that frames the portal.
use vstd::prelude::*;

use crate::portal::{arc_partner, Arc};
use crate::worlds::is_world;

verus! {

/// How many segments the tube is cut into along the knot.
pub const SEGMENTS: u32 = 96;

/// How many facets the tube is cut into around its core.
pub const SIDES: u32 = 12;

/// The primary colour an arc of the knot is drawn in, in one world.
#[derive(Clone, Copy, Debug, PartialEq, Eq, Structural)]
pub enum Tint {
    Red,
    Green,
    Blue,
}

/// A point of the tube's parameter grid: `along` counts segments along the knot,
/// `around` facets around the tube.
#[derive(Clone, Copy, Debug, PartialEq, Eq, Structural)]
pub struct GridPoint {
    pub along: u32,
    pub around: u32,
}

/// A triangle of the tube, by the grid points of its corners, with the arc of the
/// knot that it belongs to.
#[derive(Clone, Copy, Debug, PartialEq, Eq)]
pub struct TubeFace {
    pub corners: [GridPoint; 3],
    pub arc: Arc,
}

/// The arc that segment `a` of the tube belongs to: segments 28 to 59 make arc C,
/// 60 to 91 arc A, and the rest arc B.
pub open spec fn segment_arc_of(a: int) -> Arc {
    if 28 <= a <= 59 {
        Arc::C
    } else if 60 <= a <= 91 {
        Arc::A
    } else {
        Arc::B
    }
}

/// The tint of arc `arc` in each of the six worlds.
pub open spec fn arc_tints_of(arc: Arc) -> Seq<Tint> {
    match arc {
        Arc::A => seq![Tint::Red, Tint::Red, Tint::Blue, Tint::Green, Tint::Green, Tint::Blue],
        Arc::B => seq![Tint::Green, Tint::Blue, Tint::Red, Tint::Red, Tint::Blue, Tint::Green],
        Arc::C => seq![Tint::Blue, Tint::Green, Tint::Green, Tint::Blue, Tint::Red, Tint::Red],
    }
}

pub open spec fn grid(a: int, b: int) -> GridPoint {
    GridPoint { along: a as u32, around: b as u32 }
}

/// The first of the two triangles of the cell at segment `a`, facet `b`.
pub open spec fn first_face(a: int, b: int) -> TubeFace {
    TubeFace {
        corners: [grid(a, b), grid(a + 1, b), grid(a, b + 1)],
        arc: segment_arc_of(a),
    }
}

/// The second of the two triangles of the cell at segment `a`, facet `b`.
pub open spec fn second_face(a: int, b: int) -> TubeFace {
    TubeFace {
        corners: [grid(a + 1, b + 1), grid(a, b + 1), grid(a + 1, b)],
        arc: segment_arc_of(a),
    }
}

/// The arc that segment `a` of the tube belongs to.
pub fn segment_arc(a: u32) -> (arc: Arc)
    ensures
        arc == segment_arc_of(a as int),
{
    if 28 <= a && a <= 59 {
        Arc::C
    } else if 60 <= a && a <= 91 {
        Arc::A
    } else {
        Arc::B
    }
}

/// The tint of arc `arc` in each of the six worlds.
pub fn arc_tints(arc: Arc) -> (tints: [Tint; 6])
    ensures
        tints@ == arc_tints_of(arc),
{
    let tints = match arc {
        Arc::A => [Tint::Red, Tint::Red, Tint::Blue, Tint::Green, Tint::Green, Tint::Blue],
        Arc::B => [Tint::Green, Tint::Blue, Tint::Red, Tint::Red, Tint::Blue, Tint::Green],
        Arc::C => [Tint::Blue, Tint::Green, Tint::Green, Tint::Blue, Tint::Red, Tint::Red],
    };
    assert(tints@ =~= arc_tints_of(arc));
    tints
}

/// The triangles of the trefoil tube: for each of the 96 segments along the knot
/// and each of the 12 facets around it, the two triangles of that grid cell, the
/// first with corners (a, b), (a+1, b), (a, b+1) and the second with corners
/// (a+1, b+1), (a, b+1), (a+1, b), each tagged with the arc of its segment.
pub fn trefoil() -> (faces: Vec<TubeFace>)
    ensures
        faces.len() == 2 * SEGMENTS * SIDES,
        forall|a: int, b: int|
            0 <= a < SEGMENTS && 0 <= b < SIDES ==> #[trigger] faces@[24 * a + 2 * b] == first_face(
                a,
                b,
            ) && faces@[24 * a + 2 * b + 1] == second_face(a, b),
{
    let mut faces: Vec<TubeFace> = Vec::new();
    let mut a: u32 = 0;
    while a < SEGMENTS
        invariant
            0 <= a <= SEGMENTS,
            faces.len() == 24 * a,
            forall|a2: int, b2: int|
                0 <= a2 < a && 0 <= b2 < SIDES ==> #[trigger] faces@[24 * a2 + 2 * b2]
                    == first_face(a2, b2) && faces@[24 * a2 + 2 * b2 + 1] == second_face(a2, b2),
        decreases SEGMENTS - a,
    {
        let arc = segment_arc(a);
        let mut b: u32 = 0;
        while b < SIDES
            invariant
                0 <= a < SEGMENTS,
                0 <= b <= SIDES,
                arc == segment_arc_of(a as int),
                faces.len() == 24 * a + 2 * b,
                forall|a2: int, b2: int|
                    0 <= a2 < a && 0 <= b2 < SIDES ==> #[trigger] faces@[24 * a2 + 2 * b2]
                        == first_face(a2, b2) && faces@[24 * a2 + 2 * b2 + 1] == second_face(
                        a2,
                        b2,
                    ),
                forall|b2: int|
                    0 <= b2 < b ==> #[trigger] faces@[24 * a + 2 * b2] == first_face(a as int, b2)
                        && faces@[24 * a + 2 * b2 + 1] == second_face(a as int, b2),
            decreases SIDES - b,
        {
            let here = GridPoint { along: a, around: b };
            let next_along = GridPoint { along: a + 1, around: b };
            let next_around = GridPoint { along: a, around: b + 1 };
            let diagonal = GridPoint { along: a + 1, around: b + 1 };
            let first = TubeFace { corners: [here, next_along, next_around], arc };
            let second = TubeFace { corners: [diagonal, next_around, next_along], arc };
            proof {
                assert(first == first_face(a as int, b as int));
                assert(second == second_face(a as int, b as int));
            }
            faces.push(first);
            faces.push(second);
            b = b + 1;
        }
        a = a + 1;
    }
    faces
}

/// An arc shows the same tint in the two worlds it joins, so a traveller who
/// passes under it sees it unchanged on the other side.
pub proof fn lemma_arc_tint_shared(arc: Arc, w: int)
    requires
        is_world(w),
    ensures
        arc_tints_of(arc)[arc_partner(arc, w)] == arc_tints_of(arc)[w],
{
}

/// In every world the three arcs are drawn in three different tints.
pub proof fn lemma_arcs_told_apart(w: int)
    requires
        is_world(w),
    ensures
        arc_tints_of(Arc::A)[w] != arc_tints_of(Arc::B)[w],
        arc_tints_of(Arc::B)[w] != arc_tints_of(Arc::C)[w],
        arc_tints_of(Arc::C)[w] != arc_tints_of(Arc::A)[w],
{
}

/// Both triangles of a cell of the tube belong to the arc of the cell's own
/// segment, whatever the facet: arc B for segments 0 to 27 and 92 to 95, arc C
/// for 28 to 59, arc A for 60 to 91. The arc changes from one segment to the
/// next only where a new arc begins, at segments 28, 60 and 92.
pub proof fn lemma_cell_arcs(a: int, b: int)
    requires
        0 <= a < SEGMENTS,
        0 <= b < SIDES,
    ensures
        second_face(a, b).arc == first_face(a, b).arc,
        first_face(a, b).arc == first_face(a, 0).arc,
        first_face(a, b).arc == (if 28 <= a <= 59 {
            Arc::C
        } else if 60 <= a <= 91 {
            Arc::A
        } else {
            Arc::B
        }),
        a + 1 < SEGMENTS && a + 1 != 28 && a + 1 != 60 && a + 1 != 92 ==> first_face(a + 1, b).arc
            == first_face(a, b).arc,
        a + 1 < SEGMENTS && (a + 1 == 28 || a + 1 == 60 || a + 1 == 92) ==> first_face(
            a + 1,
            b,
        ).arc != first_face(a, b).arc,
{
}

/// The two triangles of a cell share its diagonal, run in opposite directions,
/// and between them cover the cell's four corners: the first holds the cell's
/// own corner, the second the corner diagonally across.
pub proof fn lemma_cell_halves(a: int, b: int)
    requires
        0 <= a < SEGMENTS,
        0 <= b < SIDES,
    ensures
        first_face(a, b).corners[1] == second_face(a, b).corners[2],
        first_face(a, b).corners[2] == second_face(a, b).corners[1],
        first_face(a, b).corners[0] == (GridPoint { along: a as u32, around: b as u32 }),
        second_face(a, b).corners[0] == (GridPoint { along: (a + 1) as u32, around: (b + 1) as u32 }),
        first_face(a, b).corners[1] == (GridPoint { along: (a + 1) as u32, around: b as u32 }),
        first_face(a, b).corners[2] == (GridPoint { along: a as u32, around: (b + 1) as u32 }),
{
}

/// The tints of the arcs world by world: in world 0 arc A is red, B green and C
/// blue; each arc keeps its tint across the two worlds it joins (see
/// `lemma_arc_tint_shared`), and in worlds 2 and 5 arc A is blue, in 3 and 4
/// green.
pub proof fn lemma_arc_tint_table()
    ensures
        arc_tints_of(Arc::A)[0] == Tint::Red && arc_tints_of(Arc::B)[0] == Tint::Green
            && arc_tints_of(Arc::C)[0] == Tint::Blue,
        arc_tints_of(Arc::A)[2] == Tint::Blue && arc_tints_of(Arc::A)[5] == Tint::Blue,
        arc_tints_of(Arc::A)[3] == Tint::Green && arc_tints_of(Arc::A)[4] == Tint::Green,
        arc_tints_of(Arc::B)[1] == Tint::Blue && arc_tints_of(Arc::B)[2] == Tint::Red,
        arc_tints_of(Arc::C)[1] == Tint::Green && arc_tints_of(Arc::C)[4] == Tint::Red,
        forall|arc: Arc| #[trigger] arc_tints_of(arc).len() == 6,
{
}

} // verus!
