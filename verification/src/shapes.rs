//! Meshes of the scene's models, by the indices of their corners, with what
//! holds of their orientation.
use vstd::prelude::*;

use crate::geometry::{facing_up, hull_checked, hull_faces, lemma_hull_checked, Vec3};

verus! {

/// A triangle of a mesh by the indices of its corners, counter-clockwise seen
/// from its front.
#[derive(Clone, Copy, Debug, PartialEq, Eq, Structural)]
pub struct Face {
    pub a: usize,
    pub b: usize,
    pub c: usize,
}

pub open spec fn face(a: usize, b: usize, c: usize) -> Face {
    Face { a, b, c }
}

/// `f` with its orientation turned round: the same triangle seen from behind.
pub open spec fn reversed(f: Face) -> Face {
    Face { a: f.a, b: f.c, c: f.b }
}

/// `f` runs along the edge from corner `u` to corner `v`.
pub open spec fn has_edge(f: Face, u: int, v: int) -> bool {
    (f.a == u && f.b == v) || (f.b == u && f.c == v) || (f.c == u && f.a == v)
}

/// How many faces of `faces` run from `u` to `v`.
pub open spec fn edge_count(faces: Seq<Face>, u: int, v: int) -> nat
    decreases faces.len(),
{
    if faces.len() == 0 {
        0
    } else {
        edge_count(faces.drop_last(), u, v) + if has_edge(faces.last(), u, v) { 1nat } else { 0nat }
    }
}

/// Every face of `faces` has its corners among `0..n`.
pub open spec fn corners_within(faces: Seq<Face>, n: int) -> bool {
    forall|i: int|
        0 <= i < faces.len() ==> (#[trigger] faces[i]).a < n && faces[i].b < n && faces[i].c < n
}

/// `faces` over corners `0..n` are consistently oriented: no edge is run along
/// twice in the same direction, so neighbouring faces face the same way.
pub open spec fn oriented_surface(faces: Seq<Face>, n: int) -> bool {
    &&& corners_within(faces, n)
    &&& forall|u: int, v: int| 0 <= u < n && 0 <= v < n ==> #[trigger] edge_count(faces, u, v) <= 1
}

/// `faces` over corners `0..n` close up into a consistently oriented surface:
/// each edge is run along at most once in each direction, and once one way
/// exactly when once the other.
pub open spec fn closed_surface(faces: Seq<Face>, n: int) -> bool {
    &&& corners_within(faces, n)
    &&& forall|u: int, v: int|
        0 <= u < n && 0 <= v < n ==> #[trigger] edge_count(faces, u, v) <= 1 && edge_count(faces, u, v)
            == edge_count(faces, v, u)
}

/// The faces of a tetrahedron with corners 0 to 3 (the sky box).
pub open spec fn tetrahedron_mesh() -> Seq<Face> {
    seq![face(2, 1, 0), face(0, 1, 3), face(3, 2, 0), face(1, 2, 3)]
}

/// The faces of a square pyramid: base corners 0, 1, 2, 3 counter-clockwise seen from
/// above, starting at the (−1, −1) corner, apex 4.
pub open spec fn pyramid_mesh() -> Seq<Face> {
    seq![face(0, 1, 4), face(1, 2, 4), face(2, 3, 4), face(3, 0, 4), face(2, 1, 0), face(0, 3, 2)]
}

/// The faces of an icosahedron, corners 0 to 11 at `ur, dr, ul, dl, rf, lf, rb, lb, fu, bu,
/// fd, bd`: `(±1, 0, ±φ)`, `(±φ, ±1, 0)`, `(0, ±φ, ±1)`.
pub open spec fn icosahedron_mesh() -> Seq<Face> {
    seq![face(2, 0, 8), face(0, 2, 9), face(3, 1, 11), face(1, 3, 10), face(6, 4, 0), face(4, 6, 1), face(7, 5, 3), face(5, 7, 2), face(10, 8, 4), face(8, 10, 5), face(11, 9, 7), face(9, 11, 6), face(8, 5, 2), face(8, 0, 4), face(10, 3, 5), face(10, 4, 1), face(9, 2, 7), face(9, 6, 0), face(11, 7, 3), face(11, 1, 6)]
}

/// The faces of a box, corner `4z + 2y + x` at `(±x, ±y, ±z)`.
pub open spec fn box_mesh() -> Seq<Face> {
    seq![face(1, 0, 2), face(2, 3, 1), face(4, 5, 7), face(7, 6, 4), face(0, 1, 5), face(5, 4, 0), face(3, 2, 6), face(6, 7, 3), face(2, 0, 4), face(4, 6, 2), face(1, 3, 7), face(7, 5, 1)]
}

/// The faces of a square with corners 0, 1, 2, 3 counter-clockwise seen from above (the
/// ground).
pub open spec fn quad_mesh() -> Seq<Face> {
    seq![face(0, 1, 2), face(2, 3, 0)]
}

/// The faces of a mountain: base corners 0 to 3 counter-clockwise from the (−1, −1)
/// corner, ridge points 4 to 7 between corners 0–1, 1–2, 2–3 and 3–0, peak 8.
pub open spec fn mountain_mesh() -> Seq<Face> {
    seq![face(0, 4, 8), face(4, 1, 8), face(1, 5, 8), face(5, 2, 8), face(2, 6, 8), face(6, 3, 8), face(3, 7, 8), face(7, 0, 8), face(2, 1, 0), face(0, 3, 2)]
}

/// The faces of a volcano: base corners 0 to 3 and crater rim corners 4 to 7, each
/// counter-clockwise from the (−1, −1) side; the first eight faces are the slopes, the
/// last two the lava pool.
pub open spec fn volcano_mesh() -> Seq<Face> {
    seq![face(0, 1, 5), face(0, 5, 4), face(1, 2, 6), face(1, 6, 5), face(2, 3, 7), face(2, 7, 6), face(3, 0, 4), face(3, 4, 7), face(4, 5, 6), face(4, 6, 7)]
}

/// The faces of a tent: floor corners 0 to 3 counter-clockwise from the (−1, −1) corner,
/// ridge ends 4 (west) and 5 (east).
pub open spec fn tent_mesh() -> Seq<Face> {
    seq![face(0, 1, 5), face(0, 5, 4), face(3, 4, 5), face(3, 5, 2), face(0, 4, 3), face(1, 2, 5)]
}

/// The faces of a blade of grass: foot 0, side corners 1 and 3, tip 2.
pub open spec fn blade_mesh() -> Seq<Face> {
    seq![face(0, 1, 2), face(0, 2, 3)]
}

/// The body of a fish: nose 0, tail root 1, back 2, belly 3, left flank 4,
/// right flank 5.
pub open spec fn fish_body_mesh() -> Seq<Face> {
    seq![face(0, 5, 2), face(0, 2, 4), face(0, 3, 5), face(0, 4, 3), face(1, 2, 5), face(1, 4, 2), face(1, 5, 3), face(1, 3, 4)]
}

/// The faces of a fish: its body, then its tail fin between the tail root 1 and
/// the fin tips 6 (upper) and 7 (lower).
pub open spec fn fish_mesh() -> Seq<Face> {
    fish_body_mesh().push(face(1, 7, 6))
}

/// One segment of a ring: inner corners 0 and 1, outer corners 2 and 3, the two
/// triangles of its upper side, then the same two seen from below.
pub open spec fn ring_segment_mesh() -> Seq<Face> {
    seq![face(0, 1, 2), face(2, 1, 3)] + seq![face(0, 1, 2), face(2, 1, 3)].map_values(|f: Face| reversed(f))
}

/// The faces of the tetrahedron close up into a consistently oriented surface.
pub proof fn lemma_tetrahedron_closed()
    ensures
        closed_surface(tetrahedron_mesh(), 4),
{
    reveal_with_fuel(edge_count, 5);
}

/// The faces of the pyramid close up into a consistently oriented surface.
pub proof fn lemma_pyramid_closed()
    ensures
        closed_surface(pyramid_mesh(), 5),
{
    reveal_with_fuel(edge_count, 7);
}

/// The faces of the icosahedron close up into a consistently oriented surface.
#[verifier::spinoff_prover]
#[verifier::rlimit(80)]
pub proof fn lemma_icosahedron_closed()
    ensures
        closed_surface(icosahedron_mesh(), 12),
{
    reveal_with_fuel(edge_count, 21);
}

/// The faces of the box close up into a consistently oriented surface.
#[verifier::spinoff_prover]
#[verifier::rlimit(40)]
pub proof fn lemma_box_closed()
    ensures
        closed_surface(box_mesh(), 8),
{
    reveal_with_fuel(edge_count, 13);
}

/// The faces of the quad are consistently oriented.
pub proof fn lemma_quad_oriented()
    ensures
        oriented_surface(quad_mesh(), 4),
{
    reveal_with_fuel(edge_count, 3);
}

/// The faces of the mountain are consistently oriented.
#[verifier::spinoff_prover]
#[verifier::rlimit(40)]
pub proof fn lemma_mountain_oriented()
    ensures
        oriented_surface(mountain_mesh(), 9),
{
    reveal_with_fuel(edge_count, 11);
}

/// The faces of the volcano are consistently oriented.
#[verifier::spinoff_prover]
#[verifier::rlimit(40)]
pub proof fn lemma_volcano_oriented()
    ensures
        oriented_surface(volcano_mesh(), 8),
{
    reveal_with_fuel(edge_count, 11);
}

/// The faces of the tent are consistently oriented.
pub proof fn lemma_tent_oriented()
    ensures
        oriented_surface(tent_mesh(), 6),
{
    reveal_with_fuel(edge_count, 7);
}

/// The faces of the blade are consistently oriented.
pub proof fn lemma_blade_oriented()
    ensures
        oriented_surface(blade_mesh(), 4),
{
    reveal_with_fuel(edge_count, 3);
}

/// The body of the fish closes up into a consistently oriented surface, and
/// with its tail fin it stays consistently oriented.
#[verifier::spinoff_prover]
#[verifier::rlimit(40)]
pub proof fn lemma_fish_shape()
    ensures
        closed_surface(fish_body_mesh(), 6),
        oriented_surface(fish_mesh(), 8),
{
    reveal_with_fuel(edge_count, 10);
    assert(fish_mesh().drop_last() =~= fish_body_mesh());
}

/// The upper side of a ring segment is consistently oriented, and its lower side
/// is the same two triangles turned round.
pub proof fn lemma_ring_segment_two_sided()
    ensures
        oriented_surface(ring_segment_mesh().take(2), 4),
        ring_segment_mesh().len() == 4,
        ring_segment_mesh()[2] == reversed(ring_segment_mesh()[0]),
        ring_segment_mesh()[3] == reversed(ring_segment_mesh()[1]),
{
    assert(ring_segment_mesh().take(2) =~= seq![face(0, 1, 2), face(2, 1, 3)]);
    reveal_with_fuel(edge_count, 3);
}

/// The faces of a tetrahedron with corners 0 to 3 (the sky box).
pub fn tetrahedron_faces() -> (faces: Vec<Face>)
    ensures
        faces@ == tetrahedron_mesh(),
        hull_faces(faces@, tetrahedron_corners(), false),
        closed_surface(faces@, 4),
{
    let faces = vec![Face { a: 2, b: 1, c: 0 }, Face { a: 0, b: 1, c: 3 }, Face { a: 3, b: 2, c: 0 }, Face { a: 1, b: 2, c: 3 }];
    assert(faces@ =~= tetrahedron_mesh());
    proof {
        lemma_tetrahedron_on_hull();
        lemma_tetrahedron_closed();
    }
    faces
}

/// The faces of a square pyramid: base corners 0, 1, 2, 3 counter-clockwise seen from
/// above, starting at the (−1, −1) corner, apex 4.
pub fn pyramid_faces() -> (faces: Vec<Face>)
    ensures
        faces@ == pyramid_mesh(),
        hull_faces(faces@, pyramid_corners(), true),
        closed_surface(faces@, 5),
{
    let faces = vec![Face { a: 0, b: 1, c: 4 }, Face { a: 1, b: 2, c: 4 }, Face { a: 2, b: 3, c: 4 }, Face { a: 3, b: 0, c: 4 }, Face { a: 2, b: 1, c: 0 }, Face { a: 0, b: 3, c: 2 }];
    assert(faces@ =~= pyramid_mesh());
    proof {
        lemma_pyramid_on_hull();
        lemma_pyramid_closed();
    }
    faces
}

/// The faces of an icosahedron, corners 0 to 11 at `ur, dr, ul, dl, rf, lf, rb, lb, fu, bu,
/// fd, bd`: `(±1, 0, ±φ)`, `(±φ, ±1, 0)`, `(0, ±φ, ±1)`.
pub fn icosahedron_faces() -> (faces: Vec<Face>)
    ensures
        faces@ == icosahedron_mesh(),
        hull_faces(faces@, icosahedron_corners(), true),
        closed_surface(faces@, 12),
{
    let faces = vec![Face { a: 2, b: 0, c: 8 }, Face { a: 0, b: 2, c: 9 }, Face { a: 3, b: 1, c: 11 }, Face { a: 1, b: 3, c: 10 }, Face { a: 6, b: 4, c: 0 }, Face { a: 4, b: 6, c: 1 }, Face { a: 7, b: 5, c: 3 }, Face { a: 5, b: 7, c: 2 }, Face { a: 10, b: 8, c: 4 }, Face { a: 8, b: 10, c: 5 }, Face { a: 11, b: 9, c: 7 }, Face { a: 9, b: 11, c: 6 }, Face { a: 8, b: 5, c: 2 }, Face { a: 8, b: 0, c: 4 }, Face { a: 10, b: 3, c: 5 }, Face { a: 10, b: 4, c: 1 }, Face { a: 9, b: 2, c: 7 }, Face { a: 9, b: 6, c: 0 }, Face { a: 11, b: 7, c: 3 }, Face { a: 11, b: 1, c: 6 }];
    assert(faces@ =~= icosahedron_mesh());
    proof {
        lemma_icosahedron_on_hull();
        lemma_icosahedron_closed();
    }
    faces
}

/// The faces of a box, corner `4z + 2y + x` at `(±x, ±y, ±z)`.
pub fn box_faces() -> (faces: Vec<Face>)
    ensures
        faces@ == box_mesh(),
        hull_faces(faces@, box_corners(), true),
        closed_surface(faces@, 8),
{
    let faces = vec![Face { a: 1, b: 0, c: 2 }, Face { a: 2, b: 3, c: 1 }, Face { a: 4, b: 5, c: 7 }, Face { a: 7, b: 6, c: 4 }, Face { a: 0, b: 1, c: 5 }, Face { a: 5, b: 4, c: 0 }, Face { a: 3, b: 2, c: 6 }, Face { a: 6, b: 7, c: 3 }, Face { a: 2, b: 0, c: 4 }, Face { a: 4, b: 6, c: 2 }, Face { a: 1, b: 3, c: 7 }, Face { a: 7, b: 5, c: 1 }];
    assert(faces@ =~= box_mesh());
    proof {
        lemma_box_on_hull();
        lemma_box_closed();
    }
    faces
}

/// The faces of a square with corners 0, 1, 2, 3 counter-clockwise seen from above (the
/// ground).
pub fn quad_faces() -> (faces: Vec<Face>)
    ensures
        faces@ == quad_mesh(),
        facing_up(faces@, quad_corners()),
        oriented_surface(faces@, 4),
{
    let faces = vec![Face { a: 0, b: 1, c: 2 }, Face { a: 2, b: 3, c: 0 }];
    assert(faces@ =~= quad_mesh());
    proof {
        lemma_quad_faces_up();
        lemma_quad_oriented();
    }
    faces
}

/// The faces of a mountain: base corners 0 to 3 counter-clockwise from the (−1, −1)
/// corner, ridge points 4 to 7 between corners 0–1, 1–2, 2–3 and 3–0, peak 8.
pub fn mountain_faces() -> (faces: Vec<Face>)
    ensures
        faces@ == mountain_mesh(),
        hull_faces(faces@, mountain_corners(), true),
        oriented_surface(faces@, 9),
{
    let faces = vec![Face { a: 0, b: 4, c: 8 }, Face { a: 4, b: 1, c: 8 }, Face { a: 1, b: 5, c: 8 }, Face { a: 5, b: 2, c: 8 }, Face { a: 2, b: 6, c: 8 }, Face { a: 6, b: 3, c: 8 }, Face { a: 3, b: 7, c: 8 }, Face { a: 7, b: 0, c: 8 }, Face { a: 2, b: 1, c: 0 }, Face { a: 0, b: 3, c: 2 }];
    assert(faces@ =~= mountain_mesh());
    proof {
        lemma_mountain_on_hull();
        lemma_mountain_oriented();
    }
    faces
}

/// The faces of a volcano: base corners 0 to 3 and crater rim corners 4 to 7, each
/// counter-clockwise from the (−1, −1) side; the first eight faces are the slopes, the
/// last two the lava pool.
pub fn volcano_faces() -> (faces: Vec<Face>)
    ensures
        faces@ == volcano_mesh(),
        hull_faces(faces@, volcano_corners(), true),
        oriented_surface(faces@, 8),
{
    let faces = vec![Face { a: 0, b: 1, c: 5 }, Face { a: 0, b: 5, c: 4 }, Face { a: 1, b: 2, c: 6 }, Face { a: 1, b: 6, c: 5 }, Face { a: 2, b: 3, c: 7 }, Face { a: 2, b: 7, c: 6 }, Face { a: 3, b: 0, c: 4 }, Face { a: 3, b: 4, c: 7 }, Face { a: 4, b: 5, c: 6 }, Face { a: 4, b: 6, c: 7 }];
    assert(faces@ =~= volcano_mesh());
    proof {
        lemma_volcano_on_hull();
        lemma_volcano_oriented();
    }
    faces
}

/// The faces of a tent: floor corners 0 to 3 counter-clockwise from the (−1, −1) corner,
/// ridge ends 4 (west) and 5 (east).
pub fn tent_faces() -> (faces: Vec<Face>)
    ensures
        faces@ == tent_mesh(),
        hull_faces(faces@, tent_corners(), true),
        oriented_surface(faces@, 6),
{
    let faces = vec![Face { a: 0, b: 1, c: 5 }, Face { a: 0, b: 5, c: 4 }, Face { a: 3, b: 4, c: 5 }, Face { a: 3, b: 5, c: 2 }, Face { a: 0, b: 4, c: 3 }, Face { a: 1, b: 2, c: 5 }];
    assert(faces@ =~= tent_mesh());
    proof {
        lemma_tent_on_hull();
        lemma_tent_oriented();
    }
    faces
}

/// The faces of a blade of grass: foot 0, side corners 1 and 3, tip 2.
pub fn blade_faces() -> (faces: Vec<Face>)
    ensures
        faces@ == blade_mesh(),
        oriented_surface(faces@, 4),
{
    let faces = vec![Face { a: 0, b: 1, c: 2 }, Face { a: 0, b: 2, c: 3 }];
    assert(faces@ =~= blade_mesh());
    proof {
        lemma_blade_oriented();
    }
    faces
}

/// The faces of a fish: its body (nose 0, tail root 1, back 2, belly 3, left
/// flank 4, right flank 5), then its tail fin (tail root 1, fin tips 6 and 7).
pub fn fish_faces() -> (faces: Vec<Face>)
    ensures
        faces@ == fish_mesh(),
        closed_surface(faces@.drop_last(), 6),
        hull_faces(faces@.drop_last(), fish_body_corners(), true),
        oriented_surface(faces@, 8),
{
    let faces = vec![Face { a: 0, b: 5, c: 2 }, Face { a: 0, b: 2, c: 4 }, Face { a: 0, b: 3, c: 5 }, Face { a: 0, b: 4, c: 3 }, Face { a: 1, b: 2, c: 5 }, Face { a: 1, b: 4, c: 2 }, Face { a: 1, b: 5, c: 3 }, Face { a: 1, b: 3, c: 4 }, Face { a: 1, b: 7, c: 6 }];
    assert(faces@ =~= fish_mesh());
    proof {
        lemma_fish_body_on_hull();
        lemma_fish_shape();
        assert(faces@.drop_last() =~= fish_body_mesh());
    }
    faces
}

/// The faces of one segment of a ring (inner corners 0, 1, outer corners 2, 3):
/// its upper side, then the same triangles turned round for its lower side.
pub fn ring_segment_faces() -> (faces: Vec<Face>)
    ensures
        faces@ == ring_segment_mesh(),
        oriented_surface(faces@.take(2), 4),
        faces@[2] == reversed(faces@[0]),
        faces@[3] == reversed(faces@[1]),
{
    let faces = vec![Face { a: 0, b: 1, c: 2 }, Face { a: 2, b: 1, c: 3 }, Face { a: 0, b: 2, c: 1 }, Face { a: 2, b: 3, c: 1 }];
    assert(faces@ =~= ring_segment_mesh());
    proof {
        lemma_ring_segment_two_sided();
    }
    faces
}

/// The corners of the square pyramid, in half units: base `(±2, ±2, 0)`
/// counter-clockwise from `(−2, −2, 0)`, apex `(0, 0, 3)`.
pub open spec fn pyramid_corners() -> Seq<Vec3> {
    seq![(-2int, -2int, 0int), (2int, -2int, 0int), (2int, 2int, 0int), (-2int, 2int, 0int), (0int, 0int, 3int)]
}

/// The corners of the icosahedron in millionths: `ur, dr, ul, dl` at
/// `(±1, 0, ±φ)`, `rf, lf, rb, lb` at `(±φ, ±1, 0)`, `fu, bu, fd, bd` at
/// `(0, ±φ, ±1)`, with φ = 1.618034.
pub open spec fn icosahedron_corners() -> Seq<Vec3> {
    seq![
        (1000000int, 0int, 1618034int), (1000000int, 0int, -1618034int),
        (-1000000int, 0int, 1618034int), (-1000000int, 0int, -1618034int),
        (1618034int, 1000000int, 0int), (-1618034int, 1000000int, 0int),
        (1618034int, -1000000int, 0int), (-1618034int, -1000000int, 0int),
        (0int, 1618034int, 1000000int), (0int, -1618034int, 1000000int),
        (0int, 1618034int, -1000000int), (0int, -1618034int, -1000000int)
    ]
}

/// The corners of the box: corner `4z + 2y + x` at `(±1, ±1, ±1)`, minus where
/// the bit is 0.
pub open spec fn box_corners() -> Seq<Vec3> {
    seq![
        (-1int, -1int, -1int), (1int, -1int, -1int), (-1int, 1int, -1int), (1int, 1int, -1int),
        (-1int, -1int, 1int), (1int, -1int, 1int), (-1int, 1int, 1int), (1int, 1int, 1int)
    ]
}

/// The corners of the sky tetrahedron, in hundreds of units.
pub open spec fn tetrahedron_corners() -> Seq<Vec3> {
    seq![(-1int, -1int, 1int), (-1int, 1int, -1int), (1int, -1int, -1int), (1int, 1int, 1int)]
}

/// The corners of the ground square.
pub open spec fn quad_corners() -> Seq<Vec3> {
    seq![(-1int, -1int, 0int), (1int, -1int, 0int), (1int, 1int, 0int), (-1int, 1int, 0int)]
}

/// The corners of the mountain, in tenths: base `(±10, ±10, 0)`, ridge points
/// at the middles of the sides raised to 3, peak `(0, 0, 15)`.
pub open spec fn mountain_corners() -> Seq<Vec3> {
    seq![
        (-10int, -10int, 0int), (10int, -10int, 0int), (10int, 10int, 0int), (-10int, 10int, 0int),
        (0int, -10int, 3int), (10int, 0int, 3int), (0int, 10int, 3int), (-10int, 0int, 3int),
        (0int, 0int, 15int)
    ]
}

/// The corners of the volcano, in tenths: base `(±10, ±10, 0)`, crater rim
/// `(±3, ±3, 12)`.
pub open spec fn volcano_corners() -> Seq<Vec3> {
    seq![
        (-10int, -10int, 0int), (10int, -10int, 0int), (10int, 10int, 0int), (-10int, 10int, 0int),
        (-3int, -3int, 12int), (3int, -3int, 12int), (3int, 3int, 12int), (-3int, 3int, 12int)
    ]
}

/// The corners of the tent, in half units: floor `(±2, ±2, 0)`, ridge ends
/// `(∓1, 0, 2)`.
pub open spec fn tent_corners() -> Seq<Vec3> {
    seq![
        (-2int, -2int, 0int), (2int, -2int, 0int), (2int, 2int, 0int), (-2int, 2int, 0int),
        (-1int, 0int, 2int), (1int, 0int, 2int)
    ]
}

/// The corners of a fish's body heading along x, in tenths: nose `(4, 0, 0)`,
/// tail root `(−4, 0, 0)`, back `(0, 0, 2)`, belly `(0, 0, −1)`, flanks
/// `(0, ∓1, 0)`.
pub open spec fn fish_body_corners() -> Seq<Vec3> {
    seq![(4int, 0int, 0int), (-4int, 0int, 0int), (0int, 0int, 2int), (0int, 0int, -1int), (0int, -1int, 0int), (0int, 1int, 0int)]
}

proof fn lemma_pyramid_checked()
    by (nonlinear_arith)
    ensures
        hull_checked(pyramid_mesh(), pyramid_corners(), true, 0),
{
    reveal_with_fuel(crate::geometry::hull_checked, 7);
    reveal_with_fuel(crate::geometry::all_on_side, 6);
}

/// Every face of the square pyramid is a face of the hull of its corners, facing out:
/// no corner lies in front of any face.
pub proof fn lemma_pyramid_on_hull()
    ensures
        hull_faces(pyramid_mesh(), pyramid_corners(), true),
{
    lemma_pyramid_checked();
    lemma_hull_checked(pyramid_mesh(), pyramid_corners(), true);
}

#[verifier::rlimit(100)]
proof fn lemma_icosahedron_checked()
    by (nonlinear_arith)
    ensures
        hull_checked(icosahedron_mesh(), icosahedron_corners(), true, 0),
{
    reveal_with_fuel(crate::geometry::hull_checked, 21);
    reveal_with_fuel(crate::geometry::all_on_side, 13);
}

/// Every face of the icosahedron is a face of the hull of its corners, facing out:
/// no corner lies in front of any face.
pub proof fn lemma_icosahedron_on_hull()
    ensures
        hull_faces(icosahedron_mesh(), icosahedron_corners(), true),
{
    lemma_icosahedron_checked();
    lemma_hull_checked(icosahedron_mesh(), icosahedron_corners(), true);
}

#[verifier::rlimit(100)]
proof fn lemma_box_checked()
    by (nonlinear_arith)
    ensures
        hull_checked(box_mesh(), box_corners(), true, 0),
{
    reveal_with_fuel(crate::geometry::hull_checked, 13);
    reveal_with_fuel(crate::geometry::all_on_side, 9);
}

/// Every face of the box is a face of the hull of its corners, facing out:
/// no corner lies in front of any face.
pub proof fn lemma_box_on_hull()
    ensures
        hull_faces(box_mesh(), box_corners(), true),
{
    lemma_box_checked();
    lemma_hull_checked(box_mesh(), box_corners(), true);
}

proof fn lemma_tetrahedron_checked()
    by (nonlinear_arith)
    ensures
        hull_checked(tetrahedron_mesh(), tetrahedron_corners(), false, 0),
{
    reveal_with_fuel(crate::geometry::hull_checked, 5);
    reveal_with_fuel(crate::geometry::all_on_side, 5);
}

/// Every face of the sky tetrahedron is a face of the hull of its corners, facing in
/// (the sky is seen from inside): no corner lies behind any face.
pub proof fn lemma_tetrahedron_on_hull()
    ensures
        hull_faces(tetrahedron_mesh(), tetrahedron_corners(), false),
{
    lemma_tetrahedron_checked();
    lemma_hull_checked(tetrahedron_mesh(), tetrahedron_corners(), false);
}

#[verifier::rlimit(100)]
proof fn lemma_mountain_checked()
    by (nonlinear_arith)
    ensures
        hull_checked(mountain_mesh(), mountain_corners(), true, 0),
{
    reveal_with_fuel(crate::geometry::hull_checked, 11);
    reveal_with_fuel(crate::geometry::all_on_side, 10);
}

/// Every face of the mountain is a face of the hull of its corners, facing out:
/// no corner lies in front of any face.
pub proof fn lemma_mountain_on_hull()
    ensures
        hull_faces(mountain_mesh(), mountain_corners(), true),
{
    lemma_mountain_checked();
    lemma_hull_checked(mountain_mesh(), mountain_corners(), true);
}

#[verifier::rlimit(100)]
proof fn lemma_volcano_checked()
    by (nonlinear_arith)
    ensures
        hull_checked(volcano_mesh(), volcano_corners(), true, 0),
{
    reveal_with_fuel(crate::geometry::hull_checked, 11);
    reveal_with_fuel(crate::geometry::all_on_side, 9);
}

/// Every face of the volcano is a face of the hull of its corners, facing out:
/// no corner lies in front of any face.
pub proof fn lemma_volcano_on_hull()
    ensures
        hull_faces(volcano_mesh(), volcano_corners(), true),
{
    lemma_volcano_checked();
    lemma_hull_checked(volcano_mesh(), volcano_corners(), true);
}

proof fn lemma_tent_checked()
    by (nonlinear_arith)
    ensures
        hull_checked(tent_mesh(), tent_corners(), true, 0),
{
    reveal_with_fuel(crate::geometry::hull_checked, 7);
    reveal_with_fuel(crate::geometry::all_on_side, 7);
}

/// Every face of the tent is a face of the hull of its corners, facing out:
/// no corner lies in front of any face.
pub proof fn lemma_tent_on_hull()
    ensures
        hull_faces(tent_mesh(), tent_corners(), true),
{
    lemma_tent_checked();
    lemma_hull_checked(tent_mesh(), tent_corners(), true);
}

proof fn lemma_fish_body_checked()
    by (nonlinear_arith)
    ensures
        hull_checked(fish_body_mesh(), fish_body_corners(), true, 0),
{
    reveal_with_fuel(crate::geometry::hull_checked, 9);
    reveal_with_fuel(crate::geometry::all_on_side, 7);
}

/// Every face of the fish's body is a face of the hull of its corners, facing out:
/// no corner lies in front of any face.
pub proof fn lemma_fish_body_on_hull()
    ensures
        hull_faces(fish_body_mesh(), fish_body_corners(), true),
{
    lemma_fish_body_checked();
    lemma_hull_checked(fish_body_mesh(), fish_body_corners(), true);
}

/// Both triangles of the ground square face up.
pub proof fn lemma_quad_faces_up()
    ensures
        facing_up(quad_mesh(), quad_corners()),
{
    let m = quad_mesh();
    let p = quad_corners();
    assert(crate::geometry::normal(p[0], p[1], p[2]).2 > 0) by (nonlinear_arith)
        requires
            p[0] == (-1int, -1int, 0int),
            p[1] == (1int, -1int, 0int),
            p[2] == (1int, 1int, 0int),
    ;
    assert(crate::geometry::normal(p[2], p[3], p[0]).2 > 0) by (nonlinear_arith)
        requires
            p[0] == (-1int, -1int, 0int),
            p[2] == (1int, 1int, 0int),
            p[3] == (-1int, 1int, 0int),
    ;
    assert forall|i: int| 0 <= i < m.len() implies crate::geometry::normal(
        crate::geometry::corner(p, (#[trigger] m[i]).a),
        crate::geometry::corner(p, m[i].b),
        crate::geometry::corner(p, m[i].c),
    ).2 > 0 by {
        assert(i == 0 || i == 1);
    }
}

} // verus!
