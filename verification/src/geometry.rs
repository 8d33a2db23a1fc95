//! Which way the triangles of a mesh face, on integer coordinates.
use vstd::prelude::*;

use crate::shapes::Face;

verus! {

/// A point of space, on an integer grid.
pub type Vec3 = (int, int, int);

pub open spec fn minus(p: Vec3, q: Vec3) -> Vec3 {
    (p.0 - q.0, p.1 - q.1, p.2 - q.2)
}

pub open spec fn cross(u: Vec3, v: Vec3) -> Vec3 {
    (u.1 * v.2 - u.2 * v.1, u.2 * v.0 - u.0 * v.2, u.0 * v.1 - u.1 * v.0)
}

pub open spec fn dot(u: Vec3, v: Vec3) -> int {
    u.0 * v.0 + u.1 * v.1 + u.2 * v.2
}

/// The normal of triangle `a`, `b`, `c`: it points to the side from which the
/// corners run counter-clockwise.
pub open spec fn normal(a: Vec3, b: Vec3, c: Vec3) -> Vec3 {
    cross(minus(b, a), minus(c, a))
}

/// Positive when `k` lies on the side of the plane of `a`, `b`, `c` that the
/// triangle faces, negative when behind it, zero when in the plane.
pub open spec fn orient(a: Vec3, b: Vec3, c: Vec3, k: Vec3) -> int {
    dot(normal(a, b, c), minus(k, a))
}

/// The corners of face `f` among `pts`.
pub open spec fn corner(pts: Seq<Vec3>, i: usize) -> Vec3 {
    pts[i as int]
}

/// Face `f` over `pts` is a true triangle (its normal is not zero) and every
/// point of `pts` lies behind its plane or in it (`outward`), or in front of it
/// or in it (otherwise).
pub open spec fn face_facing(f: Face, pts: Seq<Vec3>, outward: bool) -> bool {
    let (a, b, c) = (corner(pts, f.a), corner(pts, f.b), corner(pts, f.c));
    &&& normal(a, b, c) != (0int, 0int, 0int)
    &&& forall|k: int|
        0 <= k < pts.len() ==> if outward {
            orient(a, b, c, #[trigger] pts[k]) <= 0
        } else {
            orient(a, b, c, pts[k]) >= 0
        }
}

/// Every face of `faces` is a face of the convex hull of the corners `pts`,
/// facing away from it (`outward`) or into it (otherwise): each face is a true
/// triangle, and no corner lies on the side that it faces (or, facing in, on
/// the side behind it).
pub open spec fn hull_faces(faces: Seq<Face>, pts: Seq<Vec3>, outward: bool) -> bool {
    &&& forall|i: int|
        0 <= i < faces.len() ==> (#[trigger] faces[i]).a < pts.len() && faces[i].b < pts.len()
            && faces[i].c < pts.len()
    &&& forall|i: int| 0 <= i < faces.len() ==> face_facing(#[trigger] faces[i], pts, outward)
}

/// Every face of `faces` faces upwards: its normal has a positive height.
pub open spec fn facing_up(faces: Seq<Face>, pts: Seq<Vec3>) -> bool {
    &&& forall|i: int|
        0 <= i < faces.len() ==> (#[trigger] faces[i]).a < pts.len() && faces[i].b < pts.len()
            && faces[i].c < pts.len()
    &&& forall|i: int|
        0 <= i < faces.len() ==> normal(
            corner(pts, (#[trigger] faces[i]).a),
            corner(pts, faces[i].b),
            corner(pts, faces[i].c),
        ).2 > 0
}

/// The points of `pts` from index `k` on lie on the right side of triangle
/// `a`, `b`, `c`; checked one point after another.
pub open spec fn all_on_side(a: Vec3, b: Vec3, c: Vec3, pts: Seq<Vec3>, outward: bool, k: int) -> bool
    decreases pts.len() - k,
{
    if k < 0 || k >= pts.len() {
        true
    } else {
        (if outward {
            orient(a, b, c, pts[k]) <= 0
        } else {
            orient(a, b, c, pts[k]) >= 0
        }) && all_on_side(a, b, c, pts, outward, k + 1)
    }
}

/// Face `i` on: `hull_faces`, checked one face after another.
pub open spec fn hull_checked(faces: Seq<Face>, pts: Seq<Vec3>, outward: bool, i: int) -> bool
    decreases faces.len() - i,
{
    if i < 0 || i >= faces.len() {
        true
    } else {
        let f = faces[i];
        &&& f.a < pts.len()
        &&& f.b < pts.len()
        &&& f.c < pts.len()
        &&& normal(corner(pts, f.a), corner(pts, f.b), corner(pts, f.c)) != (0int, 0int, 0int)
        &&& all_on_side(corner(pts, f.a), corner(pts, f.b), corner(pts, f.c), pts, outward, 0)
        &&& hull_checked(faces, pts, outward, i + 1)
    }
}

proof fn lemma_all_on_side(a: Vec3, b: Vec3, c: Vec3, pts: Seq<Vec3>, outward: bool, j: int, k: int)
    requires
        all_on_side(a, b, c, pts, outward, j),
        0 <= j <= k < pts.len(),
    ensures
        if outward {
            orient(a, b, c, pts[k]) <= 0
        } else {
            orient(a, b, c, pts[k]) >= 0
        },
    decreases k - j,
{
    if j < k {
        lemma_all_on_side(a, b, c, pts, outward, j + 1, k);
    }
}

proof fn lemma_hull_checked_from(faces: Seq<Face>, pts: Seq<Vec3>, outward: bool, j: int, i: int)
    requires
        hull_checked(faces, pts, outward, j),
        0 <= j <= i < faces.len(),
    ensures
        faces[i].a < pts.len() && faces[i].b < pts.len() && faces[i].c < pts.len(),
        face_facing(faces[i], pts, outward),
    decreases i - j,
{
    if j < i {
        lemma_hull_checked_from(faces, pts, outward, j + 1, i);
    } else {
        let f = faces[i];
        assert forall|k: int| 0 <= k < pts.len() implies (if outward {
            orient(corner(pts, f.a), corner(pts, f.b), corner(pts, f.c), #[trigger] pts[k]) <= 0
        } else {
            orient(corner(pts, f.a), corner(pts, f.b), corner(pts, f.c), pts[k]) >= 0
        }) by {
            lemma_all_on_side(corner(pts, f.a), corner(pts, f.b), corner(pts, f.c), pts, outward, 0, k);
        }
    }
}

/// A mesh checked face by face has all its faces on the hull.
pub proof fn lemma_hull_checked(faces: Seq<Face>, pts: Seq<Vec3>, outward: bool)
    requires
        hull_checked(faces, pts, outward, 0),
    ensures
        hull_faces(faces, pts, outward),
{
    assert forall|i: int| 0 <= i < faces.len() implies face_facing(#[trigger] faces[i], pts, outward)
        && faces[i].a < pts.len() && faces[i].b < pts.len() && faces[i].c < pts.len() by {
        lemma_hull_checked_from(faces, pts, outward, 0, i);
    }
}

} // verus!
