//! Splitting triangles into four, again and again, by the midpoints of their
//! edges. Each cell of the result is given by its corners' barycentric weights
//! over the corners of the triangle it came from.
use vstd::prelude::*;

verus! {

/// A point of a triangle with corners `v0`, `v1`, `v2`:
/// `(w0·v0 + w1·v1 + w2·v2) / d`, where the denominator `d` is `2^levels` and
/// shared by all the points of one subdivision.
#[derive(Clone, Copy, Debug, PartialEq, Eq, Structural)]
pub struct Point {
    pub w0: u64,
    pub w1: u64,
    pub w2: u64,
}

/// One triangle of a subdivision, by its three corners.
#[derive(Clone, Copy, Debug, PartialEq, Eq, Structural)]
pub struct Cell {
    pub c0: Point,
    pub c1: Point,
    pub c2: Point,
}

/// `2^l`.
pub open spec fn two_to(l: nat) -> nat
    decreases l,
{
    if l == 0 {
        1
    } else {
        2 * two_to((l - 1) as nat)
    }
}

/// `4^l`.
pub open spec fn four_to(l: nat) -> nat
    decreases l,
{
    if l == 0 {
        1
    } else {
        4 * four_to((l - 1) as nat)
    }
}

/// A corner of the triangle, counted at twice the denominator.
pub open spec fn doubled(p: Point) -> Point {
    Point { w0: (2 * p.w0) as u64, w1: (2 * p.w1) as u64, w2: (2 * p.w2) as u64 }
}

/// The midpoint of `p` and `q`, counted at twice the denominator.
pub open spec fn midpoint(p: Point, q: Point) -> Point {
    Point { w0: (p.w0 + q.w0) as u64, w1: (p.w1 + q.w1) as u64, w2: (p.w2 + q.w2) as u64 }
}

/// The four triangles that `c` splits into: one at each corner and the middle
/// one, in that order.
pub open spec fn children(c: Cell) -> Seq<Cell> {
    let m01 = midpoint(c.c0, c.c1);
    let m12 = midpoint(c.c1, c.c2);
    let m20 = midpoint(c.c2, c.c0);
    seq![
        Cell { c0: doubled(c.c0), c1: m01, c2: m20 },
        Cell { c0: doubled(c.c1), c1: m12, c2: m01 },
        Cell { c0: doubled(c.c2), c1: m20, c2: m12 },
        Cell { c0: m01, c1: m12, c2: m20 },
    ]
}

/// Every cell of `s` split in four, the children of each cell in place of it.
pub open spec fn refine(s: Seq<Cell>) -> Seq<Cell>
    decreases s.len(),
{
    if s.len() == 0 {
        s
    } else {
        refine(s.drop_last()) + children(s.last())
    }
}

/// The triangle itself, as a cell at denominator 1.
pub open spec fn whole() -> Cell {
    Cell {
        c0: Point { w0: 1, w1: 0, w2: 0 },
        c1: Point { w0: 0, w1: 1, w2: 0 },
        c2: Point { w0: 0, w1: 0, w2: 1 },
    }
}

/// The cells of a triangle split `levels` times over.
pub open spec fn subdivision(levels: nat) -> Seq<Cell>
    decreases levels,
{
    if levels == 0 {
        seq![whole()]
    } else {
        refine(subdivision((levels - 1) as nat))
    }
}

/// Every weight of `p` is at most `bound`.
pub open spec fn point_within(p: Point, bound: int) -> bool {
    p.w0 <= bound && p.w1 <= bound && p.w2 <= bound
}

pub open spec fn cell_within(c: Cell, bound: int) -> bool {
    point_within(c.c0, bound) && point_within(c.c1, bound) && point_within(c.c2, bound)
}

pub open spec fn all_within(s: Seq<Cell>, bound: int) -> bool {
    forall|i: int| 0 <= i < s.len() ==> cell_within(#[trigger] s[i], bound)
}

proof fn lemma_two_to_grows(l: nat, m: nat)
    requires
        l <= m,
    ensures
        1 <= two_to(l) <= two_to(m),
    decreases m,
{
    reveal_with_fuel(two_to, 2);
    if l < m {
        lemma_two_to_grows(l, (m - 1) as nat);
    } else if l > 0 {
        lemma_two_to_grows((l - 1) as nat, (l - 1) as nat);
    }
}

proof fn lemma_two_to_bound(l: nat)
    requires
        l < 32,
    ensures
        1 <= two_to(l) <= 0x8000_0000,
        two_to(l + 1) == 2 * two_to(l),
{
    reveal_with_fuel(two_to, 32);
    assert(two_to(31) == 0x8000_0000);
    lemma_two_to_grows(l, 31);
}

proof fn lemma_refine_within(s: Seq<Cell>, bound: int)
    requires
        all_within(s, bound),
        0 <= bound <= 0x8000_0000,
    ensures
        all_within(refine(s), 2 * bound),
    decreases s.len(),
{
    if s.len() > 0 {
        let init = s.drop_last();
        assert(all_within(init, bound)) by {
            assert forall|i: int| 0 <= i < init.len() implies cell_within(
                #[trigger] init[i],
                bound,
            ) by {
                assert(init[i] == s[i]);
            }
        }
        lemma_refine_within(init, bound);
        assert(cell_within(s[s.len() - 1], bound));
        let r = refine(init);
        let k = children(s.last());
        assert forall|i: int| 0 <= i < (r + k).len() implies cell_within(
            #[trigger] (r + k)[i],
            2 * bound,
        ) by {
            if i < r.len() {
                assert((r + k)[i] == r[i]);
            } else {
                assert((r + k)[i] == k[i - r.len()]);
            }
        }
    }
}

/// The four cells that `cell` splits into, pushed onto `out`.
fn push_children(out: &mut Vec<Cell>, cell: Cell)
    requires
        cell_within(cell, 0x8000_0000),
    ensures
        final(out)@ == old(out)@ + children(cell),
{
    let m01 = Point {
        w0: cell.c0.w0 + cell.c1.w0,
        w1: cell.c0.w1 + cell.c1.w1,
        w2: cell.c0.w2 + cell.c1.w2,
    };
    let m12 = Point {
        w0: cell.c1.w0 + cell.c2.w0,
        w1: cell.c1.w1 + cell.c2.w1,
        w2: cell.c1.w2 + cell.c2.w2,
    };
    let m20 = Point {
        w0: cell.c2.w0 + cell.c0.w0,
        w1: cell.c2.w1 + cell.c0.w1,
        w2: cell.c2.w2 + cell.c0.w2,
    };
    let d0 = Point { w0: 2 * cell.c0.w0, w1: 2 * cell.c0.w1, w2: 2 * cell.c0.w2 };
    let d1 = Point { w0: 2 * cell.c1.w0, w1: 2 * cell.c1.w1, w2: 2 * cell.c1.w2 };
    let d2 = Point { w0: 2 * cell.c2.w0, w1: 2 * cell.c2.w1, w2: 2 * cell.c2.w2 };
    out.push(Cell { c0: d0, c1: m01, c2: m20 });
    out.push(Cell { c0: d1, c1: m12, c2: m01 });
    out.push(Cell { c0: d2, c1: m20, c2: m12 });
    out.push(Cell { c0: m01, c1: m12, c2: m20 });
    assert(final(out)@ =~= old(out)@ + children(cell));
}

/// The cells of a triangle split `levels` times: each round replaces every cell
/// by its four children (the three corner cells, then the middle one), in order,
/// so that there are `4^levels` cells at denominator `2^levels`.
pub fn subdivide(levels: usize) -> (cells: Vec<Cell>)
    requires
        levels < 32,
    ensures
        cells@ == subdivision(levels as nat),
{
    let mut current: Vec<Cell> = Vec::new();
    current.push(
        Cell {
            c0: Point { w0: 1, w1: 0, w2: 0 },
            c1: Point { w0: 0, w1: 1, w2: 0 },
            c2: Point { w0: 0, w1: 0, w2: 1 },
        },
    );
    proof {
        assert(current@ =~= seq![whole()]);
        reveal_with_fuel(two_to, 1);
    }
    let mut level: usize = 0;
    while level < levels
        invariant
            level <= levels < 32,
            current@ == subdivision(level as nat),
            all_within(current@, two_to(level as nat) as int),
        decreases levels - level,
    {
        proof {
            lemma_two_to_bound(level as nat);
        }
        let mut next: Vec<Cell> = Vec::new();
        let n = current.len();
        for i in 0..n
            invariant
                n == current.len(),
                level < 32,
                all_within(current@, two_to(level as nat) as int),
                two_to(level as nat) <= 0x8000_0000,
                next@ == refine(current@.subrange(0, i as int)),
        {
            proof {
                assert(current@.subrange(0, i + 1).drop_last() =~= current@.subrange(0, i as int));
                assert(cell_within(current@[i as int], two_to(level as nat) as int));
            }
            push_children(&mut next, current[i]);
        }
        proof {
            assert(current@.subrange(0, n as int) =~= current@);
            lemma_refine_within(current@, two_to(level as nat) as int);
        }
        current = next;
        level = level + 1;
    }
    current
}


/// The total weight of `p`: the denominator when `p` lies in the plane of the
/// triangle.
pub open spec fn weight_sum(p: Point) -> int {
    p.w0 + p.w1 + p.w2
}

/// A row of three weights.
pub type Row = (int, int, int);

/// The weights of `p`.
pub open spec fn row(p: Point) -> Row {
    (p.w0 as int, p.w1 as int, p.w2 as int)
}

pub open spec fn plus(a: Row, b: Row) -> Row {
    (a.0 + b.0, a.1 + b.1, a.2 + b.2)
}

pub open spec fn twice(a: Row) -> Row {
    (2 * a.0, 2 * a.1, 2 * a.2)
}

/// The determinant of the matrix with rows `a`, `b`, `c`.
pub open spec fn det(a: Row, b: Row, c: Row) -> int {
    a.0 * (b.1 * c.2 - b.2 * c.1) - a.1 * (b.0 * c.2 - b.2 * c.0) + a.2 * (b.0 * c.1 - b.1 * c.0)
}

/// The determinant of the weights of `c`'s corners: `d³` times the ratio of the
/// signed area of `c` to that of the triangle, at denominator `d`.
pub open spec fn cell_det(c: Cell) -> int {
    det(row(c.c0), row(c.c1), row(c.c2))
}

/// A cell at denominator `d`: its corners are points of the triangle (their
/// weights add up to `d`), and its signed area is `d / d³` of the triangle's.
pub open spec fn shaped(c: Cell, d: int) -> bool {
    &&& cell_within(c, d)
    &&& weight_sum(c.c0) == d
    &&& weight_sum(c.c1) == d
    &&& weight_sum(c.c2) == d
    &&& cell_det(c) == d
}

proof fn lemma_det_add_first(a: Row, x: Row, b: Row, c: Row)
    ensures
        det(plus(a, x), b, c) == det(a, b, c) + det(x, b, c),
{
    vstd::arithmetic::mul::lemma_mul_is_distributive_add_other_way(b.1 * c.2 - b.2 * c.1, a.0, x.0);
    vstd::arithmetic::mul::lemma_mul_is_distributive_add_other_way(b.0 * c.2 - b.2 * c.0, a.1, x.1);
    vstd::arithmetic::mul::lemma_mul_is_distributive_add_other_way(b.0 * c.1 - b.1 * c.0, a.2, x.2);
}

proof fn lemma_det_twice_first(a: Row, b: Row, c: Row)
    ensures
        det(twice(a), b, c) == 2 * det(a, b, c),
{
    vstd::arithmetic::mul::lemma_mul_is_associative(2, a.0, b.1 * c.2 - b.2 * c.1);
    vstd::arithmetic::mul::lemma_mul_is_associative(2, a.1, b.0 * c.2 - b.2 * c.0);
    vstd::arithmetic::mul::lemma_mul_is_associative(2, a.2, b.0 * c.1 - b.1 * c.0);
}

proof fn lemma_det_repeated_last(x: Row, a: Row)
    ensures
        det(x, a, a) == 0,
{
    vstd::arithmetic::mul::lemma_mul_is_commutative(a.1, a.2);
    vstd::arithmetic::mul::lemma_mul_is_commutative(a.0, a.2);
    vstd::arithmetic::mul::lemma_mul_is_commutative(a.0, a.1);
}

proof fn lemma_det_rotate(a: Row, b: Row, c: Row)
    ensures
        det(a, b, c) == det(b, c, a),
{
    let (a0, a1, a2) = a;
    let (b0, b1, b2) = b;
    let (c0, c1, c2) = c;
    assert(det(a, b, c) == a0 * (b1 * c2) - a0 * (b2 * c1) - a1 * (b0 * c2) + a1 * (b2 * c0) + a2
        * (b0 * c1) - a2 * (b1 * c0)) by {
        vstd::arithmetic::mul::lemma_mul_is_distributive_sub(a0, b1 * c2, b2 * c1);
        vstd::arithmetic::mul::lemma_mul_is_distributive_sub(a1, b0 * c2, b2 * c0);
        vstd::arithmetic::mul::lemma_mul_is_distributive_sub(a2, b0 * c1, b1 * c0);
    }
    assert(det(b, c, a) == b0 * (c1 * a2) - b0 * (c2 * a1) - b1 * (c0 * a2) + b1 * (c2 * a0) + b2
        * (c0 * a1) - b2 * (c1 * a0)) by {
        vstd::arithmetic::mul::lemma_mul_is_distributive_sub(b0, c1 * a2, c2 * a1);
        vstd::arithmetic::mul::lemma_mul_is_distributive_sub(b1, c0 * a2, c2 * a0);
        vstd::arithmetic::mul::lemma_mul_is_distributive_sub(b2, c0 * a1, c1 * a0);
    }
    assert(a0 * (b1 * c2) == b1 * (c2 * a0)) by (nonlinear_arith);
    assert(a0 * (b2 * c1) == b2 * (c1 * a0)) by (nonlinear_arith);
    assert(a1 * (b0 * c2) == b0 * (c2 * a1)) by (nonlinear_arith);
    assert(a1 * (b2 * c0) == b2 * (c0 * a1)) by (nonlinear_arith);
    assert(a2 * (b0 * c1) == b0 * (c1 * a2)) by (nonlinear_arith);
    assert(a2 * (b1 * c0) == b1 * (c0 * a2)) by (nonlinear_arith);
}

proof fn lemma_det_add_second(a: Row, b: Row, y: Row, c: Row)
    ensures
        det(a, plus(b, y), c) == det(a, b, c) + det(a, y, c),
{
    lemma_det_rotate(a, plus(b, y), c);
    lemma_det_add_first(b, y, c, a);
    lemma_det_rotate(a, b, c);
    lemma_det_rotate(a, y, c);
}

proof fn lemma_det_add_third(a: Row, b: Row, c: Row, z: Row)
    ensures
        det(a, b, plus(c, z)) == det(a, b, c) + det(a, b, z),
{
    lemma_det_rotate(a, b, plus(c, z));
    lemma_det_rotate(b, plus(c, z), a);
    lemma_det_add_first(c, z, a, b);
    lemma_det_rotate(a, b, c);
    lemma_det_rotate(b, c, a);
    lemma_det_rotate(a, b, z);
    lemma_det_rotate(b, z, a);
}

proof fn lemma_det_repeated(a: Row, b: Row)
    ensures
        det(a, a, b) == 0,
        det(a, b, a) == 0,
{
    lemma_det_rotate(a, a, b);
    lemma_det_rotate(a, b, a);
    lemma_det_repeated_last(b, a);
}

/// Each child of a cell has twice its determinant.
proof fn lemma_det_children(a: Row, b: Row, c: Row)
    ensures
        det(twice(a), plus(a, b), plus(c, a)) == 2 * det(a, b, c),
        det(twice(b), plus(b, c), plus(a, b)) == 2 * det(a, b, c),
        det(twice(c), plus(c, a), plus(b, c)) == 2 * det(a, b, c),
        det(plus(a, b), plus(b, c), plus(c, a)) == 2 * det(a, b, c),
{
    // corner cells
    lemma_det_twice_first(a, plus(a, b), plus(c, a));
    lemma_det_add_second(a, a, b, plus(c, a));
    lemma_det_repeated(a, plus(c, a));
    lemma_det_add_third(a, b, c, a);
    lemma_det_repeated(a, b);

    lemma_det_twice_first(b, plus(b, c), plus(a, b));
    lemma_det_add_second(b, b, c, plus(a, b));
    lemma_det_repeated(b, plus(a, b));
    lemma_det_add_third(b, c, a, b);
    lemma_det_repeated(b, c);
    lemma_det_rotate(a, b, c);

    lemma_det_twice_first(c, plus(c, a), plus(b, c));
    lemma_det_add_second(c, c, a, plus(b, c));
    lemma_det_repeated(c, plus(b, c));
    lemma_det_add_third(c, a, b, c);
    lemma_det_repeated(c, a);
    lemma_det_rotate(b, c, a);

    // middle cell
    lemma_det_add_first(a, b, plus(b, c), plus(c, a));
    lemma_det_add_second(a, b, c, plus(c, a));
    lemma_det_add_second(b, b, c, plus(c, a));
    lemma_det_add_third(a, b, c, a);
    lemma_det_add_third(a, c, c, a);
    lemma_det_add_third(b, c, c, a);
    lemma_det_repeated(b, plus(c, a));
    lemma_det_repeated(a, c);
    lemma_det_repeated(c, a);
    lemma_det_repeated_last(a, c);
    lemma_det_repeated_last(b, c);
}

proof fn lemma_children_shaped(c: Cell, d: int)
    requires
        shaped(c, d),
        0 <= d <= 0x8000_0000,
    ensures
        forall|k: int| 0 <= k < 4 ==> shaped(#[trigger] children(c)[k], 2 * d),
{
    let (a, b, e) = (row(c.c0), row(c.c1), row(c.c2));
    lemma_det_children(a, b, e);
    assert(row(doubled(c.c0)) == twice(a));
    assert(row(doubled(c.c1)) == twice(b));
    assert(row(doubled(c.c2)) == twice(e));
    assert(row(midpoint(c.c0, c.c1)) == plus(a, b));
    assert(row(midpoint(c.c1, c.c2)) == plus(b, e));
    assert(row(midpoint(c.c2, c.c0)) == plus(e, a));
}

proof fn lemma_refine_shaped(s: Seq<Cell>, d: int)
    requires
        forall|i: int| 0 <= i < s.len() ==> shaped(#[trigger] s[i], d),
        0 <= d <= 0x8000_0000,
    ensures
        forall|i: int| 0 <= i < refine(s).len() ==> shaped(#[trigger] refine(s)[i], 2 * d),
        refine(s).len() == 4 * s.len(),
    decreases s.len(),
{
    if s.len() > 0 {
        let init = s.drop_last();
        assert forall|i: int| 0 <= i < init.len() implies shaped(#[trigger] init[i], d) by {
            assert(init[i] == s[i]);
        }
        lemma_refine_shaped(init, d);
        assert(shaped(s[s.len() - 1], d));
        lemma_children_shaped(s.last(), d);
        let r = refine(init);
        let k = children(s.last());
        assert forall|i: int| 0 <= i < (r + k).len() implies shaped(#[trigger] (r + k)[i], 2 * d) by {
            if i < r.len() {
                assert((r + k)[i] == r[i]);
            } else {
                assert((r + k)[i] == k[i - r.len()]);
            }
        }
    }
}

/// Splitting a triangle `levels` times gives `4^levels` cells, whose corners are
/// points of the triangle (their weights add up to the denominator `2^levels`),
/// and which all keep the triangle's orientation and have a `4^levels`-th of
/// its area: the determinant of each cell's weights is `2^levels`.
pub proof fn lemma_subdivision_tiles(levels: nat)
    requires
        levels < 32,
    ensures
        subdivision(levels).len() == four_to(levels),
        forall|i: int|
            0 <= i < subdivision(levels).len() ==> shaped(
                #[trigger] subdivision(levels)[i],
                two_to(levels) as int,
            ),
    decreases levels,
{
    if levels == 0 {
        reveal_with_fuel(two_to, 1);
        reveal_with_fuel(four_to, 1);
        assert(cell_det(whole()) == 1) by (nonlinear_arith);
    } else {
        let prev = (levels - 1) as nat;
        lemma_subdivision_tiles(prev);
        lemma_two_to_bound(prev);
        lemma_refine_shaped(subdivision(prev), two_to(prev) as int);
    }
}


/// `r` scaled by `k`.
pub open spec fn scaled(k: int, r: Row) -> Row {
    (k * r.0, k * r.1, k * r.2)
}

/// The weights over the triangle of the point with weights `w` over the
/// corners of cell `c`.
pub open spec fn embed(c: Cell, w: Row) -> Row {
    plus(plus(scaled(w.0, row(c.c0)), scaled(w.1, row(c.c1))), scaled(w.2, row(c.c2)))
}

/// The weights of the three corners of `c`.
pub open spec fn cell_rows(c: Cell) -> (Row, Row, Row) {
    (row(c.c0), row(c.c1), row(c.c2))
}

/// Cell `inner` of a subdivision of a triangle, placed in cell `outer` of
/// another: the weights of its corners over the outer triangle, at the product
/// of the two denominators.
pub open spec fn nest(outer: Cell, inner: Cell) -> (Row, Row, Row) {
    (embed(outer, row(inner.c0)), embed(outer, row(inner.c1)), embed(outer, row(inner.c2)))
}

proof fn lemma_embed_twice(c: Cell, w: Row)
    ensures
        embed(c, twice(w)) == twice(embed(c, w)),
{
    broadcast use vstd::arithmetic::mul::lemma_mul_is_associative;

}

proof fn lemma_embed_plus(c: Cell, w: Row, v: Row)
    ensures
        embed(c, plus(w, v)) == plus(embed(c, w), embed(c, v)),
{
    broadcast use vstd::arithmetic::mul::lemma_mul_is_distributive_add_other_way;

}

proof fn lemma_embed_corners(c: Cell)
    ensures
        nest(c, whole()) == cell_rows(c),
{
    broadcast use vstd::arithmetic::mul::group_mul_basics;

}

proof fn lemma_refine_len(s: Seq<Cell>)
    ensures
        refine(s).len() == 4 * s.len(),
    decreases s.len(),
{
    if s.len() > 0 {
        lemma_refine_len(s.drop_last());
    }
}

proof fn lemma_refine_at(s: Seq<Cell>, i: int, m: int)
    requires
        0 <= i < s.len(),
        0 <= m < 4,
    ensures
        refine(s).len() == 4 * s.len(),
        refine(s)[4 * i + m] == children(s[i])[m],
    decreases s.len(),
{
    lemma_refine_len(s);
    let init = s.drop_last();
    lemma_refine_len(init);
    if i < s.len() - 1 {
        lemma_refine_at(init, i, m);
        assert(init[i] == s[i]);
    }
}

/// Splitting commutes with placing: the children of a cell placed in `outer`
/// are the children of the inner cell, placed in `outer`.
proof fn lemma_children_nest(outer: Cell, inner: Cell, e: Cell, m: int)
    requires
        cell_rows(e) == nest(outer, inner),
        cell_within(e, 0x8000_0000),
        cell_within(inner, 0x8000_0000),
        0 <= m < 4,
    ensures
        cell_rows(children(e)[m]) == nest(outer, children(inner)[m]),
{
    let (i0, i1, i2) = (row(inner.c0), row(inner.c1), row(inner.c2));
    lemma_embed_twice(outer, i0);
    lemma_embed_twice(outer, i1);
    lemma_embed_twice(outer, i2);
    lemma_embed_plus(outer, i0, i1);
    lemma_embed_plus(outer, i1, i2);
    lemma_embed_plus(outer, i2, i0);
    assert(row(doubled(inner.c0)) == twice(i0));
    assert(row(doubled(inner.c1)) == twice(i1));
    assert(row(doubled(inner.c2)) == twice(i2));
    assert(row(midpoint(inner.c0, inner.c1)) == plus(i0, i1));
    assert(row(midpoint(inner.c1, inner.c2)) == plus(i1, i2));
    assert(row(midpoint(inner.c2, inner.c0)) == plus(i2, i0));
    let (e0, e1, e2) = (row(e.c0), row(e.c1), row(e.c2));
    assert(row(doubled(e.c0)) == twice(e0));
    assert(row(doubled(e.c1)) == twice(e1));
    assert(row(doubled(e.c2)) == twice(e2));
    assert(row(midpoint(e.c0, e.c1)) == plus(e0, e1));
    assert(row(midpoint(e.c1, e.c2)) == plus(e1, e2));
    assert(row(midpoint(e.c2, e.c0)) == plus(e2, e0));
}

proof fn lemma_four_to_adds(a: nat, b: nat)
    ensures
        four_to(a + b) == four_to(a) * four_to(b),
        four_to(b) >= 1,
    decreases b,
{
    reveal_with_fuel(four_to, 2);
    let x = four_to(a);
    if b > 0 {
        lemma_four_to_adds(a, (b - 1) as nat);
        let y = four_to((b - 1) as nat);
        assert(four_to(a + b) == 4 * four_to((a + b - 1) as nat));
        assert((a + b - 1) as nat == a + (b - 1) as nat);
        assert(four_to(b) == 4 * y);
        assert(4 * (x * y) == x * (4 * y)) by (nonlinear_arith);
    } else {
        assert(a + b == a);
        assert(x * 1 == x);
    }
}

/// Splitting a triangle `a + b` times is splitting it `a` times and then each
/// cell `b` times: cell `k·n + j` of the finer subdivision, where `n` is the
/// number of cells of a `b`-fold split, is cell `j` of a `b`-fold split placed in
/// cell `k` of the `a`-fold one. The cells of each coarse cell come in one block,
/// in order.
pub proof fn lemma_subdivision_composes(a: nat, b: nat)
    requires
        a + b < 32,
    ensures
        subdivision(a + b).len() == subdivision(a).len() * subdivision(b).len(),
        forall|k: int, j: int|
            #![trigger subdivision(a)[k], subdivision(b)[j]]
            0 <= k < subdivision(a).len() && 0 <= j < subdivision(b).len() ==> cell_rows(
                subdivision(a + b)[k * subdivision(b).len() + j],
            ) == nest(subdivision(a)[k], subdivision(b)[j]),
    decreases b,
{
    lemma_subdivision_tiles(a);
    lemma_subdivision_tiles(b);
    lemma_subdivision_tiles(a + b);
    lemma_four_to_adds(a, b);
    if b == 0 {
        assert(a + b == a);
        reveal_with_fuel(four_to, 1);
        assert forall|k: int, j: int|
            #![trigger subdivision(a)[k], subdivision(b)[j]]
            0 <= k < subdivision(a).len() && 0 <= j < subdivision(b).len() implies cell_rows(
                subdivision(a + b)[k * subdivision(b).len() + j],
            ) == nest(subdivision(a)[k], subdivision(b)[j]) by {
            assert(j == 0);
            assert(subdivision(b)[j] == whole());
            lemma_embed_corners(subdivision(a)[k]);
        }
    } else {
        let pb = (b - 1) as nat;
        let ab = (a + pb) as nat;
        lemma_subdivision_composes(a, pb);
        lemma_subdivision_tiles(pb);
        lemma_subdivision_tiles(ab);
        lemma_two_to_bound(ab);
        lemma_two_to_bound(pb);
        lemma_two_to_bound(b);
        lemma_four_to_adds(a, pb);
        reveal_with_fuel(four_to, 2);
        assert((a + b) as nat - 1 == ab);
        assert(subdivision(a + b) == refine(subdivision(ab)));
        assert(subdivision(b) == refine(subdivision(pb)));
        let fa = four_to(a);
        let fp = four_to(pb);
        assert forall|k: int, j: int|
            #![trigger subdivision(a)[k], subdivision(b)[j]]
            0 <= k < subdivision(a).len() && 0 <= j < subdivision(b).len() implies cell_rows(
                subdivision(a + b)[k * subdivision(b).len() + j],
            ) == nest(subdivision(a)[k], subdivision(b)[j]) by {
            let jj = j / 4;
            let m = j % 4;
            assert(j == 4 * jj + m && 0 <= m < 4 && 0 <= jj < fp) by (nonlinear_arith)
                requires
                    0 <= j < 4 * fp,
                    jj == j / 4,
                    m == j % 4,
            ;
            let i = k * fp + jj;
            assert(k * (4 * fp) + j == 4 * i + m && 0 <= i < fa * fp) by (nonlinear_arith)
                requires
                    0 <= k < fa,
                    0 <= jj < fp,
                    j == 4 * jj + m,
                    i == k * fp + jj,
            ;
            lemma_refine_at(subdivision(ab), i, m);
            lemma_refine_at(subdivision(pb), jj, m);
            assert(subdivision(a)[k] == subdivision(a)[k]);
            assert(cell_rows(subdivision(ab)[i]) == nest(subdivision(a)[k], subdivision(pb)[jj]));
            assert(shaped(subdivision(ab)[i], two_to(ab) as int));
            assert(shaped(subdivision(pb)[jj], two_to(pb) as int));
            lemma_children_nest(subdivision(a)[k], subdivision(pb)[jj], subdivision(ab)[i], m);
        }
    }
}


/// Every parent of `parents` split `levels` times: for each parent in order,
/// the parent with each cell of the split, in order.
pub open spec fn split_all<T>(parents: Seq<T>, levels: nat) -> Seq<(T, Cell)>
    decreases parents.len(),
{
    if parents.len() == 0 {
        Seq::empty()
    } else {
        split_all(parents.drop_last(), levels) + subdivision(levels).map_values(
            |c: Cell| (parents.last(), c),
        )
    }
}

/// Every triangle of `parents` split `levels` times: each parent's cells, as
/// `subdivide` gives them, paired with the parent, one parent after another.
pub fn split_each<T: Copy>(parents: &Vec<T>, levels: usize) -> (pieces: Vec<(T, Cell)>)
    requires
        levels < 32,
    ensures
        pieces@ == split_all(parents@, levels as nat),
{
    let cells = subdivide(levels);
    let mut pieces: Vec<(T, Cell)> = Vec::new();
    let n = parents.len();
    for i in 0..n
        invariant
            n == parents.len(),
            cells@ == subdivision(levels as nat),
            pieces@ == split_all(parents@.subrange(0, i as int), levels as nat),
    {
        let parent = parents[i];
        let ghost before = pieces@;
        let m = cells.len();
        for j in 0..m
            invariant
                m == cells.len(),
                pieces@ == before + cells@.subrange(0, j as int).map_values(
                    |c: Cell| (parent, c),
                ),
        {
            pieces.push((parent, cells[j]));
            assert(pieces@ =~= before + cells@.subrange(0, j + 1).map_values(
                |c: Cell| (parent, c),
            ));
        }
        proof {
            assert(cells@.subrange(0, m as int) =~= cells@);
            let next = parents@.subrange(0, i + 1);
            assert(next.drop_last() =~= parents@.subrange(0, i as int));
            assert(next.last() == parent);
        }
    }
    proof {
        assert(parents@.subrange(0, n as int) =~= parents@);
    }
    pieces
}

proof fn lemma_split_all_len<T>(parents: Seq<T>, levels: nat)
    requires
        levels < 32,
    ensures
        split_all(parents, levels).len() == parents.len() * four_to(levels),
    decreases parents.len(),
{
    lemma_subdivision_tiles(levels);
    if parents.len() > 0 {
        lemma_split_all_len(parents.drop_last(), levels);
        let n = parents.len() - 1;
        let f = four_to(levels);
        assert(n * f + f == (n + 1) * f) by (nonlinear_arith);
    }
}

/// The cells of each parent stay together, in order: piece `i·4^levels + j` of
/// the split is parent `i` with cell `j` of the split.
pub proof fn lemma_split_all_blocks<T>(parents: Seq<T>, levels: nat, i: int, j: int)
    requires
        levels < 32,
        0 <= i < parents.len(),
        0 <= j < four_to(levels),
    ensures
        split_all(parents, levels).len() == parents.len() * four_to(levels),
        split_all(parents, levels)[i * four_to(levels) + j] == (parents[i], subdivision(levels)[j]),
    decreases parents.len(),
{
    lemma_split_all_len(parents, levels);
    lemma_subdivision_tiles(levels);
    let init = parents.drop_last();
    let n = init.len();
    let f = four_to(levels);
    lemma_split_all_len(init, levels);
    let head = split_all(init, levels);
    let tail = subdivision(levels).map_values(|c: Cell| (parents.last(), c));
    if i < n {
        lemma_split_all_blocks(init, levels, i, j);
        assert(i * f + j < n * f) by (nonlinear_arith)
            requires
                0 <= i < n,
                0 <= j < f,
        ;
        assert(init[i] == parents[i]);
        assert((head + tail)[i * f + j] == head[i * f + j]);
    } else {
        assert(i * f == n * f);
        assert((head + tail)[i * f + j] == tail[j]);
    }
}

/// Splitting two lists of parents one after the other is splitting the two
/// lists separately and putting the pieces one after the other.
pub proof fn lemma_split_all_append<T>(a: Seq<T>, b: Seq<T>, levels: nat)
    ensures
        split_all(a + b, levels) == split_all(a, levels) + split_all(b, levels),
    decreases b.len(),
{
    if b.len() == 0 {
        assert(a + b =~= a);
        assert(split_all(a, levels) + split_all(b, levels) =~= split_all(a, levels));
    } else {
        lemma_split_all_append(a, b.drop_last(), levels);
        assert((a + b).drop_last() =~= a + b.drop_last());
        assert((a + b).last() == b.last());
        let tail = subdivision(levels).map_values(|c: Cell| (b.last(), c));
        assert(split_all(a, levels) + split_all(b.drop_last(), levels) + tail =~= split_all(
            a,
            levels,
        ) + (split_all(b.drop_last(), levels) + tail));
    }
}


/// How a cell splits: child `k` of the first three holds the cell's corner `k`
/// (at twice the denominator), the corner children come in the order of the
/// cell's corners, and the middle child, last, shares one edge with each corner
/// child, run the other way.
pub proof fn lemma_children_layout(c: Cell)
    requires
        cell_within(c, 0x8000_0000),
    ensures
        children(c).len() == 4,
        row(children(c)[0].c0) == twice(row(c.c0)),
        row(children(c)[1].c0) == twice(row(c.c1)),
        row(children(c)[2].c0) == twice(row(c.c2)),
        row(children(c)[0].c1) == plus(row(c.c0), row(c.c1)),
        row(children(c)[0].c2) == plus(row(c.c2), row(c.c0)),
        children(c)[0].c1 == children(c)[3].c0 && children(c)[0].c2 == children(c)[3].c2,
        children(c)[1].c1 == children(c)[3].c1 && children(c)[1].c2 == children(c)[3].c0,
        children(c)[2].c1 == children(c)[3].c2 && children(c)[2].c2 == children(c)[3].c1,
{
}

} // verus!
