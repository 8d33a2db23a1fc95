use knotted_portal::subdivision::{subdivide, Cell, Point};

fn p(w0: u64, w1: u64, w2: u64) -> Point {
    Point { w0, w1, w2 }
}

fn det(c: &Cell) -> i128 {
    let r = |q: Point| [q.w0 as i128, q.w1 as i128, q.w2 as i128];
    let (a, b, e) = (r(c.c0), r(c.c1), r(c.c2));
    a[0] * (b[1] * e[2] - b[2] * e[1]) - a[1] * (b[0] * e[2] - b[2] * e[0]) + a[2] * (b[0] * e[1] - b[1] * e[0])
}

#[test]
fn no_split_keeps_the_triangle() {
    let cells = subdivide(0);
    assert_eq!(cells, vec![Cell { c0: p(1, 0, 0), c1: p(0, 1, 0), c2: p(0, 0, 1) }]);
}

#[test]
fn one_split_gives_corner_cells_then_middle() {
    let cells = subdivide(1);
    let m01 = p(1, 1, 0);
    let m12 = p(0, 1, 1);
    let m20 = p(1, 0, 1);
    assert_eq!(
        cells,
        vec![
            Cell { c0: p(2, 0, 0), c1: m01, c2: m20 },
            Cell { c0: p(0, 2, 0), c1: m12, c2: m01 },
            Cell { c0: p(0, 0, 2), c1: m20, c2: m12 },
            Cell { c0: m01, c1: m12, c2: m20 },
        ]
    );
}

#[test]
fn second_split_refines_each_cell_in_place() {
    let cells = subdivide(2);
    assert_eq!(cells.len(), 16);
    // the first cell's corner child: corner 0 at weight 4, its neighbours at 3:1
    assert_eq!(cells[0], Cell { c0: p(4, 0, 0), c1: p(3, 1, 0), c2: p(3, 0, 1) });
    // the middle child of the middle cell
    assert_eq!(cells[15], Cell { c0: p(1, 2, 1), c1: p(1, 1, 2), c2: p(2, 1, 1) });
}

#[test]
fn five_splits_tile_the_triangle() {
    let cells = subdivide(5);
    assert_eq!(cells.len(), 1024);
    for c in &cells {
        for q in [c.c0, c.c1, c.c2] {
            assert_eq!(q.w0 + q.w1 + q.w2, 32);
        }
        assert_eq!(det(c), 32);
    }
}

/// The weights over the triangle of the point with weights `w` (at one
/// denominator) over the corners of cell `c` (at another).
fn embed(c: &Cell, w: Point) -> [u64; 3] {
    let corners = [c.c0, c.c1, c.c2];
    let weights = [w.w0, w.w1, w.w2];
    let mut out = [0u64; 3];
    for (corner, k) in corners.iter().zip(weights) {
        out[0] += k * corner.w0;
        out[1] += k * corner.w1;
        out[2] += k * corner.w2;
    }
    out
}

#[test]
fn splitting_twice_composes() {
    for (a, b) in [(1usize, 1usize), (1, 2), (2, 1), (0, 3), (3, 0)] {
        let coarse = subdivide(a);
        let fine = subdivide(b);
        let whole = subdivide(a + b);
        assert_eq!(whole.len(), coarse.len() * fine.len());
        for (k, outer) in coarse.iter().enumerate() {
            for (j, inner) in fine.iter().enumerate() {
                let cell = whole[k * fine.len() + j];
                let rows = |q: Point| [q.w0, q.w1, q.w2];
                assert_eq!(rows(cell.c0), embed(outer, inner.c0));
                assert_eq!(rows(cell.c1), embed(outer, inner.c1));
                assert_eq!(rows(cell.c2), embed(outer, inner.c2));
            }
        }
    }
}

#[test]
fn each_parent_keeps_its_block() {
    let parents = vec!['a', 'b', 'c'];
    let pieces = knotted_portal::subdivision::split_each(&parents, 2);
    let cells = subdivide(2);
    assert_eq!(pieces.len(), 3 * 16);
    for (i, &p) in parents.iter().enumerate() {
        for (j, &c) in cells.iter().enumerate() {
            assert_eq!(pieces[i * 16 + j], (p, c));
        }
    }
    let front = knotted_portal::subdivision::split_each(&vec!['a'], 2);
    let back = knotted_portal::subdivision::split_each(&vec!['b', 'c'], 2);
    let joined: Vec<(char, Cell)> = front.into_iter().chain(back).collect();
    assert_eq!(joined, pieces);
    assert!(knotted_portal::subdivision::split_each(&Vec::<u8>::new(), 3).is_empty());
}
