//! One layer of a grid or of a pattern: a rectangle of states, stored row by row.
//!
//! The functions here are the same for every kind of state. They build and
//! transform layers, and test and narrow one layer against another.

use crate::element::{has_meet, is_leq, leq, meet, meets, same_state, Gcd, Mask};
use vstd::prelude::*;

verus! {

/// The rows of a layer, as sequences.
pub open spec fn rows_of<T>(v: Vec<Vec<T>>) -> Seq<Seq<T>> {
    Seq::new(v@.len(), |r: int| v@[r]@)
}

/// `a` has `rows` rows of `cols` items each.
pub open spec fn rect<T>(a: Seq<Seq<T>>, rows: nat, cols: nat) -> bool {
    &&& a.len() == rows
    &&& forall|r: int| 0 <= r < rows ==> (#[trigger] a[r]).len() == cols
}

/// A layer of `rows` by `cols` after a quarter turn: its last column becomes
/// the first row.
pub open spec fn turned<T>(a: Seq<Seq<T>>, rows: nat, cols: nat) -> Seq<Seq<T>> {
    Seq::new(cols, |r: int| Seq::new(rows, |c: int| a[c][cols - 1 - r]))
}

/// A layer with each of its rows reversed.
pub open spec fn mirrored<T>(a: Seq<Seq<T>>) -> Seq<Seq<T>> {
    Seq::new(a.len(), |r: int| Seq::new(a[r].len(), |c: int| a[r][a[r].len() - 1 - c]))
}

/// A layer with the order of its rows reversed.
pub open spec fn inverted<T>(a: Seq<Seq<T>>) -> Seq<Seq<T>> {
    Seq::new(a.len(), |r: int| a[a.len() - 1 - r])
}

/// A layer after a half turn: the order of the rows and each row are reversed.
pub open spec fn half_turned<T>(a: Seq<Seq<T>>) -> Seq<Seq<T>> {
    mirrored(inverted(a))
}

/// The layer `a`, of `rows` by `cols`, after a quarter turn.
pub fn rotated<T: Copy>(a: &Vec<Vec<T>>, rows: usize, cols: usize) -> (b: Vec<Vec<T>>)
    requires
        rect(rows_of(*a), rows as nat, cols as nat),
    ensures
        rows_of(b) == turned(rows_of(*a), rows as nat, cols as nat),
{
    let ghost src = rows_of(*a);
    let mut b: Vec<Vec<T>> = Vec::new();
    let mut r: usize = 0;
    while r < cols
        invariant
            r <= cols,
            src == rows_of(*a),
            rect(src, rows as nat, cols as nat),
            b@.len() == r,
            forall|i: int|
                0 <= i < r ==> (#[trigger] b@[i])@ == Seq::new(
                    rows as nat,
                    |c: int| src[c][cols - 1 - i],
                ),
        decreases cols - r,
    {
        let mut line: Vec<T> = Vec::new();
        let mut c: usize = 0;
        while c < rows
            invariant
                c <= rows,
                r < cols,
                src == rows_of(*a),
                rect(src, rows as nat, cols as nat),
                line@.len() == c,
                forall|j: int| 0 <= j < c ==> line@[j] == src[j][cols - 1 - r],
            decreases rows - c,
        {
            assert(src[c as int].len() == cols);
            line.push(a[c][cols - 1 - r]);
            c += 1;
        }
        assert(line@ =~= Seq::new(rows as nat, |c: int| src[c][cols - 1 - r]));
        b.push(line);
        r += 1;
    }
    assert(rows_of(b) =~= turned(src, rows as nat, cols as nat));
    b
}

/// The layer `a` with each of its rows reversed.
pub fn reversed_lr<T: Copy>(a: &Vec<Vec<T>>) -> (b: Vec<Vec<T>>)
    ensures
        rows_of(b) == mirrored(rows_of(*a)),
{
    let ghost src = rows_of(*a);
    let mut b: Vec<Vec<T>> = Vec::new();
    let mut r: usize = 0;
    while r < a.len()
        invariant
            r <= a.len(),
            src == rows_of(*a),
            b@.len() == r,
            forall|i: int| 0 <= i < r ==> (#[trigger] b@[i])@ == mirrored(src)[i],
        decreases a.len() - r,
    {
        let n = a[r].len();
        let mut line: Vec<T> = Vec::new();
        let mut c: usize = 0;
        while c < n
            invariant
                c <= n,
                r < a.len(),
                n == a[r as int].len(),
                src == rows_of(*a),
                line@.len() == c,
                forall|j: int| 0 <= j < c ==> line@[j] == src[r as int][n - 1 - j],
            decreases n - c,
        {
            line.push(a[r][n - 1 - c]);
            c += 1;
        }
        assert(line@ =~= mirrored(src)[r as int]);
        b.push(line);
        r += 1;
    }
    assert(rows_of(b) =~= mirrored(src));
    b
}

/// A copy of one row.
fn copied<T: Copy>(line: &Vec<T>) -> (out: Vec<T>)
    ensures
        out@ == line@,
{
    let mut out: Vec<T> = Vec::new();
    let mut c: usize = 0;
    while c < line.len()
        invariant
            c <= line.len(),
            out@.len() == c,
            forall|j: int| 0 <= j < c ==> out@[j] == line@[j],
        decreases line.len() - c,
    {
        out.push(line[c]);
        c += 1;
    }
    assert(out@ =~= line@);
    out
}

/// A copy of the layer `a`.
pub fn duplicate<T: Copy>(a: &Vec<Vec<T>>) -> (b: Vec<Vec<T>>)
    ensures
        rows_of(b) == rows_of(*a),
{
    let n = a.len();
    let mut b: Vec<Vec<T>> = Vec::new();
    let mut r: usize = 0;
    while r < n
        invariant
            r <= n,
            n == a.len(),
            b@.len() == r,
            forall|i: int| 0 <= i < r ==> (#[trigger] b@[i])@ == a@[i]@,
        decreases n - r,
    {
        let line = copied(&a[r]);
        b.push(line);
        r += 1;
    }
    assert(rows_of(b) =~= rows_of(*a));
    b
}

/// The layer `a` with the order of its rows reversed.
pub fn reversed_ud<T: Copy>(a: &Vec<Vec<T>>) -> (b: Vec<Vec<T>>)
    ensures
        rows_of(b) == inverted(rows_of(*a)),
{
    let ghost src = rows_of(*a);
    let n = a.len();
    let mut b: Vec<Vec<T>> = Vec::new();
    let mut r: usize = 0;
    while r < n
        invariant
            r <= n,
            n == a.len(),
            src == rows_of(*a),
            b@.len() == r,
            forall|i: int| 0 <= i < r ==> (#[trigger] b@[i])@ == src[n - 1 - i],
        decreases n - r,
    {
        let line = copied(&a[n - 1 - r]);
        b.push(line);
        r += 1;
    }
    assert(rows_of(b) =~= inverted(src));
    b
}

/// The layer `a` after a half turn.
pub fn rotated_180<T: Copy>(a: &Vec<Vec<T>>) -> (b: Vec<Vec<T>>)
    ensures
        rows_of(b) == half_turned(rows_of(*a)),
{
    let flipped = reversed_ud(a);
    reversed_lr(&flipped)
}

/// Whether (`r`, `c`) lies on the outer ring of a layer of `rows` by `cols`.
pub open spec fn on_ring(r: int, c: int, rows: nat, cols: nat) -> bool {
    r == 0 || r == rows - 1 || c == 0 || c == cols - 1
}

/// The layer of the given size that holds `edge` on its outer ring and
/// `inner` elsewhere.
pub open spec fn frame<T>(rows: nat, cols: nat, edge: T, inner: T) -> Seq<Seq<T>> {
    Seq::new(
        rows,
        |r: int|
            Seq::new(
                cols,
                |c: int|
                    if on_ring(r, c, rows, cols) {
                        edge
                    } else {
                        inner
                    },
            ),
    )
}

/// The layer that holds the `rows` by `cols` items of `flat`, taken row by
/// row, inside one ring of `edge`.
pub open spec fn padded<T>(flat: Seq<T>, rows: nat, cols: nat, edge: T) -> Seq<Seq<T>> {
    Seq::new(
        rows + 2,
        |r: int|
            Seq::new(
                cols + 2,
                |c: int|
                    if 1 <= r <= rows && 1 <= c <= cols {
                        flat[(r - 1) * cols + (c - 1)]
                    } else {
                        edge
                    },
            ),
    )
}

/// A layer of `rows` by `cols` with `edge` on its outer ring and `inner`
/// elsewhere.
pub fn framed<T: Copy>(rows: usize, cols: usize, edge: T, inner: T) -> (a: Vec<Vec<T>>)
    ensures
        rows_of(a) == frame(rows as nat, cols as nat, edge, inner),
{
    let ghost want = frame(rows as nat, cols as nat, edge, inner);
    let mut a: Vec<Vec<T>> = Vec::new();
    let mut r: usize = 0;
    while r < rows
        invariant
            r <= rows,
            want == frame(rows as nat, cols as nat, edge, inner),
            a@.len() == r,
            forall|i: int| 0 <= i < r ==> (#[trigger] a@[i])@ == want[i],
        decreases rows - r,
    {
        let mut line: Vec<T> = Vec::new();
        let mut c: usize = 0;
        while c < cols
            invariant
                c <= cols,
                r < rows,
                want == frame(rows as nat, cols as nat, edge, inner),
                line@.len() == c,
                forall|j: int| 0 <= j < c ==> line@[j] == want[r as int][j],
            decreases cols - c,
        {
            let x = if r == 0 || r == rows - 1 || c == 0 || c == cols - 1 {
                edge
            } else {
                inner
            };
            line.push(x);
            c += 1;
        }
        assert(line@ =~= want[r as int]);
        a.push(line);
        r += 1;
    }
    assert(rows_of(a) =~= want);
    a
}

/// The position of item (`r`, `c`) in a rectangle of `rows` by `cols` that is
/// stored row by row.
proof fn lemma_flat_index(r: int, c: int, rows: int, cols: int)
    requires
        0 <= r < rows,
        0 <= c < cols,
    ensures
        0 <= r * cols + c < rows * cols,
        r * cols + c + 1 <= rows * cols,
{
    assert(r * cols + cols <= rows * cols) by (nonlinear_arith)
        requires
            0 <= r < rows,
            0 <= cols,
    ;
    assert(0 <= r * cols) by (nonlinear_arith)
        requires
            0 <= r,
            0 <= cols,
    ;
}

/// The `rows` by `cols` items of `flat`, taken row by row, inside one ring of
/// `edge`.
pub fn pad<T: Copy>(flat: &Vec<T>, rows: usize, cols: usize, edge: T) -> (a: Vec<Vec<T>>)
    requires
        flat.len() == rows * cols,
        rows + 2 <= usize::MAX,
        cols + 2 <= usize::MAX,
    ensures
        rows_of(a) == padded(flat@, rows as nat, cols as nat, edge),
{
    let ghost want = padded(flat@, rows as nat, cols as nat, edge);
    let mut a: Vec<Vec<T>> = Vec::new();
    let mut r: usize = 0;
    while r < rows + 2
        invariant
            r <= rows + 2,
            flat.len() == rows * cols,
            rows + 2 <= usize::MAX,
            cols + 2 <= usize::MAX,
            want == padded(flat@, rows as nat, cols as nat, edge),
            a@.len() == r,
            forall|i: int| 0 <= i < r ==> (#[trigger] a@[i])@ == want[i],
        decreases rows + 2 - r,
    {
        let mut line: Vec<T> = Vec::new();
        let mut c: usize = 0;
        while c < cols + 2
            invariant
                c <= cols + 2,
                r < rows + 2,
                flat.len() == rows * cols,
                rows + 2 <= usize::MAX,
                cols + 2 <= usize::MAX,
                want == padded(flat@, rows as nat, cols as nat, edge),
                line@.len() == c,
                forall|j: int| 0 <= j < c ==> line@[j] == want[r as int][j],
            decreases cols + 2 - c,
        {
            let x = if 1 <= r && r <= rows && 1 <= c && c <= cols {
                proof {
                    lemma_flat_index(r - 1, c - 1, rows as int, cols as int);
                }
                flat[(r - 1) * cols + (c - 1)]
            } else {
                edge
            };
            line.push(x);
            c += 1;
        }
        assert(line@ =~= want[r as int]);
        a.push(line);
        r += 1;
    }
    assert(rows_of(a) =~= want);
    a
}

/// The part of `g` that starts at (`row`, `col`) and spans `rows` by `cols`
/// lies inside `g`.
pub open spec fn within<T>(g: Seq<Seq<T>>, row: int, col: int, rows: nat, cols: nat) -> bool {
    &&& 0 <= row
    &&& 0 <= col
    &&& row + rows <= g.len()
    &&& forall|i: int| row <= i < row + rows ==> col + cols <= (#[trigger] g[i]).len()
}

/// With the first item of `p` laid on (`row`, `col`) of `g`, every state of
/// `g` under `p` is at least as specific as the state of `p` above it.
pub open spec fn satisfies<T: Mask>(g: Seq<Seq<T>>, p: Seq<Seq<T>>, row: int, col: int) -> bool {
    forall|r: int, c: int|
        0 <= r < p.len() && 0 <= c < p[r].len() ==> leq(g[row + r][col + c], #[trigger] p[r][c])
}

/// With the first item of `p` laid on (`row`, `col`) of `g`, every state of
/// `g` under `p` has a meet with the state of `p` above it.
pub open spec fn consistent<T: Mask>(g: Seq<Seq<T>>, p: Seq<Seq<T>>, row: int, col: int) -> bool {
    forall|r: int, c: int|
        0 <= r < p.len() && 0 <= c < p[r].len() ==> meets(g[row + r][col + c], #[trigger] p[r][c])
}

/// The layer `g` with every state under `p` replaced by its meet with the
/// state of `p` above it, where the first item of `p` lies on (`row`, `col`).
pub open spec fn narrowed<T: Mask>(g: Seq<Seq<T>>, p: Seq<Seq<T>>, row: int, col: int) -> Seq<
    Seq<T>,
> {
    Seq::new(
        g.len(),
        |i: int|
            Seq::new(
                g[i].len(),
                |j: int|
                    if 0 <= i - row < p.len() && 0 <= j - col < p[i - row].len() {
                        meet(g[i][j], p[i - row][j - col])
                    } else {
                        g[i][j]
                    },
            ),
    )
}

/// The layer `a` has the size of `b`, and each of its states is at least as
/// specific as the state of `b` at the same place.
pub open spec fn refines<T: Mask>(a: Seq<Seq<T>>, b: Seq<Seq<T>>) -> bool {
    &&& a.len() == b.len()
    &&& forall|i: int| 0 <= i < a.len() ==> (#[trigger] a[i]).len() == b[i].len()
    &&& forall|i: int, j: int|
        0 <= i < a.len() && 0 <= j < a[i].len() ==> leq(#[trigger] a[i][j], b[i][j])
}

/// Whether the part of `g` under `p` satisfies `p`.
pub fn test_layer<T: Mask>(
    g: &Vec<Vec<T>>,
    p: &Vec<Vec<T>>,
    row: usize,
    col: usize,
    rows: usize,
    cols: usize,
) -> (ok: bool)
    requires
        rect(rows_of(*p), rows as nat, cols as nat),
        within(rows_of(*g), row as int, col as int, rows as nat, cols as nat),
    ensures
        ok == satisfies(rows_of(*g), rows_of(*p), row as int, col as int),
{
    let ghost gs = rows_of(*g);
    let ghost ps = rows_of(*p);
    let mut r: usize = 0;
    while r < rows
        invariant
            r <= rows,
            gs == rows_of(*g),
            ps == rows_of(*p),
            rect(ps, rows as nat, cols as nat),
            within(gs, row as int, col as int, rows as nat, cols as nat),
            forall|i: int, j: int|
                0 <= i < r && 0 <= j < cols ==> leq(gs[row + i][col + j], #[trigger] ps[i][j]),
        decreases rows - r,
    {
        let mut c: usize = 0;
        while c < cols
            invariant
                c <= cols,
                r < rows,
                gs == rows_of(*g),
                ps == rows_of(*p),
                rect(ps, rows as nat, cols as nat),
                within(gs, row as int, col as int, rows as nat, cols as nat),
                forall|i: int, j: int|
                    0 <= i < r && 0 <= j < cols ==> leq(gs[row + i][col + j], #[trigger] ps[i][j]),
                forall|j: int| 0 <= j < c ==> leq(gs[row + r][col + j], #[trigger] ps[r as int][j]),
            decreases cols - c,
        {
            assert(ps[r as int].len() == cols);
            assert(row + rows <= g.len());
            assert(col + cols <= gs[row + r].len());
            assert(gs[row + r] == g[row + r]@);
            assert(col + cols <= g[row + r].len());
            if !is_leq(&g[row + r][col + c], &p[r][c]) {
                assert(!leq(gs[row + r][col + c], ps[r as int][c as int]));
                return false;
            }
            c += 1;
        }
        r += 1;
    }
    true
}

/// Whether every state of `g` under `p` has a meet with the state above it.
pub fn check_layer<T: Mask>(
    g: &Vec<Vec<T>>,
    p: &Vec<Vec<T>>,
    row: usize,
    col: usize,
    rows: usize,
    cols: usize,
) -> (ok: bool)
    requires
        rect(rows_of(*p), rows as nat, cols as nat),
        within(rows_of(*g), row as int, col as int, rows as nat, cols as nat),
    ensures
        ok == consistent(rows_of(*g), rows_of(*p), row as int, col as int),
{
    let ghost gs = rows_of(*g);
    let ghost ps = rows_of(*p);
    let mut r: usize = 0;
    while r < rows
        invariant
            r <= rows,
            gs == rows_of(*g),
            ps == rows_of(*p),
            rect(ps, rows as nat, cols as nat),
            within(gs, row as int, col as int, rows as nat, cols as nat),
            forall|i: int, j: int|
                0 <= i < r && 0 <= j < cols ==> meets(gs[row + i][col + j], #[trigger] ps[i][j]),
        decreases rows - r,
    {
        let mut c: usize = 0;
        while c < cols
            invariant
                c <= cols,
                r < rows,
                gs == rows_of(*g),
                ps == rows_of(*p),
                rect(ps, rows as nat, cols as nat),
                within(gs, row as int, col as int, rows as nat, cols as nat),
                forall|i: int, j: int|
                    0 <= i < r && 0 <= j < cols ==> meets(
                        gs[row + i][col + j],
                        #[trigger] ps[i][j],
                    ),
                forall|j: int|
                    0 <= j < c ==> meets(gs[row + r][col + j], #[trigger] ps[r as int][j]),
            decreases cols - c,
        {
            assert(ps[r as int].len() == cols);
            assert(row + rows <= g.len());
            assert(col + cols <= gs[row + r].len());
            assert(gs[row + r] == g[row + r]@);
            assert(col + cols <= g[row + r].len());
            if !has_meet(&g[row + r][col + c], &p[r][c]) {
                assert(!meets(gs[row + r][col + c], ps[r as int][c as int]));
                return false;
            }
            c += 1;
        }
        r += 1;
    }
    true
}

/// Replaces every state of `g` under `p` by its meet with the state of `p`
/// above it, and says whether any state of `g` changed.
pub fn narrow_layer<T: Mask>(
    g: &mut Vec<Vec<T>>,
    p: &Vec<Vec<T>>,
    row: usize,
    col: usize,
    rows: usize,
    cols: usize,
) -> (changed: bool)
    requires
        rect(rows_of(*p), rows as nat, cols as nat),
        within(rows_of(*old(g)), row as int, col as int, rows as nat, cols as nat),
        consistent(rows_of(*old(g)), rows_of(*p), row as int, col as int),
    ensures
        rows_of(*final(g)) == narrowed(rows_of(*old(g)), rows_of(*p), row as int, col as int),
        changed == (rows_of(*final(g)) != rows_of(*old(g))),
{
    let ghost g0 = rows_of(*g);
    let ghost ps = rows_of(*p);
    let ghost mut wi: int = 0;
    let ghost mut wj: int = 0;
    let mut changed = false;
    let mut r: usize = 0;
    while r < rows
        invariant
            r <= rows,
            ps == rows_of(*p),
            rect(ps, rows as nat, cols as nat),
            within(g0, row as int, col as int, rows as nat, cols as nat),
            consistent(g0, ps, row as int, col as int),
            g@.len() == g0.len(),
            forall|i: int| 0 <= i < g0.len() ==> (#[trigger] g@[i])@.len() == g0[i].len(),
            forall|i: int, j: int|
                0 <= i < g0.len() && 0 <= j < g0[i].len() ==> #[trigger] g@[i]@[j] == (if row <= i
                    < row + r && col <= j < col + cols {
                    meet(g0[i][j], ps[i - row][j - col])
                } else {
                    g0[i][j]
                }),
            changed ==> 0 <= wi < g0.len() && 0 <= wj < g0[wi].len() && g@[wi]@[wj] != g0[wi][wj],
            !changed ==> forall|i: int, j: int|
                0 <= i < g0.len() && 0 <= j < g0[i].len() ==> #[trigger] g@[i]@[j] == g0[i][j],
        decreases rows - r,
    {
        let mut c: usize = 0;
        while c < cols
            invariant
                c <= cols,
                r < rows,
                ps == rows_of(*p),
                rect(ps, rows as nat, cols as nat),
                within(g0, row as int, col as int, rows as nat, cols as nat),
                consistent(g0, ps, row as int, col as int),
                g@.len() == g0.len(),
                forall|i: int| 0 <= i < g0.len() ==> (#[trigger] g@[i])@.len() == g0[i].len(),
                forall|i: int, j: int|
                    0 <= i < g0.len() && 0 <= j < g0[i].len() ==> #[trigger] g@[i]@[j] == (if (row
                        <= i < row + r && col <= j < col + cols) || (i == row + r && col <= j < col
                        + c) {
                        meet(g0[i][j], ps[i - row][j - col])
                    } else {
                        g0[i][j]
                    }),
                changed ==> 0 <= wi < g0.len() && 0 <= wj < g0[wi].len() && g@[wi]@[wj]
                    != g0[wi][wj],
                !changed ==> forall|i: int, j: int|
                    0 <= i < g0.len() && 0 <= j < g0[i].len() ==> #[trigger] g@[i]@[j] == g0[i][j],
            decreases cols - c,
        {
            assert(ps[r as int].len() == cols);
            assert(row + rows <= g.len());
            assert(col + cols <= g0[row + r].len());
            assert(g@[row + r]@.len() == g0[row + r].len());
            assert(col + cols <= g[row + r].len());
            let cur = g[row + r][col + c];
            let top = p[r][c];
            assert(top == ps[r as int][c as int]);
            assert(cur == g@[row + r]@[col + c]);
            assert(cur == g0[row + r][col + c]);
            let m = cur.gcd(&top);
            if !same_state(&m, &cur) {
                g[row + r][col + c] = m;
                changed = true;
                proof {
                    wi = row + r;
                    wj = col + c;
                }
            }
            c += 1;
        }
        r += 1;
    }
    proof {
        let done = narrowed(g0, ps, row as int, col as int);
        assert(rows_of(*g).len() == done.len());
        assert forall|i: int| 0 <= i < done.len() implies #[trigger] rows_of(*g)[i] =~= done[i] by {
            assert(g@[i]@.len() == g0[i].len());
            assert forall|j: int| 0 <= j < g0[i].len() implies rows_of(*g)[i][j] == done[i][j] by {
                assert(g@[i]@[j] == rows_of(*g)[i][j]);
                if 0 <= i - row < rows {
                    assert(ps[i - row].len() == cols);
                }
            }
        }
        assert(rows_of(*g) =~= done);
        if changed {
            assert(rows_of(*g)[wi][wj] == g@[wi]@[wj]);
        } else {
            assert forall|i: int| 0 <= i < g0.len() implies #[trigger] rows_of(*g)[i] =~= g0[i] by {
                assert(g@[i]@.len() == g0[i].len());
                assert forall|j: int| 0 <= j < g0[i].len() implies rows_of(*g)[i][j]
                    == g0[i][j] by {
                    assert(g@[i]@[j] == g0[i][j]);
                }
            }
            assert(rows_of(*g) =~= g0);
        }
    }
    changed
}

/// Replaces the state at (`row`, `col`) by its meet with `to`, and says
/// whether the state changed.
pub fn narrow_at<T: Mask>(g: &mut Vec<Vec<T>>, row: usize, col: usize, to: T) -> (changed: bool)
    requires
        row < old(g).len(),
        col < old(g)[row as int].len(),
        meets(old(g)[row as int][col as int], to),
    ensures
        rows_of(*final(g)) == rows_of(*old(g)).update(
            row as int,
            rows_of(*old(g))[row as int].update(
                col as int,
                meet(old(g)[row as int][col as int], to),
            ),
        ),
        changed == (rows_of(*final(g)) != rows_of(*old(g))),
{
    let ghost g0 = rows_of(*g);
    let cur = g[row][col];
    let m = cur.gcd(&to);
    if same_state(&m, &cur) {
        assert(g0[row as int].update(col as int, m) =~= g0[row as int]);
        assert(g0 =~= g0.update(row as int, g0[row as int].update(col as int, m)));
        false
    } else {
        g[row][col] = m;
        assert(rows_of(*g) =~= g0.update(row as int, g0[row as int].update(col as int, m)));
        assert(rows_of(*g)[row as int][col as int] != g0[row as int][col as int]);
        true
    }
}

/// Whether two layers have the same size and hold the same states.
pub fn equal_layers<T: Mask>(a: &Vec<Vec<T>>, b: &Vec<Vec<T>>) -> (e: bool)
    ensures
        e == (rows_of(*a) == rows_of(*b)),
{
    let ghost x = rows_of(*a);
    let ghost y = rows_of(*b);
    if a.len() != b.len() {
        assert(x.len() != y.len());
        return false;
    }
    let mut r: usize = 0;
    while r < a.len()
        invariant
            r <= a.len(),
            a.len() == b.len(),
            x == rows_of(*a),
            y == rows_of(*b),
            forall|i: int| 0 <= i < r ==> #[trigger] x[i] == y[i],
        decreases a.len() - r,
    {
        let n = a[r].len();
        if n != b[r].len() {
            assert(x[r as int].len() != y[r as int].len());
            return false;
        }
        let mut c: usize = 0;
        while c < n
            invariant
                c <= n,
                r < a.len(),
                a.len() == b.len(),
                n == a[r as int].len(),
                n == b[r as int].len(),
                x == rows_of(*a),
                y == rows_of(*b),
                forall|j: int| 0 <= j < c ==> x[r as int][j] == y[r as int][j],
            decreases n - c,
        {
            if !same_state(&a[r][c], &b[r][c]) {
                assert(x[r as int][c as int] != y[r as int][c as int]);
                return false;
            }
            c += 1;
        }
        assert(x[r as int] =~= y[r as int]);
        r += 1;
    }
    assert(x =~= y);
    true
}

/// Narrowing only makes states more specific.
pub proof fn lemma_narrowed_refines<T: Mask>(g: Seq<Seq<T>>, p: Seq<Seq<T>>, row: int, col: int)
    requires
        consistent(g, p, row, col),
    ensures
        refines(narrowed(g, p, row, col), g),
{
    let n = narrowed(g, p, row, col);
    assert forall|i: int, j: int| 0 <= i < n.len() && 0 <= j < n[i].len() implies leq(
        #[trigger] n[i][j],
        g[i][j],
    ) by {
        if 0 <= i - row < p.len() && 0 <= j - col < p[i - row].len() {
            assert(meets(g[row + (i - row)][col + (j - col)], p[i - row][j - col]));
        }
    }
}

/// A layer that was narrowed under a pattern still satisfies what it
/// satisfied, and narrowing it again under the same pattern changes nothing.
pub proof fn lemma_narrowed_again<T: Mask>(
    g: Seq<Seq<T>>,
    p: Seq<Seq<T>>,
    q: Seq<Seq<T>>,
    row: int,
    col: int,
    rows: nat,
    cols: nat,
)
    requires
        rect(p, rows, cols),
        within(g, row, col, rows, cols),
        consistent(g, p, row, col),
    ensures
        consistent(narrowed(g, p, row, col), p, row, col),
        narrowed(narrowed(g, p, row, col), p, row, col) == narrowed(g, p, row, col),
        satisfies(g, q, row, col) && rect(q, rows, cols) ==> satisfies(
            narrowed(g, p, row, col),
            q,
            row,
            col,
        ),
{
    let n = narrowed(g, p, row, col);
    let nn = narrowed(n, p, row, col);
    assert forall|r: int, c: int| 0 <= r < p.len() && 0 <= c < p[r].len() implies meets(
        n[row + r][col + c],
        #[trigger] p[r][c],
    ) && meet(n[row + r][col + c], p[r][c]) == n[row + r][col + c] by {
        let a = g[row + r][col + c];
        let b = p[r][c];
        assert(meets(a, b));
        assert(g[row + r].len() >= col + cols);
        assert(n[row + r][col + c] == meet(a, b));
        crate::element::lemma_meet_absorbs(meet(a, b), b);
    }
    assert(n.len() == nn.len());
    assert forall|i: int| 0 <= i < n.len() implies #[trigger] nn[i] =~= n[i] by {
        assert forall|j: int| 0 <= j < n[i].len() implies nn[i][j] == n[i][j] by {
            if 0 <= i - row < p.len() && 0 <= j - col < p[i - row].len() {
                let r = i - row;
                let c = j - col;
                assert(meet(n[row + r][col + c], p[r][c]) == n[row + r][col + c]);
            }
        }
    }
    assert(nn =~= n);
    if satisfies(g, q, row, col) && rect(q, rows, cols) {
        assert forall|r: int, c: int| 0 <= r < q.len() && 0 <= c < q[r].len() implies leq(
            n[row + r][col + c],
            #[trigger] q[r][c],
        ) by {
            let a = g[row + r][col + c];
            let b = p[r][c];
            assert(leq(a, q[r][c]));
            assert(meets(a, b));
            assert(g[row + r].len() >= col + cols);
            assert(n[row + r][col + c] == meet(a, b));
        }
    }
}

/// Turning and mirroring keep a layer rectangular.
pub proof fn lemma_turned_rect<T>(a: Seq<Seq<T>>, rows: nat, cols: nat)
    requires
        rect(a, rows, cols),
    ensures
        rect(turned(a, rows, cols), cols, rows),
        rect(mirrored(a), rows, cols),
        rect(inverted(a), rows, cols),
        rect(half_turned(a), rows, cols),
{
    assert forall|r: int| 0 <= r < rows implies (#[trigger] inverted(a)[r]).len() == cols by {
        assert(inverted(a)[r] == a[rows - 1 - r]);
    }
    assert forall|r: int| 0 <= r < rows implies (#[trigger] half_turned(a)[r]).len() == cols by {
        assert(inverted(a)[r] == a[rows - 1 - r]);
    }
}

/// Two quarter turns are a half turn.
pub proof fn lemma_turned_twice<T>(a: Seq<Seq<T>>, rows: nat, cols: nat)
    requires
        rect(a, rows, cols),
    ensures
        turned(turned(a, rows, cols), cols, rows) == half_turned(a),
{
    let x = turned(turned(a, rows, cols), cols, rows);
    let y = half_turned(a);
    assert(x.len() == y.len());
    assert forall|r: int| 0 <= r < rows implies #[trigger] x[r] =~= y[r] by {
        assert(inverted(a)[r] == a[rows - 1 - r]);
        assert(a[rows - 1 - r].len() == cols);
        assert forall|c: int| 0 <= c < cols implies x[r][c] == y[r][c] by {
            assert(turned(a, rows, cols)[c][rows - 1 - r] == a[rows - 1 - r][cols - 1 - c]);
        }
    }
    assert(x =~= y);
}

/// Two half turns give back the layer, and so do two reversals of the rows.
pub proof fn lemma_flipped_twice<T>(a: Seq<Seq<T>>, rows: nat, cols: nat)
    requires
        rect(a, rows, cols),
    ensures
        half_turned(half_turned(a)) == a,
        inverted(inverted(a)) == a,
        mirrored(mirrored(a)) == a,
{
    lemma_turned_rect(a, rows, cols);
    let h = half_turned(a);
    let hh = half_turned(h);
    assert(hh.len() == a.len());
    assert forall|r: int| 0 <= r < rows implies #[trigger] hh[r] =~= a[r] by {
        assert(inverted(h)[r] == h[rows - 1 - r]);
        assert(inverted(a)[rows - 1 - r] == a[r]);
        assert(h[rows - 1 - r].len() == cols);
        assert forall|c: int| 0 <= c < cols implies hh[r][c] == a[r][c] by {
            assert(hh[r][c] == h[rows - 1 - r][cols - 1 - c]);
        }
    }
    assert(hh =~= a);
    assert(inverted(inverted(a)) =~= a);
    let m = mirrored(a);
    let mm = mirrored(m);
    assert forall|r: int| 0 <= r < rows implies #[trigger] mm[r] =~= a[r] by {
        assert(m[r].len() == cols);
    }
    assert(mm =~= a);
}

/// A quarter turn, then a reversal of the rows, then a quarter turn again are
/// together a reversal of the rows.
pub proof fn lemma_turn_flip_turn<T>(a: Seq<Seq<T>>, rows: nat, cols: nat)
    requires
        rect(a, rows, cols),
    ensures
        turned(inverted(turned(a, rows, cols)), cols, rows) == inverted(a),
{
    let t = turned(a, rows, cols);
    let i = inverted(t);
    let x = turned(i, cols, rows);
    let y = inverted(a);
    assert(x.len() == y.len());
    assert forall|r: int| 0 <= r < rows implies #[trigger] x[r] =~= y[r] by {
        assert(y[r] == a[rows - 1 - r]);
        assert(a[rows - 1 - r].len() == cols);
        assert forall|c: int| 0 <= c < cols implies x[r][c] == y[r][c] by {
            assert(x[r][c] == i[c][rows - 1 - r]);
            assert(i[c] == t[cols - 1 - c]);
            assert(t[cols - 1 - c][rows - 1 - r] == a[rows - 1 - r][cols - 1 - (cols - 1 - c)]);
        }
    }
    assert(x =~= y);
}

} // verus!
