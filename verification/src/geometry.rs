//! Matrix-level model of piece geometry: rectangular binary occupancy
//! matrices, clockwise rotation, the board bounds, overlap with locked
//! cells, and the effect of locking a placement into the grid.

use vstd::prelude::*;

verus! {

/// The matrix has at least one row and one column, and every row has the
/// same length as the first.
pub open spec fn rect(m: Seq<Seq<i32>>) -> bool {
    &&& m.len() >= 1
    &&& m[0].len() >= 1
    &&& forall|j: int| 0 <= j < m.len() ==> (#[trigger] m[j]).len() == m[0].len()
}

/// Every cell of the matrix is 0 or 1.
pub open spec fn binary(m: Seq<Seq<i32>>) -> bool {
    forall|j: int, i: int|
        0 <= j < m.len() && 0 <= i < m[j].len() ==> (#[trigger] m[j][i]) == 0 || m[j][i] == 1
}

/// The grid is a rectangle of `h` rows, each `w` cells wide.
pub open spec fn grid_dims(g: Seq<Seq<i32>>, w: int, h: int) -> bool {
    g.len() == h && forall|r: int| 0 <= r < h ==> (#[trigger] g[r]).len() == w
}

/// A `h`-row, `w`-column grid with every cell empty.
pub open spec fn empty_grid(w: int, h: int) -> Seq<Seq<i32>> {
    Seq::new(h as nat, |r: int| Seq::new(w as nat, |c: int| 0i32))
}

/// The matrix rotated 90 degrees clockwise (transpose, then reverse each
/// row): an `r x c` matrix becomes `c x r`, and cell `(j, i)` of the result
/// is cell `(r - 1 - i, j)` of the original.
pub open spec fn rotated(m: Seq<Seq<i32>>) -> Seq<Seq<i32>> {
    Seq::new(m[0].len(), |j: int| Seq::new(m.len(), |i: int| m[m.len() - 1 - i][j]))
}

/// The matrix anchored at `(x, y)` lies inside a `w x h` board: it does not
/// stick out past the right or bottom edge.
pub open spec fn in_bounds(m: Seq<Seq<i32>>, x: int, y: int, w: int, h: int) -> bool {
    x + m[0].len() <= w && y + m.len() <= h
}

/// Grid cell `(r, c)` is covered by an occupied cell of the matrix anchored
/// at `(x, y)`.
pub open spec fn occupied_at(m: Seq<Seq<i32>>, x: int, y: int, r: int, c: int) -> bool {
    y <= r < y + m.len() && x <= c < x + m[0].len() && m[r - y][c - x] == 1
}

/// Some occupied cell of the matrix anchored at `(x, y)` lands on an
/// occupied cell of the grid.
pub open spec fn overlaps(m: Seq<Seq<i32>>, x: int, y: int, g: Seq<Seq<i32>>) -> bool {
    exists|j: int, i: int|
        0 <= j < m.len() && 0 <= i < m[0].len() && (#[trigger] m[j][i]) == 1 && g[y + j][x + i]
            == 1
}

/// The placement collides: it sticks out past the right or bottom edge of
/// the board, or an occupied cell of it lands on an occupied grid cell.
pub open spec fn collides(m: Seq<Seq<i32>>, x: int, y: int, g: Seq<Seq<i32>>, w: int, h: int) -> bool {
    !in_bounds(m, x, y, w, h) || overlaps(m, x, y, g)
}

/// The grid after locking the matrix at `(x, y)`: every cell covered by an
/// occupied cell of the matrix becomes occupied; every other cell keeps its
/// prior value.
pub open spec fn locked(g: Seq<Seq<i32>>, m: Seq<Seq<i32>>, x: int, y: int) -> Seq<Seq<i32>> {
    Seq::new(
        g.len(),
        |r: int|
            Seq::new(
                g[r].len(),
                |c: int| if occupied_at(m, x, y, r, c) { 1i32 } else { g[r][c] },
            ),
    )
}

/// Law: locking is permanent — it never clears a cell, so every occupied
/// grid cell stays occupied.
pub proof fn lemma_locked_preserves_occupied(g: Seq<Seq<i32>>, m: Seq<Seq<i32>>, x: int, y: int)
    ensures
        forall|r: int, c: int|
            0 <= r < g.len() && 0 <= c < g[r].len() && g[r][c] == 1 ==> locked(g, m, x, y)[r][c]
                == 1,
{
}

/// Law: rotating a matrix four times yields the original matrix (in
/// particular, the original dimensions).
pub proof fn lemma_rotate_four_times(m: Seq<Seq<i32>>)
    requires
        rect(m),
    ensures
        rotated(rotated(rotated(rotated(m)))) == m,
{
    let r1 = rotated(m);
    let r2 = rotated(r1);
    let r3 = rotated(r2);
    let r4 = rotated(r3);
    assert forall|j: int| 0 <= j < m.len() implies r4[j] =~= m[j] by {
        assert forall|i: int| 0 <= i < m[j].len() implies r4[j][i] == m[j][i] by {
            assert(r4[j][i] == r3[r3.len() - 1 - i][j]);
        }
    }
    assert(r4 =~~= m);
}

/// Rotation of a rectangular binary matrix yields a rectangular binary
/// matrix with the dimensions swapped.
pub proof fn lemma_rotated_wf(m: Seq<Seq<i32>>)
    requires
        rect(m),
        binary(m),
    ensures
        rect(rotated(m)),
        binary(rotated(m)),
        rotated(m).len() == m[0].len(),
        rotated(m)[0].len() == m.len(),
{
    assert(rotated(m)[0].len() == m.len());
}

/// Law: against an empty grid, a placement collides exactly when it sticks
/// out past the right or bottom edge of the board.
pub proof fn lemma_collision_on_empty_grid(m: Seq<Seq<i32>>, x: int, y: int, w: int, h: int)
    requires
        rect(m),
        0 <= x,
        0 <= y,
    ensures
        collides(m, x, y, empty_grid(w, h), w, h) <==> !in_bounds(m, x, y, w, h),
{
    if in_bounds(m, x, y, w, h) {
        assert forall|j: int, i: int|
            0 <= j < m.len() && 0 <= i < m[0].len() implies !((#[trigger] m[j][i]) == 1
            && empty_grid(w, h)[y + j][x + i] == 1) by {
            assert(empty_grid(w, h)[y + j][x + i] == 0);
        }
    }
}

/// Law: locking a placement that does not collide against an empty grid
/// occupies exactly the cells covered by the placement's occupied cells and
/// leaves every other cell empty.
pub proof fn lemma_lock_on_empty_grid(m: Seq<Seq<i32>>, x: int, y: int, w: int, h: int)
    requires
        rect(m),
        0 <= x,
        0 <= y,
        !collides(m, x, y, empty_grid(w, h), w, h),
    ensures
        forall|r: int, c: int|
            0 <= r < h && 0 <= c < w ==> locked(empty_grid(w, h), m, x, y)[r][c] == (
            if occupied_at(m, x, y, r, c) {
                1i32
            } else {
                0i32
            }),
{
    assert forall|r: int, c: int| 0 <= r < h && 0 <= c < w implies locked(
        empty_grid(w, h),
        m,
        x,
        y,
    )[r][c] == (if occupied_at(m, x, y, r, c) {
        1i32
    } else {
        0i32
    }) by {
        assert(empty_grid(w, h)[r][c] == 0);
    }
}

} // verus!
