//! The board state machine: an at-most-one active placement falling over a
//! grid of locked cells, with spawn, lateral movement, rotation, the gravity
//! tick, collision detection and locking.

use vstd::prelude::*;
use rand::Rng;
use crate::geometry::{
    binary, grid_dims, empty_grid, rotated, in_bounds, occupied_at, overlaps, collides, locked,
    lemma_rotated_wf,
};
use crate::shapes::{
    Shape, l_mat, j_mat, o_mat, s_mat, z_mat, i_mat, canonical_mat, canonical,
    lemma_canonical_mat_wf, lemma_canonical_wf, copy_matrix, copy_shape,
};

verus! {

/// A shape anchored at a top-left board coordinate: `x` counts columns to
/// the right, `y` counts rows downward.
#[derive(Clone)]
pub struct ShapeInstace {
    pub s: Shape,
    pub x: usize,
    pub y: usize,
}

impl ShapeInstace {
    /// The anchored shape is well formed.
    pub open spec fn wf(self) -> bool {
        self.s.wf()
    }
}

/// The board: fixed dimensions, the grid of locked cells, and at most one
/// active placement.
pub struct Board {
    pub width: usize,
    pub height: usize,
    pub current_active_block: Option<ShapeInstace>,
    pub grid: Vec<Vec<i32>>,
}

/// The spawn column `w / 2` leaves room for the widest canonical shape
/// (3 columns), and the tallest one (4 rows) fits the board height.
pub open spec fn spawn_fits(w: int, h: int) -> bool {
    w / 2 + 3 <= w && 4 <= h
}

impl Board {
    /// The grid of locked cells, row by row.
    pub open spec fn gridmat(self) -> Seq<Seq<i32>> {
        self.grid.deep_view()
    }

    /// Board well-formedness: positive dimensions, a rectangular binary
    /// `height x width` grid, and an active placement (when present) that is
    /// well formed and lies inside the board.
    pub open spec fn wf(self) -> bool {
        &&& self.width >= 1
        &&& self.height >= 1
        &&& grid_dims(self.gridmat(), self.width as int, self.height as int)
        &&& binary(self.gridmat())
        &&& match self.current_active_block {
            Some(p) => p.wf() && in_bounds(
                p.s.mat(),
                p.x as int,
                p.y as int,
                self.width as int,
                self.height as int,
            ),
            None => true,
        }
    }

    /// Creates a board of the given dimensions with an all-empty grid and no
    /// active placement.
    pub fn new(width: usize, height: usize) -> (r: Board)
        requires
            width >= 1,
            height >= 1,
        ensures
            r.wf(),
            r.width == width,
            r.height == height,
            r.current_active_block is None,
            r.gridmat() == empty_grid(width as int, height as int),
    {
        let mut grid: Vec<Vec<i32>> = Vec::new();
        let mut j: usize = 0;
        while j < height
            invariant
                j <= height,
                grid@.len() == j,
                forall|r: int|
                    0 <= r < j ==> (#[trigger] grid@[r])@.len() == width && forall|c: int|
                        0 <= c < width ==> grid@[r]@[c] == 0,
            decreases height - j,
        {
            let mut row: Vec<i32> = Vec::new();
            let mut i: usize = 0;
            while i < width
                invariant
                    i <= width,
                    row@.len() == i,
                    forall|c: int| 0 <= c < i ==> row@[c] == 0,
                decreases width - i,
            {
                row.push(0);
                i = i + 1;
            }
            grid.push(row);
            j = j + 1;
        }
        let r = Board { width, height, current_active_block: None, grid };
        proof {
            assert forall|k: int| 0 <= k < height implies r.gridmat()[k] =~= empty_grid(
                width as int,
                height as int,
            )[k] by {
                assert(r.gridmat()[k] =~= r.grid@[k]@);
            }
            assert(r.gridmat() =~~= empty_grid(width as int, height as int));
        }
        r
    }

    /// The L shape.
    pub fn l() -> (r: Shape)
        ensures
            r.wf(),
            r.mat() == l_mat(),
    {
        let mut v: Vec<Vec<i32>> = Vec::new();
        v.push(Self::row2(1, 0));
        v.push(Self::row2(1, 0));
        v.push(Self::row2(1, 1));
        let r = Shape { v };
        proof {
            Self::mat_from_rows(r);
            assert(r.mat() =~~= l_mat());
            lemma_canonical_mat_wf(0);
        }
        r
    }

    /// The J shape.
    pub fn j() -> (r: Shape)
        ensures
            r.wf(),
            r.mat() == j_mat(),
    {
        let mut v: Vec<Vec<i32>> = Vec::new();
        v.push(Self::row2(0, 1));
        v.push(Self::row2(0, 1));
        v.push(Self::row2(1, 1));
        let r = Shape { v };
        proof {
            Self::mat_from_rows(r);
            assert(r.mat() =~~= j_mat());
            lemma_canonical_mat_wf(1);
        }
        r
    }

    /// The O shape.
    pub fn o() -> (r: Shape)
        ensures
            r.wf(),
            r.mat() == o_mat(),
    {
        let mut v: Vec<Vec<i32>> = Vec::new();
        v.push(Self::row2(1, 1));
        v.push(Self::row2(1, 1));
        let r = Shape { v };
        proof {
            Self::mat_from_rows(r);
            assert(r.mat() =~~= o_mat());
            lemma_canonical_mat_wf(2);
        }
        r
    }

    /// The S shape.
    pub fn s() -> (r: Shape)
        ensures
            r.wf(),
            r.mat() == s_mat(),
    {
        let mut v: Vec<Vec<i32>> = Vec::new();
        v.push(Self::row3(0, 1, 1));
        v.push(Self::row3(1, 1, 0));
        let r = Shape { v };
        proof {
            Self::mat_from_rows(r);
            assert(r.mat() =~~= s_mat());
            lemma_canonical_mat_wf(3);
        }
        r
    }

    /// The Z shape.
    pub fn z() -> (r: Shape)
        ensures
            r.wf(),
            r.mat() == z_mat(),
    {
        let mut v: Vec<Vec<i32>> = Vec::new();
        v.push(Self::row3(1, 1, 0));
        v.push(Self::row3(0, 1, 1));
        let r = Shape { v };
        proof {
            Self::mat_from_rows(r);
            assert(r.mat() =~~= z_mat());
            lemma_canonical_mat_wf(4);
        }
        r
    }

    /// The I shape.
    pub fn i() -> (r: Shape)
        ensures
            r.wf(),
            r.mat() == i_mat(),
    {
        let mut v: Vec<Vec<i32>> = Vec::new();
        v.push(Self::row1(1));
        v.push(Self::row1(1));
        v.push(Self::row1(1));
        v.push(Self::row1(1));
        let r = Shape { v };
        proof {
            Self::mat_from_rows(r);
            assert(r.mat() =~~= i_mat());
            lemma_canonical_mat_wf(5);
        }
        r
    }

    /// Relates a shape's matrix to the views of its rows.
    proof fn mat_from_rows(s: Shape)
        ensures
            s.mat().len() == s.v@.len(),
            forall|j: int| 0 <= j < s.v@.len() ==> #[trigger] s.mat()[j] == s.v@[j]@,
    {
        assert forall|j: int| 0 <= j < s.v@.len() implies #[trigger] s.mat()[j] == s.v@[j]@ by {
            assert(s.mat()[j] =~= s.v@[j]@);
        }
    }

    /// A one-cell row.
    fn row1(a: i32) -> (r: Vec<i32>)
        ensures
            r@ == seq![a],
    {
        let mut r: Vec<i32> = Vec::new();
        r.push(a);
        proof {
            assert(r@ =~= seq![a]);
        }
        r
    }

    /// A two-cell row.
    fn row2(a: i32, b: i32) -> (r: Vec<i32>)
        ensures
            r@ == seq![a, b],
    {
        let mut r: Vec<i32> = Vec::new();
        r.push(a);
        r.push(b);
        proof {
            assert(r@ =~= seq![a, b]);
        }
        r
    }

    /// A three-cell row.
    fn row3(a: i32, b: i32, c: i32) -> (r: Vec<i32>)
        ensures
            r@ == seq![a, b, c],
    {
        let mut r: Vec<i32> = Vec::new();
        r.push(a);
        r.push(b);
        r.push(c);
        proof {
            assert(r@ =~= seq![a, b, c]);
        }
        r
    }

    /// The canonical shape with the given index, in the order L, J, O, S,
    /// Z, I. Deterministic counterpart of `random_shape`.
    pub fn shape_from_index(index: usize) -> (r: Shape)
        requires
            index < 6,
        ensures
            r.wf(),
            r.mat() == canonical_mat(index as int),
            canonical(r.mat()),
    {
        let r = if index == 0 {
            Self::l()
        } else if index == 1 {
            Self::j()
        } else if index == 2 {
            Self::o()
        } else if index == 3 {
            Self::s()
        } else if index == 4 {
            Self::z()
        } else {
            Self::i()
        };
        proof {
            lemma_canonical_mat_wf(index as int);
        }
        r
    }

    /// Selects one of the six canonical shapes at random.
    pub fn random_shape() -> (r: Shape)
        ensures
            r.wf(),
            canonical(r.mat()),
    {
        let index = random_index(6);
        Self::shape_from_index(index)
    }

    /// True when the placement sticks out past the right or bottom edge of
    /// the board, or an occupied cell of it lands on an occupied grid cell.
    /// Pure query: mutates nothing.
    pub fn check_collision(&self, si: &ShapeInstace) -> (r: bool)
        requires
            self.wf(),
            si.wf(),
        ensures
            r == collides(
                si.s.mat(),
                si.x as int,
                si.y as int,
                self.gridmat(),
                self.width as int,
                self.height as int,
            ),
    {
        let rows = si.s.v.len();
        let cols = si.s.v[0].len();
        proof {
            assert(si.s.mat().len() == rows);
            assert(si.s.mat()[0] =~= si.s.v@[0]@);
        }
        if cols > self.width || si.x > self.width - cols {
            return true;
        }
        if rows > self.height || si.y > self.height - rows {
            return true;
        }
        let mut j: usize = 0;
        while j < rows
            invariant
                self.wf(),
                si.wf(),
                j <= rows,
                rows == si.s.mat().len(),
                cols == si.s.mat()[0].len(),
                si.x + cols <= self.width,
                si.y + rows <= self.height,
                forall|jj: int, ii: int|
                    0 <= jj < j && 0 <= ii < cols ==> !((#[trigger] si.s.mat()[jj][ii]) == 1
                        && self.gridmat()[si.y + jj][si.x + ii] == 1),
            decreases rows - j,
        {
            let mut i: usize = 0;
            while i < cols
                invariant
                    self.wf(),
                    si.wf(),
                    j < rows,
                    i <= cols,
                    rows == si.s.mat().len(),
                    cols == si.s.mat()[0].len(),
                    si.x + cols <= self.width,
                    si.y + rows <= self.height,
                    forall|jj: int, ii: int|
                        0 <= jj < j && 0 <= ii < cols ==> !((#[trigger] si.s.mat()[jj][ii]) == 1
                            && self.gridmat()[si.y + jj][si.x + ii] == 1),
                    forall|ii: int|
                        0 <= ii < i ==> !((#[trigger] si.s.mat()[j as int][ii]) == 1
                            && self.gridmat()[si.y + j][si.x + ii] == 1),
                decreases cols - i,
            {
                proof {
                    assert(si.s.mat()[j as int] =~= si.s.v@[j as int]@);
                    assert(si.s.mat()[j as int].len() == cols);
                    assert(self.gridmat()[si.y + j] =~= self.grid@[si.y + j]@);
                }
                if si.s.v[j][i] == 1 && self.grid[si.y + j][si.x + i] == 1 {
                    proof {
                        assert(si.s.mat()[j as int][i as int] == 1);
                        assert(self.gridmat()[si.y + j][si.x + i] == 1);
                    }
                    return true;
                }
                i = i + 1;
            }
            j = j + 1;
        }
        proof {
            assert(in_bounds(
                si.s.mat(),
                si.x as int,
                si.y as int,
                self.width as int,
                self.height as int,
            ));
            assert(!overlaps(si.s.mat(), si.x as int, si.y as int, self.gridmat()));
        }
        false
    }

    /// Locks the placement: writes every occupied cell of its shape into the
    /// grid at the mapped coordinates, permanently. The caller must already
    /// have validated that the placement lies inside the board.
    pub fn add_shape(&mut self, si: &ShapeInstace)
        requires
            old(self).wf(),
            si.wf(),
            in_bounds(
                si.s.mat(),
                si.x as int,
                si.y as int,
                old(self).width as int,
                old(self).height as int,
            ),
        ensures
            final(self).wf(),
            final(self).width == old(self).width,
            final(self).height == old(self).height,
            final(self).current_active_block == old(self).current_active_block,
            final(self).gridmat() == locked(
                old(self).gridmat(),
                si.s.mat(),
                si.x as int,
                si.y as int,
            ),
    {
        let ghost m = si.s.mat();
        let ghost g0 = self.gridmat();
        let ghost w = self.width as int;
        let ghost h = self.height as int;
        let rows = si.s.v.len();
        let cols = si.s.v[0].len();
        proof {
            assert(m.len() == rows);
            assert(m[0] =~= si.s.v@[0]@);
        }
        let mut j: usize = 0;
        while j < rows
            invariant
                si.wf(),
                self.width == old(self).width,
                self.height == old(self).height,
                self.current_active_block == old(self).current_active_block,
                w == self.width as int,
                h == self.height as int,
                m == si.s.mat(),
                j <= rows,
                rows == m.len(),
                cols == m[0].len(),
                si.x + cols <= w,
                si.y + rows <= h,
                grid_dims(self.gridmat(), w, h),
                g0 == old(self).gridmat(),
                grid_dims(g0, w, h),
                forall|r: int, c: int|
                    0 <= r < h && 0 <= c < w ==> #[trigger] self.gridmat()[r][c] == (if (si.y <= r
                        < si.y + j && occupied_at(m, si.x as int, si.y as int, r, c)) {
                        1i32
                    } else {
                        g0[r][c]
                    }),
            decreases rows - j,
        {
            let mut i: usize = 0;
            while i < cols
                invariant
                    si.wf(),
                    self.width == old(self).width,
                    self.height == old(self).height,
                    self.current_active_block == old(self).current_active_block,
                    w == self.width as int,
                    h == self.height as int,
                    m == si.s.mat(),
                    j < rows,
                    i <= cols,
                    rows == m.len(),
                    cols == m[0].len(),
                    si.x + cols <= w,
                    si.y + rows <= h,
                    grid_dims(self.gridmat(), w, h),
                    g0 == old(self).gridmat(),
                    grid_dims(g0, w, h),
                    forall|r: int, c: int|
                        0 <= r < h && 0 <= c < w ==> #[trigger] self.gridmat()[r][c] == (if ((si.y
                            <= r < si.y + j || (r == si.y + j && si.x <= c < si.x + i))
                            && occupied_at(m, si.x as int, si.y as int, r, c)) {
                            1i32
                        } else {
                            g0[r][c]
                        }),
                decreases cols - i,
            {
                proof {
                    assert(m[j as int] =~= si.s.v@[j as int]@);
                    assert(m[j as int].len() == cols);
                }
                let ghost gprev = self.gridmat();
                if si.s.v[j][i] == 1 {
                    let rr = si.y + j;
                    let cc = si.x + i;
                    proof {
                        assert(rr < h);
                        assert(self.grid@.len() == self.gridmat().len());
                        assert(self.gridmat()[rr as int].len() == w);
                        assert(self.grid@[rr as int]@.len() == self.gridmat()[rr as int].len());
                        assert(cc < w);
                    }
                    self.grid[rr][cc] = 1;
                    proof {
                        assert forall|r: int|
                            0 <= r < h implies #[trigger] self.gridmat()[r] == (if r == rr as int {
                            gprev[r].update(cc as int, 1i32)
                        } else {
                            gprev[r]
                        }) by {
                            assert(self.gridmat()[r] =~= (if r == rr as int {
                                gprev[r].update(cc as int, 1i32)
                            } else {
                                gprev[r]
                            }));
                        }
                    }
                }
                i = i + 1;
            }
            j = j + 1;
        }
        proof {
            assert forall|r: int| 0 <= r < h implies #[trigger] self.gridmat()[r] =~= locked(
                g0,
                m,
                si.x as int,
                si.y as int,
            )[r] by {}
            assert(self.gridmat() =~~= locked(g0, m, si.x as int, si.y as int));
        }
    }

    /// Returns a copy of the active placement, spawning one first when none
    /// is present: a random canonical shape at column `width / 2`, row 0.
    /// The spawn is the only mutation this query can make.
    pub fn get_current_active_shape(&mut self) -> (r: ShapeInstace)
        requires
            old(self).wf(),
            old(self).current_active_block is None ==> spawn_fits(
                old(self).width as int,
                old(self).height as int,
            ),
        ensures
            final(self).wf(),
            final(self).width == old(self).width,
            final(self).height == old(self).height,
            final(self).grid == old(self).grid,
            final(self).current_active_block is Some,
            r.s.mat() == final(self).current_active_block->Some_0.s.mat(),
            r.x == final(self).current_active_block->Some_0.x,
            r.y == final(self).current_active_block->Some_0.y,
            old(self).current_active_block is Some ==> *final(self) == *old(self),
            old(self).current_active_block is None ==> r.x == old(self).width / 2 && r.y == 0
                && canonical(r.s.mat()),
    {
        if self.current_active_block.is_none() {
            let shape = Board::random_shape();
            proof {
                lemma_canonical_wf(shape.mat());
            }
            let si = ShapeInstace { s: shape, x: self.width / 2, y: 0 };
            self.current_active_block = Some(si);
        }
        let ab = self.current_active_block.as_ref().unwrap();
        let r = ShapeInstace { s: copy_shape(&ab.s), x: ab.x, y: ab.y };
        r
    }

    /// Gravity tick. With no active placement this is a no-op. Otherwise the
    /// placement moves down one row; if that would collide, the current
    /// (pre-step) placement is locked into the grid instead and the board
    /// returns to the spawn-pending state.
    pub fn move_current_shape_down(&mut self)
        requires
            old(self).wf(),
        ensures
            final(self).wf(),
            final(self).width == old(self).width,
            final(self).height == old(self).height,
            old(self).current_active_block is None ==> *final(self) == *old(self),
            old(self).current_active_block is Some ==> ({
                let p = old(self).current_active_block->Some_0;
                if collides(
                    p.s.mat(),
                    p.x as int,
                    p.y + 1,
                    old(self).gridmat(),
                    old(self).width as int,
                    old(self).height as int,
                ) {
                    &&& final(self).current_active_block is None
                    &&& final(self).gridmat() == locked(
                        old(self).gridmat(),
                        p.s.mat(),
                        p.x as int,
                        p.y as int,
                    )
                } else {
                    &&& final(self).grid == old(self).grid
                    &&& final(self).current_active_block is Some
                    &&& final(self).current_active_block->Some_0.s.mat() == p.s.mat()
                    &&& final(self).current_active_block->Some_0.x == p.x
                    &&& final(self).current_active_block->Some_0.y == p.y + 1
                }
            }),
    {
        let active = self.current_active_block.take();
        match active {
            None => {},
            Some(ab) => {
                let cand = ShapeInstace { s: copy_shape(&ab.s), x: ab.x, y: ab.y + 1 };
                if self.check_collision(&cand) {
                    self.add_shape(&ab);
                } else {
                    self.current_active_block = Some(cand);
                }
            },
        }
    }

    /// Moves the active placement one column to the left. A no-op with no
    /// active placement, at the left edge, or when the moved placement would
    /// collide.
    pub fn move_current_shape_left(&mut self)
        requires
            old(self).wf(),
        ensures
            final(self).wf(),
            final(self).width == old(self).width,
            final(self).height == old(self).height,
            final(self).grid == old(self).grid,
            old(self).current_active_block is None ==> *final(self) == *old(self),
            old(self).current_active_block is Some ==> ({
                let p = old(self).current_active_block->Some_0;
                if p.x == 0 {
                    *final(self) == *old(self)
                } else if collides(
                    p.s.mat(),
                    p.x - 1,
                    p.y as int,
                    old(self).gridmat(),
                    old(self).width as int,
                    old(self).height as int,
                ) {
                    *final(self) == *old(self)
                } else {
                    &&& final(self).current_active_block is Some
                    &&& final(self).current_active_block->Some_0.s.mat() == p.s.mat()
                    &&& final(self).current_active_block->Some_0.x == p.x - 1
                    &&& final(self).current_active_block->Some_0.y == p.y
                }
            }),
    {
        let active = self.current_active_block.take();
        match active {
            None => {},
            Some(ab) => {
                if ab.x == 0 {
                    self.current_active_block = Some(ab);
                } else {
                    let cand = ShapeInstace { s: copy_shape(&ab.s), x: ab.x - 1, y: ab.y };
                    if self.check_collision(&cand) {
                        self.current_active_block = Some(ab);
                    } else {
                        self.current_active_block = Some(cand);
                    }
                }
            },
        }
    }

    /// Moves the active placement one column to the right. A no-op with no
    /// active placement, when the placement already touches the right edge,
    /// or when the moved placement would collide.
    pub fn move_current_shape_right(&mut self)
        requires
            old(self).wf(),
        ensures
            final(self).wf(),
            final(self).width == old(self).width,
            final(self).height == old(self).height,
            final(self).grid == old(self).grid,
            old(self).current_active_block is None ==> *final(self) == *old(self),
            old(self).current_active_block is Some ==> ({
                let p = old(self).current_active_block->Some_0;
                if p.x + p.s.mat()[0].len() == old(self).width {
                    *final(self) == *old(self)
                } else if collides(
                    p.s.mat(),
                    p.x + 1,
                    p.y as int,
                    old(self).gridmat(),
                    old(self).width as int,
                    old(self).height as int,
                ) {
                    *final(self) == *old(self)
                } else {
                    &&& final(self).current_active_block is Some
                    &&& final(self).current_active_block->Some_0.s.mat() == p.s.mat()
                    &&& final(self).current_active_block->Some_0.x == p.x + 1
                    &&& final(self).current_active_block->Some_0.y == p.y
                }
            }),
    {
        let active = self.current_active_block.take();
        match active {
            None => {},
            Some(ab) => {
                proof {
                    assert(ab.s.mat()[0] =~= ab.s.v@[0]@);
                }
                if ab.x + ab.s.v[0].len() == self.width {
                    self.current_active_block = Some(ab);
                } else {
                    let cand = ShapeInstace { s: copy_shape(&ab.s), x: ab.x + 1, y: ab.y };
                    if self.check_collision(&cand) {
                        self.current_active_block = Some(ab);
                    } else {
                        self.current_active_block = Some(cand);
                    }
                }
            },
        }
    }

    /// Rotates the shape 90 degrees clockwise: transpose, then reverse each
    /// row. Dimensions swap. Pure function; the caller validates the
    /// result's placement separately.
    pub fn rotate_shape(shape: Shape) -> (r: Shape)
        requires
            shape.wf(),
        ensures
            r.wf(),
            r.mat() == rotated(shape.mat()),
    {
        let ghost m = shape.mat();
        let rows = shape.v.len();
        let cols = shape.v[0].len();
        proof {
            assert(m.len() == rows);
            assert(m[0] =~= shape.v@[0]@);
        }
        let mut out: Vec<Vec<i32>> = Vec::new();
        let mut j: usize = 0;
        while j < cols
            invariant
                shape.wf(),
                m == shape.mat(),
                j <= cols,
                rows == m.len(),
                cols == m[0].len(),
                out@.len() == j,
                forall|jj: int|
                    0 <= jj < j ==> (#[trigger] out@[jj])@.len() == rows && forall|ii: int|
                        0 <= ii < rows ==> out@[jj]@[ii] == m[rows - 1 - ii][jj],
            decreases cols - j,
        {
            let mut row: Vec<i32> = Vec::new();
            let mut i: usize = 0;
            while i < rows
                invariant
                    shape.wf(),
                    m == shape.mat(),
                    j < cols,
                    i <= rows,
                    rows == m.len(),
                    cols == m[0].len(),
                    row@.len() == i,
                    forall|ii: int| 0 <= ii < i ==> row@[ii] == m[rows - 1 - ii][j as int],
                decreases rows - i,
            {
                proof {
                    assert(m[rows - 1 - i] =~= shape.v@[rows - 1 - i]@);
                    assert(m[rows - 1 - i].len() == cols);
                }
                row.push(shape.v[rows - 1 - i][j]);
                i = i + 1;
            }
            out.push(row);
            j = j + 1;
        }
        let r = Shape { v: out };
        proof {
            assert forall|jj: int| 0 <= jj < cols implies #[trigger] r.mat()[jj] =~= rotated(m)[jj]
                by {
                assert(r.mat()[jj] =~= r.v@[jj]@);
            }
            assert(r.mat() =~~= rotated(m));
            lemma_rotated_wf(m);
        }
        r
    }

    /// Rotates the active placement 90 degrees clockwise in place, keeping
    /// its anchor. A no-op with no active placement, or when the rotated
    /// placement would collide (including against the board bounds under its
    /// new dimensions); the anchor is never adjusted to re-center the piece.
    pub fn rotate_current_shape(&mut self)
        requires
            old(self).wf(),
        ensures
            final(self).wf(),
            final(self).width == old(self).width,
            final(self).height == old(self).height,
            final(self).grid == old(self).grid,
            old(self).current_active_block is None ==> *final(self) == *old(self),
            old(self).current_active_block is Some ==> ({
                let p = old(self).current_active_block->Some_0;
                if collides(
                    rotated(p.s.mat()),
                    p.x as int,
                    p.y as int,
                    old(self).gridmat(),
                    old(self).width as int,
                    old(self).height as int,
                ) {
                    *final(self) == *old(self)
                } else {
                    &&& final(self).current_active_block is Some
                    &&& final(self).current_active_block->Some_0.s.mat() == rotated(p.s.mat())
                    &&& final(self).current_active_block->Some_0.x == p.x
                    &&& final(self).current_active_block->Some_0.y == p.y
                }
            }),
    {
        let active = self.current_active_block.take();
        match active {
            None => {},
            Some(ab) => {
                let rotated_shape = Board::rotate_shape(copy_shape(&ab.s));
                let cand = ShapeInstace { s: rotated_shape, x: ab.x, y: ab.y };
                if self.check_collision(&cand) {
                    self.current_active_block = Some(ab);
                } else {
                    self.current_active_block = Some(cand);
                }
            },
        }
    }

    /// A snapshot of the grid of locked cells. Pure query.
    pub fn get_grid(&self) -> (r: Vec<Vec<i32>>)
        ensures
            r.deep_view() == self.gridmat(),
    {
        copy_matrix(&self.grid)
    }
}

/// Relies on rand::thread_rng and rand::Rng::gen_range: a sample drawn from
/// the uniform distribution over `0..n` lies below `n` (`gen_range` panics
/// on an empty range, so `n` must be positive).
#[verifier::external_body]
fn random_index(n: usize) -> (r: usize)
    requires
        n >= 1,
    ensures
        r < n,
{
    rand::thread_rng().gen_range(0..n)
}

} // verus!
