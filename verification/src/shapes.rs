//! The `Shape` type and the six canonical piece shapes (L, J, O, S, Z, I),
//! given both as spec-level matrices and as verified constructors' targets.

use vstd::prelude::*;
use crate::geometry::{rect, binary};

verus! {

/// An immutable rectangular binary occupancy matrix describing one piece's
/// cells in one orientation. Rotating produces a new `Shape`.
#[derive(Clone)]
pub struct Shape {
    pub v: Vec<Vec<i32>>,
}

impl Shape {
    /// The shape's matrix of cells, row by row.
    pub open spec fn mat(self) -> Seq<Seq<i32>> {
        self.v.deep_view()
    }

    /// Rectangular with at least one row and one column; every cell 0 or 1.
    pub open spec fn wf(self) -> bool {
        rect(self.mat()) && binary(self.mat())
    }
}

/// The L shape.
pub open spec fn l_mat() -> Seq<Seq<i32>> {
    seq![seq![1, 0], seq![1, 0], seq![1, 1]]
}

/// The J shape.
pub open spec fn j_mat() -> Seq<Seq<i32>> {
    seq![seq![0, 1], seq![0, 1], seq![1, 1]]
}

/// The O shape.
pub open spec fn o_mat() -> Seq<Seq<i32>> {
    seq![seq![1, 1], seq![1, 1]]
}

/// The S shape.
pub open spec fn s_mat() -> Seq<Seq<i32>> {
    seq![seq![0, 1, 1], seq![1, 1, 0]]
}

/// The Z shape.
pub open spec fn z_mat() -> Seq<Seq<i32>> {
    seq![seq![1, 1, 0], seq![0, 1, 1]]
}

/// The I shape.
pub open spec fn i_mat() -> Seq<Seq<i32>> {
    seq![seq![1], seq![1], seq![1], seq![1]]
}

/// The canonical shape matrix with the given index, in the order
/// L, J, O, S, Z, I.
pub open spec fn canonical_mat(index: int) -> Seq<Seq<i32>> {
    if index == 0 {
        l_mat()
    } else if index == 1 {
        j_mat()
    } else if index == 2 {
        o_mat()
    } else if index == 3 {
        s_mat()
    } else if index == 4 {
        z_mat()
    } else {
        i_mat()
    }
}

/// The matrix is one of the six canonical shapes.
pub open spec fn canonical(m: Seq<Seq<i32>>) -> bool {
    exists|index: int| 0 <= index < 6 && m == #[trigger] canonical_mat(index)
}

/// Every canonical shape matrix is rectangular and binary, with at most
/// 4 rows and at most 3 columns.
pub proof fn lemma_canonical_mat_wf(index: int)
    requires
        0 <= index < 6,
    ensures
        rect(canonical_mat(index)),
        binary(canonical_mat(index)),
        1 <= canonical_mat(index).len() <= 4,
        1 <= canonical_mat(index)[0].len() <= 3,
        canonical(canonical_mat(index)),
{
    let m = canonical_mat(index);
    assert(index == 0 || index == 1 || index == 2 || index == 3 || index == 4 || index == 5);
    assert forall|j: int| 0 <= j < m.len() implies (#[trigger] m[j]).len() == m[0].len() by {
        assert(j == 0 || j == 1 || j == 2 || j == 3);
    }
    assert forall|j: int, i: int|
        0 <= j < m.len() && 0 <= i < m[j].len() implies ((#[trigger] m[j][i]) == 0 || m[j][i]
        == 1) by {
        assert(j == 0 || j == 1 || j == 2 || j == 3);
        assert(i == 0 || i == 1 || i == 2);
    }
}

/// A canonical shape matrix is rectangular and binary, with at most 4 rows
/// and at most 3 columns.
pub proof fn lemma_canonical_wf(m: Seq<Seq<i32>>)
    requires
        canonical(m),
    ensures
        rect(m),
        binary(m),
        1 <= m.len() <= 4,
        1 <= m[0].len() <= 3,
{
    let index = choose|index: int| 0 <= index < 6 && m == #[trigger] canonical_mat(index);
    lemma_canonical_mat_wf(index);
}

/// An element-for-element copy of one row of cells.
pub(crate) fn copy_row(row: &Vec<i32>) -> (r: Vec<i32>)
    ensures
        r@ == row@,
{
    let mut r: Vec<i32> = Vec::new();
    let mut i: usize = 0;
    while i < row.len()
        invariant
            i <= row@.len(),
            r@.len() == i,
            forall|k: int| 0 <= k < i ==> r@[k] == row@[k],
        decreases row@.len() - i,
    {
        r.push(row[i]);
        i = i + 1;
    }
    proof {
        assert(r@ =~= row@);
    }
    r
}

/// A row-for-row copy of a matrix of cells.
pub(crate) fn copy_matrix(v: &Vec<Vec<i32>>) -> (r: Vec<Vec<i32>>)
    ensures
        r.deep_view() == v.deep_view(),
{
    let mut r: Vec<Vec<i32>> = Vec::new();
    let mut j: usize = 0;
    while j < v.len()
        invariant
            j <= v@.len(),
            r@.len() == j,
            forall|k: int| 0 <= k < j ==> (#[trigger] r@[k])@ == v@[k]@,
        decreases v@.len() - j,
    {
        let row = copy_row(&v[j]);
        r.push(row);
        j = j + 1;
    }
    proof {
        assert forall|k: int| 0 <= k < v@.len() implies r.deep_view()[k] == v.deep_view()[k] by {
            assert(r@[k]@ == v@[k]@);
            assert(r.deep_view()[k] =~= r@[k]@);
            assert(v.deep_view()[k] =~= v@[k]@);
        }
        assert(r.deep_view() =~~= v.deep_view());
    }
    r
}

/// A copy of a shape with the same matrix.
pub(crate) fn copy_shape(s: &Shape) -> (r: Shape)
    ensures
        r.mat() == s.mat(),
{
    Shape { v: copy_matrix(&s.v) }
}

} // verus!
