use crate::matrix3::Matrix3;
use vstd::prelude::*;

verus! {

/// A 4x4 matrix of scalars `T`, stored row by row (`m[row][column]`), used
/// with the row-vector convention: the translation sits in the last row.
#[derive(Clone, Copy, Debug, PartialEq)]
pub struct Matrix4<T> {
    pub m: [[T; 4]; 4],
}

/// Index `k` of a 3x3 minor taken back to its index in the 4x4 matrix whose
/// row (or column) `e` was left out.
pub open spec fn skip(k: int, e: int) -> int {
    if k < e {
        k
    } else {
        k + 1
    }
}

impl<T> Matrix4<T> {
    /// Entry `(i, j)` of `self` is entry `(j, i)` of `other`.
    pub open spec fn is_transpose_of(self, other: Self) -> bool {
        forall|i: int, j: int| 0 <= i < 4 && 0 <= j < 4 ==> #[trigger] self.m[i][j] == other.m[j][i]
    }

    /// `minor` is `self` without row `er` and column `ec`.
    pub open spec fn is_minor(self, er: int, ec: int, minor: Matrix3<T>) -> bool {
        forall|i: int, j: int|
            0 <= i < 3 && 0 <= j < 3 ==> #[trigger] minor.m[i][j] == self.m[skip(i, er)][skip(
                j,
                ec,
            )]
    }

    /// `self` and `other` agree outside the upper-left 3x3 block.
    pub open spec fn same_outside_upper_left(self, other: Self) -> bool {
        forall|i: int, j: int|
            0 <= i < 4 && 0 <= j < 4 && !(i < 3 && j < 3) ==> #[trigger] self.m[i][j] == other.m[i][j]
    }

    /// The upper-left 3x3 block of `self` is `m3`.
    pub open spec fn upper_left_is(self, m3: Matrix3<T>) -> bool {
        forall|i: int, j: int| 0 <= i < 3 && 0 <= j < 3 ==> #[trigger] self.m[i][j] == m3.m[i][j]
    }
}

/// Two 4x4 matrices with the same entries are the same matrix.
pub proof fn lemma_matrix4_ext<T>(a: Matrix4<T>, b: Matrix4<T>)
    requires
        forall|i: int, j: int| 0 <= i < 4 && 0 <= j < 4 ==> #[trigger] a.m[i][j] == b.m[i][j],
    ensures
        a == b,
{
    broadcast use vstd::array::group_array_axioms;

    assert(a.m[0] =~= b.m[0]);
    assert(a.m[1] =~= b.m[1]);
    assert(a.m[2] =~= b.m[2]);
    assert(a.m[3] =~= b.m[3]);
    assert(a.m =~= b.m);
}

/// Transposing twice gives the matrix back.
pub proof fn lemma_transpose4_involutive<T>(a: Matrix4<T>, t: Matrix4<T>, u: Matrix4<T>)
    requires
        t.is_transpose_of(a),
        u.is_transpose_of(t),
    ensures
        u == a,
{
    assert forall|i: int, j: int| 0 <= i < 4 && 0 <= j < 4 implies #[trigger] u.m[i][j] == a.m[i][j] by {
        assert(u.m[i][j] == t.m[j][i]);
    }
    lemma_matrix4_ext(u, a);
}

/// A matrix has one transpose: `transpose` and `transpose_in_place` agree.
pub proof fn lemma_transpose4_unique<T>(a: Matrix4<T>, t1: Matrix4<T>, t2: Matrix4<T>)
    requires
        t1.is_transpose_of(a),
        t2.is_transpose_of(a),
    ensures
        t1 == t2,
{
    assert forall|i: int, j: int| 0 <= i < 4 && 0 <= j < 4 implies #[trigger] t1.m[i][j] == t2.m[i][j] by {
        assert(t1.m[i][j] == a.m[j][i]);
    }
    lemma_matrix4_ext(t1, t2);
}

/// Reading the upper-left block back after writing it gives the block that
/// was written.
pub proof fn lemma_upper_left_round_trip<T>(a: Matrix4<T>, written: Matrix3<T>, read: Matrix3<T>)
    requires
        a.upper_left_is(written),
        a.upper_left_is(read),
    ensures
        read == written,
{
    assert forall|i: int, j: int| 0 <= i < 3 && 0 <= j < 3 implies #[trigger] read.m[i][j]
        == written.m[i][j] by {
        assert(read.m[i][j] == a.m[i][j]);
    }
    crate::matrix3::lemma_matrix3_ext(read, written);
}

/// The minor of the transpose is the transpose of the minor with row and
/// column exchanged: leaving out row `j` and column `i` of the transpose
/// leaves the transpose of what leaving out row `i` and column `j` leaves.
pub proof fn lemma_minor_of_transpose<T>(
    a: Matrix4<T>,
    t: Matrix4<T>,
    i: int,
    j: int,
    minor: Matrix3<T>,
    minor_t: Matrix3<T>,
)
    requires
        0 <= i < 4,
        0 <= j < 4,
        t.is_transpose_of(a),
        a.is_minor(i, j, minor),
        t.is_minor(j, i, minor_t),
    ensures
        minor_t.is_transpose_of(minor),
{
    assert forall|r: int, c: int| 0 <= r < 3 && 0 <= c < 3 implies #[trigger] minor_t.m[r][c]
        == minor.m[c][r] by {
        assert(minor_t.m[r][c] == t.m[skip(r, j)][skip(c, i)]);
        assert(minor.m[c][r] == a.m[skip(c, i)][skip(r, j)]);
    }
}

impl<T: Copy> Matrix4<T> {
    /// Overwrites the upper-left 3x3 block with `m3`.
    pub fn set_upper_left_3x3(&mut self, m3: &Matrix3<T>)
        ensures
            final(self).upper_left_is(*m3),
            final(self).same_outside_upper_left(*old(self)),
    {
        for i in 0..3
            invariant
                forall|r: int, c: int| 0 <= r < i && 0 <= c < 3 ==> #[trigger] self.m[r][c] == m3.m[r][c],
                forall|r: int, c: int|
                    0 <= r < 4 && 0 <= c < 4 && !(r < i && c < 3) ==> #[trigger] self.m[r][c]
                        == old(self).m[r][c],
        {
            for j in 0..3
                invariant
                    0 <= i < 3,
                    forall|r: int, c: int|
                        0 <= r < i && 0 <= c < 3 ==> #[trigger] self.m[r][c] == m3.m[r][c],
                    forall|c: int| 0 <= c < j ==> #[trigger] self.m[i as int][c] == m3.m[i as int][c],
                    forall|r: int, c: int|
                        0 <= r < 4 && 0 <= c < 4 && !(r < i && c < 3) && !(r == i && c < j)
                            ==> #[trigger] self.m[r][c] == old(self).m[r][c],
            {
                self.m[i][j] = m3.m[i][j];
            }
        }
    }

    /// The upper-left 3x3 block.
    pub fn get_upper_left_3x3(&self) -> (m3: Matrix3<T>)
        ensures
            self.upper_left_is(m3),
    {
        let mut result = Matrix3 { m: [[self.m[0][0]; 3]; 3] };
        for i in 0..3
            invariant
                forall|r: int, c: int| 0 <= r < i && 0 <= c < 3 ==> #[trigger] result.m[r][c] == self.m[r][c],
        {
            for j in 0..3
                invariant
                    0 <= i < 3,
                    forall|r: int, c: int|
                        0 <= r < i && 0 <= c < 3 ==> #[trigger] result.m[r][c] == self.m[r][c],
                    forall|c: int| 0 <= c < j ==> #[trigger] result.m[i as int][c] == self.m[i as int][c],
            {
                result.m[i][j] = self.m[i][j];
            }
        }
        result
    }

    /// Writes the translation `(x, y, z)` into the first three entries of the
    /// last row; everything else stays.
    pub fn translate(&mut self, x: T, y: T, z: T)
        ensures
            final(self).m[3][0] == x,
            final(self).m[3][1] == y,
            final(self).m[3][2] == z,
            forall|i: int, j: int|
                0 <= i < 4 && 0 <= j < 4 && !(i == 3 && j < 3) ==> #[trigger] final(self).m[i][j]
                    == old(self).m[i][j],
    {
        self.m[3][0] = x;
        self.m[3][1] = y;
        self.m[3][2] = z;
    }

    /// The 3x3 minor: the matrix without row `exclude_row` and column
    /// `exclude_col`.
    pub fn get_minor_3x3(&self, exclude_row: usize, exclude_col: usize) -> (minor: Matrix3<T>)
        requires
            exclude_row < 4,
            exclude_col < 4,
        ensures
            self.is_minor(exclude_row as int, exclude_col as int, minor),
    {
        let mut result = Matrix3 { m: [[self.m[0][0]; 3]; 3] };
        let mut r: usize = 0;
        for i in 0..4
            invariant
                exclude_row < 4,
                exclude_col < 4,
                r == if i > exclude_row { i - 1 } else { i as int },
                forall|rr: int, cc: int|
                    0 <= rr < r && 0 <= cc < 3 ==> #[trigger] result.m[rr][cc] == self.m[skip(
                        rr,
                        exclude_row as int,
                    )][skip(cc, exclude_col as int)],
        {
            if i != exclude_row {
                let mut c: usize = 0;
                for j in 0..4
                    invariant
                        exclude_row < 4,
                        exclude_col < 4,
                        i != exclude_row,
                        0 <= i < 4,
                        r == if i > exclude_row { i - 1 } else { i as int },
                        c == if j > exclude_col { j - 1 } else { j as int },
                        forall|rr: int, cc: int|
                            0 <= rr < r && 0 <= cc < 3 ==> #[trigger] result.m[rr][cc] == self.m[skip(
                                rr,
                                exclude_row as int,
                            )][skip(cc, exclude_col as int)],
                        forall|cc: int|
                            0 <= cc < c ==> #[trigger] result.m[r as int][cc] == self.m[i as int][skip(
                                cc,
                                exclude_col as int,
                            )],
                {
                    if j != exclude_col {
                        result.m[r][c] = self.m[i][j];
                        c += 1;
                    }
                }
                r += 1;
            }
        }
        result
    }

    /// Replaces the matrix by its transpose.
    pub fn transpose_in_place(&mut self)
        ensures
            final(self).is_transpose_of(*old(self)),
    {
        let temp = self.m;
        for i in 0..4
            invariant
                temp == old(self).m,
                forall|r: int, c: int| 0 <= r < i && 0 <= c < 4 ==> #[trigger] self.m[r][c] == temp[c][r],
        {
            for j in 0..4
                invariant
                    0 <= i < 4,
                    temp == old(self).m,
                    forall|r: int, c: int|
                        0 <= r < i && 0 <= c < 4 ==> #[trigger] self.m[r][c] == temp[c][r],
                    forall|c: int| 0 <= c < j ==> #[trigger] self.m[i as int][c] == temp[c][i as int],
            {
                self.m[i][j] = temp[j][i];
            }
        }
    }

    /// The transposed matrix.
    pub fn transpose(&self) -> (t: Self)
        ensures
            t.is_transpose_of(*self),
    {
        let mut result = *self;
        for i in 0..4
            invariant
                forall|r: int, c: int| 0 <= r < i && 0 <= c < 4 ==> #[trigger] result.m[r][c] == self.m[c][r],
        {
            for j in 0..4
                invariant
                    0 <= i < 4,
                    forall|r: int, c: int|
                        0 <= r < i && 0 <= c < 4 ==> #[trigger] result.m[r][c] == self.m[c][r],
                    forall|c: int| 0 <= c < j ==> #[trigger] result.m[i as int][c] == self.m[c][i as int],
            {
                result.m[i][j] = self.m[j][i];
            }
        }
        result
    }

    pub fn get_element(&self, row: usize, column: usize) -> (v: T)
        requires
            row < 4,
            column < 4,
        ensures
            v == self.m[row as int][column as int],
    {
        self.m[row][column]
    }

    /// Overwrites entry `(row, column)` with `value`; everything else stays.
    pub fn set_element(&mut self, row: usize, column: usize, value: T)
        requires
            row < 4,
            column < 4,
        ensures
            forall|i: int, j: int|
                0 <= i < 4 && 0 <= j < 4 ==> #[trigger] final(self).m[i][j] == if i == row && j
                    == column {
                    value
                } else {
                    old(self).m[i][j]
                },
    {
        self.m[row][column] = value;
    }
}

} // verus!
