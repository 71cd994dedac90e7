use vstd::prelude::*;

verus! {

/// A 3x3 matrix of scalars `T`, stored row by row (`m[row][column]`).
#[derive(Clone, Copy, Debug, PartialEq)]
pub struct Matrix3<T> {
    pub m: [[T; 3]; 3],
}

impl<T> Matrix3<T> {
    /// Entry `(i, j)` of `self` is entry `(j, i)` of `other`.
    pub open spec fn is_transpose_of(self, other: Self) -> bool {
        forall|i: int, j: int| 0 <= i < 3 && 0 <= j < 3 ==> #[trigger] self.m[i][j] == other.m[j][i]
    }
}

/// Two matrices with the same entries are the same matrix.
pub proof fn lemma_matrix3_ext<T>(a: Matrix3<T>, b: Matrix3<T>)
    requires
        forall|i: int, j: int| 0 <= i < 3 && 0 <= j < 3 ==> #[trigger] a.m[i][j] == b.m[i][j],
    ensures
        a == b,
{
    broadcast use vstd::array::group_array_axioms;

    assert(a.m[0] =~= b.m[0]);
    assert(a.m[1] =~= b.m[1]);
    assert(a.m[2] =~= b.m[2]);
    assert(a.m =~= b.m);
}

/// Transposing twice gives the matrix back.
pub proof fn lemma_transpose3_involutive<T>(a: Matrix3<T>, t: Matrix3<T>, u: Matrix3<T>)
    requires
        t.is_transpose_of(a),
        u.is_transpose_of(t),
    ensures
        u == a,
{
    assert forall|i: int, j: int| 0 <= i < 3 && 0 <= j < 3 implies #[trigger] u.m[i][j] == a.m[i][j] by {
        assert(u.m[i][j] == t.m[j][i]);
    }
    lemma_matrix3_ext(u, a);
}

/// A matrix has one transpose: `transpose` and `transpose_in_place` agree.
pub proof fn lemma_transpose3_unique<T>(a: Matrix3<T>, t1: Matrix3<T>, t2: Matrix3<T>)
    requires
        t1.is_transpose_of(a),
        t2.is_transpose_of(a),
    ensures
        t1 == t2,
{
    assert forall|i: int, j: int| 0 <= i < 3 && 0 <= j < 3 implies #[trigger] t1.m[i][j] == t2.m[i][j] by {
        assert(t1.m[i][j] == a.m[j][i]);
    }
    lemma_matrix3_ext(t1, t2);
}

impl<T: Copy> Matrix3<T> {
    /// The transposed matrix.
    pub fn transpose(&self) -> (t: Self)
        ensures
            t.is_transpose_of(*self),
    {
        Self {
            m: [
                [self.m[0][0], self.m[1][0], self.m[2][0]],
                [self.m[0][1], self.m[1][1], self.m[2][1]],
                [self.m[0][2], self.m[1][2], self.m[2][2]],
            ],
        }
    }

    /// Replaces the matrix by its transpose.
    pub fn transpose_in_place(&mut self)
        ensures
            final(self).is_transpose_of(*old(self)),
    {
        let temp = self.m;
        self.m = [
            [temp[0][0], temp[1][0], temp[2][0]],
            [temp[0][1], temp[1][1], temp[2][1]],
            [temp[0][2], temp[1][2], temp[2][2]],
        ];
    }

    /// Sets the diagonal entries to `x`, `y`, `z`; the others stay.
    pub fn set_scale(&mut self, x: T, y: T, z: T)
        ensures
            forall|i: int, j: int|
                0 <= i < 3 && 0 <= j < 3 ==> #[trigger] final(self).m[i][j] == if i == j {
                    if i == 0 {
                        x
                    } else if i == 1 {
                        y
                    } else {
                        z
                    }
                } else {
                    old(self).m[i][j]
                },
    {
        self.m[0][0] = x;
        self.m[1][1] = y;
        self.m[2][2] = z;
    }
}

} // verus!
