//! A fixed-size matrix over machine integers, used as an adjacency or
//! capacity matrix by the graph algorithms.

use vstd::prelude::*;

pub mod bfs;
pub mod dfs;

verus! {

/// An `N` by `M` matrix of `i64` entries.
#[derive(Clone, Copy)]
pub struct Matrix<const N: usize, const M: usize>(pub [[i64; M]; N]);

/// A square matrix.
pub type SMatrix<const N: usize> = Matrix<N, N>;

impl<const N: usize, const M: usize> Matrix<N, M> {
    /// The entry at row `i`, column `j`.
    pub open spec fn at(self, i: int, j: int) -> i64 {
        self.0@[i]@[j]
    }

    pub fn from_raw(data: [[i64; M]; N]) -> (r: Self)
        ensures
            r.0 == data,
    {
        Self(data)
    }

    /// Read one entry.
    pub fn get(&self, i: usize, j: usize) -> (r: i64)
        requires
            i < N,
            j < M,
        ensures
            r == self.at(i as int, j as int),
    {
        self.0[i][j]
    }

    /// Write one entry.
    pub fn set(&mut self, i: usize, j: usize, value: i64)
        requires
            i < N,
            j < M,
        ensures
            final(self).at(i as int, j as int) == value,
            forall|x: int, y: int|
                0 <= x < N && 0 <= y < M && !(x == i && y == j) ==> final(self).at(x, y) == old(
                    self,
                ).at(x, y),
    {
        let mut row = self.0[i];
        row[j] = value;
        self.0[i] = row;
    }
}

impl<const N: usize, const M: usize> Matrix<N, M> {
    /// Write one entry and its mirror across the diagonal.
    pub fn sset(&mut self, i: usize, j: usize, value: i64)
        requires
            i < N,
            j < M,
            j < N,
            i < M,
        ensures
            final(self).at(i as int, j as int) == value,
            final(self).at(j as int, i as int) == value,
            forall|x: int, y: int|
                0 <= x < N && 0 <= y < M && !(x == i && y == j) && !(x == j && y == i)
                    ==> final(self).at(x, y) == old(self).at(x, y),
    {
        self.set(i, j, value);
        self.set(j, i, value);
    }
}

impl<const N: usize, const M: usize> PartialEq for Matrix<N, M> {
    /// Entry-wise equality.
    fn eq(&self, other: &Matrix<N, M>) -> (r: bool) {
        let mut i: usize = 0;
        while i < N
            invariant
                i <= N,
                forall|x: int, y: int| 0 <= x < i && 0 <= y < M ==> self.at(x, y) == other.at(x, y),
            decreases N - i,
        {
            let mut j: usize = 0;
            while j < M
                invariant
                    i < N,
                    j <= M,
                    forall|x: int, y: int|
                        0 <= x < i && 0 <= y < M ==> self.at(x, y) == other.at(x, y),
                    forall|y: int| 0 <= y < j ==> self.at(i as int, y) == other.at(i as int, y),
                decreases M - j,
            {
                if self.0[i][j] != other.0[i][j] {
                    return false;
                }
                j = j + 1;
            }
            i = i + 1;
        }
        proof {
            broadcast use vstd::array::axiom_array_ext_equal;

            assert forall|x: int| 0 <= x < N implies #[trigger] self.0@[x] == other.0@[x] by {
                assert forall|y: int| 0 <= y < M implies self.0@[x]@[y] == other.0@[x]@[y] by {
                    assert(self.at(x, y) == other.at(x, y));
                }
                assert(self.0@[x] =~= other.0@[x]);
            }
            assert(self.0 =~= other.0);
        }
        true
    }
}

impl<const N: usize, const M: usize> vstd::std_specs::cmp::PartialEqSpecImpl for Matrix<N, M> {
    open spec fn obeys_eq_spec() -> bool {
        true
    }

    open spec fn eq_spec(&self, other: &Matrix<N, M>) -> bool {
        self.0 == other.0
    }
}

} // verus!
