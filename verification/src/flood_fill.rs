//! Flood fill on a matrix of colours, replacing the connected region of
//! the starting cell's colour through a worklist of cells.

use vstd::prelude::*;
use crate::matrix::Matrix;

verus! {

/// How many entries of a row hold the colour `c`.
pub open spec fn count_row(row: Seq<i64>, c: i64) -> nat
    decreases row.len(),
{
    if row.len() == 0 {
        0
    } else {
        count_row(row.drop_last(), c) + (if row.last() == c {
            1nat
        } else {
            0nat
        })
    }
}

/// How many cells of the grid hold the colour `c`.
pub open spec fn count_grid<const M: usize>(g: Seq<[i64; M]>, c: i64) -> nat
    decreases g.len(),
{
    if g.len() == 0 {
        0
    } else {
        count_grid(g.drop_last(), c) + count_row(g.last()@, c)
    }
}

/// Recolouring one matching cell lowers the row count by one.
proof fn lemma_row_dec(r1: Seq<i64>, r2: Seq<i64>, j: int, c: i64)
    requires
        r1.len() == r2.len(),
        0 <= j < r1.len(),
        r1[j] == c,
        r2[j] != c,
        forall|k: int| 0 <= k < r1.len() && k != j ==> r1[k] == r2[k],
    ensures
        count_row(r2, c) + 1 == count_row(r1, c),
    decreases r1.len(),
{
    if j == r1.len() - 1 {
        assert(r1.drop_last() =~= r2.drop_last());
    } else {
        lemma_row_dec(r1.drop_last(), r2.drop_last(), j, c);
    }
}

/// Recolouring one matching cell lowers the grid count by one.
proof fn lemma_grid_dec<const M: usize>(g1: Seq<[i64; M]>, g2: Seq<[i64; M]>, i: int, j: int, c: i64)
    requires
        g1.len() == g2.len(),
        0 <= i < g1.len(),
        0 <= j < M,
        g1[i]@[j] == c,
        g2[i]@[j] != c,
        forall|k: int| 0 <= k < M && k != j ==> g1[i]@[k] == g2[i]@[k],
        forall|k: int| 0 <= k < g1.len() && k != i ==> g1[k] == g2[k],
    ensures
        count_grid(g2, c) + 1 == count_grid(g1, c),
    decreases g1.len(),
{
    if i == g1.len() - 1 {
        assert(g1.drop_last() =~= g2.drop_last());
        lemma_row_dec(g1.last()@, g2.last()@, j, c);
    } else {
        lemma_grid_dec(g1.drop_last(), g2.drop_last(), i, j, c);
        assert(g1.last() == g2.last());
    }
}

impl<const N: usize, const M: usize> Matrix<N, M> {
    /// Recolour the 4-connected region of the starting cell's colour.
    /// The new colour must differ from the starting cell's colour.
    pub fn flood_fill(&mut self, i: usize, j: usize, new_color: i64)
        requires
            i < N,
            j < M,
            old(self).at(i as int, j as int) != new_color,
    {
        let old_color = self.0[i][j];
        let mut stack: Vec<(usize, usize)> = Vec::new();
        stack.push((i, j));
        while stack.len() > 0
            invariant
                old_color != new_color,
                forall|k: int|
                    0 <= k < stack@.len() ==> (#[trigger] stack@[k]).0 < N && stack@[k].1 < M,
            decreases count_grid(self.0@, old_color), stack@.len(),
        {
            let (x, y) = stack.pop().unwrap();
            if self.0[x][y] == old_color {
                let ghost g1 = self.0@;
                let ghost m1 = *self;
                self.set(x, y, new_color);
                proof {
                    broadcast use vstd::array::axiom_array_ext_equal;

                    assert forall|k: int| 0 <= k < M && k != y as int implies g1[x as int]@[k]
                        == self.0@[x as int]@[k] by {
                        assert(m1.at(x as int, k) == self.at(x as int, k));
                    }
                    assert forall|k: int| 0 <= k < N && k != x as int implies g1[k]
                        == self.0@[k] by {
                        assert forall|c: int| 0 <= c < M implies g1[k]@[c] == self.0@[k]@[c] by {
                            assert(m1.at(k, c) == self.at(k, c));
                        }
                        assert(g1[k] =~= self.0@[k]);
                    }
                    lemma_grid_dec(g1, self.0@, x as int, y as int, old_color);
                }
                if x > 0 {
                    stack.push((x - 1, y));
                }
                if x + 1 < N {
                    stack.push((x + 1, y));
                }
                if y > 0 {
                    stack.push((x, y - 1));
                }
                if y + 1 < M {
                    stack.push((x, y + 1));
                }
            }
        }
    }
}

} // verus!
