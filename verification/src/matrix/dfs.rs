//! Depth-first connectivity probe over an adjacency matrix: nonzero
//! entries are edges.

use vstd::prelude::*;
use crate::matrix::SMatrix;
use crate::matrix::bfs::unseen;
use crate::matrix::bfs::lemma_mark;

verus! {

impl<const N: usize> SMatrix<N> {
    /// Whether the depth-first search from `v` reaches every vertex.
    pub fn dfs(&self, v: usize) -> (r: bool)
        requires
            v < N,
    {
        let mut visited = vstd::array::array_fill_for_copy_types::<bool, N>(false);
        let mut stack: Vec<usize> = Vec::new();
        stack.push(v);
        visited[v] = true;
        while stack.len() > 0
            invariant
                forall|k: int| 0 <= k < stack@.len() ==> #[trigger] stack@[k] < N,
            decreases unseen(visited@) + stack@.len(),
        {
            let vi = stack.pop().unwrap();
            let ghost vis0 = visited@;
            let ghost s0 = stack@;
            let mut vj: usize = 0;
            while vj < N
                invariant
                    vi < N,
                    visited@.len() == N,
                    forall|k: int| 0 <= k < stack@.len() ==> #[trigger] stack@[k] < N,
                    unseen(visited@) + stack@.len() == unseen(vis0) + s0.len(),
                decreases N - vj,
            {
                if self.0[vi][vj] != 0 && !visited[vj] {
                    let ghost before = visited@;
                    stack.push(vj);
                    visited[vj] = true;
                    proof {
                        lemma_mark(before, visited@, vj as int);
                    }
                }
                vj = vj + 1;
            }
        }
        let mut all = true;
        let mut k: usize = 0;
        while k < N
            invariant
                k <= N,
            decreases N - k,
        {
            if !visited[k] {
                all = false;
            }
            k = k + 1;
        }
        all
    }
}

} // verus!
