//! Breadth-first connectivity probe over an adjacency matrix: nonzero
//! entries are edges.

use vstd::prelude::*;
use std::collections::VecDeque;
use crate::matrix::SMatrix;

verus! {

/// How many entries of `visited` are still false.
pub open spec fn unseen(visited: Seq<bool>) -> nat
    decreases visited.len(),
{
    if visited.len() == 0 {
        0
    } else {
        unseen(visited.drop_last()) + (if visited.last() {
            0nat
        } else {
            1nat
        })
    }
}

/// Marking an unseen vertex decreases the count of unseen vertices.
pub proof fn lemma_mark(v1: Seq<bool>, v2: Seq<bool>, i: int)
    requires
        v1.len() == v2.len(),
        0 <= i < v1.len(),
        v1[i] == false,
        v2 == v1.update(i, true),
    ensures
        unseen(v2) + 1 == unseen(v1),
    decreases v1.len(),
{
    if i == v1.len() - 1 {
        assert(v2.drop_last() =~= v1.drop_last());
    } else {
        assert(v2.drop_last() =~= v1.drop_last().update(i, true));
        lemma_mark(v1.drop_last(), v2.drop_last(), i);
        assert(v2.last() == v1.last());
    }
}

impl<const N: usize> SMatrix<N> {
    /// Whether the breadth-first search from `v` reaches every vertex.
    pub fn bfs(&self, v: usize) -> (r: bool)
        requires
            v < N,
    {
        let mut visited = vstd::array::array_fill_for_copy_types::<bool, N>(false);
        let mut queue: VecDeque<usize> = VecDeque::new();
        queue.push_back(v);
        visited[v] = true;
        while queue.len() > 0
            invariant
                forall|k: int| 0 <= k < queue@.len() ==> #[trigger] queue@[k] < N,
            decreases unseen(visited@) + queue@.len(),
        {
            let vi = queue.pop_front().unwrap();
            let ghost vis0 = visited@;
            let ghost q0 = queue@;
            let mut vj: usize = 0;
            while vj < N
                invariant
                    vi < N,
                    visited@.len() == N,
                    forall|k: int| 0 <= k < queue@.len() ==> #[trigger] queue@[k] < N,
                    unseen(visited@) + queue@.len() == unseen(vis0) + q0.len(),
                decreases N - vj,
            {
                if self.0[vi][vj] != 0 && !visited[vj] {
                    let ghost before = visited@;
                    queue.push_back(vj);
                    visited[vj] = true;
                    proof {
                        lemma_mark(before, visited@, vj as int);
                    }
                }
                vj = vj + 1;
            }
        }
        let mut all = true;
        let mut k: usize = 0;
        while k < N
            invariant
                k <= N,
            decreases N - k,
        {
            if !visited[k] {
                all = false;
            }
            k = k + 1;
        }
        all
    }
}

} // verus!
