//! Dynamically sized matrices backed by a flat row-major vector, with the
//! same breadth- and depth-first connectivity probes as the fixed matrix.

use vstd::prelude::*;
use std::collections::VecDeque;
use crate::matrix::bfs::{unseen, lemma_mark};

verus! {

/// An `n` by `m` matrix over a flat row-major buffer.
pub struct DMatrix {
    pub n: usize,
    pub m: usize,
    pub data: Vec<i64>,
}

impl DMatrix {
    /// The buffer holds exactly `n * m` entries.
    pub open spec fn wf(self) -> bool {
        self.data@.len() == self.n * self.m
    }

    pub open spec fn at(self, i: int, j: int) -> i64 {
        self.data@[i * self.m + j]
    }

    pub fn from_raw(data: Vec<i64>, n: usize, m: usize) -> (r: Self)
        ensures
            r.n == n,
            r.m == m,
            r.data == data,
    {
        Self { n, m, data }
    }

    /// Write one entry.
    pub fn set(&mut self, i: usize, j: usize, value: i64)
        requires
            old(self).wf(),
            i < old(self).n,
            j < old(self).m,
        ensures
            final(self).wf(),
            final(self).n == old(self).n,
            final(self).m == old(self).m,
            final(self).at(i as int, j as int) == value,
            final(self).data@.len() == old(self).data@.len(),
            forall|k: int|
                0 <= k < final(self).data@.len() && k != i * old(self).m + j
                    ==> final(self).data@[k] == old(self).data@[k],
    {
        proof {
            lemma_flat_index(i as int, j as int, self.n as int, self.m as int);
            assert(self.data@.len() <= usize::MAX) by {
                assert(self.data.len() == self.data@.len());
            }
        }
        let idx = i * self.m + j;
        self.data[idx] = value;
    }

    /// Write one entry and its mirror across the diagonal.
    pub fn sset(&mut self, i: usize, j: usize, value: i64)
        requires
            old(self).wf(),
            i < old(self).n,
            j < old(self).m,
            j < old(self).n,
            i < old(self).m,
        ensures
            final(self).wf(),
            final(self).n == old(self).n,
            final(self).m == old(self).m,
            final(self).at(i as int, j as int) == value,
            final(self).at(j as int, i as int) == value,
    {
        self.set(i, j, value);
        self.set(j, i, value);
        proof {
            lemma_flat_index(i as int, j as int, self.n as int, self.m as int);
            lemma_flat_index(j as int, i as int, self.n as int, self.m as int);
        }
    }
}

/// A row-major index stays inside the buffer.
proof fn lemma_flat_index(i: int, j: int, n: int, m: int)
    requires
        0 <= i < n,
        0 <= j < m,
    ensures
        i * m + j < n * m,
        0 <= i * m + j,
    decreases 0int,
{
    assert(i * m + j < n * m) by (nonlinear_arith)
        requires
            0 <= i < n,
            0 <= j < m,
    ;
    assert(0 <= i * m) by (nonlinear_arith)
        requires
            0 <= i,
            0 <= m,
    ;
}

/// A dynamically sized square matrix.
pub struct SDMatrix {
    pub n: usize,
    pub data: Vec<i64>,
}

impl SDMatrix {
    pub open spec fn wf(self) -> bool {
        self.data@.len() == self.n * self.n
    }

    pub open spec fn at(self, i: int, j: int) -> i64 {
        self.data@[i * self.n + j]
    }

    pub fn from_raw(data: Vec<i64>, n: usize) -> (r: Self)
        ensures
            r.n == n,
            r.data == data,
    {
        Self { n, data }
    }

    pub fn set(&mut self, i: usize, j: usize, value: i64)
        requires
            old(self).wf(),
            i < old(self).n,
            j < old(self).n,
        ensures
            final(self).wf(),
            final(self).n == old(self).n,
            final(self).at(i as int, j as int) == value,
            forall|k: int|
                0 <= k < final(self).data@.len() && k != i * old(self).n + j
                    ==> final(self).data@[k] == old(self).data@[k],
    {
        proof {
            lemma_flat_index(i as int, j as int, self.n as int, self.n as int);
            assert(self.data@.len() <= usize::MAX) by {
                assert(self.data.len() == self.data@.len());
            }
        }
        let idx = i * self.n + j;
        self.data[idx] = value;
    }

    pub fn sset(&mut self, i: usize, j: usize, value: i64)
        requires
            old(self).wf(),
            i < old(self).n,
            j < old(self).n,
        ensures
            final(self).wf(),
            final(self).n == old(self).n,
            final(self).at(i as int, j as int) == value,
            final(self).at(j as int, i as int) == value,
    {
        self.set(i, j, value);
        self.set(j, i, value);
        proof {
            lemma_flat_index(i as int, j as int, self.n as int, self.n as int);
            lemma_flat_index(j as int, i as int, self.n as int, self.n as int);
        }
    }

    fn get(&self, i: usize, j: usize) -> (r: i64)
        requires
            self.wf(),
            i < self.n,
            j < self.n,
        ensures
            r == self.at(i as int, j as int),
    {
        proof {
            lemma_flat_index(i as int, j as int, self.n as int, self.n as int);
            assert(self.data@.len() <= usize::MAX) by {
                assert(self.data.len() == self.data@.len());
            }
        }
        self.data[i * self.n + j]
    }

    /// Whether the breadth-first search from `v` reaches every vertex.
    pub fn bfs(&self, v: usize) -> (r: bool)
        requires
            self.wf(),
            v < self.n,
    {
        let n = self.n;
        let mut visited: Vec<bool> = Vec::new();
        while visited.len() < n
            invariant
                visited@.len() <= n,
            decreases n - visited@.len(),
        {
            visited.push(false);
        }
        let mut queue: VecDeque<usize> = VecDeque::new();
        queue.push_back(v);
        visited[v] = true;
        while queue.len() > 0
            invariant
                self.wf(),
                n == self.n,
                visited@.len() == n,
                forall|k: int| 0 <= k < queue@.len() ==> #[trigger] queue@[k] < n,
            decreases unseen(visited@) + queue@.len(),
        {
            let vi = queue.pop_front().unwrap();
            let ghost vis0 = visited@;
            let ghost q0 = queue@;
            let mut vj: usize = 0;
            while vj < n
                invariant
                    self.wf(),
                    n == self.n,
                    vi < n,
                    visited@.len() == n,
                    forall|k: int| 0 <= k < queue@.len() ==> #[trigger] queue@[k] < n,
                    unseen(visited@) + queue@.len() == unseen(vis0) + q0.len(),
                decreases n - vj,
            {
                if self.get(vi, vj) != 0 && !visited[vj] {
                    let ghost before = visited@;
                    queue.push_back(vj);
                    visited[vj] = true;
                    proof {
                        lemma_mark(before, visited@, vj as int);
                    }
                }
                vj = vj + 1;
            }
        }
        let mut all = true;
        let mut k: usize = 0;
        while k < n
            invariant
                k <= n <= visited@.len(),
            decreases n - k,
        {
            if !visited[k] {
                all = false;
            }
            k = k + 1;
        }
        all
    }

    /// Whether the depth-first search from `v` reaches every vertex.
    pub fn dfs(&self, v: usize) -> (r: bool)
        requires
            self.wf(),
            v < self.n,
    {
        let n = self.n;
        let mut visited: Vec<bool> = Vec::new();
        while visited.len() < n
            invariant
                visited@.len() <= n,
            decreases n - visited@.len(),
        {
            visited.push(false);
        }
        let mut stack: Vec<usize> = Vec::new();
        stack.push(v);
        visited[v] = true;
        while stack.len() > 0
            invariant
                self.wf(),
                n == self.n,
                visited@.len() == n,
                forall|k: int| 0 <= k < stack@.len() ==> #[trigger] stack@[k] < n,
            decreases unseen(visited@) + stack@.len(),
        {
            let vi = stack.pop().unwrap();
            let ghost vis0 = visited@;
            let ghost s0 = stack@;
            let mut vj: usize = 0;
            while vj < n
                invariant
                    self.wf(),
                    n == self.n,
                    vi < n,
                    visited@.len() == n,
                    forall|k: int| 0 <= k < stack@.len() ==> #[trigger] stack@[k] < n,
                    unseen(visited@) + stack@.len() == unseen(vis0) + s0.len(),
                decreases n - vj,
            {
                if self.get(vi, vj) != 0 && !visited[vj] {
                    let ghost before = visited@;
                    stack.push(vj);
                    visited[vj] = true;
                    proof {
                        lemma_mark(before, visited@, vj as int);
                    }
                }
                vj = vj + 1;
            }
        }
        let mut all = true;
        let mut k: usize = 0;
        while k < n
            invariant
                k <= n <= visited@.len(),
            decreases n - k,
        {
            if !visited[k] {
                all = false;
            }
            k = k + 1;
        }
        all
    }
}

} // verus!
