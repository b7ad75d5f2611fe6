//! Dijkstra shortest paths over an adjacency matrix with non-negative
//! entries; a zero entry means no edge, and a zero distance stands for
//! "unknown or settled", as in the classic array implementation.

use vstd::prelude::*;
use crate::matrix::SMatrix;

verus! {

/// Entries the distance computations accept: non-negative and small
/// enough that no path sum can overflow.
pub open spec fn entries_ok<const N: usize>(m: SMatrix<N>) -> bool {
    forall|i: int, j: int| 0 <= i < N && 0 <= j < N ==> 0 <= #[trigger] m.at(i, j) <= 0x80000000
}

/// All distances non-negative and below the running bound.
pub open spec fn dist_ok(d: Seq<i64>, bound: int) -> bool {
    forall|k: int| 0 <= k < d.len() ==> 0 <= #[trigger] d[k] <= bound
}

impl<const N: usize> SMatrix<N> {
    /// Pick the vertex with the smallest known nonzero distance, mark it
    /// visited and clear its slot.
    fn visits(&self, visited: &mut [bool; N], distance: &mut [i64; N], bound: Ghost<int>) -> (r: (
        usize,
        i64,
    ))
        requires
            N >= 1,
            dist_ok(old(distance)@, bound@),
            0 <= bound@,
        ensures
            r.0 < N,
            0 <= r.1 <= bound@,
            dist_ok(final(distance)@, bound@),
            final(visited)@.len() == N,
    {
        let mut mi: usize = 0;
        let mut mv: i64 = distance[0];
        let mut i: usize = 1;
        while i < N
            invariant
                N >= 1,
                mi < N,
                1 <= i <= N,
                dist_ok(distance@, bound@),
                0 <= mv <= bound@,
                mv == distance@[mi as int],
            decreases N - i,
        {
            let d = distance[i];
            if mv == 0 || (d != 0 && d < mv) {
                mi = i;
                mv = d;
            }
            i = i + 1;
        }
        visited[mi] = true;
        distance[mi] = 0;
        (mi, mv)
    }

    /// Relax every unvisited neighbour of the current vertex.
    fn update_distance(
        &self,
        cur: (usize, i64),
        visited: &[bool; N],
        distance: &mut [i64; N],
        bound: Ghost<int>,
    )
        requires
            entries_ok(*self),
            cur.0 < N,
            0 <= cur.1 <= bound@,
            dist_ok(old(distance)@, bound@),
            bound@ <= 0x2000_0000_0000_0000,
        ensures
            dist_ok(final(distance)@, bound@ + 0x80000000),
    {
        let mut i: usize = 0;
        while i < N
            invariant
                entries_ok(*self),
                cur.0 < N,
                0 <= cur.1 <= bound@ <= 0x2000_0000_0000_0000,
                i <= N,
                distance@.len() == N,
                dist_ok(distance@, bound@ + 0x80000000),
            decreases N - i,
        {
            let edge = self.0[cur.0][i];
            proof {
                assert(0 <= self.at(cur.0 as int, i as int) <= 0x80000000);
            }
            if !visited[i] {
                let new_dist = cur.1 + edge;
                let di = distance[i];
                if edge != 0 && (di == 0 || di > new_dist) {
                    distance[i] = new_dist;
                }
            }
            i = i + 1;
        }
    }

    /// As `update_distance`, recording the predecessor of every improved
    /// vertex.
    fn update_distance_with_path(
        &self,
        cur: (usize, i64),
        visited: &[bool; N],
        distance: &mut [i64; N],
        path: &mut [usize; N],
        bound: Ghost<int>,
    )
        requires
            entries_ok(*self),
            cur.0 < N,
            0 <= cur.1 <= bound@,
            dist_ok(old(distance)@, bound@),
            bound@ <= 0x2000_0000_0000_0000,
            forall|k: int| 0 <= k < N ==> #[trigger] old(path)@[k] < N,
        ensures
            dist_ok(final(distance)@, bound@ + 0x80000000),
            forall|k: int| 0 <= k < N ==> #[trigger] final(path)@[k] < N,
    {
        let mut i: usize = 0;
        while i < N
            invariant
                entries_ok(*self),
                cur.0 < N,
                0 <= cur.1 <= bound@ <= 0x2000_0000_0000_0000,
                i <= N,
                distance@.len() == N,
                path@.len() == N,
                dist_ok(distance@, bound@ + 0x80000000),
                forall|k: int| 0 <= k < N ==> #[trigger] path@[k] < N,
            decreases N - i,
        {
            let edge = self.0[cur.0][i];
            proof {
                assert(0 <= self.at(cur.0 as int, i as int) <= 0x80000000);
            }
            if !visited[i] {
                let new_dist = cur.1 + edge;
                let di = distance[i];
                if edge != 0 && (di == 0 || di > new_dist) {
                    distance[i] = new_dist;
                    path[i] = cur.0;
                }
            }
            i = i + 1;
        }
    }

    /// Walk the predecessor array from `dst` back to `src`; the walk is
    /// cut off after `N` steps, which a well-formed predecessor tree
    /// never reaches.
    fn rebuild_path(&self, src: usize, dst: usize, path: &[usize; N]) -> (p: Vec<usize>)
        requires
            N >= 1,
            src < N,
            dst < N,
            forall|k: int| 0 <= k < N ==> #[trigger] path@[k] < N,
        ensures
            forall|k: int| 0 <= k < p@.len() ==> #[trigger] p@[k] < N,
    {
        let mut p: Vec<usize> = Vec::new();
        let mut last_vertex = dst;
        let mut steps: usize = 0;
        p.push(last_vertex);
        while last_vertex != src && steps < N
            invariant
                last_vertex < N,
                steps <= N,
                forall|k: int| 0 <= k < N ==> #[trigger] path@[k] < N,
                forall|k: int| 0 <= k < p@.len() ==> #[trigger] p@[k] < N,
            decreases N - steps,
        {
            last_vertex = path[last_vertex];
            p.push(last_vertex);
            steps = steps + 1;
        }
        p
    }

    /// The shortest distance from `src` to `dst`, or zero if `dst` is not
    /// settled within `N - 1` rounds.
    pub fn dijkstra(&self, src: usize, dst: usize) -> (r: i64)
        requires
            N >= 1,
            N <= 0x100000,
            src < N,
            dst < N,
            entries_ok(*self),
        ensures
            r >= 0,
    {
        let mut visited = vstd::array::array_fill_for_copy_types::<bool, N>(false);
        let mut distance = self.0[src];
        proof {
            assert forall|k: int| 0 <= k < N implies 0 <= #[trigger] distance@[k]
                <= 0x80000000int * 1 by {
                assert(self.at(src as int, k) == distance@[k]);
            }
        }
        visited[src] = true;
        let mut round: usize = 0;
        while round < N - 1
            invariant
                N >= 1,
                N <= 0x100000,
                entries_ok(*self),
                round <= N,
                distance@.len() == N,
                dist_ok(distance@, 0x80000000 * (round + 1)),
            decreases N - 1 - round,
        {
            let ghost b = 0x80000000int * (round + 1);
            proof {
                assert(0x80000000int * (round + 1) <= 0x80000000int * 0x100001)
                    by (nonlinear_arith)
                    requires
                        round + 1 <= 0x100001,
                ;
            }
            let cur = self.visits(&mut visited, &mut distance, Ghost(b));
            self.update_distance(cur, &visited, &mut distance, Ghost(b));
            proof {
                assert(0x80000000int * (round + 2) == 0x80000000int * (round + 1) + 0x80000000)
                    by (nonlinear_arith);
            }
            if cur.0 == dst {
                return cur.1;
            }
            round = round + 1;
        }
        0
    }

    /// The shortest distance together with the vertex path, most recent
    /// vertex first.
    pub fn dijkstra_with_path(&self, src: usize, dst: usize) -> (r: (i64, Vec<usize>))
        requires
            N >= 1,
            N <= 0x100000,
            src < N,
            dst < N,
            entries_ok(*self),
        ensures
            r.0 >= 0,
            forall|k: int| 0 <= k < r.1@.len() ==> #[trigger] r.1@[k] < N,
    {
        let mut visited = vstd::array::array_fill_for_copy_types::<bool, N>(false);
        let mut distance = self.0[src];
        proof {
            assert forall|k: int| 0 <= k < N implies 0 <= #[trigger] distance@[k]
                <= 0x80000000int * 1 by {
                assert(self.at(src as int, k) == distance@[k]);
            }
        }
        let mut path = vstd::array::array_fill_for_copy_types::<usize, N>(src);
        visited[src] = true;
        let mut round: usize = 0;
        while round < N - 1
            invariant
                N >= 1,
                N <= 0x100000,
                src < N,
                dst < N,
                entries_ok(*self),
                round <= N,
                distance@.len() == N,
                path@.len() == N,
                dist_ok(distance@, 0x80000000 * (round + 1)),
                forall|k: int| 0 <= k < N ==> #[trigger] path@[k] < N,
            decreases N - 1 - round,
        {
            let ghost b = 0x80000000int * (round + 1);
            proof {
                assert(0x80000000int * (round + 1) <= 0x80000000int * 0x100001)
                    by (nonlinear_arith)
                    requires
                        round + 1 <= 0x100001,
                ;
            }
            let cur = self.visits(&mut visited, &mut distance, Ghost(b));
            self.update_distance_with_path(cur, &visited, &mut distance, &mut path, Ghost(b));
            proof {
                assert(0x80000000int * (round + 2) == 0x80000000int * (round + 1) + 0x80000000)
                    by (nonlinear_arith);
            }
            if cur.0 == dst {
                let p = self.rebuild_path(src, dst, &path);
                return (cur.1, p);
            }
            round = round + 1;
        }
        let p = self.rebuild_path(src, dst, &path);
        (0, p)
    }

    /// The settled distances from `src` to every vertex, zero where no
    /// distance was settled.
    pub fn dijkstra_from_src(&self, src: usize) -> (r: Vec<i64>)
        requires
            N >= 1,
            N <= 0x100000,
            src < N,
            entries_ok(*self),
        ensures
            r@.len() == N,
            forall|k: int| 0 <= k < N ==> #[trigger] r@[k] >= 0,
    {
        let mut output: Vec<i64> = Vec::new();
        while output.len() < N
            invariant
                output@.len() <= N,
                forall|k: int| 0 <= k < output@.len() ==> #[trigger] output@[k] >= 0,
            decreases N - output@.len(),
        {
            output.push(0);
        }
        let mut visited = vstd::array::array_fill_for_copy_types::<bool, N>(false);
        let mut distance = self.0[src];
        proof {
            assert forall|k: int| 0 <= k < N implies 0 <= #[trigger] distance@[k]
                <= 0x80000000int * 1 by {
                assert(self.at(src as int, k) == distance@[k]);
            }
        }
        visited[src] = true;
        let mut round: usize = 0;
        while round < N - 1
            invariant
                N >= 1,
                N <= 0x100000,
                src < N,
                entries_ok(*self),
                round <= N,
                distance@.len() == N,
                output@.len() == N,
                forall|k: int| 0 <= k < N ==> #[trigger] output@[k] >= 0,
                dist_ok(distance@, 0x80000000 * (round + 1)),
            decreases N - 1 - round,
        {
            let ghost b = 0x80000000int * (round + 1);
            proof {
                assert(0x80000000int * (round + 1) <= 0x80000000int * 0x100001)
                    by (nonlinear_arith)
                    requires
                        round + 1 <= 0x100001,
                ;
            }
            let cur = self.visits(&mut visited, &mut distance, Ghost(b));
            self.update_distance(cur, &visited, &mut distance, Ghost(b));
            proof {
                assert(0x80000000int * (round + 2) == 0x80000000int * (round + 1) + 0x80000000)
                    by (nonlinear_arith);
            }
            output[cur.0] = cur.1;
            round = round + 1;
        }
        output
    }

    /// Settled distances paired with their paths, in the order the
    /// vertices were settled; stops at the first unreachable round.
    pub fn dijkstra_from_src_with_path(&self, src: usize) -> (r: Vec<(i64, Vec<usize>)>)
        requires
            N >= 1,
            N <= 0x100000,
            src < N,
            entries_ok(*self),
        ensures
            forall|k: int| 0 <= k < r@.len() ==> (#[trigger] r@[k]).0 >= 0,
    {
        let mut output: Vec<(i64, Vec<usize>)> = Vec::new();
        let mut visited = vstd::array::array_fill_for_copy_types::<bool, N>(false);
        let mut distance = self.0[src];
        proof {
            assert forall|k: int| 0 <= k < N implies 0 <= #[trigger] distance@[k]
                <= 0x80000000int * 1 by {
                assert(self.at(src as int, k) == distance@[k]);
            }
        }
        let mut path = vstd::array::array_fill_for_copy_types::<usize, N>(src);
        visited[src] = true;
        let mut round: usize = 0;
        while round < N - 1
            invariant
                N >= 1,
                N <= 0x100000,
                src < N,
                entries_ok(*self),
                round <= N,
                distance@.len() == N,
                path@.len() == N,
                dist_ok(distance@, 0x80000000 * (round + 1)),
                forall|k: int| 0 <= k < N ==> #[trigger] path@[k] < N,
                forall|k: int| 0 <= k < output@.len() ==> (#[trigger] output@[k]).0 >= 0,
            decreases N - 1 - round,
        {
            let ghost b = 0x80000000int * (round + 1);
            proof {
                assert(0x80000000int * (round + 1) <= 0x80000000int * 0x100001)
                    by (nonlinear_arith)
                    requires
                        round + 1 <= 0x100001,
                ;
            }
            let cur = self.visits(&mut visited, &mut distance, Ghost(b));
            self.update_distance_with_path(cur, &visited, &mut distance, &mut path, Ghost(b));
            proof {
                assert(0x80000000int * (round + 2) == 0x80000000int * (round + 1) + 0x80000000)
                    by (nonlinear_arith);
            }
            if cur.1 == 0 {
                return output;
            }
            let p = self.rebuild_path(src, cur.0, &path);
            output.push((cur.1, p));
            round = round + 1;
        }
        output
    }
}

} // verus!
