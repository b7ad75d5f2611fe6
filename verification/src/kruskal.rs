//! Kruskal's minimum spanning tree over an adjacency matrix: take edges
//! in weight order, adding each one that joins two distinct components.

use vstd::prelude::*;
use crate::matrix::{Matrix, SMatrix};

verus! {

/// All edge endpoints in range.
pub open spec fn edges_ok(s: Seq<(usize, usize, i64)>, n: int) -> bool {
    forall|k: int| 0 <= k < s.len() ==> (#[trigger] s[k]).0 < n && s[k].1 < n
}

impl<const N: usize> SMatrix<N> {
    /// The spanning forest picked by Kruskal's algorithm, as a matrix
    /// holding the chosen edges.
    pub fn kruskal(&self) -> (out: Self)
        requires
            N >= 1,
    {
        let mut stop = N - 1;
        let zero_row = vstd::array::array_fill_for_copy_types::<i64, N>(0);
        let mut out = Matrix::<N, N>(
            vstd::array::array_fill_for_copy_types::<[i64; N], N>(zero_row),
        );
        let mut connect = vstd::array::array_fill_for_copy_types::<usize, N>(0);
        let mut ci: usize = 0;
        while ci < N
            invariant
                ci <= N,
                forall|k: int| 0 <= k < N ==> #[trigger] connect@[k] < N,
            decreases N - ci,
        {
            connect[ci] = ci;
            ci = ci + 1;
        }
        // collect the edges
        let mut edges: Vec<(usize, usize, i64)> = Vec::new();
        let mut i: usize = 0;
        while i < N
            invariant
                i <= N,
                edges_ok(edges@, N as int),
            decreases N - i,
        {
            let mut j: usize = 0;
            while j < N
                invariant
                    i < N,
                    j <= N,
                    edges_ok(edges@, N as int),
                decreases N - j,
            {
                let w = self.0[i][j];
                if w != 0 {
                    edges.push((i, j, w));
                }
                j = j + 1;
            }
            i = i + 1;
        }
        // insertion sort by weight
        let ghost elen = edges@.len();
        let mut s: usize = 1;
        while s < edges.len()
            invariant
                edges_ok(edges@, N as int),
                edges@.len() == elen,
                1 <= s,
            decreases edges@.len() - s,
        {
            let mut t = s;
            while t > 0 && edges[t - 1].2 > edges[t].2
                invariant
                    t <= s < edges@.len(),
                    edges@.len() == elen,
                    edges_ok(edges@, N as int),
                decreases t,
            {
                let a = edges[t - 1];
                let b = edges[t];
                edges[t - 1] = b;
                edges[t] = a;
                t = t - 1;
            }
            s = s + 1;
        }
        // greedy selection
        let mut e: usize = 0;
        while e < edges.len()
            invariant
                edges_ok(edges@, N as int),
                stop <= N,
                forall|k: int| 0 <= k < N ==> #[trigger] connect@[k] < N,
            decreases edges@.len() - e,
        {
            let (e0, e1, w) = edges[e];
            let c0 = connect[e0];
            let c1 = connect[e1];
            if c0 != c1 && out.0[e0][e1] == 0 {
                out.set(e0, e1, w);
                if out.0[e1][e0] != 0 {
                    let mut m: usize = 0;
                    while m < N
                        invariant
                            m <= N,
                            c0 < N,
                            forall|k: int| 0 <= k < N ==> #[trigger] connect@[k] < N,
                        decreases N - m,
                    {
                        if connect[m] == c1 {
                            connect[m] = c0;
                        }
                        m = m + 1;
                    }
                    if stop > 0 {
                        stop = stop - 1;
                    }
                }
            }
            if stop == 0 {
                return out;
            }
            e = e + 1;
        }
        out
    }
}

} // verus!
