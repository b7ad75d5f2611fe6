//! A rose tree with a cached depth, updated by walking the tree.

use vstd::prelude::*;

verus! {

broadcast use vstd::std_specs::vec::axiom_vec_index_decreases;

#[derive(Debug)]
pub struct Node<T> {
    pub value: T,
    pub childs: Vec<Node<T>>,
}

#[derive(Debug)]
pub struct Tree<T> {
    pub node: Node<T>,
    pub depth: usize,
}

/// The edge height of a node: zero for a leaf, one more than the tallest
/// child otherwise.
pub open spec fn eheight<T>(n: Node<T>) -> nat
    decreases n, n.childs@.len() + 1,
{
    if n.childs@.len() == 0 {
        0
    } else {
        1 + hmax(n, n.childs@.len() as int)
    }
}

/// The tallest edge height among the first `k` children.
pub open spec fn hmax<T>(n: Node<T>, k: int) -> nat
    decreases n, k,
{
    if k <= 0 || k > n.childs@.len() {
        0
    } else {
        let h = eheight(n.childs@[k - 1]);
        let rest = hmax(n, k - 1);
        if h > rest {
            h
        } else {
            rest
        }
    }
}

/// The edge height of a node, computed recursively.
fn node_height<T>(n: &Node<T>) -> (h: usize)
    requires
        eheight(*n) <= usize::MAX,
    ensures
        h == eheight(*n),
    decreases *n,
{
    let mut m: usize = 0;
    let mut i: usize = 0;
    while i < n.childs.len()
        invariant
            i <= n.childs@.len(),
            eheight(*n) <= usize::MAX,
            i > 0 ==> n.childs@.len() > 0,
            m == (if i == 0 {
                0int
            } else {
                1int + hmax(*n, i as int)
            }),
        decreases n.childs@.len() - i,
    {
        proof {
            assert(eheight(n.childs@[i as int]) < eheight(*n)) by {
                lemma_child_height(*n, i as int, n.childs@.len() as int);
            }
        }
        let hc = node_height(&n.childs[i]);
        proof {
            assert(hmax(*n, i + 1) == (if eheight(n.childs@[i as int]) > hmax(*n, i as int) {
                eheight(n.childs@[i as int])
            } else {
                hmax(*n, i as int)
            }));
            assert(hmax(*n, 0) == 0);
        }
        if hc + 1 > m {
            m = hc + 1;
        }
        i = i + 1;
    }
    m
}

/// Every child is strictly lower than its parent.
proof fn lemma_child_height<T>(n: Node<T>, i: int, k: int)
    requires
        0 <= i < k <= n.childs@.len(),
    ensures
        eheight(n.childs@[i]) < eheight(n),
    decreases k,
{
    if i == k - 1 {
        assert(hmax(n, k) >= eheight(n.childs@[k - 1]));
        lemma_hmax_mono(n, k, n.childs@.len() as int);
    } else {
        lemma_child_height(n, i, k - 1);
    }
}

/// `hmax` only grows with more children considered.
proof fn lemma_hmax_mono<T>(n: Node<T>, k1: int, k2: int)
    requires
        0 <= k1 <= k2 <= n.childs@.len(),
    ensures
        hmax(n, k1) <= hmax(n, k2),
    decreases k2,
{
    if k1 < k2 {
        lemma_hmax_mono(n, k1, k2 - 1);
    }
}

impl<T> Tree<T> {
    /// Walk the tree and record the largest depth seen, keeping any
    /// previously recorded deeper value.
    pub fn dfs(&mut self)
        requires
            eheight(old(self).node) <= usize::MAX,
        ensures
            final(self).depth == (if old(self).depth > eheight(old(self).node) {
                old(self).depth as int
            } else {
                eheight(old(self).node) as int
            }),
    {
        let h = node_height(&self.node);
        if h > self.depth {
            self.depth = h;
        }
    }
}

} // verus!
