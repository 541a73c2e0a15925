//! Union-find over dense integer labels.
//!
//! The arena keeps a parent index and a size-style weight per label;
//! `unite` attaches the lighter root under the heavier one and `find`
//! compresses paths.  The abstract state is the representative map
//! `rep_of`: `find` returns the representative and never changes any
//! class, `unite` merges exactly the two classes of its arguments.
//!
//! Two ghost components justify the contracts: `rep` carries the
//! representative of every label, and `depth` assigns every label a
//! rank that strictly decreases along parent links, which bounds every
//! parent chain and makes `find` terminate.

use vstd::prelude::*;

verus! {

pub struct UnionFind {
    parent: Vec<u32>,
    weight: Vec<u64>,
    rep: Ghost<Seq<int>>,
    depth: Ghost<Seq<nat>>,
}

impl UnionFind {
    /// Number of labels in the arena.
    pub closed spec fn len(self) -> int {
        self.parent@.len() as int
    }

    /// The representative of label `i`.
    pub closed spec fn rep_of(self, i: int) -> int {
        self.rep@[i]
    }

    /// The rank of label `i`: it strictly decreases along parent
    /// links, so it bounds the length of every parent chain.
    pub closed spec fn depth_of(self, i: int) -> nat {
        self.depth@[i]
    }

    /// Internal consistency: parents stay inside the arena and agree
    /// with the representative map, representatives are fixpoints,
    /// roots are exactly the self-parented labels, and ranks strictly
    /// decrease along parent links.
    pub closed spec fn wf(self) -> bool {
        &&& self.parent@.len() == self.weight@.len()
        &&& self.rep@.len() == self.parent@.len()
        &&& self.depth@.len() == self.parent@.len()
        &&& forall|i: int|
            0 <= i < self.len() ==> 0 <= #[trigger] self.parent@[i] < self.len()
        &&& forall|i: int|
            0 <= i < self.len() ==> 0 <= #[trigger] self.rep@[i] < self.len()
        &&& forall|i: int|
            0 <= i < self.len()
                ==> #[trigger] self.rep@[self.parent@[i] as int] == self.rep@[i]
        &&& forall|i: int|
            0 <= i < self.len()
                ==> #[trigger] self.rep@[self.rep@[i]] == self.rep@[i]
        &&& forall|i: int|
            0 <= i < self.len()
                ==> ((#[trigger] self.parent@[i]) == i <==> self.rep@[i] == i)
        &&& forall|i: int|
            0 <= i < self.len() && #[trigger] self.parent@[i] != i
                ==> self.depth@[self.parent@[i] as int] < self.depth@[i]
    }

    /// A one-label arena: label 0 is its own class.
    pub fn new() -> (uf: Self)
        ensures
            uf.wf(),
            uf.len() == 1,
            uf.rep_of(0) == 0,
    {
        let ghost r0: Seq<int> = seq![0int];
        let ghost d0: Seq<nat> = seq![0nat];
        let uf = UnionFind {
            parent: vec![0u32],
            weight: vec![1u64],
            rep: Ghost(r0),
            depth: Ghost(d0),
        };
        proof {
            assert(uf.parent@[0] == 0);
        }
        uf
    }

    /// Append a fresh label that forms its own class.  The label must
    /// equal the current length, as labels are dense.
    pub fn push(&mut self, x: u32)
        requires
            old(self).wf(),
            x as int == old(self).len(),
        ensures
            final(self).wf(),
            final(self).len() == old(self).len() + 1,
            final(self).rep_of(x as int) == x as int,
            forall|i: int|
                0 <= i < old(self).len()
                    ==> final(self).rep_of(i) == old(self).rep_of(i),
    {
        self.parent.push(x);
        self.weight.push(1);
        proof {
            self.rep@ = self.rep@.push(x as int);
            self.depth@ = self.depth@.push(0nat);
        }
    }

    /// The representative of `x`'s class, compressing the path walked.
    /// No class changes.
    pub fn find(&mut self, x: u32) -> (r: u32)
        requires
            old(self).wf(),
            (x as int) < old(self).len(),
        ensures
            final(self).wf(),
            final(self).len() == old(self).len(),
            forall|i: int|
                0 <= i < old(self).len()
                    ==> final(self).rep_of(i) == old(self).rep_of(i),
            forall|i: int|
                0 <= i < old(self).len()
                    ==> final(self).depth_of(i) == old(self).depth_of(i),
            r as int == old(self).rep_of(x as int),
            (r as int) < old(self).len(),
            final(self).rep_of(r as int) == r as int,
            final(self).depth_of(r as int) <= old(self).depth_of(x as int),
        decreases old(self).depth_of(x as int),
    {
        let xi = x as usize;
        let p = self.parent[xi];
        if p == x {
            return x;
        }
        proof {
            assert(old(self).rep@[old(self).parent@[x as int] as int]
                == old(self).rep@[x as int]);
            assert(old(self).depth@[old(self).parent@[x as int] as int]
                < old(self).depth@[x as int]);
        }
        let r = self.find(p);
        let ghost pre = *self;
        proof {
            assert(pre.rep_of(p as int) == old(self).rep_of(p as int));
            assert(pre.rep_of(x as int) == old(self).rep_of(x as int));
            assert(pre.rep_of(r as int) == old(self).rep_of(r as int));
            assert(pre.depth_of(r as int) == old(self).depth_of(r as int));
            assert(pre.depth_of(p as int) == old(self).depth_of(p as int));
            assert(pre.depth_of(x as int) == old(self).depth_of(x as int));
            assert(pre.rep@[p as int] == old(self).rep@[p as int]);
            assert(r as int == pre.rep@[x as int]);
            assert(pre.rep@[pre.rep@[x as int]] == pre.rep@[x as int]);
            assert(pre.rep@[r as int] == r as int);
            assert(pre.parent@[r as int] == r);
            assert(pre.depth@[r as int] <= pre.depth@[p as int]);
        }
        self.parent.set(xi, r);
        proof {
            assert(self.parent@ =~= pre.parent@.update(x as int, r));
            assert forall|i: int|
                0 <= i < self.len() && #[trigger] self.parent@[i] != i
                implies self.depth@[self.parent@[i] as int] < self.depth@[i] by {
                if i == x as int {
                    assert(self.depth@[r as int] <= self.depth@[p as int]);
                    assert(self.depth@[p as int] < self.depth@[x as int]);
                } else {
                    assert(self.parent@[i] == pre.parent@[i]);
                }
            }
            assert forall|i: int|
                0 <= i < self.len()
                implies #[trigger] self.rep@[self.parent@[i] as int] == self.rep@[i] by {
                if i != x as int {
                    assert(self.parent@[i] == pre.parent@[i]);
                }
            }
            assert forall|i: int|
                0 <= i < self.len()
                implies ((#[trigger] self.parent@[i]) == i <==> self.rep@[i] == i) by {
                if i == x as int {
                    if r as int == x as int {
                        assert(self.rep@[i] == i);
                    } else {
                        assert(self.rep@[i] == r as int);
                    }
                } else {
                    assert(self.parent@[i] == pre.parent@[i]);
                }
            }
        }
        r
    }

    /// Merge the classes of `x` and `y`: afterwards every label of
    /// either class has one shared representative, which is the old
    /// representative of `x` or of `y`; all other classes are
    /// untouched.  Uniting two labels of one class changes nothing.
    pub fn unite(&mut self, x: u32, y: u32)
        requires
            old(self).wf(),
            (x as int) < old(self).len(),
            (y as int) < old(self).len(),
        ensures
            final(self).wf(),
            final(self).len() == old(self).len(),
            final(self).rep_of(x as int) == final(self).rep_of(y as int),
            (final(self).rep_of(x as int) == old(self).rep_of(x as int))
                || (final(self).rep_of(x as int) == old(self).rep_of(y as int)),
            forall|i: int|
                0 <= i < old(self).len()
                    ==> final(self).rep_of(i)
                        == if old(self).rep_of(i) == old(self).rep_of(x as int)
                            || old(self).rep_of(i) == old(self).rep_of(y as int) {
                            final(self).rep_of(x as int)
                        } else {
                            old(self).rep_of(i)
                        },
    {
        let xr = self.find(x);
        let yr = self.find(y);
        if xr == yr {
            return;
        }
        let ghost pre = *self;
        proof {
            assert(pre.rep@[xr as int] == xr as int);
            assert(pre.rep@[yr as int] == yr as int);
            assert(pre.parent@[xr as int] == xr);
            assert(pre.parent@[yr as int] == yr);
        }
        let wx = self.weight[xr as usize];
        let wy = self.weight[yr as usize];
        let ws = if wx > u64::MAX - wy {
            u64::MAX
        } else {
            wx + wy
        };
        let (a, b) = if wy > wx { (xr, yr) } else { (yr, xr) };
        self.parent.set(a as usize, b);
        self.weight.set(b as usize, ws);
        proof {
            let old_rep = pre.rep@;
            let old_depth = pre.depth@;
            let bump = old_depth[b as int] + 1;
            self.rep@ = Seq::new(old_rep.len(), |i: int|
                if old_rep[i] == a as int { b as int } else { old_rep[i] });
            self.depth@ = Seq::new(old_depth.len(), |i: int|
                if old_rep[i] == a as int { (old_depth[i] + bump) as nat } else { old_depth[i] });
            assert(self.parent@ =~= pre.parent@.update(a as int, b));
            assert forall|i: int|
                0 <= i < self.len() && #[trigger] self.parent@[i] != i
                implies self.depth@[self.parent@[i] as int] < self.depth@[i] by {
                if i == a as int {
                    assert(self.parent@[i] == b);
                    assert(old_rep[b as int] != a as int);
                    assert(self.depth@[b as int] == old_depth[b as int]);
                    assert(self.depth@[a as int] == old_depth[a as int] + bump);
                } else {
                    assert(self.parent@[i] == pre.parent@[i]);
                    if pre.parent@[i] != i {
                        let p = pre.parent@[i] as int;
                        assert(old_depth[p] < old_depth[i]);
                        assert(old_rep[p] == old_rep[i]);
                        if old_rep[i] == a as int {
                            assert(self.depth@[i] == old_depth[i] + bump);
                            assert(self.depth@[p] == old_depth[p] + bump);
                        } else {
                            assert(self.depth@[i] == old_depth[i]);
                            assert(self.depth@[p] == old_depth[p]);
                        }
                    }
                }
            }
            assert forall|i: int|
                0 <= i < self.len()
                implies #[trigger] self.rep@[self.parent@[i] as int] == self.rep@[i] by {
                if i == a as int {
                    assert(self.rep@[b as int] == b as int);
                    assert(self.rep@[a as int] == b as int);
                } else {
                    assert(self.parent@[i] == pre.parent@[i]);
                    assert(old_rep[pre.parent@[i] as int] == old_rep[i]);
                }
            }
            assert forall|i: int|
                0 <= i < self.len()
                implies #[trigger] self.rep@[self.rep@[i]] == self.rep@[i] by {
                if old_rep[i] == a as int {
                    assert(self.rep@[i] == b as int);
                    assert(self.rep@[b as int] == b as int);
                } else {
                    assert(self.rep@[i] == old_rep[i]);
                    assert(old_rep[old_rep[i]] == old_rep[i]);
                }
            }
            assert forall|i: int|
                0 <= i < self.len()
                implies ((#[trigger] self.parent@[i]) == i <==> self.rep@[i] == i) by {
                if i == a as int {
                    assert(self.parent@[i] == b);
                    assert(self.rep@[i] == b as int);
                } else {
                    assert(self.parent@[i] == pre.parent@[i]);
                    if old_rep[i] == a as int {
                        assert(pre.parent@[i] != i) by {
                            if pre.parent@[i] == i {
                                assert(old_rep[i] == i);
                            }
                        }
                        assert(self.rep@[i] == b as int);
                        assert(self.rep@[i] != i) by {
                            if b as int == i {
                                assert(old_rep[i] == b as int);
                            }
                        }
                    } else {
                        assert(self.rep@[i] == old_rep[i]);
                    }
                }
            }
        }
    }
}

} // verus!
