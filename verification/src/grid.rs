//! Row-major two-dimensional buffers.
//!
//! Every pipeline stage reads and writes `Grid` buffers of exactly
//! `w * h` elements; the well-formedness predicate `wf` captures that
//! invariant and every stage's contract preserves it.

use vstd::prelude::*;

verus! {

/// A row-major `h` by `w` buffer: the element at row `y`, column `x`
/// lives at index `y * w + x`.
pub struct Grid<T> {
    pub w: usize,
    pub h: usize,
    pub data: Vec<T>,
}

/// Row-major index arithmetic stays inside the buffer.
pub proof fn lemma_row_major(y: int, x: int, h: int, w: int)
    by (nonlinear_arith)
    requires
        0 <= y < h,
        0 <= x < w,
    ensures
        0 <= y * w + x < h * w,
{
}

impl<T> Grid<T> {
    /// The buffer holds exactly one element per pixel.
    pub open spec fn wf(self) -> bool {
        self.data.len() == self.h * self.w
    }

    /// The element at row `y`, column `x`.
    pub open spec fn at(self, y: int, x: int) -> T {
        self.data@[y * self.w + x]
    }

    /// Two grids have the same dimensions.
    pub open spec fn same_dim<U>(self, other: Grid<U>) -> bool {
        self.w == other.w && self.h == other.h
    }
}

impl<T: Copy> Grid<T> {
    /// A fresh `h` by `w` grid, every element `v`.
    pub fn new_fill(h: usize, w: usize, v: T) -> (g: Grid<T>)
        requires
            h * w <= usize::MAX,
        ensures
            g.wf(),
            g.h == h,
            g.w == w,
            forall|y: int, x: int|
                0 <= y < h && 0 <= x < w ==> g.at(y, x) == v,
    {
        let n: usize = h * w;
        let mut data: Vec<T> = Vec::new();
        let mut i: usize = 0;
        while i < n
            invariant
                i <= n,
                data.len() == i,
                forall|k: int| 0 <= k < i ==> data@[k] == v,
            decreases n - i,
        {
            data.push(v);
            i = i + 1;
        }
        let g = Grid { w, h, data };
        proof {
            assert forall|y: int, x: int|
                0 <= y < h && 0 <= x < w implies g.at(y, x) == v by {
                lemma_row_major(y, x, h as int, w as int);
            }
        }
        g
    }

    /// Read one element.
    pub fn get(&self, y: usize, x: usize) -> (r: T)
        requires
            self.wf(),
            y < self.h,
            x < self.w,
        ensures
            r == self.at(y as int, x as int),
    {
        proof {
            lemma_row_major(y as int, x as int, self.h as int, self.w as int);
        }
        self.data[y * self.w + x]
    }

    /// Overwrite one element; every other element is kept.
    pub fn put(&mut self, y: usize, x: usize, v: T)
        requires
            old(self).wf(),
            y < old(self).h,
            x < old(self).w,
        ensures
            final(self).wf(),
            final(self).same_dim(*old(self)),
            final(self).at(y as int, x as int) == v,
            forall|yy: int, xx: int|
                0 <= yy < old(self).h && 0 <= xx < old(self).w
                    && !(yy == y && xx == x)
                    ==> final(self).at(yy, xx) == old(self).at(yy, xx),
    {
        proof {
            lemma_row_major(y as int, x as int, self.h as int, self.w as int);
        }
        let i: usize = y * self.w + x;
        self.data.set(i, v);
        proof {
            assert forall|yy: int, xx: int|
                0 <= yy < old(self).h && 0 <= xx < old(self).w
                    && !(yy == y && xx == x)
                    implies final(self).at(yy, xx) == old(self).at(yy, xx) by {
                lemma_row_major(yy, xx, self.h as int, self.w as int);
                if yy * self.w + xx == y * self.w + x {
                    assert(yy == y && xx == x) by (nonlinear_arith)
                        requires
                            yy * self.w + xx == y * self.w + x,
                            0 <= xx < self.w,
                            0 <= x < self.w,
                            0 <= yy,
                            0 <= y,
                    ;
                }
            }
        }
    }

    /// An element-for-element copy.
    pub fn duplicate(&self) -> (r: Grid<T>)
        requires
            self.wf(),
        ensures
            r.wf(),
            r.same_dim(*self),
            forall|y: int, x: int|
                0 <= y < self.h && 0 <= x < self.w ==> r.at(y, x) == self.at(y, x),
            r.data@ == self.data@,
    {
        let mut data: Vec<T> = Vec::new();
        let n: usize = self.data.len();
        let mut i: usize = 0;
        while i < n
            invariant
                i <= n,
                n == self.data.len(),
                data.len() == i,
                forall|k: int| 0 <= k < i ==> data@[k] == self.data@[k],
            decreases n - i,
        {
            data.push(self.data[i]);
            i = i + 1;
        }
        proof {
            assert(data@ =~= self.data@);
        }
        Grid { w: self.w, h: self.h, data }
    }
}

} // verus!
