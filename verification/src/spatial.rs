//! A uniform-grid spatial index over actor positions.
//!
//! Rebuilt from scratch every tick: each inserted handle lands in the grid
//! cell its position falls into, and [`SpatialIndex::query_around`] hands
//! back every handle recorded within a square of the given radius — an
//! over-approximation that may include farther handles, but never misses one
//! inside the square.

use vstd::prelude::*;

use crate::arena::Handle;
use crate::fixed::POS_LIMIT;
use crate::vec2::Vec2;

verus! {

/// Grid cell edge length (milli-units): one world unit.
pub const CELL_SIZE: i64 = 1000;

/// One grid cell: its coordinates and the handles recorded in it.
pub struct GridCell {
    pub cx: i64,
    pub cy: i64,
    pub items: Vec<(Handle, Vec2)>,
}

/// The cell coordinate a scalar falls into.
pub open spec fn spec_cell_coord(v: int) -> int {
    v / (CELL_SIZE as int)
}

/// Computes the cell coordinate: the division rounded toward minus
/// infinity.
pub fn cell_coord(v: i64) -> (r: i64)
    requires
        -4_000_000_000 <= v <= 4_000_000_000,
    ensures
        r == spec_cell_coord(v as int),
{
    if v >= 0 {
        ((v as u64) / (CELL_SIZE as u64)) as i64
    } else {
        let m = (-v) as u64;
        let k = ((m + 999) / (CELL_SIZE as u64)) as i64;
        proof {
            let mi = m as int;
            vstd::arithmetic::div_mod::lemma_fundamental_div_mod(mi + 999, 1000);
            let ki = k as int;
            assert(mi <= ki * 1000 <= mi + 999);
            vstd::arithmetic::div_mod::lemma_fundamental_div_mod_converse_div(
                v as int,
                1000,
                -ki,
                ki * 1000 - mi,
            );
        }
        -k
    }
}

/// The spatial index: a list of non-empty cells with distinct coordinates.
pub struct SpatialIndex {
    /// The grid cells.
    pub cells: Vec<GridCell>,
    /// Everything inserted so far, in order.
    pub entries: Ghost<Seq<(Handle, Vec2)>>,
}

impl SpatialIndex {
    /// Cells hold exactly the recorded entries, in the cell their position
    /// falls into, and no two cells share coordinates.
    pub open spec fn wf(self) -> bool {
        &&& forall|i: int, j: int|
            0 <= i < self.cells@.len() && 0 <= j < self.cells@[i].items@.len() ==> {
                let e = #[trigger] self.cells@[i].items@[j];
                &&& self.entries@.contains(e)
                &&& self.cells@[i].cx == spec_cell_coord(e.1.x as int)
                &&& self.cells@[i].cy == spec_cell_coord(e.1.y as int)
            }
        &&& forall|k: int|
            0 <= k < self.entries@.len() ==> {
                let e = #[trigger] self.entries@[k];
                exists|i: int|
                    0 <= i < self.cells@.len() && (#[trigger] self.cells@[i]).cx == spec_cell_coord(
                        e.1.x as int,
                    ) && self.cells@[i].cy == spec_cell_coord(e.1.y as int)
                        && self.cells@[i].items@.contains(e)
            }
        &&& forall|k: int|
            0 <= k < self.entries@.len() ==> (#[trigger] self.entries@[k]).1.in_bounds(
                POS_LIMIT as int,
            )
    }

    /// An empty index.
    pub fn new() -> (r: SpatialIndex)
        ensures
            r.wf(),
            r.entries@.len() == 0,
    {
        SpatialIndex { cells: Vec::new(), entries: Ghost(Seq::empty()) }
    }

    /// Records a handle at a position.
    pub fn insert(&mut self, h: Handle, p: Vec2)
        requires
            old(self).wf(),
            p.in_bounds(POS_LIMIT as int),
        ensures
            final(self).wf(),
            final(self).entries@ == old(self).entries@.push((h, p)),
    {
        let cx = cell_coord(p.x);
        let cy = cell_coord(p.y);
        let e = (h, p);
        proof {
            self.entries@ = self.entries@.push(e);
        }
        let n = self.cells.len();
        let mut i: usize = 0;
        while i < n
            invariant
                i <= n,
                n == self.cells@.len(),
                cx == spec_cell_coord(p.x as int),
                cy == spec_cell_coord(p.y as int),
                self.entries@ == old(self).entries@.push(e),
                e == (h, p),
                p.in_bounds(POS_LIMIT as int),
                old(self).wf(),
                self.cells@ == old(self).cells@,
                forall|j: int|
                    0 <= j < i ==> !((#[trigger] self.cells@[j]).cx == cx && self.cells@[j].cy
                        == cy),
            decreases n - i,
        {
            if self.cells[i].cx == cx && self.cells[i].cy == cy {
                let cell = &mut self.cells[i];
                cell.items.push(e);
                proof {
                    lemma_wf_after_bucket_push(*old(self), *self, i as int, e);
                }
                return ;
            }
            i = i + 1;
        }
        let mut items: Vec<(Handle, Vec2)> = Vec::new();
        items.push(e);
        self.cells.push(GridCell { cx, cy, items });
        proof {
            lemma_wf_after_cell_push(*old(self), *self, e);
        }
    }

    /// Every handle recorded within the square of side `2 * radius` around
    /// `center` is in the result.
    pub fn query_around(&self, center: Vec2, radius: i64) -> (out: Vec<Handle>)
        requires
            self.wf(),
            center.in_bounds(3_000_000_000),
            0 <= radius <= 1_000_000_000,
        ensures
            forall|k: int|
                0 <= k < self.entries@.len() && within_square(
                    (#[trigger] self.entries@[k]).1,
                    center,
                    radius as int,
                ) ==> out@.contains(self.entries@[k].0),
    {
        let cx_lo = cell_coord(center.x - radius);
        let cx_hi = cell_coord(center.x + radius);
        let cy_lo = cell_coord(center.y - radius);
        let cy_hi = cell_coord(center.y + radius);
        let mut out: Vec<Handle> = Vec::new();
        let n = self.cells.len();
        let mut i: usize = 0;
        while i < n
            invariant
                i <= n,
                n == self.cells@.len(),
                self.wf(),
                cx_lo == spec_cell_coord(center.x - radius),
                cx_hi == spec_cell_coord(center.x + radius),
                cy_lo == spec_cell_coord(center.y - radius),
                cy_hi == spec_cell_coord(center.y + radius),
                forall|ci: int, j: int|
                    0 <= ci < i && 0 <= j < self.cells@[ci].items@.len() && cx_lo <= (
                    #[trigger] self.cells@[ci]).cx <= cx_hi && cy_lo <= self.cells@[ci].cy <= cy_hi
                        ==> out@.contains((#[trigger] self.cells@[ci].items@[j]).0),
            decreases n - i,
        {
            let c = &self.cells[i];
            if cx_lo <= c.cx && c.cx <= cx_hi && cy_lo <= c.cy && c.cy <= cy_hi {
                let m = c.items.len();
                let mut j: usize = 0;
                while j < m
                    invariant
                        j <= m,
                        i < n,
                        n == self.cells@.len(),
                        *c == self.cells@[i as int],
                        m == self.cells@[i as int].items@.len(),
                        self.wf(),
                        forall|jj: int|
                            0 <= jj < j ==> out@.contains(
                                (#[trigger] self.cells@[i as int].items@[jj]).0,
                            ),
                        forall|ci: int, jj: int|
                            0 <= ci < i && 0 <= jj < self.cells@[ci].items@.len() && cx_lo <= (
                            #[trigger] self.cells@[ci]).cx <= cx_hi && cy_lo <= self.cells@[ci].cy
                                <= cy_hi ==> out@.contains(
                                (#[trigger] self.cells@[ci].items@[jj]).0,
                            ),
                    decreases m - j,
                {
                    let ghost prev = out@;
                    out.push(c.items[j].0);
                    proof {
                        assert forall|jj: int| 0 <= jj < j + 1 implies out@.contains(
                            (#[trigger] self.cells@[i as int].items@[jj]).0,
                        ) by {
                            if jj < j {
                                assert(prev.contains(self.cells@[i as int].items@[jj].0));
                                let w = choose|w: int|
                                    0 <= w < prev.len() && prev[w] == self.cells@[i as int].items@[jj].0;
                                assert(out@[w] == self.cells@[i as int].items@[jj].0);
                            } else {
                                assert(out@[out@.len() - 1] == self.cells@[i as int].items@[j as int].0);
                            }
                        }
                        assert forall|ci: int, jj: int|
                            0 <= ci < i && 0 <= jj < self.cells@[ci].items@.len() && cx_lo <= (
                            #[trigger] self.cells@[ci]).cx <= cx_hi && cy_lo <= self.cells@[ci].cy
                                <= cy_hi implies out@.contains(
                            (#[trigger] self.cells@[ci].items@[jj]).0,
                        ) by {
                            assert(prev.contains(self.cells@[ci].items@[jj].0));
                            let w = choose|w: int|
                                0 <= w < prev.len() && prev[w] == self.cells@[ci].items@[jj].0;
                            assert(out@[w] == self.cells@[ci].items@[jj].0);
                        }
                    }
                    j = j + 1;
                }
            }
            i = i + 1;
        }
        proof {
            assert forall|k: int|
                0 <= k < self.entries@.len() && within_square(
                    (#[trigger] self.entries@[k]).1,
                    center,
                    radius as int,
                ) implies out@.contains(self.entries@[k].0) by {
                let e = self.entries@[k];
                let ci = choose|ci: int|
                    0 <= ci < self.cells@.len() && (#[trigger] self.cells@[ci]).cx
                        == spec_cell_coord(e.1.x as int) && self.cells@[ci].cy == spec_cell_coord(
                        e.1.y as int,
                    ) && self.cells@[ci].items@.contains(e);
                lemma_cell_in_range(e.1.x as int, center.x as int, radius as int);
                lemma_cell_in_range(e.1.y as int, center.y as int, radius as int);
                let j = choose|j: int|
                    0 <= j < self.cells@[ci].items@.len() && self.cells@[ci].items@[j] == e;
            }
        }
        out
    }
}

/// `p` lies within the axis-aligned square of half side `r` around `c`.
pub open spec fn within_square(p: Vec2, c: Vec2, r: int) -> bool {
    &&& c.x - r <= p.x <= c.x + r
    &&& c.y - r <= p.y <= c.y + r
}

/// A scalar within `[c - r, c + r]` falls into a cell between the cells of
/// the interval's ends.
proof fn lemma_cell_in_range(v: int, c: int, r: int)
    requires
        c - r <= v <= c + r,
    ensures
        spec_cell_coord(c - r) <= spec_cell_coord(v) <= spec_cell_coord(c + r),
{
    vstd::arithmetic::div_mod::lemma_div_is_ordered(c - r, v, 1000);
    vstd::arithmetic::div_mod::lemma_div_is_ordered(v, c + r, 1000);
}

/// Pushing an entry onto the bucket of its own cell preserves
/// well-formedness.
proof fn lemma_wf_after_bucket_push(
    pre: SpatialIndex,
    post: SpatialIndex,
    ci: int,
    e: (Handle, Vec2),
)
    requires
        pre.wf(),
        0 <= ci < pre.cells@.len(),
        post.cells@.len() == pre.cells@.len(),
        forall|i: int| 0 <= i < post.cells@.len() && i != ci ==> post.cells@[i] == pre.cells@[i],
        post.cells@[ci].cx == pre.cells@[ci].cx,
        post.cells@[ci].cy == pre.cells@[ci].cy,
        post.cells@[ci].items@ == pre.cells@[ci].items@.push(e),
        post.entries@ == pre.entries@.push(e),
        pre.cells@[ci].cx == spec_cell_coord(e.1.x as int),
        pre.cells@[ci].cy == spec_cell_coord(e.1.y as int),
        e.1.in_bounds(POS_LIMIT as int),
    ensures
        post.wf(),
{
    assert forall|i: int, j: int|
        0 <= i < post.cells@.len() && 0 <= j < post.cells@[i].items@.len() implies {
        let x = #[trigger] post.cells@[i].items@[j];
        &&& post.entries@.contains(x)
        &&& post.cells@[i].cx == spec_cell_coord(x.1.x as int)
        &&& post.cells@[i].cy == spec_cell_coord(x.1.y as int)
    } by {
        let x = post.cells@[i].items@[j];
        if i == ci && j == post.cells@[i].items@.len() - 1 {
            assert(x == e);
            assert(post.entries@[post.entries@.len() - 1] == e);
        } else {
            assert(x == pre.cells@[i].items@[j]);
            assert(pre.entries@.contains(x));
            let k = choose|k: int| 0 <= k < pre.entries@.len() && pre.entries@[k] == x;
            assert(post.entries@[k] == x);
        }
    }
    assert forall|k: int| 0 <= k < post.entries@.len() implies {
        let x = #[trigger] post.entries@[k];
        exists|i: int|
            0 <= i < post.cells@.len() && (#[trigger] post.cells@[i]).cx == spec_cell_coord(
                x.1.x as int,
            ) && post.cells@[i].cy == spec_cell_coord(x.1.y as int) && post.cells@[i].items@.contains(
                x,
            )
    } by {
        let x = post.entries@[k];
        if k == post.entries@.len() - 1 {
            assert(x == e);
            assert(post.cells@[ci].items@[post.cells@[ci].items@.len() - 1] == e);
            assert(post.cells@[ci].items@.contains(x));
        } else {
            assert(x == pre.entries@[k]);
            let i = choose|i: int|
                0 <= i < pre.cells@.len() && (#[trigger] pre.cells@[i]).cx == spec_cell_coord(
                    x.1.x as int,
                ) && pre.cells@[i].cy == spec_cell_coord(x.1.y as int)
                    && pre.cells@[i].items@.contains(x);
            if i == ci {
                let j = choose|j: int|
                    0 <= j < pre.cells@[ci].items@.len() && pre.cells@[ci].items@[j] == x;
                assert(post.cells@[ci].items@[j] == x);
                assert(post.cells@[ci].items@.contains(x));
            } else {
                assert(post.cells@[i] == pre.cells@[i]);
            }
        }
    }
}

/// Appending a brand-new cell holding exactly the new entry preserves
/// well-formedness.
proof fn lemma_wf_after_cell_push(pre: SpatialIndex, post: SpatialIndex, e: (Handle, Vec2))
    requires
        pre.wf(),
        post.cells@.len() == pre.cells@.len() + 1,
        forall|i: int| 0 <= i < pre.cells@.len() ==> post.cells@[i] == pre.cells@[i],
        post.cells@[post.cells@.len() - 1].cx == spec_cell_coord(e.1.x as int),
        post.cells@[post.cells@.len() - 1].cy == spec_cell_coord(e.1.y as int),
        post.cells@[post.cells@.len() - 1].items@ == seq![e],
        post.entries@ == pre.entries@.push(e),
        e.1.in_bounds(POS_LIMIT as int),
    ensures
        post.wf(),
{
    let last = post.cells@.len() - 1;
    assert forall|i: int, j: int|
        0 <= i < post.cells@.len() && 0 <= j < post.cells@[i].items@.len() implies {
        let x = #[trigger] post.cells@[i].items@[j];
        &&& post.entries@.contains(x)
        &&& post.cells@[i].cx == spec_cell_coord(x.1.x as int)
        &&& post.cells@[i].cy == spec_cell_coord(x.1.y as int)
    } by {
        let x = post.cells@[i].items@[j];
        if i == last {
            assert(x == e);
            assert(post.entries@[post.entries@.len() - 1] == e);
        } else {
            assert(post.cells@[i] == pre.cells@[i]);
            assert(x == pre.cells@[i].items@[j]);
            assert(pre.entries@.contains(x));
            let k = choose|k: int| 0 <= k < pre.entries@.len() && pre.entries@[k] == x;
            assert(post.entries@[k] == x);
        }
    }
    assert forall|k: int| 0 <= k < post.entries@.len() implies {
        let x = #[trigger] post.entries@[k];
        exists|i: int|
            0 <= i < post.cells@.len() && (#[trigger] post.cells@[i]).cx == spec_cell_coord(
                x.1.x as int,
            ) && post.cells@[i].cy == spec_cell_coord(x.1.y as int) && post.cells@[i].items@.contains(
                x,
            )
    } by {
        let x = post.entries@[k];
        if k == post.entries@.len() - 1 {
            assert(x == e);
            assert(post.cells@[last].items@[0] == e);
            assert(post.cells@[last].items@.contains(x));
        } else {
            assert(x == pre.entries@[k]);
            let i = choose|i: int|
                0 <= i < pre.cells@.len() && (#[trigger] pre.cells@[i]).cx == spec_cell_coord(
                    x.1.x as int,
                ) && pre.cells@[i].cy == spec_cell_coord(x.1.y as int)
                    && pre.cells@[i].items@.contains(x);
            assert(post.cells@[i] == pre.cells@[i]);
        }
    }
}

} // verus!
