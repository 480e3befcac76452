//! The mathematical model of a node tree and of what a layout pass makes
//! of it.

use vstd::prelude::*;
use crate::geometry::{placements, DynLen, Frame, Layout, LayoutError, Placement, Rect};

verus! {

/// A node tree as a value: what a `Node` stands for.
pub struct Tree {
    pub id: u32,
    pub axis: Layout,
    pub size: DynLen,
    pub children: Seq<Tree>,
}

impl Tree {
    /// A node without children.
    pub open spec fn leaf(id: u32, axis: Layout, size: DynLen) -> Tree {
        Tree { id, axis, size, children: Seq::empty() }
    }

    /// The same node with `child` added behind its children.
    pub open spec fn with_child(self, child: Tree) -> Tree {
        Tree { children: self.children.push(child), ..self }
    }

    /// The same node with `more` added behind its children.
    pub open spec fn with_children(self, more: Seq<Tree>) -> Tree {
        Tree { children: self.children + more, ..self }
    }

    /// The number of nodes in the tree.
    pub open spec fn count(self) -> nat
        decreases self, self.children.len() + 1,
    {
        1 + self.count_within(self.children.len() as int)
    }

    /// The number of nodes under the first `k` children, themselves included.
    pub open spec fn count_within(self, k: int) -> nat
        decreases self, k,
    {
        if 0 < k <= self.children.len() {
            self.count_within(k - 1) + self.children[k - 1].count()
        } else {
            0
        }
    }

    /// The number of levels below the root: 0 for a node without children.
    pub open spec fn height(self) -> nat
        decreases self, self.children.len() + 1,
    {
        self.height_within(self.children.len() as int)
    }

    /// The number of levels that the first `k` children add below this node.
    pub open spec fn height_within(self, k: int) -> nat
        decreases self, k,
    {
        if 0 < k <= self.children.len() {
            let rest = self.height_within(k - 1);
            let here = self.children[k - 1].height() + 1;
            if rest >= here { rest } else { here }
        } else {
            0
        }
    }

    /// The ids of the nodes, each node behind all nodes below it, children
    /// in their order.
    pub open spec fn postorder_ids(self) -> Seq<u32>
        decreases self, self.children.len() + 1,
    {
        self.postorder_ids_within(self.children.len() as int).push(self.id)
    }

    /// The ids of the nodes under the first `k` children, in the same
    /// order.
    pub open spec fn postorder_ids_within(self, k: int) -> Seq<u32>
        decreases self, k,
    {
        if 0 < k <= self.children.len() {
            self.postorder_ids_within(k - 1) + self.children[k - 1].postorder_ids()
        } else {
            Seq::empty()
        }
    }

    /// What a buffer for the tree holds before the first pass: a blank
    /// placement for each node, in the order of `postorder_ids`.
    pub open spec fn placeholders(self) -> Seq<Placement> {
        self.postorder_ids().map_values(|id: u32| Placement::blank(id))
    }

    /// The extent along this node's main axis of a frame `w` wide and `h`
    /// high.
    pub open spec fn main_extent(self, w: int, h: int) -> int {
        match self.axis {
            Layout::Horizontal => w,
            Layout::Vertical => h,
        }
    }

    /// The extent across this node's main axis of a frame `w` wide and `h`
    /// high.
    pub open spec fn cross_extent(self, w: int, h: int) -> int {
        match self.axis {
            Layout::Horizontal => h,
            Layout::Vertical => w,
        }
    }

    /// Where a frame begins along this node's main axis.
    pub open spec fn main_origin(self, f: Frame) -> int {
        match self.axis {
            Layout::Horizontal => f.x,
            Layout::Vertical => f.y,
        }
    }

    /// Where a frame begins across this node's main axis.
    pub open spec fn cross_origin(self, f: Frame) -> int {
        match self.axis {
            Layout::Horizontal => f.y,
            Layout::Vertical => f.x,
        }
    }

    /// The fixed lengths of the first `k` children, added up.
    pub open spec fn fixed_sum(self, k: int) -> int
        decreases k,
    {
        if 0 < k <= self.children.len() {
            self.fixed_sum(k - 1) + self.children[k - 1].size.fixed()
        } else {
            0
        }
    }

    /// The weights of the relative ones among the first `k` children, added
    /// up.
    pub open spec fn weight_sum(self, k: int) -> int
        decreases k,
    {
        if 0 < k <= self.children.len() {
            self.weight_sum(k - 1) + self.children[k - 1].size.weight()
        } else {
            0
        }
    }

    /// How many of the first `k` children are relative.
    pub open spec fn relative_count(self, k: int) -> int
        decreases k,
    {
        if 0 < k <= self.children.len() {
            self.relative_count(k - 1) + if self.children[k - 1].size.is_relative() {
                1int
            } else {
                0int
            }
        } else {
            0
        }
    }

    /// What the fixed children leave of the main extent.
    pub open spec fn free_space(self, w: int, h: int) -> int {
        self.main_extent(w, h) - self.fixed_sum(self.children.len() as int)
    }

    /// The weights of all relative children, added up.
    pub open spec fn total_weight(self) -> int {
        self.weight_sum(self.children.len() as int)
    }

    /// Where the shares of the first `k` children end, measured from where
    /// the shares begin: their part of the free space, by weight, rounded
    /// down to whole units. Each end is rounded by itself, so what rounding
    /// takes from one child the next one gets, and the last share ends
    /// where the free space ends.
    pub open spec fn share_end(self, k: int, w: int, h: int) -> int {
        if self.total_weight() > 0 {
            self.free_space(w, h) * self.weight_sum(k) / self.total_weight()
        } else {
            0
        }
    }

    /// Where child `i` begins, measured from the node's own origin: behind
    /// the fixed lengths and the shares of the children before it.
    pub open spec fn child_offset(self, i: int, w: int, h: int) -> int {
        self.fixed_sum(i) + self.share_end(i, w, h)
    }

    /// The length of child `i` along the main axis: its own if it is fixed,
    /// else from the end of the shares before it to the end of its own
    /// share, which is within one unit of its part of the free space.
    pub open spec fn child_len(self, i: int, w: int, h: int) -> int {
        match self.children[i].size {
            DynLen::Absolute(l) => l as int,
            DynLen::Relative(_) => self.share_end(i + 1, w, h) - self.share_end(i, w, h),
        }
    }

    /// The main-axis lengths of the first `k` children, added up.
    pub open spec fn length_sum(self, k: int, w: int, h: int) -> int
        decreases k,
    {
        if 0 < k <= self.children.len() {
            self.length_sum(k - 1, w, h) + self.child_len(k - 1, w, h)
        } else {
            0
        }
    }

    /// The width of child `i`: its length where the children lie side by
    /// side, else the node's own width.
    pub open spec fn child_w(self, i: int, w: int, h: int) -> int {
        match self.axis {
            Layout::Horizontal => self.child_len(i, w, h),
            Layout::Vertical => w,
        }
    }

    /// The height of child `i`: its length where the children lie one
    /// below the other, else the node's own height.
    pub open spec fn child_h(self, i: int, w: int, h: int) -> int {
        match self.axis {
            Layout::Horizontal => h,
            Layout::Vertical => self.child_len(i, w, h),
        }
    }

    /// The frame of child `i` when this node has the frame `f`: children
    /// lie one behind the other along the main axis, from the node's origin
    /// on, and span the node across it.
    pub open spec fn child_frame(self, i: int, f: Frame) -> Frame {
        match self.axis {
            Layout::Horizontal => Frame {
                x: f.x + self.child_offset(i, f.w, f.h),
                y: f.y,
                w: self.child_w(i, f.w, f.h),
                h: self.child_h(i, f.w, f.h),
            },
            Layout::Vertical => Frame {
                x: f.x,
                y: f.y + self.child_offset(i, f.w, f.h),
                w: self.child_w(i, f.w, f.h),
                h: self.child_h(i, f.w, f.h),
            },
        }
    }

    /// The fault of this node taken alone, `w` wide and `h` high, if it has
    /// one. Too little space is told before weights that add up to zero.
    pub open spec fn local_error(self, w: int, h: int) -> Option<LayoutError> {
        if self.free_space(w, h) <= 0 {
            Some(LayoutError::InsufficientSpace(self.id))
        } else if self.relative_count(self.children.len() as int) > 0 && self.total_weight()
            == 0 {
            Some(LayoutError::ZeroWeightDivision(self.id))
        } else {
            None
        }
    }

    /// The first fault in the tree when its root is `w` wide and `h` high:
    /// a node comes before the nodes below it, and a child with all below
    /// it before the next child. `None` where every node can be placed.
    pub open spec fn first_error(self, w: int, h: int) -> Option<LayoutError>
        decreases self, self.children.len() + 1,
    {
        match self.local_error(w, h) {
            Some(e) => Some(e),
            None => self.error_within(self.children.len() as int, w, h),
        }
    }

    /// The first fault under the first `k` children, each taken with its
    /// own width and height.
    pub open spec fn error_within(self, k: int, w: int, h: int) -> Option<LayoutError>
        decreases self, k,
    {
        if 0 < k <= self.children.len() {
            match self.error_within(k - 1, w, h) {
                Some(e) => Some(e),
                None => self.children[k - 1].first_error(
                    self.child_w(k - 1, w, h),
                    self.child_h(k - 1, w, h),
                ),
            }
        } else {
            None
        }
    }

    /// What a pass over the tree writes, in order: for each child all that
    /// lies under it, then the node itself. The node has the frame `f` and
    /// the layer `layer`; its children lie one layer above.
    pub open spec fn placed(self, f: Frame, layer: int) -> Seq<Placement>
        decreases self, self.children.len() + 1,
    {
        self.placed_within(self.children.len() as int, f, layer).push(
            Placement { id: self.id, frame: f, layer },
        )
    }

    /// What a pass writes for the first `k` children.
    pub open spec fn placed_within(self, k: int, f: Frame, layer: int) -> Seq<Placement>
        decreases self, k,
    {
        if 0 < k <= self.children.len() {
            self.placed_within(k - 1, f, layer) + self.children[k - 1].placed(
                self.child_frame(k - 1, f),
                layer + 1,
            )
        } else {
            Seq::empty()
        }
    }

    /// What a pass over the tree returns when it is given `slots` slots and
    /// the root is `w` wide and `h` high: the number of nodes, the fault of
    /// a buffer that cannot hold them, or else the first fault in the tree.
    pub open spec fn outcome(self, slots: nat, w: int, h: int) -> Result<nat, LayoutError> {
        if slots < self.count() {
            Err(LayoutError::BufferTooSmall(self.id))
        } else {
            match self.first_error(w, h) {
                Some(e) => Err(e),
                None => Ok(self.count()),
            }
        }
    }

    /// Whether `r` is what a pass returns: the number of nodes as the count
    /// of rectangles written, or the fault.
    pub open spec fn reports(self, slots: nat, w: int, h: int, r: Result<usize, LayoutError>) -> bool {
        match r {
            Ok(n) => self.outcome(slots, w, h) == Ok::<nat, LayoutError>(n as nat),
            Err(e) => self.outcome(slots, w, h) == Err::<nat, LayoutError>(e),
        }
    }

    /// What a pass over the tree makes of the buffer `before`: where it
    /// succeeds, the first slots hold what `placed` says and the others are
    /// as they were; where it fails, no slot has changed.
    pub open spec fn fills(self, before: Seq<Rect>, f: Frame, layer: int, after: Seq<Rect>) -> bool {
        match self.outcome(before.len(), f.w, f.h) {
            Ok(n) => {
                &&& after.len() == before.len()
                &&& placements(after.take(n as int)) == self.placed(f, layer)
                &&& after.skip(n as int) == before.skip(n as int)
            },
            Err(_) => after == before,
        }
    }

    /// Whether `path` leads from this node down to a node of the tree: each
    /// entry is the index of a child of the node reached so far.
    pub open spec fn has_path(self, path: Seq<int>) -> bool
        decreases path.len(),
    {
        path.len() == 0 || (0 <= path[0] < self.children.len() && self.children[path[0]].has_path(
            path.skip(1),
        ))
    }

    /// The node that `path` leads to.
    pub open spec fn node_at(self, path: Seq<int>) -> Tree
        decreases path.len(),
    {
        if path.len() == 0 {
            self
        } else {
            self.children[path[0]].node_at(path.skip(1))
        }
    }

    /// The slot of the buffer that a pass writes the node at `path` to.
    pub open spec fn slot_at(self, path: Seq<int>) -> int
        decreases path.len(),
    {
        if path.len() == 0 {
            self.count() - 1
        } else {
            self.count_within(path[0]) + self.children[path[0]].slot_at(path.skip(1))
        }
    }

    /// The frame of the node at `path` when this node has the frame `f`.
    pub open spec fn frame_at(self, path: Seq<int>, f: Frame) -> Frame
        decreases path.len(),
    {
        if path.len() == 0 {
            f
        } else {
            self.children[path[0]].frame_at(path.skip(1), self.child_frame(path[0], f))
        }
    }

    /// The path to the node whose own fault is the first fault in the
    /// tree, where the tree has one.
    pub open spec fn fault_path(self, w: int, h: int) -> Seq<int>
        decreases self, self.children.len() + 1,
    {
        if self.local_error(w, h) is Some {
            Seq::empty()
        } else {
            self.fault_path_within(self.children.len() as int, w, h)
        }
    }

    /// The path to the node whose own fault is the first fault under the
    /// first `k` children, where there is one.
    pub open spec fn fault_path_within(self, k: int, w: int, h: int) -> Seq<int>
        decreases self, k,
    {
        if 0 < k <= self.children.len() {
            if self.error_within(k - 1, w, h) is Some {
                self.fault_path_within(k - 1, w, h)
            } else {
                seq![k - 1] + self.children[k - 1].fault_path(
                    self.child_w(k - 1, w, h),
                    self.child_h(k - 1, w, h),
                )
            }
        } else {
            Seq::empty()
        }
    }
}

} // verus!
