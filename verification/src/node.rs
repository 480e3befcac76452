//! The node tree and the operations on it: building a tree, making a buffer
//! for its rectangles, and laying it out.

use vstd::prelude::*;
use crate::geometry::{placements, DynLen, Frame, Layout, LayoutError, Placement, Rect};
use crate::model::Tree;

verus! {

/// A layout element: it owns its children and stacks them along one axis.
/// Its size says how long it is along the main axis of its parent.
#[derive(Debug)]
pub struct Node {
    id: u32,
    children_layout: Layout,
    children: Vec<Node>,
    size: DynLen,
}

impl View for Node {
    type V = Tree;

    closed spec fn view(&self) -> Tree {
        self.tree()
    }
}

/// The trees that a sequence of nodes stands for, one for one.
spec fn trees(nodes: Seq<Node>) -> Seq<Tree>
    decreases nodes,
{
    if nodes.len() == 0 {
        Seq::empty()
    } else {
        trees(nodes.drop_last()).push(nodes.last().tree())
    }
}

/// `trees` takes each node to its view.
proof fn lemma_trees(nodes: Seq<Node>)
    ensures
        trees(nodes) == nodes.map_values(|n: Node| n@),
    decreases nodes.len(),
{
    if nodes.len() > 0 {
        lemma_trees(nodes.drop_last());
    }
    assert(trees(nodes) =~= nodes.map_values(|n: Node| n@));
}

impl Clone for Node {
    /// A copy of the whole tree.
    fn clone(&self) -> (copy: Node)
        ensures
            copy@ == self@,
        decreases self,
    {
        let mut children: Vec<Node> = Vec::new();
        let mut i: usize = 0;
        while i < self.children.len()
            invariant
                i <= self.children.len(),
                children.len() == i,
                forall|j: int| 0 <= j < i ==> (#[trigger] children[j])@ == self.children[j]@,
            decreases self.children.len() - i,
        {
            children.push(self.children[i].clone());
            i += 1;
        }
        let copy = Node {
            id: self.id,
            children_layout: self.children_layout,
            children,
            size: self.size,
        };
        proof {
            copy.lemma_view();
            self.lemma_view();
            assert(copy@.children =~= self@.children);
        }
        copy
    }
}

impl Node {
    /// The tree that the node stands for.
    spec fn tree(&self) -> Tree
        decreases self,
    {
        Tree {
            id: self.id,
            axis: self.children_layout,
            size: self.size,
            children: trees(self.children@),
        }
    }

    /// The view of a node has the node's fields, and as children the views
    /// of the node's children.
    proof fn lemma_view(&self)
        ensures
            self@.id == self.id,
            self@.axis == self.children_layout,
            self@.size == self.size,
            self@.children == self.children@.map_values(|n: Node| n@),
            self@.children.len() == self.children.len(),
            forall|i: int|
                0 <= i < self.children.len() ==> #[trigger] self@.children[i] == self.children[i]@,
    {
        lemma_trees(self.children@);
    }

    /// A node without children.
    pub fn new(id: u32, children_layout: Layout, size: DynLen) -> (node: Node)
        ensures
            node@ == Tree::leaf(id, children_layout, size),
    {
        let node = Node { id, children_layout, children: Vec::new(), size };
        proof {
            node.lemma_view();
            assert(node@.children =~= Seq::empty());
        }
        node
    }

    /// Adds `child` behind the children that the node has.
    pub fn add_child(&mut self, child: Node)
        ensures
            final(self)@ == old(self)@.with_child(child@),
    {
        self.children.push(child);
        proof {
            old(self).lemma_view();
            self.lemma_view();
            assert(self@.children =~= old(self)@.children.push(child@));
        }
    }

    /// Adds `children`, in their order, behind the children that the node
    /// has.
    pub fn add_children(&mut self, children: Vec<Node>)
        ensures
            final(self)@ == old(self)@.with_children(children@.map_values(|n: Node| n@)),
    {
        let mut children = children;
        let ghost added = children@.map_values(|n: Node| n@);
        self.children.append(&mut children);
        proof {
            old(self).lemma_view();
            self.lemma_view();
            assert(self@.children =~= old(self)@.children + added);
        }
    }

    /// A buffer for the rectangles of this tree: one placeholder for each
    /// node, in the order in which a layout pass fills them in. It serves
    /// every pass over the tree until nodes are added.
    pub fn alloc_rect_buffer(&self) -> (buf: Vec<Rect>)
        ensures
            buf@.len() == self@.count(),
            placements(buf@) == self@.placeholders(),
        decreases self,
    {
        let ghost blank = |id: u32| Placement::blank(id);
        let mut buf: Vec<Rect> = Vec::with_capacity(self.children.len().saturating_add(1));
        let mut i: usize = 0;
        while i < self.children.len()
            invariant
                i <= self.children.len(),
                blank == |id: u32| Placement::blank(id),
                buf@.len() == self@.count_within(i as int),
                placements(buf@) == self@.postorder_ids_within(i as int).map_values(blank),
            decreases self.children.len() - i,
        {
            let ghost before = buf@;
            let mut other_children = self.children[i].alloc_rect_buffer();
            let ghost added = other_children@;
            buf.append(&mut other_children);
            i += 1;
            proof {
                self.lemma_view();
                assert(placements(buf@) =~= placements(before) + placements(added));
                assert(self@.postorder_ids_within(i as int).map_values(blank)
                    =~= self@.postorder_ids_within(i - 1).map_values(blank)
                    + self@.children[i - 1].postorder_ids().map_values(blank));
            }
        }
        let ghost before = buf@;
        buf.push(Rect::new(self.id));
        proof {
            self.lemma_view();
            assert(placements(buf@) =~= placements(before).push(blank(self.id)));
            assert(self@.placeholders() =~= self@.postorder_ids_within(
                self.children.len() as int,
            ).map_values(blank).push(blank(self.id)));
        }
        buf
    }

    /// Lays the tree out and writes its rectangles into `rect_buffer`, one
    /// for each node, a node behind all nodes below it. The root gets the
    /// corner `(x, y)`, the extents `(w, h)` and the layer `layer`; each
    /// level below lies one layer higher. Returns the number of rectangles
    /// written.
    ///
    /// Children lie one behind the other from the origin of their parent
    /// on. The end of each relative child is rounded down to whole units,
    /// so its length is within one unit of its share, and the last relative
    /// child ends where the space of the parent ends. A share of less than
    /// one unit may come out as no length at all: a child that stacks its
    /// own children along the same axis then has no space left and is
    /// refused.
    ///
    /// Where the buffer is too short or a node cannot place its children,
    /// nothing is written and the fault is returned: a short buffer first,
    /// else the first faulty node, parents before children and children in
    /// their order.
    pub fn layout(
        &self,
        rect_buffer: &mut [Rect],
        x: u32,
        y: u32,
        w: u32,
        h: u32,
        layer: u32,
    ) -> (r: Result<usize, LayoutError>)
        ensures
            self@.reports(old(rect_buffer)@.len(), w as int, h as int, r),
            self@.fills(
                old(rect_buffer)@,
                (Frame { x: x as int, y: y as int, w: w as int, h: h as int }),
                layer as int,
                final(rect_buffer)@,
            ),
            r is Ok ==> r->Ok_0 == self@.count(),
    {
        proof {
            self.lemma_view();
            self@.lemma_height_below_count();
        }
        if self.count_up_to(rect_buffer.len()).is_none() {
            return Err(LayoutError::BufferTooSmall(self.id));
        }
        match self.validate(w, h) {
            Ok(()) => {},
            Err(e) => {
                return Err(e);
            },
        }
        let n = self.place(rect_buffer, 0, x as u64, y as u64, w, h, layer as u128);
        proof {
            assert(rect_buffer@.take(n as int) =~= rect_buffer@.subrange(0, 0 + n));
            assert(rect_buffer@.skip(n as int) =~= old(rect_buffer)@.skip(n as int));
        }
        Ok(n)
    }

    /// The number of nodes in the tree, where it is at most `limit`.
    fn count_up_to(&self, limit: usize) -> (r: Option<usize>)
        ensures
            r == if self@.count() <= limit {
                Some(self@.count() as usize)
            } else {
                None
            },
        decreases self,
    {
        if limit == 0 {
            return None;
        }
        let mut n: usize = 0;
        let mut i: usize = 0;
        while i < self.children.len()
            invariant
                i <= self.children.len(),
                n == self@.count_within(i as int),
                n < limit,
            decreases self.children.len() - i,
        {
            proof {
                self.lemma_view();
                self@.lemma_sums_grow(i + 1, self@.children.len() as int);
            }
            match self.children[i].count_up_to(limit - 1 - n) {
                Some(c) => {
                    n = n + c;
                },
                None => {
                    return None;
                },
            }
            i += 1;
        }
        proof {
            self.lemma_view();
        }
        Some(n + 1)
    }

    /// The sums over the children that their lengths rest on: the fixed
    /// lengths, the weights, and whether any child is relative.
    fn sums(&self) -> (r: (u128, u128, bool))
        ensures
            r.0 == self@.fixed_sum(self@.children.len() as int),
            r.1 == self@.total_weight(),
            r.2 == (self@.relative_count(self@.children.len() as int) > 0),
    {
        let mut fixed: u128 = 0;
        let mut total: u128 = 0;
        let mut relative = false;
        let mut i: usize = 0;
        while i < self.children.len()
            invariant
                i <= self.children.len(),
                fixed == self@.fixed_sum(i as int),
                total == self@.weight_sum(i as int),
                relative == (self@.relative_count(i as int) > 0),
            decreases self.children.len() - i,
        {
            proof {
                self.lemma_view();
                self@.lemma_sums_bounded(i as int);
                self@.lemma_sums_bounded(i + 1);
                assert((i + 1) * u32::MAX <= u128::MAX) by (nonlinear_arith)
                    requires
                        i + 1 <= usize::MAX,
                        usize::MAX <= 0xffff_ffff_ffff_ffff,
                        u32::MAX == 0xffff_ffff,
                        u128::MAX >= 0xffff_ffff_ffff_ffff_ffff_ffff,
                ;
            }
            match self.children[i].size {
                DynLen::Absolute(l) => {
                    fixed = fixed + l as u128;
                },
                DynLen::Relative(r) => {
                    total = total + r as u128;
                    relative = true;
                },
            }
            i += 1;
        }
        proof {
            self.lemma_view();
        }
        (fixed, total, relative)
    }

    /// The free space and the total weight of a node `w` wide and `h` high,
    /// or the fault that the node has taken alone.
    fn budget(&self, w: u32, h: u32) -> (r: Result<(u32, u128), LayoutError>)
        ensures
            match r {
                Ok((free, total)) => self@.local_error(w as int, h as int) is None && free
                    == self@.free_space(w as int, h as int) && total == self@.total_weight(),
                Err(e) => self@.local_error(w as int, h as int) == Some(e),
            },
    {
        let main: u32 = match self.children_layout {
            Layout::Horizontal => w,
            Layout::Vertical => h,
        };
        let (fixed, total, relative) = self.sums();
        proof {
            self.lemma_view();
            self@.lemma_sums_bounded(self@.children.len() as int);
        }
        if fixed >= main as u128 {
            Err(LayoutError::InsufficientSpace(self.id))
        } else if relative && total == 0 {
            Err(LayoutError::ZeroWeightDivision(self.id))
        } else {
            Ok(((main as u128 - fixed) as u32, total))
        }
    }

    /// The first fault in the tree when its root is `w` wide and `h` high.
    fn validate(&self, w: u32, h: u32) -> (r: Result<(), LayoutError>)
        ensures
            match r {
                Ok(()) => self@.first_error(w as int, h as int) is None,
                Err(e) => self@.first_error(w as int, h as int) == Some(e),
            },
        decreases self,
    {
        let (free, total) = match self.budget(w, h) {
            Ok(b) => b,
            Err(e) => {
                return Err(e);
            },
        };
        let mut weights: u128 = 0;
        let mut shared: u32 = 0;
        let mut i: usize = 0;
        while i < self.children.len()
            invariant
                i <= self.children.len(),
                self@.local_error(w as int, h as int) is None,
                free == self@.free_space(w as int, h as int),
                total == self@.total_weight(),
                weights == self@.weight_sum(i as int),
                shared == self@.share_end(i as int, w as int, h as int),
                self@.error_within(i as int, w as int, h as int) is None,
            decreases self.children.len() - i,
        {
            proof {
                self.lemma_view();
                self@.lemma_child_in_sums(i as int);
                self@.lemma_sums_bounded(self@.children.len() as int);
                self@.lemma_sums_grow(i + 1, self@.children.len() as int);
                self@.lemma_share_ends(i as int, i + 1, w as int, h as int);
            }
            let (len, weights_next, shared_next) = next_length(
                self.children[i].size,
                free,
                total,
                weights,
                shared,
            );
            weights = weights_next;
            shared = shared_next;
            let (c_w, c_h) = match self.children_layout {
                Layout::Horizontal => (len, h),
                Layout::Vertical => (w, len),
            };
            match self.children[i].validate(c_w, c_h) {
                Ok(()) => {},
                Err(e) => {
                    proof {
                        self@.lemma_error_found(i + 1, w as int, h as int);
                    }
                    return Err(e);
                },
            }
            i += 1;
        }
        proof {
            self.lemma_view();
        }
        Ok(())
    }

    /// Writes the rectangles of a tree without a fault into `buf` from the
    /// slot `start` on, and returns how many it wrote. The root has the
    /// corner `(x, y)`, the extents `(w, h)` and the layer `layer`.
    fn place(
        &self,
        buf: &mut [Rect],
        start: usize,
        x: u64,
        y: u64,
        w: u32,
        h: u32,
        layer: u128,
    ) -> (n: usize)
        requires
            self@.first_error(w as int, h as int) is None,
            start + self@.count() <= old(buf)@.len(),
            x + w <= u64::MAX,
            y + h <= u64::MAX,
            layer + self@.height() <= u128::MAX,
        ensures
            n == self@.count(),
            final(buf)@.len() == old(buf)@.len(),
            forall|j: int|
                0 <= j < start || start + n <= j < old(buf)@.len() ==> final(buf)@[j] == old(
                    buf,
                )@[j],
            placements(final(buf)@.subrange(start as int, start + n)) == self@.placed(
                (Frame { x: x as int, y: y as int, w: w as int, h: h as int }),
                layer as int,
            ),
        decreases self,
    {
        let ghost frame = Frame { x: x as int, y: y as int, w: w as int, h: h as int };
        let (fixed, total, _) = self.sums();
        proof {
            self.lemma_view();
            self@.lemma_sums_bounded(self@.children.len() as int);
            assert(buf@.len() == buf.len());
        }
        let free: u32 = match self.children_layout {
            Layout::Horizontal => (w as u128 - fixed) as u32,
            Layout::Vertical => (h as u128 - fixed) as u32,
        };
        let mut weights: u128 = 0;
        let mut shared: u32 = 0;
        let mut used: u32 = 0;
        let mut cur: usize = start;
        let mut i: usize = 0;
        while i < self.children.len()
            invariant
                i <= self.children.len(),
                self@.first_error(w as int, h as int) is None,
                free == self@.free_space(w as int, h as int),
                total == self@.total_weight(),
                frame == (Frame { x: x as int, y: y as int, w: w as int, h: h as int }),
                x + w <= u64::MAX,
                y + h <= u64::MAX,
                layer + self@.height() <= u128::MAX,
                start + self@.count() <= old(buf)@.len() <= usize::MAX,
                weights == self@.weight_sum(i as int),
                shared == self@.share_end(i as int, w as int, h as int),
                used == self@.child_offset(i as int, w as int, h as int),
                cur == start + self@.count_within(i as int),
                buf@.len() == old(buf)@.len(),
                forall|j: int|
                    0 <= j < start || cur <= j < old(buf)@.len() ==> buf@[j] == old(buf)@[j],
                placements(buf@.subrange(start as int, cur as int)) == self@.placed_within(
                    i as int,
                    frame,
                    layer as int,
                ),
            decreases self.children.len() - i,
        {
            proof {
                self.lemma_view();
                self@.lemma_no_error_within(self@.children.len() as int, w as int, h as int);
                self@.lemma_child_in_sums(i as int);
                self@.lemma_sums_bounded(self@.children.len() as int);
                self@.lemma_sums_grow(i + 1, self@.children.len() as int);
                self@.lemma_share_ends(i as int, i + 1, w as int, h as int);
                self@.lemma_children_fit(i as int, w as int, h as int);
            }
            let (len, weights_next, shared_next) = next_length(
                self.children[i].size,
                free,
                total,
                weights,
                shared,
            );
            weights = weights_next;
            shared = shared_next;
            let (c_x, c_y, c_w, c_h) = match self.children_layout {
                Layout::Horizontal => (x + used as u64, y, len, h),
                Layout::Vertical => (x, y + used as u64, w, len),
            };
            let ghost before = buf@;
            let written = self.children[i].place(buf, cur, c_x, c_y, c_w, c_h, layer + 1);
            proof {
                assert(buf@.subrange(start as int, cur + written) =~= before.subrange(
                    start as int,
                    cur as int,
                ) + buf@.subrange(cur as int, cur + written));
                assert(placements(buf@.subrange(start as int, cur + written)) =~= placements(
                    before.subrange(start as int, cur as int),
                ) + placements(buf@.subrange(cur as int, cur + written)));
            }
            cur = cur + written;
            used = used + len;
            i += 1;
        }
        let ghost before = buf@;
        buf[cur] = Rect { id: self.id, pos: [x, y], size: [w, h], layer };
        proof {
            self.lemma_view();
            assert(buf@.subrange(start as int, cur + 1) =~= before.subrange(
                start as int,
                cur as int,
            ).push(buf@[cur as int]));
            assert(placements(buf@.subrange(start as int, cur + 1)) =~= placements(
                before.subrange(start as int, cur as int),
            ).push(buf@[cur as int]@));
        }
        cur + 1 - start
    }
}

/// The length of the next child along the main axis of its parent, which
/// has `free` units to share out among children of the weight `total`. The
/// children before it have the weight `weights`, and their shares end at
/// `shared`. Returns the length, with the weight and the end of the shares
/// once the child is counted in.
fn next_length(size: DynLen, free: u32, total: u128, weights: u128, shared: u32) -> (r: (
    u32,
    u128,
    u32,
))
    requires
        weights + size.weight() <= total <= usize::MAX * u32::MAX,
        size.is_relative() ==> total > 0 && shared <= free * (weights + size.weight()) / (
        total as int) <= free,
    ensures
        r.0 == match size {
            DynLen::Absolute(l) => l as int,
            DynLen::Relative(_) => r.2 - shared,
        },
        r.1 == weights + size.weight(),
        r.2 == match size {
            DynLen::Absolute(_) => shared as int,
            DynLen::Relative(_) => free * r.1 / (total as int),
        },
{
    match size {
        DynLen::Absolute(l) => (l, weights, shared),
        DynLen::Relative(r) => {
            let weights = weights + r as u128;
            proof {
                assert(free * weights <= u128::MAX) by (nonlinear_arith)
                    requires
                        0 <= free <= 0xffff_ffff,
                        0 <= weights <= usize::MAX * u32::MAX,
                        usize::MAX <= 0xffff_ffff_ffff_ffff,
                        u32::MAX == 0xffff_ffff,
                        u128::MAX == 0xffff_ffff_ffff_ffff_ffff_ffff_ffff_ffff,
                ;
            }
            let end = ((free as u128 * weights) / total) as u32;
            (end - shared, weights, end)
        },
    }
}

} // verus!
