//! What holds of every tree and every pass over it.

use vstd::prelude::*;
use vstd::arithmetic::div_mod::{lemma_fundamental_div_mod, lemma_mod_bound};
use crate::geometry::{lemma_rect_view_injective, placements, Frame, LayoutError, Placement, Rect};
use crate::model::Tree;

verus! {

/// Rectangles that stand for the same placements, one for one, are the same
/// rectangles.
pub proof fn lemma_placements_injective(a: Seq<Rect>, b: Seq<Rect>)
    requires
        placements(a) == placements(b),
    ensures
        a == b,
{
    assert(a.len() == placements(a).len());
    assert(b.len() == placements(b).len());
    assert forall|i: int| 0 <= i < a.len() implies a[i] == b[i] by {
        assert(placements(a)[i] == a[i]@);
        assert(placements(b)[i] == b[i]@);
        lemma_rect_view_injective(a[i], b[i]);
    }
    assert(a =~= b);
}

impl Tree {
    /// A pass writes one rectangle for each node of the tree.
    pub proof fn lemma_placed_len(self, f: Frame, layer: int)
        ensures
            self.placed(f, layer).len() == self.count(),
        decreases self, self.children.len() + 1,
    {
        self.lemma_placed_within_len(self.children.len() as int, f, layer);
    }

    /// For the first `k` children a pass writes one rectangle for each node
    /// under them.
    pub proof fn lemma_placed_within_len(self, k: int, f: Frame, layer: int)
        requires
            0 <= k <= self.children.len(),
        ensures
            self.placed_within(k, f, layer).len() == self.count_within(k),
        decreases self, k,
    {
        if k > 0 {
            self.lemma_placed_within_len(k - 1, f, layer);
            self.children[k - 1].lemma_placed_len(self.child_frame(k - 1, f), layer + 1);
        }
    }

    /// The rectangles that a pass writes carry the ids of the nodes, in the
    /// order of the placeholders: each node has its slot, whatever the frame
    /// and the layer.
    pub proof fn lemma_placed_ids(self, f: Frame, layer: int)
        ensures
            self.placed(f, layer).map_values(|p: Placement| p.id) == self.postorder_ids(),
            self.postorder_ids().len() == self.count(),
        decreases self, self.children.len() + 1,
    {
        let n = self.children.len() as int;
        self.lemma_placed_within_ids(n, f, layer);
        assert(self.placed(f, layer).map_values(|p: Placement| p.id) =~= self.placed_within(
            n,
            f,
            layer,
        ).map_values(|p: Placement| p.id).push(self.id));
    }

    /// The same of the first `k` children.
    pub proof fn lemma_placed_within_ids(self, k: int, f: Frame, layer: int)
        requires
            0 <= k <= self.children.len(),
        ensures
            self.placed_within(k, f, layer).map_values(|p: Placement| p.id)
                == self.postorder_ids_within(k),
            self.postorder_ids_within(k).len() == self.count_within(k),
        decreases self, k,
    {
        if k > 0 {
            let child = self.children[k - 1];
            let cf = self.child_frame(k - 1, f);
            self.lemma_placed_within_ids(k - 1, f, layer);
            child.lemma_placed_ids(cf, layer + 1);
            assert(self.placed_within(k, f, layer).map_values(|p: Placement| p.id)
                =~= self.placed_within(k - 1, f, layer).map_values(|p: Placement| p.id)
                + child.placed(cf, layer + 1).map_values(|p: Placement| p.id));
        } else {
            assert(self.placed_within(k, f, layer).map_values(|p: Placement| p.id)
                =~= Seq::<u32>::empty());
        }
    }

    /// Among what a pass writes for the first `k` children, the rectangles
    /// of child `i` stand together, behind those of the children before it.
    pub proof fn lemma_placed_within_at(self, k: int, i: int, j: int, f: Frame, layer: int)
        requires
            0 <= i < k <= self.children.len(),
            0 <= j < self.children[i].count(),
        ensures
            self.count_within(i) + j < self.count_within(k),
            self.placed_within(k, f, layer)[self.count_within(i) + j] == self.children[i].placed(
                self.child_frame(i, f),
                layer + 1,
            )[j],
        decreases k,
    {
        self.lemma_placed_within_len(k - 1, f, layer);
        self.children[k - 1].lemma_placed_len(self.child_frame(k - 1, f), layer + 1);
        if i < k - 1 {
            self.lemma_placed_within_at(k - 1, i, j, f, layer);
        }
    }

    /// Each node of the tree has one slot in what `placed` lists, and there
    /// stand the node's id, its frame, and as its layer the layer of the
    /// root plus the node's depth below the root.
    pub proof fn lemma_layer_is_depth(self, path: Seq<int>, f: Frame, layer: int)
        requires
            self.has_path(path),
        ensures
            0 <= self.slot_at(path) < self.count(),
            self.placed(f, layer)[self.slot_at(path)] == (Placement {
                id: self.node_at(path).id,
                frame: self.frame_at(path, f),
                layer: layer + path.len(),
            }),
        decreases path.len(),
    {
        let n = self.children.len() as int;
        self.lemma_placed_within_len(n, f, layer);
        if path.len() > 0 {
            let i = path[0];
            let child = self.children[i];
            child.lemma_layer_is_depth(path.skip(1), self.child_frame(i, f), layer + 1);
            self.lemma_placed_within_at(n, i, child.slot_at(path.skip(1)), f, layer);
        }
    }

    /// Where a pass succeeds, the slot of each node of the tree holds the
    /// node's id, its frame, and as its layer the layer of the root plus the
    /// node's depth below the root.
    pub proof fn lemma_pass_writes_node(
        self,
        path: Seq<int>,
        f: Frame,
        layer: int,
        before: Seq<Rect>,
        after: Seq<Rect>,
    )
        requires
            self.has_path(path),
            self.outcome(before.len(), f.w, f.h) is Ok,
            self.fills(before, f, layer, after),
        ensures
            0 <= self.slot_at(path) < self.count() <= after.len(),
            after[self.slot_at(path)]@ == (Placement {
                id: self.node_at(path).id,
                frame: self.frame_at(path, f),
                layer: layer + path.len(),
            }),
    {
        self.lemma_layer_is_depth(path, f, layer);
        let n = self.count() as int;
        let slot = self.slot_at(path);
        assert(placements(after.take(n))[slot] == after.take(n)[slot]@);
    }

    /// One step further down a path leads to a child of the node that the
    /// path leads to, and the frame there is the frame that this node gives
    /// the child: what holds of a node and its children holds at every
    /// depth.
    pub proof fn lemma_frame_of_child(self, path: Seq<int>, i: int, f: Frame)
        requires
            self.has_path(path),
            0 <= i < self.node_at(path).children.len(),
        ensures
            self.has_path(path.push(i)),
            self.node_at(path.push(i)) == self.node_at(path).children[i],
            self.frame_at(path.push(i), f) == self.node_at(path).child_frame(
                i,
                self.frame_at(path, f),
            ),
        decreases path.len(),
    {
        let longer = path.push(i);
        if path.len() == 0 {
            let child = self.children[i];
            assert(longer.skip(1) =~= Seq::<int>::empty());
            assert(child.has_path(longer.skip(1)));
            assert(child.node_at(longer.skip(1)) == child);
            assert(child.frame_at(longer.skip(1), self.child_frame(i, f)) == self.child_frame(
                i,
                f,
            ));
        } else {
            let child = self.children[path[0]];
            assert(longer.skip(1) =~= path.skip(1).push(i));
            child.lemma_frame_of_child(path.skip(1), i, self.child_frame(path[0], f));
            assert(self.node_at(longer) == child.node_at(longer.skip(1)));
            assert(self.frame_at(longer, f) == child.frame_at(
                longer.skip(1),
                self.child_frame(path[0], f),
            ));
        }
    }

    /// Where a pass succeeds, the rectangle of each child has the frame that
    /// its parent gives it, reckoned from the rectangle of the parent: what
    /// `child_frame` says of a node and a child holds of their rectangles.
    pub proof fn lemma_pass_places_child(
        self,
        path: Seq<int>,
        i: int,
        f: Frame,
        layer: int,
        before: Seq<Rect>,
        after: Seq<Rect>,
    )
        requires
            self.has_path(path),
            0 <= i < self.node_at(path).children.len(),
            self.outcome(before.len(), f.w, f.h) is Ok,
            self.fills(before, f, layer, after),
        ensures
            0 <= self.slot_at(path) < after.len(),
            0 <= self.slot_at(path.push(i)) < after.len(),
            after[self.slot_at(path.push(i))]@.frame == self.node_at(path).child_frame(
                i,
                after[self.slot_at(path)]@.frame,
            ),
            after[self.slot_at(path.push(i))]@.layer == after[self.slot_at(path)]@.layer + 1,
    {
        self.lemma_frame_of_child(path, i, f);
        self.lemma_pass_writes_node(path, f, layer, before, after);
        self.lemma_pass_writes_node(path.push(i), f, layer, before, after);
    }

    /// Siblings lie one behind the other along the main axis of their
    /// parent, without a gap and without overlap: the first begins where the
    /// parent begins, and each other one where the one before it ends.
    pub proof fn lemma_siblings_adjoin(self, i: int, f: Frame)
        requires
            0 <= i < self.children.len(),
        ensures
            i == 0 ==> self.main_origin(self.child_frame(i, f)) == self.main_origin(f),
            i > 0 ==> self.main_origin(self.child_frame(i, f)) == self.main_origin(
                self.child_frame(i - 1, f),
            ) + self.main_extent(self.child_frame(i - 1, f).w, self.child_frame(i - 1, f).h),
    {
        if i > 0 {
            self.lemma_offset_step(i - 1, f.w, f.h);
        }
    }

    /// A child spans its parent across the parent's main axis: it begins
    /// where the parent begins and is as long as the parent is.
    pub proof fn lemma_cross_fill(self, i: int, f: Frame)
        requires
            0 <= i < self.children.len(),
        ensures
            self.cross_origin(self.child_frame(i, f)) == self.cross_origin(f),
            self.cross_extent(self.child_frame(i, f).w, self.child_frame(i, f).h)
                == self.cross_extent(f.w, f.h),
    {
    }

    /// In a node without a fault of its own the lengths of the children
    /// add up to the main extent, to the last unit, where a relative child
    /// is among them. Where none is, they add up to the fixed lengths and
    /// the free space stays unused.
    pub proof fn lemma_partition(self, w: int, h: int)
        requires
            self.local_error(w, h) is None,
        ensures
            self.relative_count(self.children.len() as int) > 0 ==> self.length_sum(
                self.children.len() as int,
                w,
                h,
            ) == self.main_extent(w, h),
            self.relative_count(self.children.len() as int) == 0 ==> self.length_sum(
                self.children.len() as int,
                w,
                h,
            ) == self.fixed_sum(self.children.len() as int),
    {
        let n = self.children.len() as int;
        self.lemma_lengths_add_up(n, w, h);
        self.lemma_sums_bounded(n);
        self.lemma_share_ends(n, n, w, h);
        if self.relative_count(n) == 0 {
            self.lemma_no_relative(n);
        }
    }

    /// In a node without a fault of its own the length of a relative child
    /// is less than one unit from its part of the free space by weight.
    pub proof fn lemma_share_is_fair(self, i: int, w: int, h: int)
        requires
            0 <= i < self.children.len(),
            self.children[i].size.is_relative(),
            self.local_error(w, h) is None,
        ensures
            self.total_weight() > 0,
            self.free_space(w, h) * self.children[i].size.weight() - self.total_weight()
                < self.total_weight() * self.child_len(i, w, h) < self.free_space(w, h)
                * self.children[i].size.weight() + self.total_weight(),
    {
        let free = self.free_space(w, h);
        let total = self.total_weight();
        let r = self.children[i].size.weight();
        let before = self.weight_sum(i);
        self.lemma_sums_bounded(self.children.len() as int);
        self.lemma_child_in_sums(i);
        lemma_fundamental_div_mod(free * before, total);
        lemma_fundamental_div_mod(free * (before + r), total);
        lemma_mod_bound(free * before, total);
        lemma_mod_bound(free * (before + r), total);
        let lo = (free * before) / total;
        let hi = (free * (before + r)) / total;
        assert(total * (hi - lo) == free * r + (free * before) % total - (free * (before + r))
            % total) by (nonlinear_arith)
            requires
                free * before == total * lo + (free * before) % total,
                free * (before + r) == total * hi + (free * (before + r)) % total,
        ;
    }

    /// Two passes over one tree with the same frame and layer, on buffers
    /// of the same length, return the same and write the same rectangles,
    /// whatever the buffers held before.
    pub proof fn lemma_deterministic(
        self,
        f: Frame,
        layer: int,
        before_a: Seq<Rect>,
        r_a: Result<usize, LayoutError>,
        after_a: Seq<Rect>,
        before_b: Seq<Rect>,
        r_b: Result<usize, LayoutError>,
        after_b: Seq<Rect>,
    )
        requires
            before_a.len() == before_b.len(),
            self.reports(before_a.len(), f.w, f.h, r_a),
            self.fills(before_a, f, layer, after_a),
            self.reports(before_b.len(), f.w, f.h, r_b),
            self.fills(before_b, f, layer, after_b),
        ensures
            r_a == r_b,
            r_a is Ok ==> after_a.take(self.count() as int) == after_b.take(self.count() as int),
    {
        if r_a is Ok {
            lemma_placements_injective(
                after_a.take(self.count() as int),
                after_b.take(self.count() as int),
            );
        }
    }

    /// A second pass over the buffer that a first pass has left, with the
    /// same frame and layer, returns the same and leaves the buffer as it
    /// found it: every slot that it owes is written anew, with the same
    /// value.
    pub proof fn lemma_idempotent(
        self,
        f: Frame,
        layer: int,
        before: Seq<Rect>,
        r_first: Result<usize, LayoutError>,
        between: Seq<Rect>,
        r_second: Result<usize, LayoutError>,
        after: Seq<Rect>,
    )
        requires
            self.reports(before.len(), f.w, f.h, r_first),
            self.fills(before, f, layer, between),
            self.reports(between.len(), f.w, f.h, r_second),
            self.fills(between, f, layer, after),
        ensures
            r_second == r_first,
            after == between,
    {
        if r_first is Ok {
            let n = self.count() as int;
            lemma_placements_injective(after.take(n), between.take(n));
            assert(after =~= after.take(n) + after.skip(n));
            assert(between =~= between.take(n) + between.skip(n));
        }
    }

    /// A buffer with one slot for each node is never too small, and a pass
    /// that succeeds on it writes every slot.
    pub proof fn lemma_presized_buffer(self, slots: nat, w: int, h: int)
        requires
            slots == self.count(),
        ensures
            self.outcome(slots, w, h) != Err::<nat, LayoutError>(
                LayoutError::BufferTooSmall(self.id),
            ),
            self.outcome(slots, w, h) is Ok ==> self.outcome(slots, w, h) == Ok::<
                nat,
                LayoutError,
            >(slots),
    {
        self.lemma_error_kind(w, h);
    }

    /// The first fault in a tree is one of sharing out space, never one of
    /// the buffer.
    pub proof fn lemma_error_kind(self, w: int, h: int)
        ensures
            match self.first_error(w, h) {
                Some(e) => e is InsufficientSpace || e is ZeroWeightDivision,
                None => true,
            },
        decreases self, self.children.len() + 1,
    {
        self.lemma_error_kind_within(self.children.len() as int, w, h);
    }

    /// The same of the first `k` children.
    pub proof fn lemma_error_kind_within(self, k: int, w: int, h: int)
        requires
            0 <= k <= self.children.len(),
        ensures
            match self.error_within(k, w, h) {
                Some(e) => e is InsufficientSpace || e is ZeroWeightDivision,
                None => true,
            },
        decreases self, k,
    {
        if k > 0 {
            self.lemma_error_kind_within(k - 1, w, h);
            self.children[k - 1].lemma_error_kind(
                self.child_w(k - 1, w, h),
                self.child_h(k - 1, w, h),
            );
        }
    }

    /// In a tree without a fault no node has a fault of its own, taken with
    /// the frame that a pass gives it.
    pub proof fn lemma_sound_everywhere(self, path: Seq<int>, f: Frame)
        requires
            self.has_path(path),
            self.first_error(f.w, f.h) is None,
        ensures
            self.node_at(path).local_error(self.frame_at(path, f).w, self.frame_at(path, f).h)
                is None,
        decreases path.len(),
    {
        if path.len() > 0 {
            let i = path[0];
            self.lemma_no_error_within(self.children.len() as int, f.w, f.h);
            self.children[i].lemma_sound_everywhere(path.skip(1), self.child_frame(i, f));
        }
    }

    /// The first fault in a tree is the own fault of a node of the tree,
    /// taken with the frame that a pass gives it, and carries that node's
    /// id.
    pub proof fn lemma_error_names_node(self, f: Frame)
        requires
            self.first_error(f.w, f.h) is Some,
        ensures
            self.has_path(self.fault_path(f.w, f.h)),
            self.node_at(self.fault_path(f.w, f.h)).local_error(
                self.frame_at(self.fault_path(f.w, f.h), f).w,
                self.frame_at(self.fault_path(f.w, f.h), f).h,
            ) == self.first_error(f.w, f.h),
            self.first_error(f.w, f.h)->0.node_id() == self.node_at(self.fault_path(f.w, f.h)).id,
        decreases self, self.children.len() + 1,
    {
        if self.local_error(f.w, f.h) is None {
            self.lemma_error_names_node_within(self.children.len() as int, f);
        }
    }

    /// The same of the first `k` children.
    pub proof fn lemma_error_names_node_within(self, k: int, f: Frame)
        requires
            0 <= k <= self.children.len(),
            self.error_within(k, f.w, f.h) is Some,
        ensures
            self.fault_path_within(k, f.w, f.h).len() > 0,
            self.has_path(self.fault_path_within(k, f.w, f.h)),
            self.node_at(self.fault_path_within(k, f.w, f.h)).local_error(
                self.frame_at(self.fault_path_within(k, f.w, f.h), f).w,
                self.frame_at(self.fault_path_within(k, f.w, f.h), f).h,
            ) == self.error_within(k, f.w, f.h),
            self.error_within(k, f.w, f.h)->0.node_id() == self.node_at(
                self.fault_path_within(k, f.w, f.h),
            ).id,
        decreases self, k,
    {
        if self.error_within(k - 1, f.w, f.h) is Some {
            self.lemma_error_names_node_within(k - 1, f);
        } else {
            let child = self.children[k - 1];
            let cf = self.child_frame(k - 1, f);
            let rest = child.fault_path(cf.w, cf.h);
            let path = self.fault_path_within(k, f.w, f.h);
            child.lemma_error_names_node(cf);
            assert(path[0] == k - 1);
            assert(path.skip(1) =~= rest);
        }
    }

    /// A tree has fewer levels below its root than it has nodes.
    pub proof fn lemma_height_below_count(self)
        ensures
            self.height() < self.count(),
        decreases self, self.children.len() + 1,
    {
        self.lemma_height_within_below_count(self.children.len() as int);
    }

    /// The first `k` children add at most as many levels as there are nodes
    /// under them.
    pub proof fn lemma_height_within_below_count(self, k: int)
        requires
            0 <= k <= self.children.len(),
        ensures
            self.height_within(k) <= self.count_within(k),
        decreases self, k,
    {
        if k > 0 {
            self.lemma_height_within_below_count(k - 1);
            self.children[k - 1].lemma_height_below_count();
        }
    }
}

} // verus!
