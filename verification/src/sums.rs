//! Facts about the sums that the model is made of: their bounds, how they
//! grow with the number of children, and how the free space of a node is
//! shared out.

use vstd::prelude::*;
use vstd::arithmetic::div_mod::{lemma_div_is_ordered, lemma_div_multiples_vanish};
use crate::model::Tree;

verus! {

impl Tree {
    /// The sums over the first `k` children are not negative, and bounded by
    /// what `k` children can hold.
    pub proof fn lemma_sums_bounded(self, k: int)
        requires
            0 <= k <= self.children.len(),
        ensures
            0 <= self.fixed_sum(k) <= k * u32::MAX,
            0 <= self.weight_sum(k) <= k * u32::MAX,
            0 <= self.relative_count(k) <= k,
        decreases k,
    {
        if k > 0 {
            self.lemma_sums_bounded(k - 1);
        }
    }

    /// The sums over the first `i` children are at most those over the first
    /// `k`, where `i` is at most `k`.
    pub proof fn lemma_sums_grow(self, i: int, k: int)
        requires
            0 <= i <= k <= self.children.len(),
        ensures
            self.fixed_sum(i) <= self.fixed_sum(k),
            self.weight_sum(i) <= self.weight_sum(k),
            self.relative_count(i) <= self.relative_count(k),
            self.count_within(i) <= self.count_within(k),
            self.height_within(i) <= self.height_within(k),
        decreases k - i,
    {
        if i < k {
            self.lemma_sums_grow(i, k - 1);
        }
    }

    /// Each child is counted in the sums over all children.
    pub proof fn lemma_child_in_sums(self, i: int)
        requires
            0 <= i < self.children.len(),
        ensures
            self.children[i].size.fixed() <= self.fixed_sum(self.children.len() as int),
            self.children[i].size.weight() <= self.total_weight(),
            self.children[i].size.is_relative() ==> self.relative_count(
                self.children.len() as int,
            ) > 0,
            self.children[i].count() <= self.count_within(self.children.len() as int),
            self.children[i].height() + 1 <= self.height(),
    {
        self.lemma_sums_bounded(i);
        self.lemma_sums_grow(i + 1, self.children.len() as int);
    }

    /// Where none of the first `k` children is relative, they have no
    /// weight.
    pub proof fn lemma_no_relative(self, k: int)
        requires
            0 <= k <= self.children.len(),
            self.relative_count(k) == 0,
        ensures
            self.weight_sum(k) == 0,
            forall|i: int| 0 <= i < k ==> !(#[trigger] self.children[i]).size.is_relative(),
        decreases k,
    {
        if k > 0 {
            self.lemma_sums_bounded(k - 1);
            self.lemma_no_relative(k - 1);
        }
    }

    /// The shares of the first `i` children end within the free space, and
    /// not behind those of the first `k`, where `i` is at most `k`. The
    /// shares of all children end where the free space ends.
    pub proof fn lemma_share_ends(self, i: int, k: int, w: int, h: int)
        requires
            0 <= i <= k <= self.children.len(),
            self.free_space(w, h) >= 0,
        ensures
            0 <= self.share_end(i, w, h) <= self.share_end(k, w, h) <= self.free_space(w, h),
            self.total_weight() > 0 ==> self.share_end(self.children.len() as int, w, h)
                == self.free_space(w, h),
    {
        let n = self.children.len() as int;
        let free = self.free_space(w, h);
        let total = self.total_weight();
        let a = self.weight_sum(i);
        let b = self.weight_sum(k);
        self.lemma_sums_bounded(i);
        self.lemma_sums_grow(i, k);
        self.lemma_sums_grow(k, n);
        if total > 0 {
            assert(0 <= free * a <= free * b <= free * total) by (nonlinear_arith)
                requires
                    0 <= a <= b <= total,
                    0 <= free,
            ;
            lemma_div_is_ordered(0, free * a, total);
            lemma_div_is_ordered(free * a, free * b, total);
            lemma_div_is_ordered(free * b, free * total, total);
            lemma_div_multiples_vanish(free, total);
            assert(free * total == total * free) by (nonlinear_arith);
        }
    }

    /// Each child begins where the one before it ends.
    pub proof fn lemma_offset_step(self, i: int, w: int, h: int)
        requires
            0 <= i < self.children.len(),
        ensures
            self.child_offset(i + 1, w, h) == self.child_offset(i, w, h) + self.child_len(i, w, h),
    {
    }

    /// Child `k` begins as far from the node's origin as the children
    /// before it are long, taken together.
    pub proof fn lemma_lengths_add_up(self, k: int, w: int, h: int)
        requires
            0 <= k <= self.children.len(),
        ensures
            self.length_sum(k, w, h) == self.child_offset(k, w, h),
        decreases k,
    {
        if k > 0 {
            self.lemma_lengths_add_up(k - 1, w, h);
            self.lemma_offset_step(k - 1, w, h);
        } else if self.total_weight() > 0 {
            assert(self.free_space(w, h) * 0 == 0);
        }
    }

    /// In a node without a fault of its own, the children lie within the
    /// main extent: none has a negative length, and none ends behind the
    /// node's end.
    pub proof fn lemma_children_fit(self, k: int, w: int, h: int)
        requires
            0 <= k <= self.children.len(),
            self.local_error(w, h) is None,
        ensures
            0 <= self.child_offset(k, w, h) <= self.main_extent(w, h),
            k < self.children.len() ==> 0 <= self.child_len(k, w, h) && self.child_offset(k, w, h)
                + self.child_len(k, w, h) <= self.main_extent(w, h),
    {
        let n = self.children.len() as int;
        self.lemma_sums_bounded(k);
        self.lemma_sums_grow(k, n);
        self.lemma_share_ends(k, k, w, h);
        if k < n {
            self.lemma_sums_grow(k + 1, n);
            self.lemma_share_ends(k, k + 1, w, h);
            self.lemma_offset_step(k, w, h);
        }
    }

    /// Where the first `k` children hold no fault, none of them does.
    pub proof fn lemma_no_error_within(self, k: int, w: int, h: int)
        requires
            0 <= k <= self.children.len(),
            self.error_within(k, w, h) is None,
        ensures
            forall|i: int|
                0 <= i < k ==> (#[trigger] self.children[i]).first_error(
                    self.child_w(i, w, h),
                    self.child_h(i, w, h),
                ) is None,
        decreases k,
    {
        if k > 0 {
            self.lemma_no_error_within(k - 1, w, h);
        }
    }

    /// A fault under the first `i` children is the first fault under the
    /// first `k`, where `i` is at most `k`.
    pub proof fn lemma_error_stays(self, i: int, k: int, w: int, h: int)
        requires
            0 <= i <= k <= self.children.len(),
            self.error_within(i, w, h) is Some,
        ensures
            self.error_within(k, w, h) == self.error_within(i, w, h),
        decreases k - i,
    {
        if i < k {
            self.lemma_error_stays(i, k - 1, w, h);
        }
    }

    /// A fault under the first `i` children of a node without a fault of
    /// its own is the first fault of the tree.
    pub proof fn lemma_error_found(self, i: int, w: int, h: int)
        requires
            0 <= i <= self.children.len(),
            self.local_error(w, h) is None,
            self.error_within(i, w, h) is Some,
        ensures
            self.first_error(w, h) == self.error_within(i, w, h),
    {
        self.lemma_error_stays(i, self.children.len() as int, w, h);
    }
}

} // verus!
