//! A small tree to try the engine on: a sidebar with four items beside a
//! body that takes the rest of the width.

use vstd::prelude::*;
use crate::geometry::{DynLen, Layout};
use crate::model::Tree;
use crate::node::Node;

verus! {

/// The tree that `setup_nodes` builds. A wrapper (id 7) lays out, side by
/// side, a sidebar (id 1) 200 units wide and a body (id 6) that takes what
/// is left. The sidebar holds four items (ids 2 to 5), each 40 units high,
/// one below the other.
pub open spec fn sample_tree() -> Tree {
    let item = |id: u32| Tree::leaf(id, Layout::Vertical, DynLen::Absolute(40));
    let sidebar = Tree {
        id: 1,
        axis: Layout::Vertical,
        size: DynLen::Absolute(200),
        children: seq![item(2), item(3), item(4), item(5)],
    };
    let body = Tree::leaf(6, Layout::Vertical, DynLen::Relative(1));
    Tree {
        id: 7,
        axis: Layout::Horizontal,
        size: DynLen::Relative(1),
        children: seq![sidebar, body],
    }
}

/// Counts `counter` up by one and returns the new value.
fn next_id(counter: &mut u32) -> (id: u32)
    requires
        *old(counter) < u32::MAX,
    ensures
        id == *old(counter) + 1,
        *final(counter) == id,
{
    *counter = *counter + 1;
    *counter
}

/// Builds the sample tree, with ids counted from 1 in the order in which
/// the nodes are made.
pub fn setup_nodes() -> (root: Node)
    ensures
        root@ == sample_tree(),
{
    let mut curr_id: u32 = 0;

    // The sidebar, 200 units wide, with four items 40 units high.
    let mut sidebar = Node::new(next_id(&mut curr_id), Layout::Vertical, DynLen::Absolute(200));
    let item_1 = Node::new(next_id(&mut curr_id), Layout::Vertical, DynLen::Absolute(40));
    let item_2 = Node::new(next_id(&mut curr_id), Layout::Vertical, DynLen::Absolute(40));
    let item_3 = Node::new(next_id(&mut curr_id), Layout::Vertical, DynLen::Absolute(40));
    let item_4 = Node::new(next_id(&mut curr_id), Layout::Vertical, DynLen::Absolute(40));
    let items = vec![item_1, item_2, item_3, item_4];
    proof {
        assert(items@.map_values(|n: Node| n@) =~= sample_tree().children[0].children);
    }
    sidebar.add_children(items);
    proof {
        assert(sidebar@.children =~= sample_tree().children[0].children);
    }

    // The body takes the width that is left.
    let body = Node::new(next_id(&mut curr_id), Layout::Vertical, DynLen::Relative(1));

    // The wrapper puts the two side by side.
    let mut wrapper = Node::new(next_id(&mut curr_id), Layout::Horizontal, DynLen::Relative(1));
    wrapper.add_child(sidebar);
    wrapper.add_child(body);
    proof {
        assert(wrapper@.children =~= sample_tree().children);
    }
    wrapper
}

} // verus!
