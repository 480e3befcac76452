use node_layout::{setup_nodes, DynLen, Layout, Node, Rect};

fn rect(id: u32, x: u32, y: u32, w: u32, h: u32, layer: u32) -> Rect {
    Rect { id, pos: [x as u64, y as u64], size: [w, h], layer: layer as u128 }
}

fn node(id: u32, axis: Layout, size: DynLen, children: Vec<Node>) -> Node {
    let mut n = Node::new(id, axis, size);
    n.add_children(children);
    n
}

fn leaf(id: u32, size: DynLen) -> Node {
    Node::new(id, Layout::Horizontal, size)
}

/// Root 1 holds 2 and 5; 2 holds 3 and 4; 5 holds 6, which holds 7.
fn three_levels() -> Node {
    node(
        1,
        Layout::Horizontal,
        DynLen::Relative(1),
        vec![
            node(
                2,
                Layout::Vertical,
                DynLen::Absolute(60),
                vec![leaf(3, DynLen::Relative(1)), leaf(4, DynLen::Relative(3))],
            ),
            node(
                5,
                Layout::Vertical,
                DynLen::Relative(1),
                vec![node(
                    6,
                    Layout::Horizontal,
                    DynLen::Absolute(10),
                    vec![leaf(7, DynLen::Relative(2))],
                )],
            ),
        ],
    )
}

#[test]
fn presized_buffer_has_one_slot_for_each_node() {
    let tree = three_levels();
    let mut buf = tree.alloc_rect_buffer();
    assert_eq!(buf.len(), 7);
    assert_eq!(tree.layout(&mut buf[..], 0, 0, 100, 40, 0), Ok(7));
}

#[test]
fn placeholders_carry_the_ids_in_the_order_of_a_pass() {
    let tree = three_levels();
    let buf = tree.alloc_rect_buffer();
    let expected: Vec<Rect> =
        [3, 4, 2, 7, 6, 5, 1].iter().map(|&id| rect(id, 0, 0, 0, 0, 0)).collect();
    assert_eq!(buf, expected);
}

#[test]
fn a_pass_keeps_each_node_in_its_slot() {
    let tree = three_levels();
    let mut buf = tree.alloc_rect_buffer();
    let ids_before: Vec<u32> = buf.iter().map(|r| r.id).collect();
    assert_eq!(tree.layout(&mut buf[..], 0, 0, 100, 40, 0), Ok(7));
    let ids_after: Vec<u32> = buf.iter().map(|r| r.id).collect();
    assert_eq!(ids_before, ids_after);
}

#[test]
fn three_levels_are_placed_exactly() {
    let tree = three_levels();
    let mut buf = tree.alloc_rect_buffer();
    assert_eq!(tree.layout(&mut buf[..], 0, 0, 100, 40, 0), Ok(7));
    assert_eq!(
        buf,
        vec![
            rect(3, 0, 0, 60, 10, 2),
            rect(4, 0, 10, 60, 30, 2),
            rect(2, 0, 0, 60, 40, 1),
            rect(7, 60, 0, 40, 10, 3),
            rect(6, 60, 0, 40, 10, 2),
            rect(5, 60, 0, 40, 40, 1),
            rect(1, 0, 0, 100, 40, 0),
        ]
    );
}

#[test]
fn weights_one_two_one_split_four_hundred_units() {
    let tree = node(
        1,
        Layout::Horizontal,
        DynLen::Relative(1),
        vec![
            leaf(2, DynLen::Relative(1)),
            leaf(3, DynLen::Relative(2)),
            leaf(4, DynLen::Relative(1)),
        ],
    );
    let mut buf = tree.alloc_rect_buffer();
    assert_eq!(tree.layout(&mut buf[..], 0, 0, 400, 10, 0), Ok(4));
    assert_eq!(buf[0], rect(2, 0, 0, 100, 10, 1));
    assert_eq!(buf[1], rect(3, 100, 0, 200, 10, 1));
    assert_eq!(buf[2], rect(4, 300, 0, 100, 10, 1));
    let sum: u32 = buf[..3].iter().map(|r| r.size[0]).sum();
    assert_eq!(sum, buf[3].size[0]);
}

#[test]
fn uneven_shares_still_fill_the_parent() {
    let tree = node(
        1,
        Layout::Horizontal,
        DynLen::Relative(1),
        vec![
            leaf(2, DynLen::Relative(1)),
            leaf(3, DynLen::Relative(1)),
            leaf(4, DynLen::Relative(1)),
        ],
    );
    let mut buf = tree.alloc_rect_buffer();
    assert_eq!(tree.layout(&mut buf[..], 0, 0, 100, 10, 0), Ok(4));
    assert_eq!(buf[0], rect(2, 0, 0, 33, 10, 1));
    assert_eq!(buf[1], rect(3, 33, 0, 33, 10, 1));
    assert_eq!(buf[2], rect(4, 66, 0, 34, 10, 1));
    let sum: u32 = buf[..3].iter().map(|r| r.size[0]).sum();
    assert_eq!(sum, 100);
}

#[test]
fn each_share_is_within_one_unit_of_its_part() {
    // 10 units for the weights 3, 1, 3: the parts are 4 2/7, 1 3/7, 4 2/7.
    let tree = node(
        1,
        Layout::Vertical,
        DynLen::Relative(1),
        vec![
            leaf(2, DynLen::Relative(3)),
            leaf(3, DynLen::Relative(1)),
            leaf(4, DynLen::Absolute(5)),
            leaf(5, DynLen::Relative(3)),
        ],
    );
    let mut buf = tree.alloc_rect_buffer();
    assert_eq!(tree.layout(&mut buf[..], 0, 0, 8, 15, 0), Ok(5));
    assert_eq!(buf[0], rect(2, 0, 0, 8, 4, 1));
    assert_eq!(buf[1], rect(3, 0, 4, 8, 1, 1));
    assert_eq!(buf[2], rect(4, 0, 5, 8, 5, 1));
    assert_eq!(buf[3], rect(5, 0, 10, 8, 5, 1));
    for (slot, weight) in [(0usize, 3i64), (1, 1), (3, 3)] {
        let off = 7 * (buf[slot].size[1] as i64) - 10 * weight;
        assert!(-7 < off && off < 7);
    }
}

#[test]
fn siblings_adjoin_without_gap_or_overlap() {
    let tree = node(
        1,
        Layout::Vertical,
        DynLen::Relative(1),
        vec![
            leaf(2, DynLen::Absolute(7)),
            leaf(3, DynLen::Relative(5)),
            leaf(4, DynLen::Absolute(11)),
            leaf(5, DynLen::Relative(2)),
        ],
    );
    let mut buf = tree.alloc_rect_buffer();
    assert_eq!(tree.layout(&mut buf[..], 3, 4, 50, 88, 0), Ok(5));
    assert_eq!(buf[0].pos[1], 4);
    for i in 1..4 {
        assert_eq!(buf[i].pos[1], buf[i - 1].pos[1] + buf[i - 1].size[1] as u64);
    }
    // 70 units are free: 5/7 of them are 50, 2/7 are 20.
    assert_eq!(buf[1].size[1], 50);
    assert_eq!(buf[3].size[1], 20);
    assert_eq!(buf[3].pos[1] + buf[3].size[1] as u64, 4 + 88);
}

#[test]
fn children_span_their_parent_across_its_axis() {
    let tree = three_levels();
    let mut buf = tree.alloc_rect_buffer();
    assert_eq!(tree.layout(&mut buf[..], 5, 9, 100, 40, 0), Ok(7));
    // 2 and 5 lie side by side in 1: they have its height and its top.
    for child in [2usize, 5] {
        assert_eq!(buf[child].size[1], buf[6].size[1]);
        assert_eq!(buf[child].pos[1], buf[6].pos[1]);
    }
    // 3 and 4 lie one below the other in 2: they have its width and its left.
    for child in [0usize, 1] {
        assert_eq!(buf[child].size[0], buf[2].size[0]);
        assert_eq!(buf[child].pos[0], buf[2].pos[0]);
    }
}

#[test]
fn layer_is_base_plus_depth() {
    let tree = three_levels();
    let mut buf = tree.alloc_rect_buffer();
    assert_eq!(tree.layout(&mut buf[..], 0, 0, 100, 40, 10), Ok(7));
    let layers: Vec<(u32, u128)> = buf.iter().map(|r| (r.id, r.layer)).collect();
    assert_eq!(layers, vec![(3, 12), (4, 12), (2, 11), (7, 13), (6, 12), (5, 11), (1, 10)]);
}

#[test]
fn two_passes_agree_whatever_the_buffers_held() {
    let tree = three_levels();
    let mut first = tree.alloc_rect_buffer();
    let mut second = vec![rect(99, 1, 2, 3, 4, 5); 7];
    assert_eq!(tree.layout(&mut first[..], 2, 3, 640, 480, 1), Ok(7));
    assert_eq!(tree.layout(&mut second[..], 2, 3, 640, 480, 1), Ok(7));
    assert_eq!(first, second);
}

#[test]
fn a_second_pass_leaves_the_buffer_as_it_is() {
    let tree = three_levels();
    let mut buf = tree.alloc_rect_buffer();
    assert_eq!(tree.layout(&mut buf[..], 2, 3, 640, 480, 1), Ok(7));
    let after_first = buf.clone();
    assert_eq!(tree.layout(&mut buf[..], 2, 3, 640, 480, 1), Ok(7));
    assert_eq!(buf, after_first);
}

#[test]
fn a_pass_with_new_extents_overwrites_every_slot() {
    let tree = three_levels();
    let mut reused = tree.alloc_rect_buffer();
    assert_eq!(tree.layout(&mut reused[..], 0, 0, 640, 480, 0), Ok(7));
    assert_eq!(tree.layout(&mut reused[..], 7, 7, 100, 40, 3), Ok(7));
    let mut fresh = tree.alloc_rect_buffer();
    assert_eq!(tree.layout(&mut fresh[..], 7, 7, 100, 40, 3), Ok(7));
    assert_eq!(reused, fresh);
}

#[test]
fn slots_behind_the_tree_are_left_alone() {
    let tree = three_levels();
    let mut buf = vec![rect(99, 1, 2, 3, 4, 5); 9];
    assert_eq!(tree.layout(&mut buf[..], 0, 0, 100, 40, 0), Ok(7));
    assert_eq!(buf[6], rect(1, 0, 0, 100, 40, 0));
    assert_eq!(buf[7], rect(99, 1, 2, 3, 4, 5));
    assert_eq!(buf[8], rect(99, 1, 2, 3, 4, 5));
}

#[test]
fn a_single_node_fills_its_frame() {
    let tree = leaf(4, DynLen::Absolute(1));
    let mut buf = tree.alloc_rect_buffer();
    assert_eq!(buf, vec![rect(4, 0, 0, 0, 0, 0)]);
    assert_eq!(tree.layout(&mut buf[..], 1, 2, 3, 4, 5), Ok(1));
    assert_eq!(buf, vec![rect(4, 1, 2, 3, 4, 5)]);
}

#[test]
fn the_largest_lengths_and_weights_do_not_overflow() {
    let tree = node(
        1,
        Layout::Horizontal,
        DynLen::Relative(1),
        vec![leaf(2, DynLen::Relative(u32::MAX)), leaf(3, DynLen::Relative(u32::MAX))],
    );
    let mut buf = tree.alloc_rect_buffer();
    assert_eq!(tree.layout(&mut buf[..], 0, 0, u32::MAX, 1, 0), Ok(3));
    assert_eq!(
        buf,
        vec![
            rect(2, 0, 0, 2147483647, 1, 1),
            rect(3, 2147483647, 0, 2147483648, 1, 1),
            rect(1, 0, 0, u32::MAX, 1, 0),
        ]
    );
}

#[test]
fn the_far_corner_and_the_deepest_layer_may_pass_the_largest_argument() {
    let tree = node(
        1,
        Layout::Horizontal,
        DynLen::Relative(1),
        vec![leaf(2, DynLen::Absolute(10)), leaf(3, DynLen::Relative(1))],
    );
    let mut buf = tree.alloc_rect_buffer();
    let max = u32::MAX;
    assert_eq!(tree.layout(&mut buf[..], max, max, max, max, max), Ok(3));
    let far = max as u64;
    assert_eq!(
        buf,
        vec![
            Rect { id: 2, pos: [far, far], size: [10, max], layer: max as u128 + 1 },
            Rect { id: 3, pos: [far + 10, far], size: [max - 10, max], layer: max as u128 + 1 },
            Rect { id: 1, pos: [far, far], size: [max, max], layer: max as u128 },
        ]
    );
}

#[test]
fn sample_tree_is_laid_out_in_a_window() {
    let tree = setup_nodes();
    let mut buf = tree.alloc_rect_buffer();
    assert_eq!(buf.len(), 7);
    assert_eq!(tree.layout(&mut buf[..], 0, 0, 800, 600, 0), Ok(7));
    assert_eq!(
        buf,
        vec![
            rect(2, 0, 0, 200, 40, 2),
            rect(3, 0, 40, 200, 40, 2),
            rect(4, 0, 80, 200, 40, 2),
            rect(5, 0, 120, 200, 40, 2),
            rect(1, 0, 0, 200, 600, 1),
            rect(6, 200, 0, 600, 600, 1),
            rect(7, 0, 0, 800, 600, 0),
        ]
    );
}

#[test]
fn children_keep_the_order_in_which_they_were_added() {
    let mut one_by_one = Node::new(1, Layout::Horizontal, DynLen::Relative(1));
    one_by_one.add_child(leaf(2, DynLen::Absolute(10)));
    one_by_one.add_child(leaf(3, DynLen::Absolute(20)));
    one_by_one.add_child(leaf(4, DynLen::Absolute(30)));
    let mut in_bulk = Node::new(1, Layout::Horizontal, DynLen::Relative(1));
    in_bulk.add_child(leaf(2, DynLen::Absolute(10)));
    in_bulk.add_children(vec![leaf(3, DynLen::Absolute(20)), leaf(4, DynLen::Absolute(30))]);
    let mut a = one_by_one.alloc_rect_buffer();
    let mut b = in_bulk.alloc_rect_buffer();
    assert_eq!(one_by_one.layout(&mut a[..], 0, 0, 100, 5, 0), Ok(4));
    assert_eq!(in_bulk.layout(&mut b[..], 0, 0, 100, 5, 0), Ok(4));
    assert_eq!(a, b);
    assert_eq!(
        a,
        vec![
            rect(2, 0, 0, 10, 5, 1),
            rect(3, 10, 0, 20, 5, 1),
            rect(4, 30, 0, 30, 5, 1),
            rect(1, 0, 0, 100, 5, 0),
        ]
    );
}

#[test]
fn a_clone_is_laid_out_like_the_tree_it_was_made_from() {
    let tree = three_levels();
    let copy = tree.clone();
    let mut a = tree.alloc_rect_buffer();
    let mut b = copy.alloc_rect_buffer();
    assert_eq!(a, b);
    assert_eq!(tree.layout(&mut a[..], 0, 0, 100, 40, 0), Ok(7));
    assert_eq!(copy.layout(&mut b[..], 0, 0, 100, 40, 0), Ok(7));
    assert_eq!(a, b);
}
