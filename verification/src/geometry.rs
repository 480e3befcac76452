//! The plain values that callers hand in and get back: size policies,
//! orientations, output rectangles and errors. All lengths are whole units
//! (pixels).

use vstd::prelude::*;

verus! {

/// How long a node is along the main axis of its parent.
#[derive(Debug, Clone, Copy, PartialEq, Eq, Structural)]
pub enum DynLen {
    /// A share of the space that the fixed siblings leave free, in
    /// proportion to the weights of all relative siblings. With 400 units
    /// free, three siblings weighted 1, 2, 1 get 100, 200 and 100.
    Relative(u32),
    /// A fixed length, whatever the parent's size.
    Absolute(u32),
}

impl DynLen {
    /// The length this policy claims outright: its own for `Absolute`, none
    /// for `Relative`.
    pub open spec fn fixed(self) -> int {
        match self {
            DynLen::Absolute(l) => l as int,
            DynLen::Relative(_) => 0,
        }
    }

    /// The weight this policy takes part with in sharing out free space.
    pub open spec fn weight(self) -> int {
        match self {
            DynLen::Absolute(_) => 0,
            DynLen::Relative(r) => r as int,
        }
    }

    /// Whether this policy asks for a share of the free space.
    pub open spec fn is_relative(self) -> bool {
        self is Relative
    }
}

/// The axis along which a node stacks its children.
#[derive(Debug, Clone, Copy, PartialEq, Eq, Structural)]
pub enum Layout {
    /// Left to right; the main axis is the width.
    Horizontal,
    /// Top to bottom; the main axis is the height.
    Vertical,
}

/// Why a tree could not be laid out. Each variant carries the id of the node
/// at which the fault was found.
#[derive(Debug, Clone, Copy, PartialEq, Eq, Structural)]
pub enum LayoutError {
    /// The fixed children of the node use up all of its main extent, or more.
    InsufficientSpace(u32),
    /// The node has relative children whose weights add up to zero.
    ZeroWeightDivision(u32),
    /// The buffer is shorter than the number of nodes under the node.
    BufferTooSmall(u32),
}

impl LayoutError {
    /// The id of the node at which the fault was found.
    pub open spec fn node_id(self) -> u32 {
        match self {
            LayoutError::InsufficientSpace(id) => id,
            LayoutError::ZeroWeightDivision(id) => id,
            LayoutError::BufferTooSmall(id) => id,
        }
    }
}

/// Where a rectangle lies: its top-left corner and its extents.
pub struct Frame {
    pub x: int,
    pub y: int,
    pub w: int,
    pub h: int,
}

/// What a `Rect` stands for: a node's id, its frame and its stacking layer.
pub struct Placement {
    pub id: u32,
    pub frame: Frame,
    pub layer: int,
}

impl Placement {
    /// The placeholder for a node that has not been laid out yet.
    pub open spec fn blank(id: u32) -> Placement {
        Placement { id, frame: Frame { x: 0, y: 0, w: 0, h: 0 }, layer: 0 }
    }
}

/// A rectangle with a position and a size, one per laid-out node. The
/// corner and the layer are wider than the lengths they are made of: they
/// hold the far corner of any frame and the layer of a node at any depth.
#[derive(Debug, Clone, Copy, PartialEq, Eq)]
pub struct Rect {
    pub id: u32,
    /// Top-left corner, `[x, y]`.
    pub pos: [u64; 2],
    /// Extents, `[width, height]`.
    pub size: [u32; 2],
    /// Stacking layer: the depth of the node below the root of the pass,
    /// counted from the layer the pass was started with.
    pub layer: u128,
}

impl View for Rect {
    type V = Placement;

    open spec fn view(&self) -> Placement {
        Placement {
            id: self.id,
            frame: Frame {
                x: self.pos[0] as int,
                y: self.pos[1] as int,
                w: self.size[0] as int,
                h: self.size[1] as int,
            },
            layer: self.layer as int,
        }
    }
}

impl Rect {
    /// A placeholder rectangle for the node `id`: all zero.
    pub fn new(id: u32) -> (r: Rect)
        ensures
            r@ == Placement::blank(id),
    {
        Rect { id, pos: [0, 0], size: [0, 0], layer: 0 }
    }
}

/// The placements that a sequence of rectangles stands for.
pub open spec fn placements(rects: Seq<Rect>) -> Seq<Placement> {
    rects.map_values(|r: Rect| r@)
}

/// Two rectangles that stand for the same placement are the same rectangle.
pub proof fn lemma_rect_view_injective(a: Rect, b: Rect)
    requires
        a@ == b@,
    ensures
        a == b,
{
    assert(a.pos =~= b.pos);
    assert(a.size =~= b.size);
}

} // verus!
