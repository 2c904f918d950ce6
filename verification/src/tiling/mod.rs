use vstd::prelude::*;

use crate::window::{WindowId, WindowPlacement, WindowRect};

pub mod bsp;
pub mod properties;

verus! {

/// Half of `v`, rounded toward zero, as `/ 2` computes it on integers.
pub open spec fn trunc_half(v: int) -> int {
    if v >= 0 {
        v / 2
    } else {
        -((-v) / 2)
    }
}

/// Direction of a windows split on workspace update.
#[derive(Debug, Clone, Copy, PartialEq, Eq, Structural)]
pub enum SplitDirection {
    /// Indicates that the existing windows will be splitted vertically.
    Vertical,
    /// Indicates that the existing windows will be splitted horizontally.
    Horizontal,
}

/// Represents a single node in the workspace's tree.
pub enum WindowNode {
    /// Regular window - a tree's leaf.
    Leaf {
        /// ID of the assigned window to this node.
        window_id: WindowId,
    },
    /// Split between two windows in the given direction.
    Split {
        /// Direction of the split.
        direction: SplitDirection,
        /// Left-side (or top) window node.
        left: Box<WindowNode>,
        /// Right-side (or bottom) window node.
        right: Box<WindowNode>,
    },
}

/// The two halves of `rect` split in `direction`: left and right halves for a
/// vertical split, top and bottom halves for a horizontal one. The first half
/// gets half the extent rounded toward zero, the second the rest.
pub open spec fn split_rect_spec(rect: WindowRect, direction: SplitDirection) -> (WindowRect, WindowRect) {
    match direction {
        SplitDirection::Vertical => {
            let left_width = trunc_half(rect.width as int);
            (
                WindowRect { x: rect.x, y: rect.y, width: left_width as i32, height: rect.height },
                WindowRect {
                    x: (rect.x + left_width) as i32,
                    y: rect.y,
                    width: (rect.width - left_width) as i32,
                    height: rect.height,
                },
            )
        },
        SplitDirection::Horizontal => {
            let top_height = trunc_half(rect.height as int);
            (
                WindowRect { x: rect.x, y: rect.y, width: rect.width, height: top_height as i32 },
                WindowRect {
                    x: rect.x,
                    y: (rect.y + top_height) as i32,
                    width: rect.width,
                    height: (rect.height - top_height) as i32,
                },
            )
        },
    }
}

/// Whether splitting `rect` in `direction` computes its halves without
/// leaving `i32`: the second half's start `x + width / 2` (vertical) or
/// `y + height / 2` (horizontal) is an `i32` value.
pub open spec fn split_fits(rect: WindowRect, direction: SplitDirection) -> bool {
    match direction {
        SplitDirection::Vertical => i32::MIN <= rect.x + trunc_half(rect.width as int) <= i32::MAX,
        SplitDirection::Horizontal => i32::MIN <= rect.y + trunc_half(rect.height as int)
            <= i32::MAX,
    }
}

/// Whether both far edges of `rect` (`x + width`, `y + height`) are `i32`
/// values; then every rectangle obtained by repeated splitting has its
/// coordinates and sizes in `i32` too.
pub open spec fn rect_edges_fit(rect: WindowRect) -> bool {
    &&& i32::MIN <= rect.x + rect.width <= i32::MAX
    &&& i32::MIN <= rect.y + rect.height <= i32::MAX
}

impl WindowNode {
    /// The windows of the tree, in order: left (top) subtree before right
    /// (bottom) subtree.
    pub open spec fn windows(self) -> Seq<WindowId>
        decreases self,
    {
        match self {
            WindowNode::Leaf { window_id } => seq![window_id],
            WindowNode::Split { left, right, .. } => left.windows() + right.windows(),
        }
    }

    /// Number of splits in the tree.
    pub open spec fn split_count(self) -> nat
        decreases self,
    {
        match self {
            WindowNode::Leaf { .. } => 0,
            WindowNode::Split { left, right, .. } => left.split_count() + right.split_count() + 1,
        }
    }

    /// Whether the window `id` is a leaf of the tree.
    pub open spec fn has_window(self, id: WindowId) -> bool
        decreases self,
    {
        match self {
            WindowNode::Leaf { window_id } => window_id == id,
            WindowNode::Split { left, right, .. } => left.has_window(id) || right.has_window(id),
        }
    }

    /// The tree with the first leaf `active` (in the order of
    /// [`WindowNode::windows`]) replaced by a split in `direction` between
    /// `active` and `new_window`; the tree itself where there is no such leaf.
    pub open spec fn split_at(
        self,
        active: WindowId,
        new_window: WindowId,
        direction: SplitDirection,
    ) -> WindowNode
        decreases self,
    {
        match self {
            WindowNode::Leaf { window_id } => {
                if window_id == active {
                    WindowNode::Split {
                        direction,
                        left: Box::new(WindowNode::Leaf { window_id }),
                        right: Box::new(WindowNode::Leaf { window_id: new_window }),
                    }
                } else {
                    self
                }
            },
            WindowNode::Split { direction: d, left, right } => {
                if left.has_window(active) {
                    WindowNode::Split {
                        direction: d,
                        left: Box::new(left.split_at(active, new_window, direction)),
                        right,
                    }
                } else if right.has_window(active) {
                    WindowNode::Split {
                        direction: d,
                        left,
                        right: Box::new(right.split_at(active, new_window, direction)),
                    }
                } else {
                    self
                }
            },
        }
    }

    /// The tree without the leaves of window `id`: a split that loses one
    /// side is replaced by its other side; `None` when no leaf is left.
    pub open spec fn without(self, id: WindowId) -> Option<WindowNode>
        decreases self,
    {
        match self {
            WindowNode::Leaf { window_id } => {
                if window_id != id {
                    Some(WindowNode::Leaf { window_id })
                } else {
                    None
                }
            },
            WindowNode::Split { direction, left, right } => {
                match (left.without(id), right.without(id)) {
                    (None, None) => None,
                    (None, Some(r)) => Some(r),
                    (Some(l), None) => Some(l),
                    (Some(l), Some(r)) => Some(
                        WindowNode::Split { direction, left: Box::new(l), right: Box::new(r) },
                    ),
                }
            },
        }
    }

    /// Whether laying the tree out in `rect` computes every split without
    /// leaving `i32`: [`split_fits`] holds at each split.
    pub open spec fn placements_fit(self, rect: WindowRect) -> bool
        decreases self,
    {
        match self {
            WindowNode::Leaf { .. } => true,
            WindowNode::Split { direction, left, right } => {
                let halves = split_rect_spec(rect, direction);
                &&& split_fits(rect, direction)
                &&& left.placements_fit(halves.0)
                &&& right.placements_fit(halves.1)
            },
        }
    }

    /// The placement of every window of the tree when the tree is laid out
    /// in `rect`: a leaf takes the whole rectangle, a split divides it with
    /// [`split_rect_spec`] between its two sides. In the order of
    /// [`WindowNode::windows`].
    pub open spec fn placements(self, rect: WindowRect) -> Seq<WindowPlacement>
        decreases self,
    {
        match self {
            WindowNode::Leaf { window_id } => seq![WindowPlacement { window_id, rect }],
            WindowNode::Split { direction, left, right } => {
                let halves = split_rect_spec(rect, direction);
                left.placements(halves.0) + right.placements(halves.1)
            },
        }
    }
}

/// Describes tiling mode's capabilities. Target implementation should keep
/// track of the root node (if it follows tree-based approach).
pub trait TilingMode {
    /// The windows that the tiling mode lays out.
    spec fn tiled_windows(&self) -> Seq<WindowId>;

    /// Adds a new window, additionally recalculates current workspace tree.
    /// The window is tiled afterwards, every window tiled before still is,
    /// no other window is added, and distinct windows stay distinct.
    fn accept_window(&mut self, window_id: &WindowId, active_window_id: Option<WindowId>)
        requires
            !old(self).tiled_windows().contains(*window_id) ==> old(self).tiled_windows().len()
                <= i32::MAX + 1,
        ensures
            final(self).tiled_windows().contains(*window_id),
            forall|w: WindowId| #[trigger]
                old(self).tiled_windows().contains(w) ==> final(self).tiled_windows().contains(w),
            forall|w: WindowId| #[trigger]
                final(self).tiled_windows().contains(w) ==> old(self).tiled_windows().contains(w)
                    || w == *window_id,
            old(self).tiled_windows().no_duplicates() ==> final(self).tiled_windows().no_duplicates(),
    ;

    /// Whether laying the windows out in `rect` computes every split
    /// without leaving `i32`.
    spec fn can_place(&self, rect: WindowRect) -> bool;

    /// Calculates placements for all workspace's windows. Mutates given Vec.
    /// One placement is appended per tiled window, in the order of the
    /// tiled windows; the placements already there are kept.
    fn calculate_placements(&self, rect: &WindowRect, placements: &mut Vec<WindowPlacement>)
        requires
            self.can_place(*rect),
        ensures
            final(placements)@.len() == old(placements)@.len() + self.tiled_windows().len(),
            forall|i: int| 0 <= i < old(placements)@.len() ==> #[trigger] final(placements)@[i]
                == old(placements)@[i],
            forall|i: int| 0 <= i < self.tiled_windows().len()
                ==> #[trigger] final(placements)@[old(placements)@.len() + i].window_id
                == self.tiled_windows()[i],
    ;

    /// Removes the given window from the layout: the tiled windows keep
    /// their order without it.
    fn destroy_window(&mut self, window_id: &WindowId)
        ensures
            final(self).tiled_windows() == old(self).tiled_windows().filter(
                crate::tiling::properties::other_than(*window_id),
            ),
    ;
}

} // verus!
