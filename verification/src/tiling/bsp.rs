use vstd::prelude::*;

use crate::tiling::{
    SplitDirection, TilingMode, WindowNode, rect_edges_fit, split_fits, split_rect_spec, trunc_half,
};
use crate::tiling::properties::{
    accept_window_alternates_direction, accept_window_tiles_once, accepted_members, has_split_of,
    is_subtree, lemma_has_window_iff_listed, lemma_without_windows, other_than,
    placements_follow_windows, split_at_uses_requested_direction, without_keeps_untouched_subtrees,
};
use crate::window::{WindowId, WindowPlacement, WindowRect};

verus! {

/// Splits given window rectangle in the given direction, resulting in two new
/// window rectangles, representing left and right (or top and bottom) parts of
/// the layout respectively.
///
/// This function does not check for result size, so it is up to the caller to
/// validate that the returned values are appropriate (for example, not near
/// zero).
pub fn split_rect(rect: &WindowRect, direction: &SplitDirection) -> (halves: (WindowRect, WindowRect))
    requires
        split_fits(*rect, *direction),
    ensures
        halves == split_rect_spec(*rect, *direction),
{
    match direction {
        SplitDirection::Vertical => {
            let left_width = rect.width / 2;
            let right_width = rect.width - left_width;

            let left = WindowRect { x: rect.x, y: rect.y, width: left_width, height: rect.height };
            let right = WindowRect {
                x: rect.x + left_width,
                y: rect.y,
                width: right_width,
                height: rect.height,
            };

            (left, right)
        },
        SplitDirection::Horizontal => {
            let top_height = rect.height / 2;
            let bottom_height = rect.height - top_height;

            let top = WindowRect { x: rect.x, y: rect.y, width: rect.width, height: top_height };
            let bottom = WindowRect {
                x: rect.x,
                y: rect.y + top_height,
                width: rect.width,
                height: bottom_height,
            };

            (top, bottom)
        },
    }
}

/// Counts total amount of window splits from the given node.
pub fn count_splits(root: &WindowNode) -> (count: i32)
    requires
        root.split_count() <= i32::MAX,
    ensures
        count == root.split_count(),
    decreases root,
{
    match root {
        WindowNode::Leaf { .. } => 0,
        WindowNode::Split { left, right, .. } => count_splits(left) + count_splits(right) + 1,
    }
}

/// Checks whether the given window ID is present in the tree, starting from
/// the root node.
pub fn is_window_in_tree(root: &WindowNode, target_window_id: &WindowId) -> (found: bool)
    ensures
        found == root.has_window(*target_window_id),
    decreases root,
{
    match root {
        WindowNode::Leaf { window_id } => *window_id == *target_window_id,
        WindowNode::Split { left, right, .. } => {
            if is_window_in_tree(left, target_window_id) {
                return true;
            }
            if is_window_in_tree(right, target_window_id) {
                return true;
            }
            false
        },
    }
}

/// Removes window with the given ID from the BSP tree.
pub fn remove_window(root: &WindowNode, target_window_id: &WindowId) -> (rest: Option<WindowNode>)
    ensures
        rest == root.without(*target_window_id),
        forall|sub: WindowNode| #[trigger] is_subtree(sub, *root) && !sub.has_window(*target_window_id)
            ==> rest is Some && is_subtree(sub, rest->0),
    decreases root,
{
    proof {
        assert forall|sub: WindowNode| #[trigger] is_subtree(sub, *root) && !sub.has_window(*target_window_id)
            implies root.without(*target_window_id) is Some && is_subtree(sub, root.without(*target_window_id)->0) by {
            without_keeps_untouched_subtrees(*root, *target_window_id, sub);
        }
    }
    match root {
        WindowNode::Leaf { window_id } => {
            if *window_id != *target_window_id {
                Some(WindowNode::Leaf { window_id: *window_id })
            } else {
                None
            }
        },
        WindowNode::Split { direction, left, right } => {
            let left = remove_window(left, target_window_id);
            let right = remove_window(right, target_window_id);

            match (left, right) {
                (None, None) => None,
                (None, Some(right)) => Some(right),
                (Some(left), None) => Some(left),
                (Some(left), Some(right)) => Some(
                    WindowNode::Split {
                        direction: *direction,
                        left: Box::new(left),
                        right: Box::new(right),
                    },
                ),
            }
        },
    }
}

/// Splits the current tree of windows at the given one. If root node is
/// already a split, finds neareast non-splitted window. Updates given root
/// node, rebuilding the tree. Returned value indicates whether it successfully
/// found the target window (active window).
pub fn split_active_window_leaf(
    root: &mut WindowNode,
    active_window_id: &WindowId,
    new_window_id: &WindowId,
    direction: SplitDirection,
) -> (found: bool)
    ensures
        found == old(root).has_window(*active_window_id),
        *final(root) == old(root).split_at(*active_window_id, *new_window_id, direction),
        found ==> has_split_of(*final(root), direction, *active_window_id, *new_window_id),
    decreases *old(root),
{
    proof {
        if old(root).has_window(*active_window_id) {
            split_at_uses_requested_direction(*old(root), *active_window_id, *new_window_id, direction);
        }
    }
    match root {
        WindowNode::Leaf { window_id } => {
            if *window_id != *active_window_id {
                return false;
            }
            let kept = *window_id;
            *root = WindowNode::Split {
                direction,
                left: Box::new(WindowNode::Leaf { window_id: kept }),
                right: Box::new(WindowNode::Leaf { window_id: *new_window_id }),
            };

            true
        },
        WindowNode::Split { left, right, .. } => {
            if split_active_window_leaf(left, active_window_id, new_window_id, direction) {
                return true;
            }
            if split_active_window_leaf(right, active_window_id, new_window_id, direction) {
                return true;
            }
            false
        },
    }
}

/// Half of a value lies between zero and the value.
pub proof fn lemma_trunc_half_bounds(v: int)
    ensures
        v >= 0 ==> 0 <= trunc_half(v) <= v,
        v < 0 ==> v <= trunc_half(v) <= 0,
{
}

/// When both far edges of `rect` are `i32` values, splitting it computes its
/// halves without leaving `i32`, and both halves have the same property.
pub proof fn lemma_split_keeps_edges_fit(rect: WindowRect, direction: SplitDirection)
    requires
        rect_edges_fit(rect),
    ensures
        split_fits(rect, direction),
        rect_edges_fit(split_rect_spec(rect, direction).0),
        rect_edges_fit(split_rect_spec(rect, direction).1),
{
    lemma_trunc_half_bounds(rect.width as int);
    lemma_trunc_half_bounds(rect.height as int);
}

/// A tree can be laid out in any rectangle whose far edges are `i32`
/// values.
pub proof fn lemma_edges_fit_places(root: WindowNode, rect: WindowRect)
    requires
        rect_edges_fit(rect),
    ensures
        root.placements_fit(rect),
    decreases root,
{
    match root {
        WindowNode::Leaf { .. } => {},
        WindowNode::Split { direction, left, right } => {
            lemma_split_keeps_edges_fit(rect, direction);
            let halves = split_rect_spec(rect, direction);
            lemma_edges_fit_places(*left, halves.0);
            lemma_edges_fit_places(*right, halves.1);
        },
    }
}

/// Calculates window placements for the given root node and a rect. For the
/// first iteration, root will be tiling tree root, and rect will be the whole
/// screen.
pub fn calculate_placements(
    root: &WindowNode,
    rect: &WindowRect,
    placements: &mut Vec<WindowPlacement>,
)
    requires
        root.placements_fit(*rect),
    ensures
        final(placements)@ == old(placements)@ + root.placements(*rect),
    decreases root,
{
    match root {
        WindowNode::Leaf { window_id } => {
            placements.push(WindowPlacement { window_id: *window_id, rect: *rect });
        },
        WindowNode::Split { direction, left, right } => {
            let (left_rect, right_rect) = split_rect(rect, direction);
            calculate_placements(left, &left_rect, placements);
            calculate_placements(right, &right_rect, placements);
            assert(placements@ =~= old(placements)@ + root.placements(*rect));
        },
    }
}

/// The windows of an optional tree; none for the empty tree.
pub open spec fn windows_of(tree: Option<WindowNode>) -> Seq<WindowId> {
    match tree {
        Some(root) => root.windows(),
        None => Seq::empty(),
    }
}

/// The placements of the windows of an optional tree laid out in `rect`;
/// none for the empty tree.
pub open spec fn placements_of(tree: Option<WindowNode>, rect: WindowRect) -> Seq<WindowPlacement> {
    match tree {
        Some(root) => root.placements(rect),
        None => Seq::empty(),
    }
}

/// Appends the windows of the tree, in order.
pub fn collect_windows(root: &WindowNode, windows: &mut Vec<WindowId>)
    ensures
        final(windows)@ == old(windows)@ + root.windows(),
    decreases root,
{
    match root {
        WindowNode::Leaf { window_id } => {
            windows.push(*window_id);
        },
        WindowNode::Split { left, right, .. } => {
            collect_windows(left, windows);
            collect_windows(right, windows);
            assert(windows@ =~= old(windows)@ + root.windows());
        },
    }
}

/// The direction in which a tree with `split_count` splits is split next:
/// vertically after an even number of splits, horizontally after an odd one.
pub open spec fn next_direction(split_count: nat) -> SplitDirection {
    if split_count % 2 == 0 {
        SplitDirection::Vertical
    } else {
        SplitDirection::Horizontal
    }
}

/// The tree after window `window_id` is accepted while `active` is the
/// active window: unchanged when the window is already tiled; a single leaf
/// when the tree is empty; otherwise the active window's leaf is split
/// between it and the new window, or, when the active window is not tiled
/// (or there is none), the whole tree becomes the first side of a split whose
/// second side is the new window. The split goes in [`next_direction`] of the
/// tree's split count.
pub open spec fn accepted(
    tree: Option<WindowNode>,
    window_id: WindowId,
    active: Option<WindowId>,
) -> Option<WindowNode> {
    match tree {
        None => Some(WindowNode::Leaf { window_id }),
        Some(root) => {
            if root.has_window(window_id) {
                tree
            } else {
                let direction = next_direction(root.split_count());
                if active is Some && root.has_window(active->0) {
                    Some(root.split_at(active->0, window_id, direction))
                } else {
                    Some(
                        WindowNode::Split {
                            direction,
                            left: Box::new(root),
                            right: Box::new(WindowNode::Leaf { window_id }),
                        },
                    )
                }
            }
        },
    }
}

/// The tree after window `window_id` is destroyed.
pub open spec fn destroyed(tree: Option<WindowNode>, window_id: WindowId) -> Option<WindowNode> {
    match tree {
        Some(root) => root.without(window_id),
        None => None,
    }
}

/// A tree has one window more than it has splits.
pub proof fn lemma_split_count_is_windows_minus_one(root: WindowNode)
    ensures
        root.split_count() + 1 == root.windows().len(),
    decreases root,
{
    match root {
        WindowNode::Leaf { .. } => {},
        WindowNode::Split { left, right, .. } => {
            lemma_split_count_is_windows_minus_one(*left);
            lemma_split_count_is_windows_minus_one(*right);
        },
    }
}

/// Implements BSP algorithm as one of the available tiling modes, representing
/// all windows in the workspace as nodes, and splitting them at the given
/// window, allowing for efficient use of the screen space.
pub struct BspTilingMode {
    root: Option<WindowNode>,
}

impl BspTilingMode {
    /// The tiling tree; `None` while no window is tiled.
    pub closed spec fn tree(&self) -> Option<WindowNode> {
        self.root
    }

    /// Creates a tiling mode with no window.
    pub fn new() -> (mode: BspTilingMode)
        ensures
            mode.tree() == None::<WindowNode>,
    {
        BspTilingMode { root: None }
    }
}

impl BspTilingMode {
    /// The tiling tree; `None` while no window is tiled.
    pub fn root(&self) -> (root: Option<&WindowNode>)
        ensures
            match root {
                Some(r) => self.tree() == Some(*r),
                None => self.tree() == None::<WindowNode>,
            },
    {
        match &self.root {
            Some(r) => Some(r),
            None => None,
        }
    }

    /// The tiled windows, in order.
    pub fn windows(&self) -> (windows: Vec<WindowId>)
        ensures
            windows@ == windows_of(self.tree()),
    {
        let mut windows: Vec<WindowId> = Vec::new();
        if let Some(ref root) = self.root {
            collect_windows(root, &mut windows);
            assert(windows@ =~= root.windows());
        }
        windows
    }
}

impl Default for BspTilingMode {
    fn default() -> (mode: BspTilingMode)
        ensures
            mode.tree() == None::<WindowNode>,
    {
        BspTilingMode::new()
    }
}

impl TilingMode for BspTilingMode {
    open spec fn tiled_windows(&self) -> Seq<WindowId> {
        windows_of(self.tree())
    }

    open spec fn can_place(&self, rect: WindowRect) -> bool {
        match self.tree() {
            Some(root) => root.placements_fit(rect),
            None => true,
        }
    }

    fn accept_window(&mut self, window_id: &WindowId, active_window_id: Option<WindowId>)
        ensures
            final(self).tree() == accepted(old(self).tree(), *window_id, active_window_id),
            old(self).tree() is Some && !old(self).tree()->0.has_window(*window_id) ==> {
                let root = old(self).tree()->0;
                let direction = if root.split_count() % 2 == 0 {
                    SplitDirection::Vertical
                } else {
                    SplitDirection::Horizontal
                };
                &&& final(self).tree() is Some
                &&& final(self).tree()->0.split_count() == root.split_count() + 1
                &&& if active_window_id is Some && root.has_window(active_window_id->0) {
                    has_split_of(final(self).tree()->0, direction, active_window_id->0, *window_id)
                } else {
                    final(self).tree()->0 == WindowNode::Split {
                        direction,
                        left: Box::new(root),
                        right: Box::new(WindowNode::Leaf { window_id: *window_id }),
                    }
                }
            },
    {
        proof {
            if old(self).tree() is Some && !old(self).tree()->0.has_window(*window_id) {
                accept_window_alternates_direction(old(self).tree()->0, *window_id, active_window_id);
            }
            assert forall|w: WindowId| true implies {
                &&& #[trigger] windows_of(old(self).tree()).contains(w) ==> windows_of(
                    accepted(old(self).tree(), *window_id, active_window_id),
                ).contains(w)
                &&& windows_of(accepted(old(self).tree(), *window_id, active_window_id)).contains(w)
                    ==> windows_of(old(self).tree()).contains(w) || w == *window_id
            } by {
                accepted_members(old(self).tree(), *window_id, active_window_id, w);
            }
            accepted_members(old(self).tree(), *window_id, active_window_id, *window_id);
            if windows_of(old(self).tree()).no_duplicates() {
                accept_window_tiles_once(old(self).tree(), *window_id, active_window_id);
            }
        }
        // Disallow the same window from being registered multiple times.
        if let Some(ref root) = self.root {
            if is_window_in_tree(root, window_id) {
                return ;
            }
            proof {
                lemma_has_window_iff_listed(*root, *window_id);
            }
        }
        match self.root.take() {
            // If there is already an existing root node, we are splitting it
            // with the new one - for new window.
            Some(mut root) => {
                proof {
                    lemma_split_count_is_windows_minus_one(root);
                }
                let direction = if count_splits(&root) % 2 == 0 {
                    SplitDirection::Vertical
                } else {
                    SplitDirection::Horizontal
                };
                let inserted = match active_window_id {
                    Some(id) => split_active_window_leaf(&mut root, &id, window_id, direction),
                    None => false,
                };

                if inserted {
                    self.root = Some(root);
                } else {
                    self.root = Some(
                        WindowNode::Split {
                            direction,
                            left: Box::new(root),
                            right: Box::new(WindowNode::Leaf { window_id: *window_id }),
                        },
                    );
                }
            },
            // Otherwise, we create a new empty root node - a leaf.
            None => { self.root = Some(WindowNode::Leaf { window_id: *window_id }) },
        }
    }

    fn calculate_placements(&self, rect: &WindowRect, placements: &mut Vec<WindowPlacement>)
        ensures
            final(placements)@ == old(placements)@ + placements_of(self.tree(), *rect),
    {
        if let Some(ref root) = self.root {
            calculate_placements(root, rect, placements);
            proof {
                placements_follow_windows(*root, *rect);
            }
        }
    }

    fn destroy_window(&mut self, window_id: &WindowId)
        ensures
            final(self).tree() == destroyed(old(self).tree(), *window_id),
            old(self).tree() is Some ==> forall|sub: WindowNode| #[trigger] is_subtree(sub, old(self).tree()->0)
                && !sub.has_window(*window_id) ==> final(self).tree() is Some && is_subtree(sub, final(self).tree()->0),
    {
        proof {
            match old(self).tree() {
                Some(root) => lemma_without_windows(root, *window_id),
                None => {
                    reveal(Seq::filter);
                },
            }
        }
        if let Some(ref root) = self.root {
            self.root = remove_window(root, window_id);
        }
    }
}

} // verus!
