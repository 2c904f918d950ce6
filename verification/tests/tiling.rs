use tiling_compositor::tiling::bsp::{
    calculate_placements, count_splits, is_window_in_tree, remove_window, split_active_window_leaf,
    split_rect, BspTilingMode,
};
use tiling_compositor::tiling::{SplitDirection, TilingMode, WindowNode};
use tiling_compositor::window::{WindowId, WindowPlacement, WindowRect};

fn leaf(id: u64) -> WindowNode {
    WindowNode::Leaf { window_id: WindowId(id) }
}

fn split(direction: SplitDirection, left: WindowNode, right: WindowNode) -> WindowNode {
    WindowNode::Split { direction, left: Box::new(left), right: Box::new(right) }
}

fn rect(x: i32, y: i32, width: i32, height: i32) -> WindowRect {
    WindowRect { x, y, width, height }
}

fn placements_of(mode: &BspTilingMode, r: WindowRect) -> Vec<WindowPlacement> {
    let mut placements = Vec::new();
    mode.calculate_placements(&r, &mut placements);
    placements
}

fn ids(ws: &[WindowId]) -> Vec<u64> {
    ws.iter().map(|w| w.0).collect()
}

#[test]
fn split_rect_vertical_gives_left_half_rounded_down() {
    let (l, r) = split_rect(&rect(10, 20, 101, 50), &SplitDirection::Vertical);
    assert_eq!(l, rect(10, 20, 50, 50));
    assert_eq!(r, rect(60, 20, 51, 50));
}

#[test]
fn split_rect_horizontal_gives_top_half_rounded_down() {
    let (t, b) = split_rect(&rect(0, 0, 1920, 1081), &SplitDirection::Horizontal);
    assert_eq!(t, rect(0, 0, 1920, 540));
    assert_eq!(b, rect(0, 540, 1920, 541));
}

#[test]
fn split_rect_negative_width_rounds_toward_zero() {
    let (l, r) = split_rect(&rect(0, 0, -5, 10), &SplitDirection::Vertical);
    assert_eq!(l, rect(0, 0, -2, 10));
    assert_eq!(r, rect(-2, 0, -3, 10));
}

#[test]
fn split_rect_zero_size() {
    let (l, r) = split_rect(&rect(3, 4, 0, 0), &SplitDirection::Vertical);
    assert_eq!(l, rect(3, 4, 0, 0));
    assert_eq!(r, rect(3, 4, 0, 0));
}

#[test]
fn count_splits_counts_inner_nodes() {
    assert_eq!(count_splits(&leaf(1)), 0);
    let tree = split(
        SplitDirection::Vertical,
        leaf(1),
        split(SplitDirection::Horizontal, leaf(2), leaf(3)),
    );
    assert_eq!(count_splits(&tree), 2);
}

#[test]
fn is_window_in_tree_finds_leaves_only() {
    let tree = split(SplitDirection::Vertical, leaf(1), split(SplitDirection::Horizontal, leaf(2), leaf(3)));
    assert!(is_window_in_tree(&tree, &WindowId(1)));
    assert!(is_window_in_tree(&tree, &WindowId(3)));
    assert!(!is_window_in_tree(&tree, &WindowId(4)));
}

#[test]
fn remove_window_collapses_the_split() {
    let tree = split(SplitDirection::Vertical, leaf(1), split(SplitDirection::Horizontal, leaf(2), leaf(3)));
    let rest = remove_window(&tree, &WindowId(2)).unwrap();
    match rest {
        WindowNode::Split { direction: SplitDirection::Vertical, left, right } => {
            assert!(matches!(*left, WindowNode::Leaf { window_id: WindowId(1) }));
            assert!(matches!(*right, WindowNode::Leaf { window_id: WindowId(3) }));
        }
        _ => panic!("expected a vertical split"),
    }
    assert!(remove_window(&leaf(7), &WindowId(7)).is_none());
    assert!(matches!(remove_window(&leaf(7), &WindowId(8)), Some(WindowNode::Leaf { window_id: WindowId(7) })));
}

#[test]
fn split_active_window_leaf_splits_the_active_leaf() {
    let mut tree = split(SplitDirection::Vertical, leaf(1), leaf(2));
    assert!(split_active_window_leaf(&mut tree, &WindowId(2), &WindowId(9), SplitDirection::Horizontal));
    match &tree {
        WindowNode::Split { left, right, .. } => {
            assert!(matches!(**left, WindowNode::Leaf { window_id: WindowId(1) }));
            match &**right {
                WindowNode::Split { direction: SplitDirection::Horizontal, left, right } => {
                    assert!(matches!(**left, WindowNode::Leaf { window_id: WindowId(2) }));
                    assert!(matches!(**right, WindowNode::Leaf { window_id: WindowId(9) }));
                }
                _ => panic!("expected a horizontal split"),
            }
        }
        _ => panic!("expected a split"),
    }
    assert!(!split_active_window_leaf(&mut tree, &WindowId(5), &WindowId(10), SplitDirection::Vertical));
    assert_eq!(count_splits(&tree), 2);
}

#[test]
fn calculate_placements_lays_out_every_leaf() {
    let tree = split(SplitDirection::Vertical, leaf(1), split(SplitDirection::Horizontal, leaf(2), leaf(3)));
    let mut placements = vec![WindowPlacement::empty()];
    calculate_placements(&tree, &rect(0, 0, 1920, 1080), &mut placements);
    assert_eq!(placements.len(), 4);
    assert_eq!(placements[0], WindowPlacement::empty());
    assert_eq!(placements[1], WindowPlacement { window_id: WindowId(1), rect: rect(0, 0, 960, 1080) });
    assert_eq!(placements[2], WindowPlacement { window_id: WindowId(2), rect: rect(960, 0, 960, 540) });
    assert_eq!(placements[3], WindowPlacement { window_id: WindowId(3), rect: rect(960, 540, 960, 540) });
}

#[test]
fn first_window_takes_the_whole_screen() {
    let mut mode = BspTilingMode::new();
    mode.accept_window(&WindowId(1), None);
    assert_eq!(ids(&mode.windows()), vec![1]);
    assert_eq!(
        placements_of(&mode, rect(0, 0, 800, 600)),
        vec![WindowPlacement { window_id: WindowId(1), rect: rect(0, 0, 800, 600) }]
    );
}

#[test]
fn accepting_twice_keeps_one_leaf() {
    let mut mode = BspTilingMode::default();
    mode.accept_window(&WindowId(1), None);
    mode.accept_window(&WindowId(2), Some(WindowId(1)));
    mode.accept_window(&WindowId(2), Some(WindowId(1)));
    mode.accept_window(&WindowId(1), None);
    assert_eq!(ids(&mode.windows()), vec![1, 2]);
}

#[test]
fn new_window_goes_right_after_the_active_one() {
    let mut mode = BspTilingMode::new();
    mode.accept_window(&WindowId(1), None);
    mode.accept_window(&WindowId(2), Some(WindowId(1)));
    mode.accept_window(&WindowId(3), Some(WindowId(1)));
    assert_eq!(ids(&mode.windows()), vec![1, 3, 2]);
    // One split existed, so the active leaf is split horizontally.
    assert_eq!(
        placements_of(&mode, rect(0, 0, 1000, 800)),
        vec![
            WindowPlacement { window_id: WindowId(1), rect: rect(0, 0, 500, 400) },
            WindowPlacement { window_id: WindowId(3), rect: rect(0, 400, 500, 400) },
            WindowPlacement { window_id: WindowId(2), rect: rect(500, 0, 500, 800) },
        ]
    );
}

#[test]
fn without_active_window_the_whole_tree_is_split() {
    let mut mode = BspTilingMode::new();
    mode.accept_window(&WindowId(1), None);
    mode.accept_window(&WindowId(2), None);
    mode.accept_window(&WindowId(3), Some(WindowId(42)));
    assert_eq!(ids(&mode.windows()), vec![1, 2, 3]);
    match mode.root().unwrap() {
        WindowNode::Split { direction: SplitDirection::Horizontal, left, right } => {
            assert!(matches!(**left, WindowNode::Split { direction: SplitDirection::Vertical, .. }));
            assert!(matches!(**right, WindowNode::Leaf { window_id: WindowId(3) }));
        }
        _ => panic!("expected a horizontal split at the root"),
    }
}

#[test]
fn destroy_window_removes_only_that_window() {
    let mut mode = BspTilingMode::new();
    for id in 1..=4 {
        mode.accept_window(&WindowId(id), Some(WindowId(id - 1)));
    }
    mode.destroy_window(&WindowId(2));
    assert_eq!(ids(&mode.windows()), vec![1, 3, 4]);
    mode.destroy_window(&WindowId(2));
    assert_eq!(ids(&mode.windows()), vec![1, 3, 4]);
    mode.destroy_window(&WindowId(1));
    mode.destroy_window(&WindowId(3));
    mode.destroy_window(&WindowId(4));
    assert!(mode.root().is_none());
    assert!(mode.windows().is_empty());
    mode.destroy_window(&WindowId(4));
    assert!(mode.root().is_none());
}

#[test]
fn destroy_right_after_accept_restores_layout() {
    let mut mode = BspTilingMode::new();
    mode.accept_window(&WindowId(1), None);
    mode.accept_window(&WindowId(2), Some(WindowId(1)));
    mode.accept_window(&WindowId(3), Some(WindowId(2)));
    let screen = rect(0, 0, 1280, 720);
    let before = placements_of(&mode, screen);
    mode.accept_window(&WindowId(4), Some(WindowId(1)));
    mode.destroy_window(&WindowId(4));
    assert_eq!(placements_of(&mode, screen), before);
}

#[test]
fn placements_tile_the_screen() {
    let mut mode = BspTilingMode::new();
    for id in 1..=7 {
        mode.accept_window(&WindowId(id), Some(WindowId(id / 2)));
    }
    let screen = rect(0, 0, 1921, 1079);
    let placements = placements_of(&mode, screen);
    assert_eq!(placements.len(), 7);
    let windows = mode.windows();
    let mut area: i64 = 0;
    for (i, p) in placements.iter().enumerate() {
        assert_eq!(p.window_id, windows[i]);
        let r = p.rect;
        assert!(r.width >= 0 && r.height >= 0);
        assert!(r.x >= 0 && r.y >= 0 && r.x + r.width <= 1921 && r.y + r.height <= 1079);
        area += r.width as i64 * r.height as i64;
        for q in placements.iter().skip(i + 1) {
            let s = q.rect;
            assert!(
                r.x + r.width <= s.x || s.x + s.width <= r.x || r.y + r.height <= s.y || s.y + s.height <= r.y
            );
        }
    }
    assert_eq!(area, 1921 * 1079);
}

#[test]
fn empty_mode_places_nothing() {
    let mode = BspTilingMode::new();
    let mut placements = vec![WindowPlacement::empty()];
    mode.calculate_placements(&rect(0, 0, 10, 10), &mut placements);
    assert_eq!(placements, vec![WindowPlacement::empty()]);
}

#[test]
fn single_window_is_placed_at_the_far_edge() {
    let mut placements = Vec::new();
    calculate_placements(&leaf(1), &rect(i32::MAX, 0, 1, 1), &mut placements);
    assert_eq!(placements, vec![WindowPlacement { window_id: WindowId(1), rect: rect(i32::MAX, 0, 1, 1) }]);
    let mut mode = BspTilingMode::new();
    mode.accept_window(&WindowId(1), None);
    assert_eq!(
        placements_of(&mode, rect(i32::MAX, i32::MAX, 1, 1)),
        vec![WindowPlacement { window_id: WindowId(1), rect: rect(i32::MAX, i32::MAX, 1, 1) }]
    );
}

#[test]
fn split_whose_halves_start_inside_i32_is_placed() {
    // The far edge lies beyond i32, but the split point does not.
    let tree = split(SplitDirection::Vertical, leaf(1), leaf(2));
    let mut placements = Vec::new();
    calculate_placements(&tree, &rect(i32::MAX - 10, 0, 20, 5), &mut placements);
    assert_eq!(placements[0].rect, rect(i32::MAX - 10, 0, 10, 5));
    assert_eq!(placements[1].rect, rect(i32::MAX, 0, 10, 5));
}
