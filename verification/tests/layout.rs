use tiling_compositor::layout::{LayoutManager, SpawnedWindow, Workspace};
use tiling_compositor::window::{WindowId, WindowPlacement, WindowRect};

fn rect(x: i32, y: i32, width: i32, height: i32) -> WindowRect {
    WindowRect { x, y, width, height }
}

fn placement(id: u64, r: WindowRect) -> WindowPlacement {
    WindowPlacement { window_id: WindowId(id), rect: r }
}

fn tiled(spawned: SpawnedWindow) -> Vec<WindowPlacement> {
    match spawned {
        SpawnedWindow::Tiled(p) => p,
        SpawnedWindow::Floating => panic!("expected a tiled window"),
    }
}

#[test]
fn first_tiled_window_fills_the_screen_and_is_active() {
    let mut lm: LayoutManager<&str> = LayoutManager::new(1000, 600);
    let applied = tiled(lm.spawn_client_window("a", Some(WindowId(1)), true));
    assert_eq!(applied, vec![placement(1, rect(0, 0, 1000, 600))]);
    assert_eq!(lm.active_window(), Some(WindowId(1)));
    let w = lm.current_workspace().window(WindowId(1)).unwrap();
    assert_eq!(*w.inner(), "a");
    assert_eq!(w.placement(), placement(1, rect(0, 0, 1000, 600)));
}

#[test]
fn second_tiled_window_splits_the_active_one() {
    let mut lm: LayoutManager<&str> = LayoutManager::new(1000, 600);
    lm.spawn_client_window("a", Some(WindowId(1)), true);
    let applied = tiled(lm.spawn_client_window("b", Some(WindowId(2)), true));
    assert_eq!(applied, vec![placement(1, rect(0, 0, 500, 600)), placement(2, rect(500, 0, 500, 600))]);
    assert_eq!(lm.active_window(), Some(WindowId(2)));
    assert_eq!(lm.current_workspace().window(WindowId(1)).unwrap().placement().rect, rect(0, 0, 500, 600));
    let tiled_ids: Vec<u64> = lm.tiled_windows().iter().map(|w| w.0).collect();
    assert_eq!(tiled_ids, vec![1, 2]);
}

#[test]
fn child_window_floats_without_tiling() {
    let mut lm: LayoutManager<&str> = LayoutManager::new(1000, 600);
    lm.spawn_client_window("a", Some(WindowId(1)), true);
    assert!(matches!(lm.spawn_client_window("dialog", Some(WindowId(2)), false), SpawnedWindow::Floating));
    assert_eq!(lm.active_window(), Some(WindowId(2)));
    assert!(lm.current_workspace().window(WindowId(2)).is_some());
    assert_eq!(lm.tiled_windows(), vec![WindowId(1)]);
}

#[test]
fn window_without_surface_floats_under_the_null_id() {
    let mut lm: LayoutManager<&str> = LayoutManager::new(1000, 600);
    assert!(matches!(lm.spawn_client_window("x", None, true), SpawnedWindow::Floating));
    assert_eq!(lm.active_window(), Some(WindowId::null()));
    assert!(lm.current_workspace().window(WindowId::null()).is_some());
    assert!(lm.tiled_windows().is_empty());
}

#[test]
fn destroying_the_active_window_retiles_the_rest() {
    let mut lm: LayoutManager<&str> = LayoutManager::new(1000, 600);
    lm.spawn_client_window("a", Some(WindowId(1)), true);
    lm.spawn_client_window("b", Some(WindowId(2)), true);
    let (removed, applied) = lm.on_toplevel_destroy(WindowId(2));
    assert_eq!(*removed.unwrap().inner(), "b");
    assert_eq!(applied, vec![placement(1, rect(0, 0, 1000, 600))]);
    assert_eq!(lm.active_window(), None);
    assert!(lm.current_workspace().window(WindowId(2)).is_none());
}

#[test]
fn destroying_another_window_keeps_the_active_one() {
    let mut lm: LayoutManager<&str> = LayoutManager::new(1000, 600);
    lm.spawn_client_window("a", Some(WindowId(1)), true);
    lm.spawn_client_window("b", Some(WindowId(2)), true);
    let (removed, _) = lm.on_toplevel_destroy(WindowId(1));
    assert_eq!(*removed.unwrap().inner(), "a");
    assert_eq!(lm.active_window(), Some(WindowId(2)));
    let (removed, applied) = lm.on_toplevel_destroy(WindowId(7));
    assert!(removed.is_none());
    assert_eq!(applied, vec![placement(2, rect(0, 0, 1000, 600))]);
}

#[test]
fn click_activates_an_inactive_window_on_press() {
    let mut lm: LayoutManager<&str> = LayoutManager::new(1000, 600);
    assert_eq!(lm.window_to_activate(Some(WindowId(1)), true), Some(WindowId(1)));
    lm.spawn_client_window("a", Some(WindowId(1)), true);
    lm.spawn_client_window("b", Some(WindowId(2)), true);
    assert_eq!(lm.window_to_activate(Some(WindowId(1)), true), Some(WindowId(1)));
    assert_eq!(lm.window_to_activate(Some(WindowId(1)), false), None);
    assert_eq!(lm.window_to_activate(Some(WindowId(2)), true), None);
    assert_eq!(lm.window_to_activate(None, true), None);
    lm.set_active_window(WindowId(1));
    assert_eq!(lm.active_window(), Some(WindowId(1)));
    assert_eq!(lm.window_to_activate(Some(WindowId(2)), true), Some(WindowId(2)));
}

#[test]
fn workspace_skips_placements_of_unknown_windows() {
    let mut ws: Workspace<u8> = Workspace::new();
    ws.accept_new_floating_window(WindowId(1), 10);
    let applied = ws.submit_windows_placements(vec![
        placement(5, rect(0, 0, 1, 1)),
        placement(1, rect(1, 1, 2, 2)),
        placement(1, rect(3, 3, 4, 4)),
    ]);
    assert_eq!(applied, vec![placement(1, rect(1, 1, 2, 2)), placement(1, rect(3, 3, 4, 4))]);
    assert_eq!(ws.window(WindowId(1)).unwrap().placement(), placement(1, rect(3, 3, 4, 4)));
    assert!(ws.window(WindowId(5)).is_none());
    assert_eq!(ws.active_window(), Some(WindowId(1)));
}

#[test]
fn workspace_replaces_a_window_with_the_same_id() {
    let mut ws: Workspace<u8> = Workspace::new();
    ws.accept_new_floating_window(WindowId(1), 10);
    ws.accept_new_tiling_window(WindowId(1), 20, vec![]);
    assert_eq!(*ws.window(WindowId(1)).unwrap().inner(), 20);
    let (removed, applied) = ws.delete_window(&WindowId(1), vec![placement(1, rect(0, 0, 1, 1))]);
    assert_eq!(*removed.unwrap().inner(), 20);
    assert!(applied.is_empty());
    assert_eq!(ws.active_window(), None);
}
