use tiling_compositor::window::{Window, WindowId, WindowPlacement, WindowRect};

#[test]
fn null_window_id_is_zero() {
    assert_eq!(WindowId::null(), WindowId(0));
    assert!(WindowId::null().is_null());
    assert!(!WindowId(5).is_null());
}

#[test]
fn default_rect_and_empty_placement_are_zero() {
    assert_eq!(WindowRect::default(), WindowRect { x: 0, y: 0, width: 0, height: 0 });
    let p = WindowPlacement::empty();
    assert_eq!(p.window_id, WindowId(0));
    assert_eq!(p.rect, WindowRect::default());
}

#[test]
fn window_keeps_its_latest_placement() {
    let mut w = Window::new(WindowId(3), "term");
    assert_eq!(w.id(), WindowId(3));
    assert_eq!(w.placement(), WindowPlacement::empty());
    let p = WindowPlacement { window_id: WindowId(3), rect: WindowRect { x: 1, y: 2, width: 3, height: 4 } };
    assert_eq!(*w.set_placement(&p), "term");
    assert_eq!(w.placement(), p);
    assert_eq!(*w.inner(), "term");
}
