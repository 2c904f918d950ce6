use vstd::prelude::*;

verus! {

/// Identifies a window uniquely within the compositor.
///
/// The value `0` is the null identifier, carried by windows that have no
/// Wayland surface.
#[derive(Clone, Copy, PartialEq, Eq, Structural, Debug, Hash)]
pub struct WindowId(pub u64);

impl WindowId {
    /// The null identifier.
    pub fn null() -> (id: WindowId)
        ensures
            id == WindowId(0),
    {
        WindowId(0)
    }

    /// Whether this is the null identifier.
    pub fn is_null(&self) -> (r: bool)
        ensures
            r == (self.0 == 0),
    {
        self.0 == 0
    }
}

/// Represents window rectangle, including both relative (to the composer)
/// position and the width and height of the window to be drawn.
#[derive(Clone, Copy, PartialEq, Eq, Structural, Debug)]
pub struct WindowRect {
    /// Window's relative position on X axis.
    pub x: i32,
    /// Window's relative position on Y axis.
    pub y: i32,
    /// Window's width.
    pub width: i32,
    /// Window's height.
    pub height: i32,
}

impl Default for WindowRect {
    fn default() -> (r: WindowRect)
        ensures
            r == (WindowRect { x: 0, y: 0, width: 0, height: 0 }),
    {
        WindowRect { x: 0, y: 0, width: 0, height: 0 }
    }
}

/// Represents placement for the given window.
#[derive(Clone, Copy, PartialEq, Eq, Structural, Debug)]
pub struct WindowPlacement {
    /// ID of the window that this placement represents.
    pub window_id: WindowId,
    /// Window's relative position and size.
    pub rect: WindowRect,
}

impl WindowPlacement {
    /// Creates an empty valued window placement: the null window in an
    /// all-zero rectangle.
    pub fn empty() -> (p: WindowPlacement)
        ensures
            p == (WindowPlacement {
                window_id: WindowId(0),
                rect: WindowRect { x: 0, y: 0, width: 0, height: 0 },
            }),
    {
        WindowPlacement { window_id: WindowId::null(), rect: WindowRect::default() }
    }
}

/// Represents a single unique compositor window: the toolkit's window
/// object `inner`, the identifier it is known by, and its current placement.
pub struct Window<W> {
    id: WindowId,
    inner: W,
    placement: WindowPlacement,
}

impl<W> Window<W> {
    pub closed spec fn spec_id(&self) -> WindowId {
        self.id
    }

    pub closed spec fn spec_inner(&self) -> W {
        self.inner
    }

    pub closed spec fn spec_placement(&self) -> WindowPlacement {
        self.placement
    }

    /// The window that [`Window::new`] creates.
    pub closed spec fn new_spec(id: WindowId, inner: W) -> Window<W> {
        Window { id, inner, placement: WindowPlacement::empty_spec() }
    }

    /// This window moved to `placement`.
    pub closed spec fn with_placement(self, placement: WindowPlacement) -> Window<W> {
        Window { placement, ..self }
    }

    /// What a new window and a moved window hold.
    pub proof fn lemma_window_parts(id: WindowId, inner: W, w: Window<W>, placement: WindowPlacement)
        ensures
            Window::new_spec(id, inner).spec_id() == id,
            Window::new_spec(id, inner).spec_inner() == inner,
            Window::new_spec(id, inner).spec_placement() == WindowPlacement::empty_spec(),
            w.with_placement(placement).spec_id() == w.spec_id(),
            w.with_placement(placement).spec_inner() == w.spec_inner(),
            w.with_placement(placement).spec_placement() == placement,
    {
    }

    /// Creates a new [Window] with the given identifier around the given
    /// toolkit window; its placement starts out empty.
    pub fn new(id: WindowId, inner: W) -> (w: Self)
        ensures
            w == Window::new_spec(id, inner),
    {
        Window { id, inner, placement: WindowPlacement::empty() }
    }

    /// Returns the window's identifier.
    pub fn id(&self) -> (id: WindowId)
        ensures
            id == self.spec_id(),
    {
        self.id
    }

    /// Returns the toolkit window.
    pub fn inner(&self) -> (inner: &W)
        ensures
            *inner == self.spec_inner(),
    {
        &self.inner
    }

    /// Returns the window's current placement.
    pub fn placement(&self) -> (p: WindowPlacement)
        ensures
            p == self.spec_placement(),
    {
        self.placement
    }

    /// Updates window's placement. Returns the toolkit window, so that the
    /// caller can map it at the new position.
    pub fn set_placement(&mut self, new_placement: &WindowPlacement) -> (inner: &W)
        ensures
            *final(self) == old(self).with_placement(*new_placement),
            *inner == old(self).spec_inner(),
    {
        self.placement = *new_placement;
        &self.inner
    }
}

impl WindowPlacement {
    pub open spec fn empty_spec() -> WindowPlacement {
        WindowPlacement {
            window_id: WindowId(0),
            rect: WindowRect { x: 0, y: 0, width: 0, height: 0 },
        }
    }
}

} // verus!
