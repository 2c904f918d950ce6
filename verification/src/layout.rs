use vstd::prelude::*;

use std::collections::HashMap;

use crate::tiling::{TilingMode, WindowNode};
use crate::tiling::bsp::{
    BspTilingMode, accepted, destroyed, lemma_edges_fit_places, placements_of, windows_of,
};
use crate::tiling::properties::{
    accept_window_tiles_once, destroy_window_removes_it, other_than, placements_follow_windows,
    windows_after_accept,
};
use crate::window::{Window, WindowId, WindowPlacement, WindowRect};

verus! {

/// Whether `m` knows the window of a placement.
pub open spec fn placed_window_known<W>(m: Map<WindowId, Window<W>>) -> spec_fn(WindowPlacement) -> bool {
    |p: WindowPlacement| m.dom().contains(p.window_id)
}

/// Window `w` after the placements are applied in order: it takes the last
/// placement for its identifier, and stays where it was when there is none.
pub open spec fn after_placements<W>(w: Window<W>, placements: Seq<WindowPlacement>) -> Window<W>
    decreases placements.len(),
{
    if placements.len() == 0 {
        w
    } else {
        let before = after_placements(w, placements.drop_last());
        if placements.last().window_id == w.spec_id() {
            before.with_placement(placements.last())
        } else {
            before
        }
    }
}

/// Every window of `m` after the placements are applied.
pub open spec fn all_after_placements<W>(
    m: Map<WindowId, Window<W>>,
    placements: Seq<WindowPlacement>,
) -> Map<WindowId, Window<W>> {
    Map::new(|id: WindowId| m.dom().contains(id), |id: WindowId| after_placements(m[id], placements))
}

/// Applying placements never changes a window's identifier.
pub proof fn lemma_after_placements_id<W>(w: Window<W>, placements: Seq<WindowPlacement>)
    ensures
        after_placements(w, placements).spec_id() == w.spec_id(),
    decreases placements.len(),
{
    if placements.len() > 0 {
        lemma_after_placements_id(w, placements.drop_last());
        Window::<W>::lemma_window_parts(w.spec_id(), w.spec_inner(), after_placements(w, placements.drop_last()), placements.last());
    }
}

/// One more placement applied: when the windows so far are those after the
/// first `i` placements, applying placement `i` to its window, if known,
/// gives the windows after the first `i + 1` placements.
pub proof fn lemma_placement_step<W>(
    start: Map<WindowId, Window<W>>,
    placements: Seq<WindowPlacement>,
    i: int,
    before: Map<WindowId, Window<W>>,
    after: Map<WindowId, Window<W>>,
)
    requires
        0 <= i < placements.len(),
        before == all_after_placements(start, placements.take(i)),
        forall|id: WindowId| #[trigger] start.dom().contains(id) ==> start[id].spec_id() == id,
        if before.dom().contains(placements[i].window_id) {
            after == before.insert(
                placements[i].window_id,
                before[placements[i].window_id].with_placement(placements[i]),
            )
        } else {
            after == before
        },
    ensures
        after == all_after_placements(start, placements.take(i + 1)),
{
    let p = placements[i];
    assert(placements.take(i + 1).drop_last() =~= placements.take(i));
    assert(placements.take(i + 1).last() == p);
    let target = all_after_placements(start, placements.take(i + 1));
    assert forall|id: WindowId| #[trigger] start.dom().contains(id) implies target[id] == (
        if id == p.window_id {
            before[id].with_placement(p)
        } else {
            before[id]
        }) by {
        lemma_after_placements_id(start[id], placements.take(i));
    }
    assert(after =~= target);
}

/// The last placement for window `id`, if there is one.
pub open spec fn last_placement_for(placements: Seq<WindowPlacement>, id: WindowId) -> Option<WindowPlacement>
    decreases placements.len(),
{
    if placements.len() == 0 {
        None
    } else if placements.last().window_id == id {
        Some(placements.last())
    } else {
        last_placement_for(placements.drop_last(), id)
    }
}

/// After the placements are applied, a window has the last placement given
/// for its identifier, or keeps its own when none is given.
pub proof fn lemma_after_placements_last<W>(w: Window<W>, placements: Seq<WindowPlacement>)
    ensures
        after_placements(w, placements).spec_placement() == match last_placement_for(placements, w.spec_id()) {
            Some(p) => p,
            None => w.spec_placement(),
        },
    decreases placements.len(),
{
    if placements.len() > 0 {
        let before = after_placements(w, placements.drop_last());
        lemma_after_placements_last(w, placements.drop_last());
        lemma_after_placements_id(w, placements.drop_last());
        Window::<W>::lemma_window_parts(w.spec_id(), w.spec_inner(), before, placements.last());
    }
}

/// When the placements are for distinct windows, the last placement for
/// the window of placement `i` is placement `i`.
pub proof fn lemma_last_placement_unique(placements: Seq<WindowPlacement>, i: int)
    requires
        0 <= i < placements.len(),
        forall|a: int, b: int| 0 <= a < placements.len() && 0 <= b < placements.len() && a != b
            ==> #[trigger] placements[a].window_id != #[trigger] placements[b].window_id,
    ensures
        last_placement_for(placements, placements[i].window_id) == Some(placements[i]),
    decreases placements.len(),
{
    let n = placements.len() - 1;
    if i != n {
        assert(placements[n].window_id != placements[i].window_id);
        let rest = placements.drop_last();
        assert(rest[i] == placements[i]);
        assert forall|a: int, b: int| 0 <= a < rest.len() && 0 <= b < rest.len() && a != b
            implies #[trigger] rest[a].window_id != #[trigger] rest[b].window_id by {
            assert(rest[a] == placements[a] && rest[b] == placements[b]);
        }
        lemma_last_placement_unique(rest, i);
    }
}

/// Placements computed for distinct known windows, one per window, leave
/// each window with its own placement.
pub proof fn lemma_each_window_placed<W>(
    m: Map<WindowId, Window<W>>,
    placements: Seq<WindowPlacement>,
    ws: Seq<WindowId>,
)
    requires
        forall|id: WindowId| #[trigger] m.dom().contains(id) ==> m[id].spec_id() == id,
        ws.no_duplicates(),
        placements.len() == ws.len(),
        forall|k: int| 0 <= k < ws.len() ==> #[trigger] placements[k].window_id == ws[k],
        forall|k: int| 0 <= k < ws.len() ==> m.dom().contains(#[trigger] ws[k]),
    ensures
        forall|k: int| 0 <= k < placements.len()
            ==> #[trigger] all_after_placements(m, placements)[placements[k].window_id].spec_placement()
            == placements[k],
{
    assert forall|a: int, b: int| 0 <= a < placements.len() && 0 <= b < placements.len() && a != b
        implies #[trigger] placements[a].window_id != #[trigger] placements[b].window_id by {
        assert(ws[a] != ws[b]);
    }
    assert forall|k: int| 0 <= k < placements.len()
        implies #[trigger] all_after_placements(m, placements)[placements[k].window_id].spec_placement()
        == placements[k] by {
        let id = placements[k].window_id;
        assert(m.dom().contains(ws[k]));
        lemma_last_placement_unique(placements, k);
        lemma_after_placements_last(m[id], placements);
    }
}

/// The windows of a workspace, and which of them is active.
pub struct Workspace<W> {
    windows: HashMap<u64, Window<W>>,
    active_window: Option<WindowId>,
}

impl<W> Workspace<W> {
    /// Every window is stored under the number of its own identifier.
    pub closed spec fn wf(&self) -> bool {
        forall|k: u64| #[trigger] self.windows@.contains_key(k) ==> self.windows@[k].spec_id() == WindowId(k)
    }

    /// The workspace's windows by identifier.
    pub closed spec fn windows(&self) -> Map<WindowId, Window<W>> {
        Map::new(|id: WindowId| self.windows@.contains_key(id.0), |id: WindowId| self.windows@[id.0])
    }

    /// The identifier of the active window, if any.
    pub closed spec fn active(&self) -> Option<WindowId> {
        self.active_window
    }

    /// Each window of a workspace is stored under its own identifier.
    pub proof fn windows_are_keyed_by_id(&self)
        requires
            self.wf(),
        ensures
            forall|id: WindowId| #[trigger] self.windows().dom().contains(id) ==> self.windows()[id].spec_id() == id,
    {
        assert forall|id: WindowId| #[trigger] self.windows().dom().contains(id) implies self.windows()[id].spec_id() == id by {
            assert(self.windows@.contains_key(id.0));
        }
    }

    /// A workspace with no window.
    pub fn new() -> (ws: Self)
        ensures
            ws.wf(),
            ws.windows() == Map::<WindowId, Window<W>>::empty(),
            ws.active() == None::<WindowId>,
    {
        let ws = Workspace { windows: HashMap::new(), active_window: None };
        assert(ws.windows() =~= Map::<WindowId, Window<W>>::empty());
        ws
    }

    /// The window with identifier `id`, if the workspace has it.
    pub fn window(&self, id: WindowId) -> (w: Option<&Window<W>>)
        requires
            self.wf(),
        ensures
            match w {
                Some(w) => self.windows().dom().contains(id) && *w == self.windows()[id],
                None => !self.windows().dom().contains(id),
            },
    {
        self.windows.get(&id.0)
    }

    /// The identifier of the active window, if any.
    pub fn active_window(&self) -> (id: Option<WindowId>)
        ensures
            id == self.active(),
    {
        self.active_window
    }

    /// Makes `id` the active window (or none).
    pub fn set_active_window(&mut self, id: Option<WindowId>)
        requires
            old(self).wf(),
        ensures
            final(self).wf(),
            final(self).windows() == old(self).windows(),
            final(self).active() == id,
    {
        self.active_window = id;
    }

    /// Starts tracking the window `inner` under `id`, replacing any window
    /// tracked under that identifier.
    fn insert_window(&mut self, id: WindowId, inner: W)
        requires
            old(self).wf(),
        ensures
            final(self).wf(),
            final(self).windows() == old(self).windows().insert(id, Window::new_spec(id, inner)),
            final(self).active() == old(self).active(),
    {
        let window = Window::new(id, inner);
        proof {
            Window::<W>::lemma_window_parts(id, inner, window, WindowPlacement::empty_spec());
        }
        self.windows.insert(id.0, window);
        assert(self.windows() =~= old(self).windows().insert(id, Window::new_spec(id, inner)));
    }

    /// Tracks a new floating window (a popup or a dialog) and makes it the
    /// active window.
    pub fn accept_new_floating_window(&mut self, id: WindowId, floating_window: W)
        requires
            old(self).wf(),
        ensures
            final(self).wf(),
            final(self).windows() == old(self).windows().insert(id, Window::new_spec(id, floating_window)),
            final(self).active() == Some(id),
    {
        self.insert_window(id, floating_window);
        self.active_window = Some(id);
    }

    /// Moves every known window to its placement; placements of unknown
    /// windows are skipped. Returns the placements applied, in order. Every
    /// window stays stored under its own identifier (see
    /// [`Workspace::windows_are_keyed_by_id`]), so each known window ends
    /// with the last placement given for it ([`lemma_after_placements_last`]).
    pub fn submit_windows_placements(&mut self, placements: Vec<WindowPlacement>) -> (applied: Vec<WindowPlacement>)
        requires
            old(self).wf(),
        ensures
            final(self).wf(),
            final(self).windows() == all_after_placements(old(self).windows(), placements@),
            final(self).active() == old(self).active(),
            applied@ == placements@.filter(placed_window_known(old(self).windows())),
    {
        let ghost start = self.windows();
        proof {
            self.windows_are_keyed_by_id();
        }
        let mut applied: Vec<WindowPlacement> = Vec::new();
        let n = placements.len();
        for i in 0..n
            invariant
                n == placements@.len(),
                self.wf(),
                self.active() == old(self).active(),
                start == old(self).windows(),
                forall|id: WindowId| #[trigger] start.dom().contains(id) ==> start[id].spec_id() == id,
                self.windows() == all_after_placements(start, placements@.take(i as int)),
                applied@ == placements@.take(i as int).filter(placed_window_known(start)),
        {
            let placement = placements[i];
            let ghost before = self.windows();
            let key = placement.window_id.0;
            match self.windows.remove(&key) {
                Some(mut window) => {
                    let ghost moved = window.with_placement(placement);
                    proof {
                        Window::<W>::lemma_window_parts(placement.window_id, window.spec_inner(), window, placement);
                    }
                    let _ = window.set_placement(&placement);
                    self.windows.insert(key, window);
                    proof {
                        assert(self.windows() =~= before.insert(placement.window_id, before[placement.window_id].with_placement(placement)));
                        lemma_placement_step(start, placements@, i as int, before, self.windows());
                        assert(placed_window_known(start)(placement));
                        reveal(Seq::filter);
                        assert(placements@.take(i + 1).drop_last() =~= placements@.take(i as int));
                        assert(placements@.take(i + 1).filter(placed_window_known(start))
                            == placements@.take(i as int).filter(placed_window_known(start)).push(placement));
                    }
                    applied.push(placement);
                },
                None => {
                    proof {
                        assert(self.windows() =~= before);
                        lemma_placement_step(start, placements@, i as int, before, self.windows());
                        assert(before.dom().contains(placement.window_id) == start.dom().contains(placement.window_id));
                        assert(!placed_window_known(start)(placement));
                        reveal(Seq::filter);
                        assert(placements@.take(i + 1).drop_last() =~= placements@.take(i as int));
                        assert(placements@.take(i + 1).filter(placed_window_known(start))
                            == placements@.take(i as int).filter(placed_window_known(start)));
                    }
                },
            }
        }
        proof {
            assert(placements@.take(n as int) =~= placements@);
        }
        applied
    }

    /// Tracks a new tiled window, makes it the active window and moves the
    /// workspace's windows to the given placements. Returns the placements
    /// applied, in order.
    pub fn accept_new_tiling_window(
        &mut self,
        id: WindowId,
        tiling_window: W,
        placements: Vec<WindowPlacement>,
    ) -> (applied: Vec<WindowPlacement>)
        requires
            old(self).wf(),
        ensures
            final(self).wf(),
            final(self).windows() == all_after_placements(
                old(self).windows().insert(id, Window::new_spec(id, tiling_window)),
                placements@,
            ),
            final(self).active() == Some(id),
            applied@ == placements@.filter(
                placed_window_known(old(self).windows().insert(id, Window::new_spec(id, tiling_window))),
            ),
    {
        self.insert_window(id, tiling_window);
        self.active_window = Some(id);
        self.submit_windows_placements(placements)
    }

    /// Stops tracking the window `window_id` (the active window becomes none
    /// if it was that one) and moves the remaining windows to the given
    /// placements. Returns the removed window, if it was tracked, and the
    /// placements applied, in order.
    pub fn delete_window(
        &mut self,
        window_id: &WindowId,
        placements: Vec<WindowPlacement>,
    ) -> (result: (Option<Window<W>>, Vec<WindowPlacement>))
        requires
            old(self).wf(),
        ensures
            final(self).wf(),
            result.0 == (if old(self).windows().dom().contains(*window_id) {
                Some(old(self).windows()[*window_id])
            } else {
                None
            }),
            final(self).windows() == all_after_placements(old(self).windows().remove(*window_id), placements@),
            final(self).active() == (if old(self).active() == Some(*window_id) {
                None
            } else {
                old(self).active()
            }),
            result.1@ == placements@.filter(placed_window_known(old(self).windows().remove(*window_id))),
    {
        let removed = self.windows.remove(&window_id.0);
        assert(self.windows() =~= old(self).windows().remove(*window_id));
        if let Some(active) = self.active_window {
            if active == *window_id {
                self.active_window = None;
                // The next nearest window is not made active.
            }
        }
        let applied = self.submit_windows_placements(placements);
        (removed, applied)
    }
}

/// A filter that keeps every element keeps the whole sequence.
pub proof fn lemma_filter_keeps_all(s: Seq<WindowPlacement>, p: spec_fn(WindowPlacement) -> bool)
    requires
        forall|i: int| 0 <= i < s.len() ==> p(#[trigger] s[i]),
    ensures
        s.filter(p) == s,
    decreases s.len(),
{
    reveal(Seq::filter);
    if s.len() > 0 {
        lemma_filter_keeps_all(s.drop_last(), p);
        assert(p(s[s.len() - 1]));
        assert(s.drop_last().push(s.last()) =~= s);
    }
}

/// A window tiled after an accept was tiled before or is the accepted one.
pub proof fn lemma_accept_members(ws: Seq<WindowId>, id: WindowId, active: Option<WindowId>, x: WindowId)
    requires
        windows_after_accept(ws, id, active).contains(x),
    ensures
        ws.contains(x) || x == id,
{
    let t = windows_after_accept(ws, id, active);
    let k = choose|k: int| 0 <= k < t.len() && t[k] == x;
    if !ws.contains(id) {
        if active is Some && ws.contains(active->0) {
            let pos = ws.index_of(active->0) + 1;
            ws.insert_ensures(pos, id);
            if k < pos {
                assert(t[k] == ws[k]);
            } else if k > pos {
                assert(t[(k - 1) + 1] == ws[k - 1]);
            }
        } else {
            if k < ws.len() {
                assert(t[k] == ws[k]);
            }
        }
    }
}

/// A window still tiled after a destroy was tiled before and is not the
/// destroyed one.
pub proof fn lemma_destroy_members(ws: Seq<WindowId>, id: WindowId, x: WindowId)
    requires
        ws.filter(other_than(id)).contains(x),
    ensures
        ws.contains(x),
        x != id,
{
    ws.lemma_filter_contains_rev(other_than(id), x);
    let k = choose|k: int| 0 <= k < ws.filter(other_than(id)).len() && ws.filter(other_than(id))[k] == x;
    ws.lemma_filter_pred(other_than(id), k);
}

/// What became of a newly spawned client window.
pub enum SpawnedWindow {
    /// It floats; no window moved.
    Floating,
    /// It is tiled; the placements applied to the workspace's windows, in
    /// order.
    Tiled(Vec<WindowPlacement>),
}

/// The rectangle of the whole screen.
pub open spec fn screen_rect_of(width: i32, height: i32) -> WindowRect {
    WindowRect { x: 0, y: 0, width, height }
}

/// The window that a click activates: the window under the pointer, when
/// the button was pressed and that window is not the active one already.
pub open spec fn clicked_window(
    active: Option<WindowId>,
    window_underneath: Option<WindowId>,
    button_pressed: bool,
) -> Option<WindowId> {
    if window_underneath is Some && window_underneath != active && button_pressed {
        window_underneath
    } else {
        None
    }
}

/// A click activates a window only when the button is pressed, only the
/// window under the pointer, and only when that window is not active
/// already; a press on any other window under the pointer activates it.
pub proof fn click_activates_only_on_press(
    active: Option<WindowId>,
    window_underneath: Option<WindowId>,
    button_pressed: bool,
)
    ensures
        !button_pressed ==> clicked_window(active, window_underneath, button_pressed) is None,
        clicked_window(active, window_underneath, button_pressed) is Some ==> clicked_window(
            active,
            window_underneath,
            button_pressed,
        ) == window_underneath && window_underneath != active,
        button_pressed && window_underneath is Some && window_underneath != active ==> clicked_window(
            active,
            window_underneath,
            button_pressed,
        ) == window_underneath,
{
}

/// The workspaces, the screen size and the tiling of the windows.
pub struct LayoutManager<W> {
    workspaces: Vec<Workspace<W>>,
    active_workspace_id: usize,
    screen_width: i32,
    screen_height: i32,
    tiling_mode: BspTilingMode,
}

impl<W> LayoutManager<W> {
    /// The active workspace exists and every workspace is well formed.
    pub closed spec fn wf(&self) -> bool {
        &&& self.active_workspace_id < self.workspaces@.len()
        &&& forall|i: int| 0 <= i < self.workspaces@.len() ==> (#[trigger] self.workspaces@[i]).wf()
    }

    /// All workspaces.
    pub closed spec fn workspaces(&self) -> Seq<Workspace<W>> {
        self.workspaces@
    }

    /// Index of the active workspace.
    pub closed spec fn active_index(&self) -> int {
        self.active_workspace_id as int
    }

    /// The active workspace.
    pub open spec fn current(&self) -> Workspace<W> {
        self.workspaces()[self.active_index()]
    }

    /// The tiling tree.
    pub closed spec fn tiling(&self) -> Option<WindowNode> {
        self.tiling_mode.tree()
    }

    /// The rectangle of the whole screen.
    pub closed spec fn screen_rect(&self) -> WindowRect {
        screen_rect_of(self.screen_width, self.screen_height)
    }

    /// Whether `self` differs from `before` at most in the active
    /// workspace's contents and in the tiling: the same workspace is active,
    /// on the same screen, and the other workspaces are as they were.
    pub open spec fn others_unchanged(&self, before: Self) -> bool {
        &&& self.active_index() == before.active_index()
        &&& self.screen_rect() == before.screen_rect()
        &&& self.workspaces().len() == before.workspaces().len()
        &&& forall|i: int| 0 <= i < before.workspaces().len() && i != before.active_index()
            ==> #[trigger] self.workspaces()[i] == before.workspaces()[i]
    }

    /// The tiled windows are distinct, and each is a window of the active
    /// workspace.
    pub open spec fn tiling_consistent(&self) -> bool {
        &&& windows_of(self.tiling()).no_duplicates()
        &&& forall|i: int| 0 <= i < windows_of(self.tiling()).len()
            ==> self.current().windows().dom().contains(#[trigger] windows_of(self.tiling())[i])
    }

    /// One empty workspace, active; no window tiled.
    pub fn new(screen_width: i32, screen_height: i32) -> (lm: Self)
        ensures
            lm.wf(),
            lm.workspaces().len() == 1,
            lm.active_index() == 0,
            lm.current().windows() == Map::<WindowId, Window<W>>::empty(),
            lm.current().active() == None::<WindowId>,
            lm.tiling() == None::<WindowNode>,
            lm.screen_rect() == screen_rect_of(screen_width, screen_height),
            lm.tiling_consistent(),
    {
        let mut workspaces = Vec::new();
        workspaces.push(Workspace::new());
        LayoutManager {
            workspaces,
            active_workspace_id: 0,
            screen_width,
            screen_height,
            tiling_mode: BspTilingMode::new(),
        }
    }

    /// The active workspace.
    pub fn current_workspace(&self) -> (ws: &Workspace<W>)
        requires
            self.wf(),
        ensures
            *ws == self.current(),
            ws.wf(),
    {
        &self.workspaces[self.active_workspace_id]
    }

    /// The active window of the active workspace.
    pub fn active_window(&self) -> (id: Option<WindowId>)
        requires
            self.wf(),
        ensures
            id == self.current().active(),
    {
        self.workspaces[self.active_workspace_id].active_window()
    }

    /// Makes `window` the active window of the active workspace.
    pub fn set_active_window(&mut self, window: WindowId)
        requires
            old(self).wf(),
        ensures
            final(self).wf(),
            final(self).others_unchanged(*old(self)),
            final(self).current().windows() == old(self).current().windows(),
            final(self).current().active() == Some(window),
            final(self).tiling() == old(self).tiling(),
            old(self).tiling_consistent() ==> final(self).tiling_consistent(),
    {
        let i = self.active_workspace_id;
        self.workspaces[i].set_active_window(Some(window));
    }

    /// The tiled windows, in order.
    pub fn tiled_windows(&self) -> (windows: Vec<WindowId>)
        ensures
            windows@ == windows_of(self.tiling()),
    {
        self.tiling_mode.windows()
    }

    /// The window that a click activates, given the window under the
    /// pointer and whether the button was pressed: the window under the
    /// pointer, when the button was pressed and that window is not the
    /// active one already.
    pub fn window_to_activate(&self, window_underneath: Option<WindowId>, button_pressed: bool) -> (id: Option<WindowId>)
        requires
            self.wf(),
        ensures
            id == clicked_window(self.current().active(), window_underneath, button_pressed),
            !button_pressed ==> id is None,
            id is Some ==> id == window_underneath && window_underneath != self.current().active(),
            button_pressed && window_underneath is Some && window_underneath != self.current().active()
                ==> id == window_underneath,
    {
        proof {
            click_activates_only_on_press(self.current().active(), window_underneath, button_pressed);
        }
        let active = self.active_window();
        let mut should_activate_window = false;
        if active.is_none() || window_underneath != active {
            should_activate_window = true;
        }
        match window_underneath {
            Some(underneath) => {
                if should_activate_window && button_pressed {
                    Some(underneath)
                } else {
                    None
                }
            },
            None => None,
        }
    }

    /// Places a newly created client window. A window without an
    /// identifier floats under the null identifier; a window with one is
    /// tiled when `is_toplevel_without_parent` (it is a toplevel window
    /// without a parent) and floats otherwise. A tiled window is accepted by
    /// the tiling (with the active window as the one to split), all tiled
    /// windows are placed on the whole screen, and the window is tracked and
    /// made active; a floating window is tracked and made active.
    pub fn spawn_client_window(
        &mut self,
        window: W,
        window_id: Option<WindowId>,
        is_toplevel_without_parent: bool,
    ) -> (spawned: SpawnedWindow)
        requires
            old(self).wf(),
            window_id is Some && is_toplevel_without_parent && !windows_of(old(self).tiling()).contains(
                window_id->0,
            ) ==> windows_of(old(self).tiling()).len() <= i32::MAX + 1,
        ensures
            final(self).wf(),
            final(self).others_unchanged(*old(self)),
            if window_id is Some && is_toplevel_without_parent {
                let id = window_id->0;
                let tiled = old(self).current().windows().insert(id, Window::new_spec(id, window));
                let placements = placements_of(final(self).tiling(), old(self).screen_rect());
                &&& final(self).tiling() == accepted(old(self).tiling(), id, old(self).current().active())
                &&& final(self).current().windows() == all_after_placements(tiled, placements)
                &&& final(self).current().active() == Some(id)
                &&& spawned matches SpawnedWindow::Tiled(applied) && applied@ == placements.filter(
                    placed_window_known(tiled),
                )
            } else {
                let id = match window_id {
                    Some(id) => id,
                    None => WindowId(0),
                };
                &&& final(self).tiling() == old(self).tiling()
                &&& final(self).current().windows() == old(self).current().windows().insert(
                    id,
                    Window::new_spec(id, window),
                )
                &&& final(self).current().active() == Some(id)
                &&& spawned is Floating
            },
            old(self).tiling_consistent() ==> final(self).tiling_consistent(),
            old(self).tiling_consistent() && window_id is Some && is_toplevel_without_parent
                ==> (spawned matches SpawnedWindow::Tiled(applied) && applied@ == placements_of(
                final(self).tiling(),
                old(self).screen_rect(),
            )),
            old(self).tiling_consistent() && window_id is Some && is_toplevel_without_parent ==> {
                let placements = placements_of(final(self).tiling(), old(self).screen_rect());
                forall|k: int| 0 <= k < placements.len()
                    ==> #[trigger] final(self).current().windows()[placements[k].window_id].spec_placement()
                    == placements[k]
            },
    {
        let screen_rect = WindowRect { x: 0, y: 0, width: self.screen_width, height: self.screen_height };
        let i = self.active_workspace_id;

        let new_window_id: WindowId;
        if let Some(id) = window_id {
            new_window_id = id;
        } else {
            self.workspaces[i].accept_new_floating_window(WindowId::null(), window);
            proof {
                if old(self).tiling_consistent() {
                    let ws = windows_of(self.tiling());
                    assert forall|k: int| 0 <= k < ws.len()
                        implies self.current().windows().dom().contains(#[trigger] ws[k]) by {
                        assert(old(self).current().windows().dom().contains(ws[k]));
                    }
                }
            }
            return SpawnedWindow::Floating;
        }

        let active_window_id = self.workspaces[i].active_window();

        if is_toplevel_without_parent {
            self.tiling_mode.accept_window(&new_window_id, active_window_id);
            let mut placements = Vec::new();
            proof {
                if let Some(root) = self.tiling() {
                    lemma_edges_fit_places(root, screen_rect);
                }
            }
            self.tiling_mode.calculate_placements(&screen_rect, &mut placements);
            assert(placements@ =~= placements_of(self.tiling(), screen_rect));
            let ghost before = old(self).current().windows();
            let applied = self.workspaces[i].accept_new_tiling_window(new_window_id, window, placements);
            proof {
                if old(self).tiling_consistent() {
                    Window::<W>::lemma_window_parts(
                        new_window_id,
                        window,
                        Window::new_spec(new_window_id, window),
                        WindowPlacement::empty_spec(),
                    );
                    self.lemma_tiled_after_accept(
                        *old(self),
                        new_window_id,
                        Window::new_spec(new_window_id, window),
                        before,
                        placements@,
                        applied@,
                    );
                }
            }
            return SpawnedWindow::Tiled(applied);
        }

        self.workspaces[i].accept_new_floating_window(new_window_id, window);
        proof {
            if old(self).tiling_consistent() {
                let ws = windows_of(self.tiling());
                assert forall|k: int| 0 <= k < ws.len()
                    implies self.current().windows().dom().contains(#[trigger] ws[k]) by {
                    assert(old(self).current().windows().dom().contains(ws[k]));
                }
            }
        }
        SpawnedWindow::Floating
    }

    /// Forgets a destroyed toplevel window: it leaves the tiling, the
    /// remaining tiled windows are placed on the whole screen, and it leaves
    /// the active workspace (which has no active window left if it was that
    /// one). Returns the removed window, if it was tracked, and the
    /// placements applied, in order.
    pub fn on_toplevel_destroy(&mut self, window_id: WindowId) -> (result: (
        Option<Window<W>>,
        Vec<WindowPlacement>,
    ))
        requires
            old(self).wf(),
        ensures
            final(self).wf(),
            final(self).others_unchanged(*old(self)),
            final(self).tiling() == destroyed(old(self).tiling(), window_id),
            ({
                let remaining = old(self).current().windows().remove(window_id);
                let placements = placements_of(final(self).tiling(), old(self).screen_rect());
                &&& result.0 == (if old(self).current().windows().dom().contains(window_id) {
                    Some(old(self).current().windows()[window_id])
                } else {
                    None
                })
                &&& final(self).current().windows() == all_after_placements(remaining, placements)
                &&& final(self).current().active() == (if old(self).current().active() == Some(window_id) {
                    None
                } else {
                    old(self).current().active()
                })
                &&& result.1@ == placements.filter(placed_window_known(remaining))
            }),
            old(self).tiling_consistent() ==> final(self).tiling_consistent(),
            old(self).tiling_consistent() ==> result.1@ == placements_of(final(self).tiling(), old(self).screen_rect()),
            old(self).tiling_consistent() ==> {
                let placements = placements_of(final(self).tiling(), old(self).screen_rect());
                forall|k: int| 0 <= k < placements.len()
                    ==> #[trigger] final(self).current().windows()[placements[k].window_id].spec_placement()
                    == placements[k]
            },
    {
        self.tiling_mode.destroy_window(&window_id);

        let screen_rect = WindowRect { x: 0, y: 0, width: self.screen_width, height: self.screen_height };
        let mut placements = Vec::new();
        proof {
            if let Some(root) = self.tiling() {
                lemma_edges_fit_places(root, screen_rect);
            }
        }
        self.tiling_mode.calculate_placements(&screen_rect, &mut placements);
        assert(placements@ =~= placements_of(self.tiling(), screen_rect));
        let i = self.active_workspace_id;
        let ghost before = old(self).current().windows();
        let result = self.workspaces[i].delete_window(&window_id, placements);
        proof {
            if old(self).tiling_consistent() {
                self.lemma_tiled_after_destroy(*old(self), window_id, before, placements@, result.1@);
            }
        }
        result
    }

    /// After a tiled spawn, the tiling stays consistent and every placement
    /// is applied.
    proof fn lemma_tiled_after_accept(
        &self,
        before_lm: Self,
        id: WindowId,
        new_window: Window<W>,
        before: Map<WindowId, Window<W>>,
        placements: Seq<WindowPlacement>,
        applied: Seq<WindowPlacement>,
    )
        requires
            before_lm.wf(),
            before_lm.tiling_consistent(),
            before == before_lm.current().windows(),
            new_window.spec_id() == id,
            self.tiling() == accepted(before_lm.tiling(), id, before_lm.current().active()),
            placements == placements_of(self.tiling(), before_lm.screen_rect()),
            self.current().windows() == all_after_placements(before.insert(id, new_window), placements),
            applied == placements.filter(placed_window_known(before.insert(id, new_window))),
        ensures
            self.tiling_consistent(),
            applied == placements,
            forall|k: int| 0 <= k < placements.len()
                ==> #[trigger] self.current().windows()[placements[k].window_id].spec_placement() == placements[k],
    {
        let old_ws = windows_of(before_lm.tiling());
        let ws = windows_of(self.tiling());
        let tiled = before.insert(id, new_window);
        accept_window_tiles_once(before_lm.tiling(), id, before_lm.current().active());
        assert forall|k: int| 0 <= k < ws.len() implies tiled.dom().contains(#[trigger] ws[k]) by {
            assert(ws.contains(ws[k]));
            lemma_accept_members(old_ws, id, before_lm.current().active(), ws[k]);
            if ws[k] != id {
                let j = choose|j: int| 0 <= j < old_ws.len() && old_ws[j] == ws[k];
                assert(before.dom().contains(old_ws[j]));
            }
        }
        assert forall|k: int| 0 <= k < ws.len() implies self.current().windows().dom().contains(#[trigger] ws[k]) by {
            assert(tiled.dom().contains(ws[k]));
        }
        match self.tiling() {
            Some(root) => {
                placements_follow_windows(root, before_lm.screen_rect());
            },
            None => {},
        }
        assert forall|k: int| 0 <= k < placements.len() implies placed_window_known(tiled)(#[trigger] placements[k]) by {
            assert(placements[k].window_id == ws[k]);
            assert(tiled.dom().contains(ws[k]));
        }
        lemma_filter_keeps_all(placements, placed_window_known(tiled));
        before_lm.current().windows_are_keyed_by_id();
        lemma_each_window_placed(tiled, placements, ws);
    }

    /// After a destroy, the tiling stays consistent and every placement is
    /// applied.
    proof fn lemma_tiled_after_destroy(
        &self,
        before_lm: Self,
        id: WindowId,
        before: Map<WindowId, Window<W>>,
        placements: Seq<WindowPlacement>,
        applied: Seq<WindowPlacement>,
    )
        requires
            before_lm.wf(),
            before_lm.tiling_consistent(),
            before == before_lm.current().windows(),
            self.tiling() == destroyed(before_lm.tiling(), id),
            placements == placements_of(self.tiling(), before_lm.screen_rect()),
            self.current().windows() == all_after_placements(before.remove(id), placements),
            applied == placements.filter(placed_window_known(before.remove(id))),
        ensures
            self.tiling_consistent(),
            applied == placements,
            forall|k: int| 0 <= k < placements.len()
                ==> #[trigger] self.current().windows()[placements[k].window_id].spec_placement() == placements[k],
    {
        let old_ws = windows_of(before_lm.tiling());
        let ws = windows_of(self.tiling());
        let remaining = before.remove(id);
        destroy_window_removes_it(before_lm.tiling(), id);
        assert forall|k: int| 0 <= k < ws.len() implies remaining.dom().contains(#[trigger] ws[k]) by {
            assert(ws.contains(ws[k]));
            lemma_destroy_members(old_ws, id, ws[k]);
            let j = choose|j: int| 0 <= j < old_ws.len() && old_ws[j] == ws[k];
            assert(before.dom().contains(old_ws[j]));
        }
        assert forall|k: int| 0 <= k < ws.len() implies self.current().windows().dom().contains(#[trigger] ws[k]) by {
            assert(remaining.dom().contains(ws[k]));
        }
        match self.tiling() {
            Some(root) => {
                placements_follow_windows(root, before_lm.screen_rect());
            },
            None => {},
        }
        assert forall|k: int| 0 <= k < placements.len() implies placed_window_known(remaining)(#[trigger] placements[k]) by {
            assert(placements[k].window_id == ws[k]);
            assert(remaining.dom().contains(ws[k]));
        }
        lemma_filter_keeps_all(placements, placed_window_known(remaining));
        before_lm.current().windows_are_keyed_by_id();
        lemma_each_window_placed(remaining, placements, ws);
    }
}

} // verus!
