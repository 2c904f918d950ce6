use vstd::prelude::*;

use crate::tiling::{SplitDirection, WindowNode, split_fits, split_rect_spec, trunc_half};
use crate::tiling::bsp::{accepted, destroyed, next_direction, windows_of};
use crate::window::{WindowId, WindowPlacement, WindowRect};

verus! {

/// Keeps every window but `id`.
pub open spec fn other_than(id: WindowId) -> spec_fn(WindowId) -> bool {
    |w: WindowId| w != id
}

/// A window is in the tree exactly when it is one of the tree's windows.
pub proof fn lemma_has_window_iff_listed(root: WindowNode, id: WindowId)
    ensures
        root.has_window(id) == root.windows().contains(id),
    decreases root,
{
    match root {
        WindowNode::Leaf { window_id } => {
            if window_id == id {
                assert(root.windows()[0] == id);
            }
        },
        WindowNode::Split { left, right, .. } => {
            lemma_has_window_iff_listed(*left, id);
            lemma_has_window_iff_listed(*right, id);
            vstd::seq_lib::lemma_seq_concat_contains_all_elements(left.windows(), right.windows(), id);
        },
    }
}

/// Removing a window that is not in the tree gives back the whole tree.
pub proof fn lemma_without_absent(root: WindowNode, id: WindowId)
    requires
        !root.has_window(id),
    ensures
        root.without(id) == Some(root),
    decreases root,
{
    match root {
        WindowNode::Leaf { .. } => {},
        WindowNode::Split { left, right, .. } => {
            lemma_without_absent(*left, id);
            lemma_without_absent(*right, id);
        },
    }
}

/// The windows left after removing `id` from a tree are its windows other
/// than `id`, in the same order.
pub proof fn lemma_without_windows(root: WindowNode, id: WindowId)
    ensures
        windows_of(root.without(id)) == root.windows().filter(other_than(id)),
    decreases root,
{
    match root {
        WindowNode::Leaf { window_id } => {
            reveal_with_fuel(Seq::filter, 2);
            assert(root.windows().drop_last() =~= Seq::<WindowId>::empty());
            if window_id != id {
                assert(root.windows().filter(other_than(id)) =~= seq![window_id]);
            } else {
                assert(root.windows().filter(other_than(id)) =~= Seq::<WindowId>::empty());
            }
        },
        WindowNode::Split { left, right, .. } => {
            lemma_without_windows(*left, id);
            lemma_without_windows(*right, id);
            Seq::filter_distributes_over_add(left.windows(), right.windows(), other_than(id));
            assert(Seq::<WindowId>::empty() + right.windows().filter(other_than(id))
                =~= right.windows().filter(other_than(id)));
            assert(left.windows().filter(other_than(id)) + Seq::<WindowId>::empty()
                =~= left.windows().filter(other_than(id)));
        },
    }
}

/// Both parts of a sequence without duplicates are without duplicates and
/// share no element.
pub proof fn lemma_no_duplicates_parts(a: Seq<WindowId>, b: Seq<WindowId>)
    requires
        (a + b).no_duplicates(),
    ensures
        a.no_duplicates(),
        b.no_duplicates(),
        forall|x: WindowId| a.contains(x) ==> !b.contains(x),
{
    assert forall|i: int, j: int| 0 <= i < a.len() && 0 <= j < a.len() && i != j implies a[i] != a[j] by {
        assert((a + b)[i] == a[i] && (a + b)[j] == a[j]);
    }
    assert forall|i: int, j: int| 0 <= i < b.len() && 0 <= j < b.len() && i != j implies b[i] != b[j] by {
        assert((a + b)[a.len() + i] == b[i] && (a + b)[a.len() + j] == b[j]);
    }
    assert forall|x: WindowId| a.contains(x) implies !b.contains(x) by {
        let i = choose|i: int| 0 <= i < a.len() && a[i] == x;
        if b.contains(x) {
            let j = choose|j: int| 0 <= j < b.len() && b[j] == x;
            assert((a + b)[i] == x && (a + b)[a.len() + j] == x);
        }
    }
}

/// In a sequence without duplicates, the index of an element is the one
/// position that holds it.
pub proof fn lemma_index_of_unique(s: Seq<WindowId>, i: int)
    requires
        s.no_duplicates(),
        0 <= i < s.len(),
    ensures
        s.index_of(s[i]) == i,
{
    assert(s.contains(s[i]));
}

/// Splitting the tree at the leaf of window `active` inserts `new_window`
/// into the tree's windows right after `active`, when the windows are
/// distinct and `active` is one of them.
pub proof fn lemma_split_at_windows(
    root: WindowNode,
    active: WindowId,
    new_window: WindowId,
    direction: SplitDirection,
)
    requires
        root.windows().no_duplicates(),
        root.has_window(active),
    ensures
        root.split_at(active, new_window, direction).windows()
            == root.windows().insert(root.windows().index_of(active) + 1, new_window),
    decreases root,
{
    let ws = root.windows();
    lemma_has_window_iff_listed(root, active);
    match root {
        WindowNode::Leaf { window_id } => {
            lemma_index_of_unique(ws, 0);
            assert(window_id == active);
            let split = root.split_at(active, new_window, direction);
            assert(WindowNode::Leaf { window_id }.windows() == seq![window_id]);
            assert(WindowNode::Leaf { window_id: new_window }.windows() == seq![new_window]);
            assert(split.windows() =~= seq![window_id] + seq![new_window]);
            assert(ws.subrange(0, 1) =~= ws);
            assert(ws.subrange(1, 1) =~= Seq::<WindowId>::empty());
            assert(root.split_at(active, new_window, direction).windows() =~= ws.insert(1, new_window));
        },
        WindowNode::Split { left, right, .. } => {
            let l = left.windows();
            let r = right.windows();
            lemma_no_duplicates_parts(l, r);
            lemma_has_window_iff_listed(*left, active);
            lemma_has_window_iff_listed(*right, active);
            if left.has_window(active) {
                lemma_split_at_windows(*left, active, new_window, direction);
                let i = l.index_of(active);
                assert(ws[i] == active);
                lemma_index_of_unique(ws, i);
                assert(root.split_at(active, new_window, direction).windows() =~= ws.insert(i + 1, new_window));
            } else {
                lemma_split_at_windows(*right, active, new_window, direction);
                let i = r.index_of(active);
                assert(ws[l.len() + i] == active);
                lemma_index_of_unique(ws, l.len() + i);
                assert(root.split_at(active, new_window, direction).windows()
                    =~= ws.insert(l.len() + i + 1, new_window));
            }
        },
    }
}

/// Inserting an element that a sequence without duplicates lacks keeps it
/// without duplicates.
pub proof fn lemma_insert_fresh_no_duplicates(s: Seq<WindowId>, pos: int, e: WindowId)
    requires
        s.no_duplicates(),
        !s.contains(e),
        0 <= pos <= s.len(),
    ensures
        s.insert(pos, e).no_duplicates(),
        s.insert(pos, e).contains(e),
{
    let t = s.insert(pos, e);
    s.insert_ensures(pos, e);
    assert(t[pos] == e);
    assert forall|i: int, j: int| 0 <= i < t.len() && 0 <= j < t.len() && i != j implies t[i] != t[j] by {
        let si = if i < pos { i } else { i - 1 };
        let sj = if j < pos { j } else { j - 1 };
        if i != pos {
            assert(t[i] == s[si]);
        }
        if j != pos {
            assert(t[j] == s[sj]);
        }
    }
}

/// Keeping part of a sequence without duplicates keeps it without
/// duplicates.
pub proof fn lemma_filter_no_duplicates(s: Seq<WindowId>, p: spec_fn(WindowId) -> bool)
    requires
        s.no_duplicates(),
    ensures
        s.filter(p).no_duplicates(),
    decreases s.len(),
{
    reveal(Seq::filter);
    if s.len() > 0 {
        let rest = s.drop_last();
        assert(rest.no_duplicates());
        lemma_filter_no_duplicates(rest, p);
        if p(s.last()) {
            if rest.filter(p).contains(s.last()) {
                rest.lemma_filter_contains_rev(p, s.last());
                let k = choose|k: int| 0 <= k < rest.len() && rest[k] == s.last();
                assert(s[k] == s[s.len() - 1]);
            }
            let f = rest.filter(p);
            assert forall|i: int, j: int|
                0 <= i < f.push(s.last()).len() && 0 <= j < f.push(s.last()).len() && i != j
                implies f.push(s.last())[i] != f.push(s.last())[j] by {
                if i < f.len() && j < f.len() {
                    assert(f[i] != f[j]);
                } else if i < f.len() {
                    assert(f.contains(f[i]));
                } else if j < f.len() {
                    assert(f.contains(f[j]));
                }
            }
        }
    }
}

/// The windows after accepting window `id` with `active` as the active
/// window: unchanged when `id` is already there; `id` inserted right after
/// `active` when `active` is there; `id` appended otherwise.
pub open spec fn windows_after_accept(ws: Seq<WindowId>, id: WindowId, active: Option<WindowId>) -> Seq<WindowId> {
    if ws.contains(id) {
        ws
    } else if active is Some && ws.contains(active->0) {
        ws.insert(ws.index_of(active->0) + 1, id)
    } else {
        ws.push(id)
    }
}

/// Accepting a window tiles it exactly once: the tiled windows change as
/// [`windows_after_accept`] says, they stay distinct, and the accepted
/// window is among them.
pub proof fn accept_window_tiles_once(tree: Option<WindowNode>, id: WindowId, active: Option<WindowId>)
    requires
        windows_of(tree).no_duplicates(),
    ensures
        windows_of(accepted(tree, id, active)) == windows_after_accept(windows_of(tree), id, active),
        windows_of(accepted(tree, id, active)).no_duplicates(),
        windows_of(accepted(tree, id, active)).contains(id),
{
    let ws = windows_of(tree);
    match tree {
        None => {
            assert(WindowNode::Leaf { window_id: id }.windows() =~= ws.push(id));
            assert(ws.push(id)[0] == id);
        },
        Some(root) => {
            lemma_has_window_iff_listed(root, id);
            if !root.has_window(id) {
                let direction = next_direction(root.split_count());
                if active is Some && root.has_window(active->0) {
                    lemma_has_window_iff_listed(root, active->0);
                    lemma_split_at_windows(root, active->0, id, direction);
                    let i = ws.index_of(active->0);
                    lemma_insert_fresh_no_duplicates(ws, i + 1, id);
                } else {
                    if active is Some {
                        lemma_has_window_iff_listed(root, active->0);
                    }
                    assert(WindowNode::Leaf { window_id: id }.windows() == seq![id]);
                    assert(windows_of(accepted(tree, id, active)) =~= ws.push(id));
                    lemma_insert_fresh_no_duplicates(ws, ws.len() as int, id);
                    assert(ws.insert(ws.len() as int, id) =~= ws.push(id));
                }
            }
        },
    }
}

/// Destroying a window removes exactly that window: the tiled windows keep
/// their order without it, and stay distinct.
pub proof fn destroy_window_removes_it(tree: Option<WindowNode>, id: WindowId)
    requires
        windows_of(tree).no_duplicates(),
    ensures
        windows_of(destroyed(tree, id)) == windows_of(tree).filter(other_than(id)),
        windows_of(destroyed(tree, id)).no_duplicates(),
        !windows_of(destroyed(tree, id)).contains(id),
{
    let ws = windows_of(tree);
    match tree {
        None => {
            reveal(Seq::filter);
        },
        Some(root) => {
            lemma_without_windows(root, id);
        },
    }
    lemma_filter_no_duplicates(ws, other_than(id));
    if ws.filter(other_than(id)).contains(id) {
        let k = choose|k: int| 0 <= k < ws.filter(other_than(id)).len() && ws.filter(other_than(id))[k] == id;
        ws.lemma_filter_pred(other_than(id), k);
    }
}

/// Destroying a window right after accepting it, when it was not tiled
/// before, gives back the tiling tree exactly as it was.
pub proof fn destroy_undoes_accept(tree: Option<WindowNode>, id: WindowId, active: Option<WindowId>)
    requires
        !windows_of(tree).contains(id),
    ensures
        destroyed(accepted(tree, id, active), id) == tree,
{
    match tree {
        None => {
            assert(WindowNode::Leaf { window_id: id }.without(id) == None::<WindowNode>);
        },
        Some(root) => {
            lemma_has_window_iff_listed(root, id);
            let direction = next_direction(root.split_count());
            if active is Some && root.has_window(active->0) {
                lemma_split_at_then_without(root, active->0, id, direction);
            } else {
                lemma_without_absent(root, id);
            }
        },
    }
}

/// Removing the window just split off gives back the tree before the split.
pub proof fn lemma_split_at_then_without(
    root: WindowNode,
    active: WindowId,
    new_window: WindowId,
    direction: SplitDirection,
)
    requires
        !root.has_window(new_window),
    ensures
        root.split_at(active, new_window, direction).without(new_window) == Some(root),
    decreases root,
{
    match root {
        WindowNode::Leaf { window_id } => {
            if window_id == active {
                let l = WindowNode::Leaf { window_id };
                let r = WindowNode::Leaf { window_id: new_window };
                assert(l.without(new_window) == Some(l));
                assert(r.without(new_window) == None::<WindowNode>);
            }
        },
        WindowNode::Split { left, right, .. } => {
            lemma_without_absent(*left, new_window);
            lemma_without_absent(*right, new_window);
            if left.has_window(active) {
                lemma_split_at_then_without(*left, active, new_window, direction);
            } else if right.has_window(active) {
                lemma_split_at_then_without(*right, active, new_window, direction);
            }
        },
    }
}

/// Whether `rect` has no negative extent.
pub open spec fn rect_nonnegative(rect: WindowRect) -> bool {
    rect.width >= 0 && rect.height >= 0
}

/// Whether `inner` has no negative extent and lies inside `outer`.
pub open spec fn rect_within(inner: WindowRect, outer: WindowRect) -> bool {
    &&& rect_nonnegative(inner)
    &&& outer.x <= inner.x
    &&& inner.x + inner.width <= outer.x + outer.width
    &&& outer.y <= inner.y
    &&& inner.y + inner.height <= outer.y + outer.height
}

/// Whether `a` and `b` share no point: one lies wholly left of, right of,
/// above or below the other.
pub open spec fn rects_disjoint(a: WindowRect, b: WindowRect) -> bool {
    ||| a.x + a.width <= b.x
    ||| b.x + b.width <= a.x
    ||| a.y + a.height <= b.y
    ||| b.y + b.height <= a.y
}

/// The area of `rect`.
pub open spec fn rect_area(rect: WindowRect) -> int {
    rect.width * rect.height
}

/// The summed area of the placements' rectangles.
pub open spec fn total_area(placements: Seq<WindowPlacement>) -> int
    decreases placements.len(),
{
    if placements.len() == 0 {
        0
    } else {
        total_area(placements.drop_last()) + rect_area(placements.last().rect)
    }
}

/// The summed area of two runs of placements is the sum of their areas.
pub proof fn lemma_total_area_concat(a: Seq<WindowPlacement>, b: Seq<WindowPlacement>)
    ensures
        total_area(a + b) == total_area(a) + total_area(b),
    decreases b.len(),
{
    if b.len() == 0 {
        assert(a + b =~= a);
    } else {
        lemma_total_area_concat(a, b.drop_last());
        assert((a + b).drop_last() =~= a + b.drop_last());
        assert((a + b).last() == b.last());
    }
}

/// The two halves of a rectangle with no negative extent lie inside it, have
/// no negative extent, share no point and together have its area.
pub proof fn lemma_split_halves_tile(rect: WindowRect, direction: SplitDirection)
    requires
        rect_nonnegative(rect),
        split_fits(rect, direction),
    ensures
        rect_within(split_rect_spec(rect, direction).0, rect),
        rect_within(split_rect_spec(rect, direction).1, rect),
        rects_disjoint(split_rect_spec(rect, direction).0, split_rect_spec(rect, direction).1),
        rect_area(split_rect_spec(rect, direction).0) + rect_area(split_rect_spec(rect, direction).1)
            == rect_area(rect),
{
    let w = rect.width as int;
    let h = rect.height as int;
    let hw = trunc_half(w);
    let hh = trunc_half(h);
    assert(0 <= hw <= w);
    assert(0 <= hh <= h);
    assert(hw * h + (w - hw) * h == w * h) by (nonlinear_arith);
    assert(w * hh + w * (h - hh) == w * h) by (nonlinear_arith);
}

/// A rectangle inside `outer_a` and one inside `outer_b` share no point when
/// `outer_a` and `outer_b` share none.
pub proof fn lemma_within_disjoint(a: WindowRect, outer_a: WindowRect, b: WindowRect, outer_b: WindowRect)
    requires
        rect_within(a, outer_a),
        rect_within(b, outer_b),
        rects_disjoint(outer_a, outer_b),
    ensures
        rects_disjoint(a, b),
{
}

/// The placements of a tree follow its windows: one placement per window,
/// in the same order.
pub proof fn placements_follow_windows(root: WindowNode, rect: WindowRect)
    ensures
        root.placements(rect).len() == root.windows().len(),
        forall|i: int| 0 <= i < root.windows().len()
            ==> #[trigger] root.placements(rect)[i].window_id == root.windows()[i],
    decreases root,
{
    match root {
        WindowNode::Leaf { .. } => {},
        WindowNode::Split { direction, left, right } => {
            let halves = split_rect_spec(rect, direction);
            placements_follow_windows(*left, halves.0);
            placements_follow_windows(*right, halves.1);
            let p = root.placements(rect);
            let l = left.placements(halves.0);
            let ws = root.windows();
            assert forall|i: int| 0 <= i < ws.len() implies #[trigger] p[i].window_id == ws[i] by {
                if i < l.len() {
                    assert(p[i] == l[i]);
                } else {
                    assert(p[i] == right.placements(halves.1)[i - l.len()]);
                }
            }
        },
    }
}

/// Laid out in a rectangle with no negative extent, the placements of a tree
/// tile it: each lies inside it, no two share a point, and together they
/// have its area.
pub proof fn placements_tile_rect(root: WindowNode, rect: WindowRect)
    requires
        rect_nonnegative(rect),
        root.placements_fit(rect),
    ensures
        forall|i: int| 0 <= i < root.placements(rect).len()
            ==> rect_within(#[trigger] root.placements(rect)[i].rect, rect),
        forall|i: int, j: int|
            0 <= i < root.placements(rect).len() && 0 <= j < root.placements(rect).len() && i != j
            ==> rects_disjoint(#[trigger] root.placements(rect)[i].rect, #[trigger] root.placements(rect)[j].rect),
        total_area(root.placements(rect)) == rect_area(rect),
    decreases root,
{
    match root {
        WindowNode::Leaf { window_id } => {
            let p = root.placements(rect);
            assert(p.drop_last() =~= Seq::<WindowPlacement>::empty());
            assert(total_area(p.drop_last()) == 0);
            assert(p.last().rect == rect);
        },
        WindowNode::Split { direction, left, right } => {
            let halves = split_rect_spec(rect, direction);
            lemma_split_halves_tile(rect, direction);
            placements_tile_rect(*left, halves.0);
            placements_tile_rect(*right, halves.1);
            let l = left.placements(halves.0);
            let r = right.placements(halves.1);
            let p = root.placements(rect);
            assert(p == l + r);
            lemma_total_area_concat(l, r);
            assert forall|i: int| 0 <= i < p.len() implies rect_within(#[trigger] p[i].rect, rect) by {
                if i < l.len() {
                    assert(p[i] == l[i]);
                    assert(rect_within(l[i].rect, halves.0));
                } else {
                    assert(p[i] == r[i - l.len()]);
                    assert(rect_within(r[i - l.len()].rect, halves.1));
                }
            }
            assert forall|i: int, j: int| 0 <= i < p.len() && 0 <= j < p.len() && i != j
                implies rects_disjoint(#[trigger] p[i].rect, #[trigger] p[j].rect) by {
                if i < l.len() && j < l.len() {
                    assert(p[i] == l[i] && p[j] == l[j]);
                } else if i >= l.len() && j >= l.len() {
                    assert(p[i] == r[i - l.len()] && p[j] == r[j - l.len()]);
                } else if i < l.len() {
                    assert(p[i] == l[i] && p[j] == r[j - l.len()]);
                    assert(rect_within(l[i].rect, halves.0));
                    assert(rect_within(r[j - l.len()].rect, halves.1));
                    lemma_within_disjoint(l[i].rect, halves.0, r[j - l.len()].rect, halves.1);
                } else {
                    assert(p[j] == l[j] && p[i] == r[i - l.len()]);
                    assert(rect_within(l[j].rect, halves.0));
                    assert(rect_within(r[i - l.len()].rect, halves.1));
                    lemma_within_disjoint(l[j].rect, halves.0, r[i - l.len()].rect, halves.1);
                }
            }
        },
    }
}

/// After splitting at `active`, the tree holds its windows from before and,
/// when `active` was among them, `new_window`.
pub proof fn lemma_split_at_has_window(
    root: WindowNode,
    active: WindowId,
    new_window: WindowId,
    direction: SplitDirection,
    x: WindowId,
)
    ensures
        root.split_at(active, new_window, direction).has_window(x) == (root.has_window(x) || (
        root.has_window(active) && x == new_window)),
    decreases root,
{
    match root {
        WindowNode::Leaf { window_id } => {
            if window_id == active {
                assert(WindowNode::Leaf { window_id }.has_window(x) == (window_id == x));
                assert(WindowNode::Leaf { window_id: new_window }.has_window(x) == (new_window == x));
            }
        },
        WindowNode::Split { left, right, .. } => {
            lemma_split_at_has_window(*left, active, new_window, direction, x);
            lemma_split_at_has_window(*right, active, new_window, direction, x);
        },
    }
}

/// Accepting a window tiles it, keeps every window tiled before, and adds
/// no other window.
pub proof fn accepted_members(tree: Option<WindowNode>, id: WindowId, active: Option<WindowId>, x: WindowId)
    ensures
        windows_of(accepted(tree, id, active)).contains(id),
        windows_of(tree).contains(x) ==> windows_of(accepted(tree, id, active)).contains(x),
        windows_of(accepted(tree, id, active)).contains(x) ==> windows_of(tree).contains(x) || x == id,
{
    let after = accepted(tree, id, active);
    match tree {
        None => {
            assert(WindowNode::Leaf { window_id: id }.windows() =~= seq![id]);
            assert(seq![id][0] == id);
        },
        Some(root) => {
            let r = after->0;
            lemma_has_window_iff_listed(root, id);
            lemma_has_window_iff_listed(root, x);
            lemma_has_window_iff_listed(r, id);
            lemma_has_window_iff_listed(r, x);
            if !root.has_window(id) {
                let direction = next_direction(root.split_count());
                if active is Some && root.has_window(active->0) {
                    lemma_split_at_has_window(root, active->0, id, direction, id);
                    lemma_split_at_has_window(root, active->0, id, direction, x);
                } else {
                    assert(WindowNode::Leaf { window_id: id }.has_window(x) == (id == x));
                    assert(WindowNode::Leaf { window_id: id }.has_window(id));
                }
            }
        },
    }
}

/// Whether the tree has a split in `direction` whose first side is the
/// single window `first` and whose second side is the single window
/// `second`.
pub open spec fn has_split_of(n: WindowNode, direction: SplitDirection, first: WindowId, second: WindowId) -> bool
    decreases n,
{
    match n {
        WindowNode::Leaf { .. } => false,
        WindowNode::Split { direction: d, left, right } => {
            ||| (d == direction && *left == WindowNode::Leaf { window_id: first } && *right
                == WindowNode::Leaf { window_id: second })
            ||| has_split_of(*left, direction, first, second)
            ||| has_split_of(*right, direction, first, second)
        },
    }
}

/// Whether `sub` occurs in `n`, as `n` itself or inside one of its sides.
pub open spec fn is_subtree(sub: WindowNode, n: WindowNode) -> bool
    decreases n,
{
    sub == n || match n {
        WindowNode::Leaf { .. } => false,
        WindowNode::Split { left, right, .. } => is_subtree(sub, *left) || is_subtree(sub, *right),
    }
}

/// Splitting at the active window puts the active window and the new one
/// side by side in a split of exactly the requested direction, wherever
/// the active window sits in the tree.
pub proof fn split_at_uses_requested_direction(
    root: WindowNode,
    active: WindowId,
    new_window: WindowId,
    direction: SplitDirection,
)
    requires
        root.has_window(active),
    ensures
        has_split_of(root.split_at(active, new_window, direction), direction, active, new_window),
    decreases root,
{
    match root {
        WindowNode::Leaf { .. } => {},
        WindowNode::Split { left, right, .. } => {
            if left.has_window(active) {
                split_at_uses_requested_direction(*left, active, new_window, direction);
            } else {
                split_at_uses_requested_direction(*right, active, new_window, direction);
            }
        },
    }
}

/// Accepting a new window into a non-empty tree adds one split, vertical
/// when the tree has an even number of splits and horizontal when it has an
/// odd number: between the active window and the new one when the active
/// window is tiled, else between the whole tree and the new window.
pub proof fn accept_window_alternates_direction(root: WindowNode, id: WindowId, active: Option<WindowId>)
    requires
        !root.has_window(id),
    ensures
        ({
            let direction = if root.split_count() % 2 == 0 {
                SplitDirection::Vertical
            } else {
                SplitDirection::Horizontal
            };
            let after = accepted(Some(root), id, active);
            &&& after is Some
            &&& after->0.split_count() == root.split_count() + 1
            &&& if active is Some && root.has_window(active->0) {
                has_split_of(after->0, direction, active->0, id)
            } else {
                after->0 == WindowNode::Split {
                    direction,
                    left: Box::new(root),
                    right: Box::new(WindowNode::Leaf { window_id: id }),
                }
            }
        }),
{
    let direction = next_direction(root.split_count());
    let after = accepted(Some(root), id, active);
    if active is Some && root.has_window(active->0) {
        split_at_uses_requested_direction(root, active->0, id, direction);
        lemma_split_at_split_count(root, active->0, id, direction);
    } else {
        assert(WindowNode::Leaf { window_id: id }.split_count() == 0);
    }
}

/// Splitting at a tiled window adds exactly one split.
pub proof fn lemma_split_at_split_count(root: WindowNode, active: WindowId, new_window: WindowId, direction: SplitDirection)
    requires
        root.has_window(active),
    ensures
        root.split_at(active, new_window, direction).split_count() == root.split_count() + 1,
    decreases root,
{
    match root {
        WindowNode::Leaf { window_id } => {
            assert(WindowNode::Leaf { window_id }.split_count() == 0);
            assert(WindowNode::Leaf { window_id: new_window }.split_count() == 0);
        },
        WindowNode::Split { left, right, .. } => {
            if left.has_window(active) {
                lemma_split_at_split_count(*left, active, new_window, direction);
            } else {
                lemma_split_at_split_count(*right, active, new_window, direction);
            }
        },
    }
}

/// Removing a window keeps every part of the tree that does not hold it
/// exactly as it was (same shape, directions and windows): such a part
/// still occurs in what is left.
pub proof fn without_keeps_untouched_subtrees(root: WindowNode, id: WindowId, sub: WindowNode)
    requires
        is_subtree(sub, root),
        !sub.has_window(id),
    ensures
        root.without(id) is Some,
        is_subtree(sub, root.without(id)->0),
    decreases root,
{
    if sub == root {
        lemma_without_absent(root, id);
    } else {
        match root {
            WindowNode::Leaf { .. } => {},
            WindowNode::Split { left, right, .. } => {
                if is_subtree(sub, *left) {
                    without_keeps_untouched_subtrees(*left, id, sub);
                    let l = left.without(id)->0;
                    if right.without(id) is Some {
                        let r = right.without(id)->0;
                        assert(is_subtree(sub, l));
                    }
                } else {
                    without_keeps_untouched_subtrees(*right, id, sub);
                }
            },
        }
    }
}

} // verus!
