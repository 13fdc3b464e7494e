use vstd::prelude::*;

use crate::input::{Key, KeyInput, MouseKind};
use crate::widgets::browser::{
    lemma_path_at_walkable, lemma_replaced_node_count, lemma_with_expanded, BrowserNode,
    BrowserState, BrowserStateView,
};

verus! {

/// The most nodes a viewer's tree holds: room is left above it to move by a
/// screen's height without leaving `isize`.
pub open spec fn node_limit() -> int {
    isize::MAX - 0x20000
}

pub fn node_limit_value() -> (r: usize)
    ensures
        r == node_limit(),
{
    (isize::MAX - 0x20000) as usize
}

/// The positions of a viewer's browser and the size of its tree stay where
/// moving, scrolling and clicking cannot leave `isize`.
pub open spec fn list_ok<E>(s: BrowserStateView, n: BrowserNode<E>) -> bool {
    &&& n.node_count() <= node_limit()
    &&& 0 <= s.scroll <= node_limit() + 1
    &&& 0 <= s.cursor <= node_limit()
    &&& (s.cursor_secondary matches Some(c) ==> 0 <= c <= node_limit())
    &&& 0 <= s.height <= u16::MAX
}

/// `after` is `before` with the expansion of the node at `path` flipped;
/// where no node is there, nothing changes.
pub open spec fn toggled_at<E>(before: BrowserNode<E>, after: BrowserNode<E>, path: Seq<usize>) -> bool {
    match before.node_at(path) {
        Some(sub) => before.replaced_at(after, path, sub.with_expanded(!sub.expanded_spec())),
        None => after == before,
    }
}

/// The height of the window inside borders `border_width` wide.
pub open spec fn inner_height(height: u16, border_width: u16) -> int {
    if height - 2 * border_width > 0 {
        height - 2 * border_width
    } else {
        0
    }
}

/// Flips the expansion of the node on the cursor's line.
pub fn toggle_selected<E>(state: &BrowserState, node: &mut BrowserNode<E>)
    requires
        list_ok(state@, *old(node)),
    ensures
        toggled_at(*old(node), *final(node), old(node).path_at(state@.cursor as usize as int)),
        final(node).node_count() == old(node).node_count(),
{
    let path = state.get_primary_selected_path(node);
    proof {
        lemma_path_at_walkable(*node, state@.cursor as usize as int);
    }
    let ghost before = *node;
    match node.get_node_mut(&path) {
        Some(sub) => {
            let ghost sub_before = *sub;
            let expanded = sub.is_expanded();
            sub.set_expanded(!expanded);
            proof {
                lemma_with_expanded(sub_before, !expanded);
            }
        },
        None => {},
    }
    proof {
        if let Some(sub) = before.node_at(path@) {
            lemma_with_expanded(sub, !sub.expanded_spec());
            lemma_replaced_node_count(before, *node, path@, sub.with_expanded(!sub.expanded_spec()));
        }
    }
}

/// Sets the window to the height inside the borders and scrolls it back
/// onto the cursor.
pub fn resize_list<E>(state: &mut BrowserState, node: &BrowserNode<E>, height: u16, border_width: u16)
    requires
        list_ok(old(state)@, *node),
    ensures
        final(state)@ == (BrowserStateView {
            height: inner_height(height, border_width),
            ..old(state)@
        }).after_scroll(node.render_len(), 0),
        list_ok(final(state)@, *node),
{
    let margin = border_width as isize * 2;
    let inner = height as isize - margin;
    state.set_height(if inner > 0 {
        inner
    } else {
        0
    });
    proof {
        lemma_render_len_bound(*node);
    }
    state.scroll_relative(node, 0);
}

/// A tree's lines are no more than its nodes.
proof fn lemma_render_len_bound<E>(n: BrowserNode<E>)
    ensures
        n.render_len() <= n.node_count(),
{
    crate::widgets::browser::lemma_render_len_le_node_count(n);
}

/// How far a key moves the cursor: a line up or down, or a page of twenty.
pub open spec fn nav_delta(key: Key) -> Option<int> {
    match key {
        Key::Up => Some(-1),
        Key::Down => Some(1),
        Key::PageDown => Some(20),
        Key::PageUp => Some(-20),
        _ => None,
    }
}

/// Moves the cursor for a navigation key; with shift the selection grows
/// from where it started instead. Whether the key was one.
pub fn navigate<E>(state: &mut BrowserState, node: &BrowserNode<E>, key: KeyInput) -> (r: bool)
    requires
        list_ok(old(state)@, *node),
    ensures
        r == (nav_delta(key.key) is Some),
        match nav_delta(key.key) {
            Some(d) => final(state)@ == old(state)@.after_select(node.render_len(), d, !key.shift),
            None => final(state)@ == old(state)@,
        },
        list_ok(final(state)@, *node),
{
    proof {
        lemma_render_len_bound(*node);
    }
    let delta: isize = match key.key {
        Key::Up => -1,
        Key::Down => 1,
        Key::PageDown => 20,
        Key::PageUp => -20,
        _ => {
            return false;
        },
    };
    state.select_relative(node, delta, !key.shift);
    true
}

/// Switches between full names and indented names.
pub fn toggle_full_name(state: &mut BrowserState)
    ensures
        final(state)@ == (BrowserStateView {
            indent_enabled: !old(state)@.full_name_enabled,
            full_name_enabled: !old(state)@.full_name_enabled,
            ..old(state)@
        }),
{
    let full_name = state.is_full_name_enabled();
    state.set_indent_enabled(!full_name);
    state.set_full_name_enabled(!full_name);
}

/// What a mouse event on row `y` does: a click selects the line there, and
/// a click on the line already selected flips its expansion; the wheel
/// moves the cursor by five lines. Whether the event was used.
pub open spec fn mouse_spec<E>(
    before: (BrowserStateView, BrowserNode<E>),
    after: (BrowserStateView, BrowserNode<E>),
    y: u16,
    kind: MouseKind,
) -> bool {
    let (s, n) = before;
    match kind {
        MouseKind::LeftDown => {
            let (s2, same) = s.after_click(n.render_len(), y as int, true);
            &&& after.0 == s2
            &&& if same {
                toggled_at(n, after.1, n.path_at(s2.cursor as usize as int))
            } else {
                after.1 == n
            }
        },
        MouseKind::ScrollDown => after == (s.after_select(n.render_len(), 5, true), n),
        MouseKind::ScrollUp => after == (s.after_select(n.render_len(), -5, true), n),
        _ => after == before,
    }
}

/// Handles a mouse event on row `y` of the list (see `mouse_spec`).
pub fn list_mouse<E>(state: &mut BrowserState, node: &mut BrowserNode<E>, y: u16, kind: MouseKind) -> (r:
    bool)
    requires
        list_ok(old(state)@, *old(node)),
    ensures
        mouse_spec((old(state)@, *old(node)), (final(state)@, *final(node)), y, kind),
        r == (kind is LeftDown || kind is ScrollDown || kind is ScrollUp),
        list_ok(final(state)@, *final(node)),
{
    proof {
        lemma_render_len_bound(*node);
    }
    match kind {
        MouseKind::LeftDown => {
            if state.select_absolute(node, y as isize, true) {
                toggle_selected(state, node);
            }
        },
        MouseKind::ScrollDown => state.select_relative(node, 5, true),
        MouseKind::ScrollUp => state.select_relative(node, -5, true),
        _ => {
            return false;
        },
    }
    true
}

} // verus!
