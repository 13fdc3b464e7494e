use vstd::prelude::*;

use crate::state::tree::TreeNodes;

verus! {

/// `value` limited to `min..=max`, checking `min` first: when `max < min`
/// a value below `min` gives `min` and any other value gives `max`.
pub open spec fn clamp_signed_spec(value: int, min: int, max: int) -> int {
    if value < min {
        min
    } else if value > max {
        max
    } else {
        value
    }
}

pub fn clamp_signed(value: isize, min: isize, max: isize) -> (r: isize)
    ensures
        r == clamp_signed_spec(value as int, min as int, max as int),
{
    if value < min {
        min
    } else if value > max {
        max
    } else {
        value
    }
}

/// A primary cursor and, while a range is being selected, a secondary one.
pub struct TreeCursorView {
    pub primary: int,
    pub secondary: Option<int>,
}

impl TreeCursorView {
    /// First and one past the last selected line.
    pub open spec fn selected(self) -> (int, int) {
        match self.secondary {
            Some(s) => if self.primary < s {
                (self.primary, s + 1)
            } else {
                (s, self.primary + 1)
            },
            None => (self.primary, self.primary + 1),
        }
    }

    /// The larger of the two cursors is below `isize::MAX`.
    pub open spec fn selectable(self) -> bool {
        self.selected().1 <= isize::MAX
    }

    pub open spec fn shifted(self, value: int) -> TreeCursorView {
        TreeCursorView {
            primary: self.primary + value,
            secondary: match self.secondary {
                Some(s) => Some(s + value),
                None => None,
            },
        }
    }
}

#[derive(Clone)]
struct TreeCursor {
    primary: isize,
    secondary: Option<isize>,
}

impl View for TreeCursor {
    type V = TreeCursorView;

    closed spec fn view(&self) -> TreeCursorView {
        TreeCursorView {
            primary: self.primary as int,
            secondary: match self.secondary {
                Some(s) => Some(s as int),
                None => None,
            },
        }
    }
}

impl TreeCursor {
    fn copy(&self) -> (r: Self)
        ensures
            r@ == self@,
    {
        TreeCursor { primary: self.primary, secondary: self.secondary }
    }

    fn get_primary(&self) -> (r: isize)
        ensures
            r == self@.primary,
    {
        self.primary
    }

    fn get_selected(&self) -> (r: core::ops::Range<isize>)
        requires
            self@.selectable(),
        ensures
            r.start == self@.selected().0,
            r.end == self@.selected().1,
    {
        if let Some(secondary) = self.secondary {
            if self.primary < secondary {
                self.primary..secondary + 1
            } else {
                secondary..self.primary + 1
            }
        } else {
            self.primary..self.primary + 1
        }
    }

    fn is_primary_selected(&self) -> (r: bool)
        ensures
            r == (self@.primary == 0),
    {
        self.primary == 0
    }

    fn is_selected(&self) -> (r: bool)
        requires
            self@.selectable(),
        ensures
            r == (self@.selected().0 <= 0 < self@.selected().1),
    {
        let range = self.get_selected();
        range.start <= 0 && 0 < range.end
    }

    fn add(&mut self, value: isize)
        requires
            isize::MIN <= old(self)@.primary + value <= isize::MAX,
            old(self)@.secondary matches Some(s) ==> isize::MIN <= s + value <= isize::MAX,
        ensures
            final(self)@ == old(self)@.shifted(value as int),
    {
        self.primary += value;
        self.secondary = if let Some(secondary) = self.secondary {
            Some(secondary + value)
        } else {
            None
        };
    }
}

/// The window (height and scroll) and cursor of a tree display.
pub struct TreeDisplayView {
    pub height: int,
    pub scroll: int,
    pub cursor: TreeCursorView,
}

/// The scroll position that keeps `cursor` inside a window of `height`
/// lines after scrolling by `delta`.
pub open spec fn scrolled(scroll: int, delta: int, height: int, cursor: int) -> int {
    clamp_signed_spec(
        scroll + delta,
        if cursor > height - 1 {
            cursor - height + 1
        } else {
            0
        },
        cursor,
    )
}

pub struct TreeDisplay {
    height: isize,
    scroll: isize,
    cursor: TreeCursor,
}

impl TreeDisplay {
    #[verifier::type_invariant]
    spec fn inv(self) -> bool {
        self.height >= 0
    }
}

impl View for TreeDisplay {
    type V = TreeDisplayView;

    closed spec fn view(&self) -> TreeDisplayView {
        TreeDisplayView { height: self.height as int, scroll: self.scroll as int, cursor: self.cursor@ }
    }
}

impl TreeDisplay {
    pub fn new() -> (r: Self)
        ensures
            r@ == (TreeDisplayView {
                height: 0,
                scroll: 0,
                cursor: TreeCursorView { primary: 0, secondary: None },
            }),
    {
        Self { height: 0, scroll: 0, cursor: TreeCursor { primary: 0, secondary: None } }
    }

    /// A renderer that starts at this display's window and cursor.
    pub fn make_render_offsets(&self) -> (r: TreeRender)
        ensures
            r@ == (TreeRenderView {
                render: self@.height,
                scroll: self@.scroll,
                cursor: self@.cursor,
                indent: 0,
            }),
    {
        TreeRender { render: self.height, scroll: self.scroll, cursor: self.cursor.copy(), indent: 0 }
    }

    /// Moves the primary cursor (or, for a range, the secondary cursor) by
    /// `delta` lines within the tree, and scrolls so that it is visible.
    pub fn select_relative<T>(&mut self, tree: &TreeNodes<T>, delta: isize, is_primary: bool)
        requires
            tree.node_count() <= isize::MAX,
            is_primary ==> isize::MIN <= old(self)@.cursor.primary + delta <= isize::MAX,
            !is_primary ==> isize::MIN <= (match old(self)@.cursor.secondary {
                Some(s) => s,
                None => old(self)@.cursor.primary,
            }) + delta <= isize::MAX,
        ensures
            ({
                let s = old(self)@;
                let last = tree.rendered() - 1;
                if is_primary {
                    let p = clamp_signed_spec(s.cursor.primary + delta, 0, last);
                    final(self)@ == (TreeDisplayView {
                        scroll: scrolled(s.scroll, 0, s.height, p),
                        cursor: TreeCursorView { primary: p, secondary: None },
                        ..s
                    })
                } else {
                    let q = clamp_signed_spec(
                        match s.cursor.secondary {
                            Some(c) => c,
                            None => s.cursor.primary,
                        } + delta,
                        0,
                        last,
                    );
                    final(self)@ == (TreeDisplayView {
                        scroll: scrolled(s.scroll, 0, s.height, q),
                        cursor: TreeCursorView { primary: s.cursor.primary, secondary: Some(q) },
                        ..s
                    })
                }
            }),
    {
        proof {
            use_type_invariant(&*self);
            tree.lemma_rendered_le_node_count();
        }
        if is_primary {
            self.cursor.secondary = None;
            self.cursor.primary = clamp_signed(
                self.cursor.primary + delta,
                0,
                tree.rendered_len() as isize - 1,
            );
            self.scroll_relative(0, self.cursor.primary);
        } else {
            let secondary = if let Some(secondary) = self.cursor.secondary {
                secondary
            } else {
                self.cursor.get_primary()
            };
            let secondary = clamp_signed(secondary + delta, 0, tree.rendered_len() as isize - 1);
            self.cursor.secondary = Some(secondary);
            self.scroll_relative(0, secondary);
        }
    }

    /// Selects the line `value` of the window. Returns true when the
    /// primary cursor already was on that line.
    pub fn select_absolute<T>(&mut self, tree: &TreeNodes<T>, value: isize, is_primary: bool) -> (r:
        bool)
        requires
            tree.node_count() <= isize::MAX,
            isize::MIN <= value + old(self)@.scroll <= isize::MAX,
        ensures
            ({
                let s = old(self)@;
                let offset = value + s.scroll;
                if is_primary {
                    if 0 <= offset < tree.rendered() {
                        &&& final(self)@ == (TreeDisplayView {
                            cursor: TreeCursorView { primary: offset, secondary: None },
                            ..s
                        })
                        &&& r == (offset == s.cursor.primary)
                    } else {
                        &&& final(self)@ == (TreeDisplayView {
                            cursor: TreeCursorView { secondary: None, ..s.cursor },
                            ..s
                        })
                        &&& !r
                    }
                } else {
                    &&& final(self)@ == (TreeDisplayView {
                        cursor: TreeCursorView { secondary: Some(offset), ..s.cursor },
                        ..s
                    })
                    &&& !r
                }
            }),
    {
        proof {
            use_type_invariant(&*self);
            tree.lemma_rendered_le_node_count();
        }
        let select_offset = value + self.scroll;
        if is_primary {
            self.cursor.secondary = None;
            if 0 <= select_offset && select_offset < tree.rendered_len() as isize {
                let already_selected = select_offset == self.cursor.primary;
                self.cursor.primary = select_offset;
                already_selected
            } else {
                false
            }
        } else {
            self.cursor.secondary = Some(select_offset);
            false
        }
    }

    /// Scrolls by `delta` lines, keeping `cursor` inside the window.
    pub fn scroll_relative(&mut self, delta: isize, cursor: isize)
        requires
            isize::MIN <= old(self)@.scroll + delta <= isize::MAX,
            cursor > old(self)@.height - 1 ==> cursor - old(self)@.height + 1 <= isize::MAX,
        ensures
            final(self)@ == (TreeDisplayView {
                scroll: scrolled(old(self)@.scroll, delta as int, old(self)@.height, cursor as int),
                ..old(self)@
            }),
    {
        proof {
            use_type_invariant(&*self);
        }
        self.scroll = clamp_signed(
            self.scroll as isize + delta,
            if cursor > self.height - 1 {
                cursor - self.height + 1
            } else {
                0
            },
            cursor,
        );
    }

    /// Sets the window height (at least 0); when it changed, scrolls to keep
    /// the primary cursor visible.
    pub fn set_height(&mut self, height: isize)
        requires
            old(self)@.height != height && height > 0 && old(self)@.cursor.primary > height - 1
                ==> old(self)@.cursor.primary - height + 1 <= isize::MAX,
            old(self)@.height != height && height <= 0 ==> old(self)@.cursor.primary < isize::MAX,
        ensures
            ({
                let s = old(self)@;
                let h = if height > 0 {
                    height as int
                } else {
                    0
                };
                if s.height != height {
                    final(self)@ == (TreeDisplayView {
                        height: h,
                        scroll: scrolled(s.scroll, 0, h, s.cursor.primary),
                        ..s
                    })
                } else {
                    final(self)@ == (TreeDisplayView { height: h, ..s })
                }
            }),
    {
        proof {
            use_type_invariant(&*self);
        }
        let changed = self.height != height;
        if height > 0 {
            self.height = height;
        } else {
            self.height = 0;
        }
        if changed {
            self.scroll_relative(0, self.cursor.get_primary());
        }
    }

    pub fn get_primary_selected(&self) -> (r: isize)
        ensures
            r == self@.cursor.primary,
    {
        self.cursor.get_primary()
    }

    pub fn get_selected(&self) -> (r: core::ops::Range<isize>)
        requires
            self@.cursor.selectable(),
        ensures
            r.start == self@.cursor.selected().0,
            r.end == self@.cursor.selected().1,
    {
        self.cursor.get_selected()
    }
}

/// Lines still to draw, lines still to skip for the scroll, the cursor
/// relative to the current line, and the indentation depth.
pub struct TreeRenderView {
    pub render: int,
    pub scroll: int,
    pub cursor: TreeCursorView,
    pub indent: int,
}

pub struct TreeRender {
    render: isize,
    scroll: isize,
    cursor: TreeCursor,
    indent: isize,
}

impl View for TreeRender {
    type V = TreeRenderView;

    closed spec fn view(&self) -> TreeRenderView {
        TreeRenderView {
            render: self.render as int,
            scroll: self.scroll as int,
            cursor: self.cursor@,
            indent: self.indent as int,
        }
    }
}

impl TreeRender {
    /// Draws `line` when the scroll has been used up and room is left, and
    /// moves on to the next line either way.
    pub fn render_line<L>(&mut self, text: &mut Vec<L>, line: L)
        requires
            old(self)@.scroll > isize::MIN,
            old(self)@.cursor.primary > isize::MIN,
            old(self)@.cursor.secondary matches Some(s) ==> s > isize::MIN,
        ensures
            ({
                let s = old(self)@;
                if s.scroll <= 0 && s.render > 0 {
                    &&& final(text)@ == old(text)@.push(line)
                    &&& final(self)@ == (TreeRenderView {
                        render: s.render - 1,
                        cursor: s.cursor.shifted(-1),
                        ..s
                    })
                } else {
                    &&& final(text)@ == old(text)@
                    &&& final(self)@ == (TreeRenderView {
                        scroll: s.scroll - 1,
                        cursor: s.cursor.shifted(-1),
                        ..s
                    })
                }
            }),
    {
        if self.scroll <= 0 && self.render > 0 {
            text.push(line);
            self.render -= 1;
        } else {
            self.scroll -= 1;
        }
        self.cursor.add(-1);
    }

    pub fn do_indent(&mut self)
        requires
            old(self)@.indent < isize::MAX,
        ensures
            final(self)@ == (TreeRenderView { indent: old(self)@.indent + 1, ..old(self)@ }),
    {
        self.indent += 1;
    }

    pub fn undo_indent(&mut self)
        requires
            old(self)@.indent > isize::MIN,
        ensures
            final(self)@ == (TreeRenderView { indent: old(self)@.indent - 1, ..old(self)@ }),
    {
        self.indent -= 1;
    }

    pub fn get_indent_offset(&self) -> (r: isize)
        ensures
            r == self@.indent,
    {
        self.indent
    }

    pub fn is_rendering(&self) -> (r: bool)
        ensures
            r == (self@.render > 0),
    {
        self.render > 0
    }

    pub fn is_primary_selected(&self) -> (r: bool)
        ensures
            r == (self@.cursor.primary == 0),
    {
        self.cursor.is_primary_selected()
    }

    pub fn is_selected(&self) -> (r: bool)
        requires
            self@.cursor.selectable(),
        ensures
            r == (self@.cursor.selected().0 <= 0 < self@.cursor.selected().1),
    {
        self.cursor.is_selected()
    }
}

} // verus!
