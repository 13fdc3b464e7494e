use vstd::prelude::*;

use crate::tui_layout::pos::{as_signed, ComponentPos, Rect};

verus! {

/// The direction a list of children is laid out in.
#[derive(Debug, Clone, Copy, PartialEq, Eq, Structural)]
pub enum Direction {
    Horizontal,
    Vertical,
}

/// A side of a component.
#[derive(Debug, Clone, Copy, PartialEq, Eq, Structural)]
pub enum Border {
    Top,
    Bottom,
    Left,
    Right,
}

/// The size of a component along `orientation`.
pub fn orientation_scalar(orientation: Direction, width: u16, height: u16) -> (r: u16)
    ensures
        r == match orientation {
            Direction::Horizontal => width,
            Direction::Vertical => height,
        },
{
    match orientation {
        Direction::Horizontal => width,
        Direction::Vertical => height,
    }
}

pub open spec fn next_pos_spec(
    pos: ComponentPos,
    border: Border,
    component_width: u16,
    component_height: u16,
    container_width: u16,
    container_height: u16,
) -> Option<ComponentPos> {
    match border {
        Border::Top => if pos.y > 0 {
            Some(ComponentPos { x: pos.x, y: (pos.y - 1) as u16 })
        } else {
            None
        },
        Border::Bottom => if pos.y + component_height < container_height {
            Some(ComponentPos { x: pos.x, y: (pos.y + component_height) as u16 })
        } else {
            None
        },
        Border::Left => if pos.x > 0 {
            Some(ComponentPos { x: (pos.x - 1) as u16, y: pos.y })
        } else {
            None
        },
        Border::Right => if pos.x + component_width < container_width {
            Some(ComponentPos { x: (pos.x + component_width) as u16, y: pos.y })
        } else {
            None
        },
    }
}

/// The position just past `border` of the component at `pos`, where focus
/// moves when it leaves the component that way; `None` at the edge of the
/// container.
pub fn find_next_pos(
    pos: ComponentPos,
    border: Border,
    component_width: u16,
    component_height: u16,
    container_width: u16,
    container_height: u16,
) -> (r: Option<ComponentPos>)
    requires
        border == Border::Bottom ==> pos.y + component_height <= u16::MAX,
        border == Border::Right ==> pos.x + component_width <= u16::MAX,
    ensures
        r == next_pos_spec(
            pos,
            border,
            component_width,
            component_height,
            container_width,
            container_height,
        ),
{
    match border {
        Border::Top if pos.y > 0 => Some(ComponentPos { x: pos.x, y: pos.y - 1 }),
        Border::Bottom if pos.y + component_height < container_height => Some(
            ComponentPos { x: pos.x, y: pos.y + component_height },
        ),
        Border::Left if pos.x > 0 => Some(ComponentPos { x: pos.x - 1, y: pos.y }),
        Border::Right if pos.x + component_width < container_width => Some(
            ComponentPos { x: pos.x + component_width, y: pos.y },
        ),
        _ => None,
    }
}

/// A resize in progress: the mouse offset where it started and the child
/// whose left/top or right/bottom border is dragged.
#[derive(Debug, Clone, Copy, PartialEq, Eq, Structural)]
pub enum Resize {
    LeftTop { mouse_offset: u16, child_index: usize },
    RightBottom { mouse_offset: u16, child_index: usize },
    Idle,
}

impl Resize {
    /// The resize that a press on `border` of child `child_index` (of
    /// `child_len`) starts: the left or top border of any child but the
    /// first, the right or bottom border of any but the last.
    pub fn new(mouse_offset: u16, border: Border, child_index: usize, child_len: usize) -> (r: Self)
        requires
            child_len >= 1,
        ensures
            r == match border {
                Border::Left | Border::Top => if child_index != 0 {
                    Resize::LeftTop { mouse_offset, child_index }
                } else {
                    Resize::Idle
                },
                Border::Right | Border::Bottom => if child_index != child_len - 1 {
                    Resize::RightBottom { mouse_offset, child_index }
                } else {
                    Resize::Idle
                },
            },
    {
        let first = child_index == 0;
        let last = child_index == child_len - 1;
        match border {
            Border::Left | Border::Top => if !first {
                Self::LeftTop { mouse_offset, child_index }
            } else {
                Self::Idle
            },
            Border::Right | Border::Bottom => if !last {
                Self::RightBottom { mouse_offset, child_index }
            } else {
                Self::Idle
            },
        }
    }
}

/// What a mouse event does to a resize in progress.
#[derive(Debug, Clone, Copy, PartialEq, Eq)]
pub enum ResizeStep {
    /// The resize ends.
    Stop,
    /// Nothing changes.
    Keep,
    /// Resize child `shrink.0` to the given width and height first (it gets
    /// smaller), then child `grow.0`.
    Apply { shrink: (usize, u16, u16), grow: (usize, u16, u16) },
}

/// The two children a resize changes, and how far the mouse moved.
pub open spec fn resize_pair(resize: Resize, mouse_offset_next: u16) -> Option<(int, int, int)> {
    match resize {
        Resize::LeftTop { mouse_offset, child_index } => Some(
            (child_index - 1, child_index as int, as_signed(mouse_offset_next) - as_signed(mouse_offset)),
        ),
        Resize::RightBottom { mouse_offset, child_index } => Some(
            (child_index as int, child_index + 1, as_signed(mouse_offset_next) - as_signed(mouse_offset)),
        ),
        Resize::Idle => None,
    }
}

/// The sizes after the mouse moved by `delta` along `orientation`: the
/// first child grows by it and the second shrinks; `None` when either would
/// have no size left.
pub open spec fn resized(
    orientation: Direction,
    delta: int,
    size0: (u16, u16),
    size1: (u16, u16),
) -> Option<((u16, u16), (u16, u16))> {
    match orientation {
        Direction::Horizontal => {
            let w0 = as_signed(size0.0) + delta;
            let w1 = as_signed(size1.0) - delta;
            if w0 <= 0 || w1 <= 0 {
                None
            } else {
                Some(((w0 as u16, size0.1), (w1 as u16, size1.1)))
            }
        },
        Direction::Vertical => {
            let h0 = as_signed(size0.1) + delta;
            let h1 = as_signed(size1.1) - delta;
            if h0 <= 0 || h1 <= 0 {
                None
            } else {
                Some(((size0.0, h0 as u16), (size1.0, h1 as u16)))
            }
        },
    }
}

/// The step a mouse event makes: a resize stops unless the list is
/// resizable and the left button drags; the child that gets smaller is
/// resized first; nothing happens when the mouse did not move or a child
/// would vanish.
pub open spec fn resize_step_spec(
    resizable: bool,
    left_drag: bool,
    resize: Resize,
    mouse_offset_next: u16,
    orientation: Direction,
    sizes: Seq<(u16, u16)>,
) -> ResizeStep {
    if !resizable || !left_drag {
        ResizeStep::Stop
    } else {
        match resize_pair(resize, mouse_offset_next) {
            None => ResizeStep::Keep,
            Some((i0, i1, delta)) => match resized(orientation, delta, sizes[i0], sizes[i1]) {
                None => ResizeStep::Keep,
                Some((s0, s1)) => if delta < 0 {
                    ResizeStep::Apply {
                        shrink: (i0 as usize, s0.0, s0.1),
                        grow: (i1 as usize, s1.0, s1.1),
                    }
                } else if delta > 0 {
                    ResizeStep::Apply {
                        shrink: (i1 as usize, s1.0, s1.1),
                        grow: (i0 as usize, s0.0, s0.1),
                    }
                } else {
                    ResizeStep::Keep
                },
            },
        }
    }
}

/// Signed 16-bit arithmetic of a resize stays in range.
pub open spec fn resize_fits(
    resize: Resize,
    mouse_offset_next: u16,
    orientation: Direction,
    sizes: Seq<(u16, u16)>,
) -> bool {
    match resize_pair(resize, mouse_offset_next) {
        None => true,
        Some((i0, i1, delta)) => {
            &&& 0 <= i0 < sizes.len()
            &&& 0 <= i1 < sizes.len()
            &&& i16::MIN <= delta <= i16::MAX
            &&& match orientation {
                Direction::Horizontal => {
                    &&& i16::MIN <= as_signed(sizes[i0].0) + delta <= i16::MAX
                    &&& i16::MIN <= as_signed(sizes[i1].0) - delta <= i16::MAX
                },
                Direction::Vertical => {
                    &&& i16::MIN <= as_signed(sizes[i0].1) + delta <= i16::MAX
                    &&& i16::MIN <= as_signed(sizes[i1].1) - delta <= i16::MAX
                },
            }
        },
    }
}

fn signed(v: u16) -> (r: i16)
    ensures
        r == as_signed(v),
{
    let r = v as i16;
    assert(r == as_signed(v)) by (bit_vector)
        requires
            r == v as i16,
    ;
    r
}

fn unsigned(v: i16) -> (r: u16)
    requires
        v > 0,
    ensures
        r == v,
{
    v as u16
}

/// Decides what a mouse event does to the resize in progress (see
/// `resize_step_spec`), given the sizes of the children.
pub fn resize_step(
    resizable: bool,
    left_drag: bool,
    resize: Resize,
    mouse_offset_next: u16,
    orientation: Direction,
    sizes: &Vec<(u16, u16)>,
) -> (r: ResizeStep)
    requires
        resize_fits(resize, mouse_offset_next, orientation, sizes@),
    ensures
        r == resize_step_spec(resizable, left_drag, resize, mouse_offset_next, orientation, sizes@),
{
    if !resizable || !left_drag {
        return ResizeStep::Stop;
    }
    assert(sizes@.len() == sizes.len());
    let (index0, index1, delta) = match resize {
        Resize::LeftTop { mouse_offset, child_index } => (
            child_index - 1,
            child_index,
            signed(mouse_offset_next) - signed(mouse_offset),
        ),
        Resize::RightBottom { mouse_offset, child_index } => (
            child_index,
            child_index + 1,
            signed(mouse_offset_next) - signed(mouse_offset),
        ),
        Resize::Idle => {
            return ResizeStep::Keep;
        },
    };
    let (width0, height0) = sizes[index0];
    let (width1, height1) = sizes[index1];
    let (width0, height0, width1, height1) = match orientation {
        Direction::Horizontal => {
            let w0 = signed(width0) + delta;
            let w1 = signed(width1) - delta;
            if w0 <= 0 || w1 <= 0 {
                return ResizeStep::Keep;
            }
            (unsigned(w0), height0, unsigned(w1), height1)
        },
        Direction::Vertical => {
            let h0 = signed(height0) + delta;
            let h1 = signed(height1) - delta;
            if h0 <= 0 || h1 <= 0 {
                return ResizeStep::Keep;
            }
            (width0, unsigned(h0), width1, unsigned(h1))
        },
    };
    if delta < 0 {
        ResizeStep::Apply { shrink: (index0, width0, height0), grow: (index1, width1, height1) }
    } else if delta > 0 {
        ResizeStep::Apply { shrink: (index1, width1, height1), grow: (index0, width0, height0) }
    } else {
        ResizeStep::Keep
    }
}

/// The sum of the sizes of `sizes` along `orientation`.
pub open spec fn extent(orientation: Direction, sizes: Seq<(u16, u16)>) -> nat
    decreases sizes.len(),
{
    if sizes.len() == 0 {
        0
    } else {
        extent(orientation, sizes.drop_last()) + (match orientation {
            Direction::Horizontal => sizes.last().0,
            Direction::Vertical => sizes.last().1,
        }) as nat
    }
}

/// The rectangle of each child: the children are placed one after the
/// other along `orientation`, starting at the corner.
pub fn get_children_rectangles(orientation: Direction, sizes: &Vec<(u16, u16)>) -> (r: Vec<Rect>)
    requires
        extent(orientation, sizes@) <= u16::MAX,
    ensures
        r@.len() == sizes@.len(),
        forall|i: int|
            0 <= i < sizes@.len() ==> #[trigger] r@[i] == (match orientation {
                Direction::Horizontal => Rect {
                    x: extent(orientation, sizes@.take(i)) as u16,
                    y: 0,
                    width: sizes@[i].0,
                    height: sizes@[i].1,
                },
                Direction::Vertical => Rect {
                    x: 0,
                    y: extent(orientation, sizes@.take(i)) as u16,
                    width: sizes@[i].0,
                    height: sizes@[i].1,
                },
            }),
{
    let mut rects: Vec<Rect> = Vec::new();
    let mut offset: u16 = 0;
    let mut i: usize = 0;
    while i < sizes.len()
        invariant
            i <= sizes@.len(),
            rects@.len() == i,
            offset == extent(orientation, sizes@.take(i as int)),
            extent(orientation, sizes@) <= u16::MAX,
            forall|k: int|
                0 <= k < i ==> #[trigger] rects@[k] == (match orientation {
                    Direction::Horizontal => Rect {
                        x: extent(orientation, sizes@.take(k)) as u16,
                        y: 0,
                        width: sizes@[k].0,
                        height: sizes@[k].1,
                    },
                    Direction::Vertical => Rect {
                        x: 0,
                        y: extent(orientation, sizes@.take(k)) as u16,
                        width: sizes@[k].0,
                        height: sizes@[k].1,
                    },
                }),
        decreases sizes.len() - i,
    {
        let (width, height) = sizes[i];
        proof {
            assert(sizes@.take(i + 1).drop_last() =~= sizes@.take(i as int));
            lemma_extent_prefix(orientation, sizes@, i + 1);
        }
        match orientation {
            Direction::Horizontal => {
                rects.push(Rect { x: offset, y: 0, width, height });
                offset = offset + width;
            },
            Direction::Vertical => {
                rects.push(Rect { x: 0, y: offset, width, height });
                offset = offset + height;
            },
        }
        i += 1;
    }
    rects
}

/// A prefix of the children takes no more room than all of them.
proof fn lemma_extent_prefix(orientation: Direction, sizes: Seq<(u16, u16)>, n: int)
    requires
        0 <= n <= sizes.len(),
    ensures
        extent(orientation, sizes.take(n)) <= extent(orientation, sizes),
    decreases sizes.len() - n,
{
    if n < sizes.len() {
        lemma_extent_prefix(orientation, sizes, n + 1);
        assert(sizes.take(n + 1).drop_last() =~= sizes.take(n));
    } else {
        assert(sizes.take(n) =~= sizes);
    }
}

/// The border of a child that counts as a border of the whole list: along
/// the list only the outer borders of the first and last child, across it
/// any.
pub open spec fn list_border_spec(orientation: Direction, border: Border, first: bool, last: bool) -> Option<
    Border,
> {
    match (orientation, border) {
        (Direction::Horizontal, Border::Top) => Some(Border::Top),
        (Direction::Horizontal, Border::Bottom) => Some(Border::Bottom),
        (Direction::Horizontal, Border::Left) => if first {
            Some(Border::Left)
        } else {
            None
        },
        (Direction::Horizontal, Border::Right) => if last {
            Some(Border::Right)
        } else {
            None
        },
        (Direction::Vertical, Border::Top) => if first {
            Some(Border::Top)
        } else {
            None
        },
        (Direction::Vertical, Border::Bottom) => if last {
            Some(Border::Bottom)
        } else {
            None
        },
        (Direction::Vertical, Border::Left) => Some(Border::Left),
        (Direction::Vertical, Border::Right) => Some(Border::Right),
    }
}

pub fn list_border(orientation: Direction, border: Border, first: bool, last: bool) -> (r: Option<Border>)
    ensures
        r == list_border_spec(orientation, border, first, last),
{
    match (orientation, border) {
        (Direction::Horizontal, Border::Top) => Some(Border::Top),
        (Direction::Horizontal, Border::Bottom) => Some(Border::Bottom),
        (Direction::Horizontal, Border::Left) if first => Some(Border::Left),
        (Direction::Horizontal, Border::Right) if last => Some(Border::Right),
        (Direction::Vertical, Border::Top) if first => Some(Border::Top),
        (Direction::Vertical, Border::Bottom) if last => Some(Border::Bottom),
        (Direction::Vertical, Border::Left) => Some(Border::Left),
        (Direction::Vertical, Border::Right) => Some(Border::Right),
        _ => None,
    }
}

} // verus!
