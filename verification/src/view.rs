use vstd::prelude::*;

use crate::tui_layout::pos::Rect;

verus! {

#[derive(Debug, Clone, Copy, PartialEq, Eq, Structural)]
pub enum MouseScrollDirection {
    Up,
    Down,
}

/// Where an overlay `overlay_height` lines high goes in a frame: centred
/// vertically (the whole height when the frame is not higher), one column
/// in from each side (the whole width when the frame is at most four wide).
pub fn get_overlay_rect(frame_rect: Rect, overlay_height: u16) -> (r: Rect)
    ensures
        r == (Rect {
            x: if frame_rect.width <= 4 {
                0
            } else {
                1
            },
            y: if frame_rect.height <= overlay_height {
                0
            } else {
                ((frame_rect.height - overlay_height) / 2) as u16
            },
            width: if frame_rect.width <= 4 {
                frame_rect.width
            } else {
                (frame_rect.width - 2) as u16
            },
            height: if frame_rect.height <= overlay_height {
                frame_rect.height
            } else {
                overlay_height
            },
        }),
{
    let (y, height) = if frame_rect.height <= overlay_height {
        (0, frame_rect.height)
    } else {
        ((frame_rect.height - overlay_height) / 2, overlay_height)
    };
    let (x, width) = if frame_rect.width <= 4 {
        (0, frame_rect.width)
    } else {
        (1, frame_rect.width - 2)
    };
    Rect::new(x, y, width, height)
}

} // verus!
