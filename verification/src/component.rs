pub mod browser;

use vstd::prelude::*;

use crate::tui_layout::pos::ComponentPos;

verus! {

/// A component could not be given the size asked for.
#[derive(Debug, Clone, PartialEq)]
pub struct ComponentResizeError {
    pub name: String,
    pub width: u16,
    pub height: u16,
    pub border_width: u16,
}

#[derive(Debug, Clone, Copy, PartialEq, Eq)]
pub enum ComponentFocus {
    Focus,
    PartialFocus,
    Unfocused,
}

pub enum ComponentFocusResult<T> {
    Focus(T),
    PartialFocus(T),
    Unfocused,
}

#[derive(Debug, Clone, Copy, PartialEq, Eq)]
pub enum ComponentListOrientation {
    Horizontal,
    Vertical,
}

#[derive(Debug, Clone, Copy, PartialEq, Eq)]
pub enum ComponentListResizable {
    False,
    True,
}

impl ComponentListOrientation {
    /// The offset from one component of a list to the next one: its width
    /// across a horizontal list, its height down a vertical one.
    pub fn get_offset(&self, width: u16, height: u16) -> (r: ComponentPos)
        ensures
            r == match self {
                ComponentListOrientation::Horizontal => ComponentPos { x: width, y: 0 },
                ComponentListOrientation::Vertical => ComponentPos { x: 0, y: height },
            },
    {
        match self {
            Self::Horizontal => ComponentPos { x: width, y: 0 },
            Self::Vertical => ComponentPos { x: 0, y: height },
        }
    }

    /// The size of a component along the list: its width across a
    /// horizontal list, its height down a vertical one.
    pub fn get_size(&self, width: u16, height: u16) -> (r: u16)
        ensures
            r == match self {
                ComponentListOrientation::Horizontal => width,
                ComponentListOrientation::Vertical => height,
            },
    {
        match self {
            Self::Horizontal => width,
            Self::Vertical => height,
        }
    }
}

} // verus!
