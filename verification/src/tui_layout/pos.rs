use vstd::prelude::*;

verus! {

/// A rectangle of terminal cells.
#[derive(Debug, Clone, Copy, PartialEq, Eq, Default)]
pub struct Rect {
    pub x: u16,
    pub y: u16,
    pub width: u16,
    pub height: u16,
}

impl Rect {
    pub fn new(x: u16, y: u16, width: u16, height: u16) -> (r: Rect)
        ensures
            r == (Rect { x, y, width, height }),
    {
        Rect { x, y, width, height }
    }

    /// The single cell at `pos`.
    pub fn from_pos(pos: ComponentPos) -> (r: Rect)
        ensures
            r == (Rect { x: pos.x, y: pos.y, width: 1, height: 1 }),
    {
        Rect { x: pos.x, y: pos.y, width: 1, height: 1 }
    }
}

/// A position of a cell, relative to a container.
#[derive(Debug, Clone, Copy, PartialEq, Eq)]
pub struct ComponentPos {
    pub x: u16,
    pub y: u16,
}

impl Default for ComponentPos {
    fn default() -> (r: Self)
        ensures
            r == (ComponentPos { x: 0, y: 0 }),
    {
        Self { x: 0, y: 0 }
    }
}

/// `v` read as a signed 16-bit number (values above `i16::MAX` wrap).
pub open spec fn as_signed(v: u16) -> int {
    if v <= i16::MAX {
        v as int
    } else {
        v - 0x10000
    }
}

impl ComponentPos {
    /// Both coordinates added.
    pub fn add_pos(self, rhs: Self) -> (r: Self)
        requires
            self.x + rhs.x <= u16::MAX,
            self.y + rhs.y <= u16::MAX,
        ensures
            r.x == self.x + rhs.x,
            r.y == self.y + rhs.y,
    {
        Self { x: self.x + rhs.x, y: self.y + rhs.y }
    }

    /// Both coordinates subtracted; `None` when either would be negative.
    pub fn sub_pos(self, rhs: Self) -> (r: Option<Self>)
        ensures
            match r {
                Some(p) => self.x >= rhs.x && self.y >= rhs.y && p.x == self.x - rhs.x && p.y
                    == self.y - rhs.y,
                None => !(self.x >= rhs.x && self.y >= rhs.y),
            },
    {
        if self.x >= rhs.x && self.y >= rhs.y {
            Some(Self { x: self.x - rhs.x, y: self.y - rhs.y })
        } else {
            None
        }
    }

    /// Moves by a signed offset (the coordinates are read as signed 16-bit
    /// numbers); `None` when either coordinate would be negative.
    pub fn add_offset(self, rhs: (i16, i16)) -> (r: Option<Self>)
        requires
            i16::MIN <= as_signed(self.x) + rhs.0 <= i16::MAX,
            i16::MIN <= as_signed(self.y) + rhs.1 <= i16::MAX,
        ensures
            ({
                let x = as_signed(self.x) + rhs.0;
                let y = as_signed(self.y) + rhs.1;
                match r {
                    Some(p) => x >= 0 && y >= 0 && p.x == x && p.y == y,
                    None => !(x >= 0 && y >= 0),
                }
            }),
    {
        let ux = self.x;
        let uy = self.y;
        let sx = ux as i16;
        let sy = uy as i16;
        assert(sx == as_signed(ux)) by (bit_vector)
            requires
                sx == ux as i16,
        ;
        assert(sy == as_signed(uy)) by (bit_vector)
            requires
                sy == uy as i16,
        ;
        let x = sx + rhs.0;
        let y = sy + rhs.1;
        if x >= 0 && y >= 0 {
            Some(Self { x: x as u16, y: y as u16 })
        } else {
            None
        }
    }

    /// The rectangle of the given size at this position.
    pub fn into_rect(self, width: u16, height: u16) -> (r: Rect)
        ensures
            r == (Rect { x: self.x, y: self.y, width, height }),
    {
        Rect { x: self.x, y: self.y, width, height }
    }

    /// The position lies inside `r`.
    pub fn intersects_rect(&self, r: Rect) -> (b: bool)
        requires
            self.x >= r.x ==> r.x + r.width <= u16::MAX,
            self.x >= r.x && self.x < r.x + r.width && self.y >= r.y ==> r.y + r.height
                <= u16::MAX,
        ensures
            b == (r.x <= self.x < r.x + r.width && r.y <= self.y < r.y + r.height),
    {
        self.x >= r.x && self.x < (r.x + r.width) && self.y >= r.y && self.y < (r.y + r.height)
    }
}

} // verus!
