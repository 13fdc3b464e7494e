use vstd::prelude::*;

use crate::python::signals::strings_view;
use crate::text::{chars_to_string, trim};

verus! {

/// A grid of characters that a script draws into, row by row.
#[derive(Clone, Debug, PartialEq, Eq)]
pub struct BufferPy {
    width: u16,
    height: u16,
    buffer: Vec<char>,
}

impl BufferPy {
    /// The grid holds exactly one cell per column and row.
    pub closed spec fn wf(self) -> bool {
        &&& self.buffer@.len() == self.width * self.height
        &&& self.width * self.height <= u16::MAX
    }

    pub closed spec fn width_spec(self) -> nat {
        self.width as nat
    }

    pub closed spec fn height_spec(self) -> nat {
        self.height as nat
    }

    /// The cells, row after row.
    pub closed spec fn cells(self) -> Seq<char> {
        self.buffer@
    }

    /// The character at column `x` of row `y`; a space outside the grid.
    pub open spec fn cell_spec(self, x: int, y: int) -> char {
        if 0 <= x < self.width_spec() && 0 <= y < self.height_spec() {
            self.cells()[y * self.width_spec() + x]
        } else {
            ' '
        }
    }

    /// A grid of spaces. The number of cells must fit in a `u16`.
    pub fn new(width: u16, height: u16) -> (r: Self)
        requires
            width * height <= u16::MAX,
        ensures
            r.wf(),
            r.width_spec() == width,
            r.height_spec() == height,
            r.cells() == Seq::new((width * height) as nat, |i: int| ' '),
    {
        let n = (width * height) as usize;
        let mut buffer: Vec<char> = Vec::new();
        while buffer.len() < n
            invariant
                buffer@.len() <= n,
                n == width * height,
                buffer@ == Seq::new(buffer@.len(), |i: int| ' '),
            decreases n - buffer@.len(),
        {
            buffer.push(' ');
            assert(buffer@ =~= Seq::new(buffer@.len(), |i: int| ' '));
        }
        Self { width, height, buffer }
    }

    proof fn lemma_index(self, x: int, y: int)
        requires
            0 <= x < self.width_spec(),
            0 <= y < self.height_spec(),
            self.wf(),
        ensures
            0 <= y * self.width_spec() <= y * self.width_spec() + x < self.cells().len(),
            self.cells().len() <= u16::MAX,
    {
        assert(self.cells().len() == self.width_spec() * self.height_spec());
        let w = self.width_spec() as int;
        let h = self.height_spec() as int;
        assert(y * w + x < h * w) by (nonlinear_arith)
            requires
                0 <= x < w,
                0 <= y < h,
        ;
        assert(0 <= y * w) by (nonlinear_arith)
            requires
                0 <= y,
                0 <= w,
        ;
        assert(h * w == w * h) by (nonlinear_arith);
    }

    /// The character at column `x` of row `y`; a space outside the grid.
    pub fn get_cell(&self, x: u16, y: u16) -> (r: char)
        requires
            self.wf(),
        ensures
            r == self.cell_spec(x as int, y as int),
    {
        if x < self.width && y < self.height {
            proof {
                self.lemma_index(x as int, y as int);
            }
            self.buffer[(y * self.width + x) as usize]
        } else {
            ' '
        }
    }

    /// Puts `c` at column `x` of row `y`; outside the grid nothing changes.
    pub fn set_cell(&mut self, x: u16, y: u16, c: char)
        requires
            old(self).wf(),
        ensures
            final(self).wf(),
            final(self).width_spec() == old(self).width_spec(),
            final(self).height_spec() == old(self).height_spec(),
            final(self).cells() == if x < old(self).width_spec() && y < old(self).height_spec() {
                old(self).cells().update(y * old(self).width_spec() + x, c)
            } else {
                old(self).cells()
            },
    {
        if x < self.width && y < self.height {
            proof {
                self.lemma_index(x as int, y as int);
            }
            let i = (y * self.width + x) as usize;
            self.buffer.set(i, c);
        }
    }

    pub fn get_width(&self) -> (r: u16)
        ensures
            r == self.width_spec(),
    {
        self.width
    }

    pub fn get_height(&self) -> (r: u16)
        ensures
            r == self.height_spec(),
    {
        self.height
    }

    /// Row `y` of the grid.
    pub open spec fn row(self, y: int) -> Seq<char> {
        Seq::new(self.width_spec(), |x: int| self.cell_spec(x, y))
    }

    /// The rows of the grid, each without leading or trailing whitespace,
    /// as the viewer shows them.
    pub fn trimmed_rows(&self) -> (r: Vec<String>)
        requires
            self.wf(),
        ensures
            strings_view(r@) == Seq::new(self.height_spec(), |y: int| trim(self.row(y))),
    {
        let mut rows: Vec<String> = Vec::new();
        let mut y: u16 = 0;
        while y < self.get_height()
            invariant
                y <= self.height_spec(),
                self.wf(),
                strings_view(rows@) == Seq::new(y as nat, |k: int| trim(self.row(k))),
            decreases self.height_spec() - y,
        {
            let mut line: Vec<char> = Vec::new();
            let mut x: u16 = 0;
            while x < self.get_width()
                invariant
                    x <= self.width_spec(),
                    y < self.height_spec(),
                    self.wf(),
                    line@ == self.row(y as int).take(x as int),
                decreases self.width_spec() - x,
            {
                line.push(self.get_cell(x, y));
                x += 1;
                assert(line@ =~= self.row(y as int).take(x as int));
            }
            assert(line@ =~= self.row(y as int));
            let trimmed = trim_chars(&line);
            let ghost before = rows@;
            let ghost t = trimmed@;
            rows.push(trimmed);
            assert(strings_view(rows@) =~= strings_view(before).push(t));
            y += 1;
            assert(strings_view(rows@) =~= Seq::new(y as nat, |k: int| trim(self.row(k))));
        }
        rows
    }
}

/// `line` without leading or trailing whitespace.
pub fn trim_chars(line: &Vec<char>) -> (r: String)
    ensures
        r@ == trim(line@),
{
    let (i, j) = crate::text::trim_bounds(line);
    chars_to_string(line, i, j)
}

/// A cell written with `set_cell` reads back what was written, and every
/// other cell keeps what it held.
pub proof fn lemma_set_then_get(old: BufferPy, new: BufferPy, x: u16, y: u16, c: char, x2: int, y2: int)
    requires
        old.wf(),
        new.wf(),
        new.width_spec() == old.width_spec(),
        new.height_spec() == old.height_spec(),
        new.cells() == if x < old.width_spec() && y < old.height_spec() {
            old.cells().update(y * old.width_spec() + x, c)
        } else {
            old.cells()
        },
    ensures
        x < old.width_spec() && y < old.height_spec() ==> new.cell_spec(x as int, y as int) == c,
        (x2 != x || y2 != y) ==> new.cell_spec(x2, y2) == old.cell_spec(x2, y2),
{
    let w = old.width_spec() as int;
    if x < old.width_spec() && y < old.height_spec() {
        old.lemma_index(x as int, y as int);
        if 0 <= x2 < w && 0 <= y2 < old.height_spec() && (x2 != x || y2 != y) {
            old.lemma_index(x2, y2);
            assert(y2 * w + x2 != y * w + x) by (nonlinear_arith)
                requires
                    0 <= x2 < w,
                    0 <= x < w,
                    x2 != x || y2 != y,
            ;
        }
    }
}

} // verus!
