//! A text terminal on a frame buffer: a cursor that wraps at the right edge
//! and at the bottom, and is shown as `_`.
use crate::x86_kernel::framebuffer::{Cells, FrameBuffer, Pixel};
use vstd::prelude::*;

verus! {

pub struct Terminal<F: FrameBuffer> {
    pub fb: F,
    pub cursor_pos: (usize, usize),
    pub color: Pixel,
}

/// `cells` with the first `cols` cells of row `y` blank.
pub open spec fn row_blanked(cells: Cells, y: usize, cols: nat, color: Pixel) -> Cells {
    Map::new(
        |k: (usize, usize)| cells.dom().contains(k) || (k.1 == y && k.0 < cols),
        |k: (usize, usize)|
            if k.1 == y && k.0 < cols {
                (' ', color)
            } else {
                cells[k]
            },
    )
}

/// Black pixels on the first `rows` rows of width `w`, and on the first
/// `cols` pixels of the row after them.
pub open spec fn blacked_out(w: nat, rows: nat, cols: nat) -> Map<(usize, usize), Pixel> {
    Map::new(
        |k: (usize, usize)| (k.0 < w && k.1 < rows) || (k.0 < cols && k.1 == rows),
        |k: (usize, usize)| Pixel { r: 0, g: 0, b: 0 },
    )
}

/// The row below `y`, or the top row below the last one.
pub open spec fn row_below(y: usize, rows: nat) -> usize {
    if y >= rows - 1 {
        0
    } else {
        (y + 1) as usize
    }
}

impl<F: FrameBuffer> Terminal<F> {
    /// The cursor: column and row.
    pub open spec fn cursor(&self) -> (usize, usize) {
        self.cursor_pos
    }

    /// The character under the cursor, shown again when it moves away: the
    /// cursor always stands on a blank.
    pub open spec fn under_cursor(&self) -> char {
        ' '
    }

    pub open spec fn text_color(&self) -> Pixel {
        self.color
    }

    /// The frame buffer has a row and a column of characters.
    pub open spec fn wf(&self) -> bool {
        self.fb.rows() >= 1 && self.fb.cols() >= 1
    }

    /// The cursor and the rest of the terminal's state are those of `old`,
    /// bar the frame buffer.
    pub open spec fn same_state(&self, other: &Self) -> bool {
        &&& self.under_cursor() == other.under_cursor()
        &&& self.text_color() == other.text_color()
        &&& self.fb.rows() == other.fb.rows()
        &&& self.fb.cols() == other.fb.cols()
        &&& self.fb.width() == other.fb.width()
        &&& self.fb.height() == other.fb.height()
    }

    pub fn new(fb: F, color: Pixel) -> (r: Self)
        ensures
            r.fb == fb,
            r.cursor() == (0usize, 0usize),
            r.under_cursor() == ' ',
            r.text_color() == color,
    {
        Terminal { fb, cursor_pos: (0, 0), color }
    }

    /// Blacks out every pixel and puts the cursor at the top left.
    pub fn clear(&mut self)
        ensures
            final(self).same_state(old(self)),
            final(self).cursor() == (0usize, 0usize),
            final(self).fb.cells() == old(self).fb.cells(),
            final(self).fb.pixels() == old(self).fb.pixels().union_prefer_right(
                blacked_out(old(self).fb.width(), old(self).fb.height(), 0),
            ),
    {
        let h = self.fb.get_height();
        let w = self.fb.get_width();
        let black = Pixel { r: 0, g: 0, b: 0 };
        let ghost p0 = self.fb.pixels();
        let mut i: usize = 0;
        while i < h
            invariant
                i <= h,
                h == self.fb.height(),
                w == self.fb.width(),
                self.same_state(old(self)),
                self.cursor() == old(self).cursor(),
                self.fb.cells() == old(self).fb.cells(),
                p0 == old(self).fb.pixels(),
                black == (Pixel { r: 0, g: 0, b: 0 }),
                self.fb.pixels() == p0.union_prefer_right(blacked_out(w as nat, i as nat, 0)),
            decreases h - i,
        {
            let mut j: usize = 0;
            while j < w
                invariant
                    i < h,
                    j <= w,
                    h == self.fb.height(),
                    w == self.fb.width(),
                    self.same_state(old(self)),
                    self.cursor() == old(self).cursor(),
                    self.fb.cells() == old(self).fb.cells(),
                    p0 == old(self).fb.pixels(),
                    black == (Pixel { r: 0, g: 0, b: 0 }),
                    self.fb.pixels() == p0.union_prefer_right(blacked_out(w as nat, i as nat, j as nat)),
                decreases w - j,
            {
                let ghost before = self.fb.pixels();
                self.fb.set_pixel(j, i, black);
                proof {
                    let target = p0.union_prefer_right(blacked_out(w as nat, i as nat, (j + 1) as nat));
                    let prev = blacked_out(w as nat, i as nat, j as nat);
                    let next = blacked_out(w as nat, i as nat, (j + 1) as nat);
                    assert(self.fb.pixels() == before.insert((j, i), black));
                    assert forall|k: (usize, usize)| #[trigger] self.fb.pixels().dom().contains(k) == target.dom().contains(k) by {
                        assert(next.dom().contains(k) == (prev.dom().contains(k) || k == (j, i)));
                    }
                    assert forall|k: (usize, usize)| self.fb.pixels().dom().contains(k) implies #[trigger] self.fb.pixels()[k] == target[k] by {
                        assert(next.dom().contains(k) == (prev.dom().contains(k) || k == (j, i)));
                        if next.dom().contains(k) {
                            assert(next[k] == black);
                        }
                    }
                    assert(self.fb.pixels() =~= target);
                }
                j = j + 1;
            }
            assert(p0.union_prefer_right(blacked_out(w as nat, i as nat, w as nat)) =~= p0.union_prefer_right(blacked_out(w as nat, (i + 1) as nat, 0)));
            i = i + 1;
        }
        self.cursor_pos = (0, 0);
    }

    pub fn cursor_up(&mut self)
        ensures
            final(self).same_state(old(self)),
            final(self).fb == old(self).fb,
            final(self).cursor() == (old(self).cursor().0, if old(self).cursor().1 == 0 {
                0
            } else {
                (old(self).cursor().1 - 1) as usize
            }),
    {
        if self.cursor_pos.1 == 0 {
            return ;
        }
        self.cursor_pos.1 = self.cursor_pos.1 - 1;
    }

    /// Moves the cursor down a row; from the last row to the first.
    pub fn cursor_down(&mut self)
        requires
            old(self).fb.rows() >= 1,
        ensures
            final(self).same_state(old(self)),
            final(self).fb == old(self).fb,
            final(self).cursor() == (old(self).cursor().0, row_below(
                old(self).cursor().1,
                old(self).fb.rows(),
            )),
    {
        if self.cursor_pos.1 >= self.fb.get_rows() - 1 {
            self.cursor_pos.1 = 0;
        } else {
            self.cursor_pos.1 = self.cursor_pos.1 + 1;
        }
    }

    /// Blanks the first `cols` cells of row `y`.
    fn blank_row(&mut self, y: usize)
        ensures
            final(self).same_state(old(self)),
            final(self).cursor() == old(self).cursor(),
            final(self).fb.cells() == row_blanked(old(self).fb.cells(), y, old(self).fb.cols(), old(self).text_color()),
    {
        let cols = self.fb.get_cols();
        let ghost c0 = self.fb.cells();
        let mut x: usize = 0;
        while x < cols
            invariant
                x <= cols,
                cols == self.fb.cols(),
                self.same_state(old(self)),
                self.cursor() == old(self).cursor(),
                c0 == old(self).fb.cells(),
                self.fb.cells() == row_blanked(c0, y, x as nat, self.text_color()),
            decreases cols - x,
        {
            let color = self.color;
            self.fb.write_char(x, y, ' ', color);
            assert(self.fb.cells() =~= row_blanked(c0, y, (x + 1) as nat, self.text_color()));
            x = x + 1;
        }
    }

    /// Moves the cursor right; past the last column to the start of the
    /// row below, which is blanked.
    pub fn cursor_right(&mut self)
        requires
            old(self).wf(),
        ensures
            final(self).same_state(old(self)),
            old(self).cursor().0 >= old(self).fb.cols() - 1 ==> {
                let y = row_below(old(self).cursor().1, old(self).fb.rows());
                &&& final(self).cursor() == (0usize, y)
                &&& final(self).fb.cells() == row_blanked(old(self).fb.cells(), y, old(self).fb.cols(), old(self).text_color())
            },
            old(self).cursor().0 < old(self).fb.cols() - 1 ==> final(self).fb == old(self).fb
                && final(self).cursor() == ((old(self).cursor().0 + 1) as usize, old(self).cursor().1),
    {
        if self.cursor_pos.0 >= self.fb.get_cols() - 1 {
            self.cursor_pos.0 = 0;
            self.cursor_down();
            let y = self.cursor_pos.1;
            self.blank_row(y);
            return ;
        }
        self.cursor_pos.0 = self.cursor_pos.0 + 1;
    }

    pub fn cursor_left(&mut self)
        ensures
            final(self).same_state(old(self)),
            final(self).fb == old(self).fb,
            final(self).cursor() == (if old(self).cursor().0 == 0 {
                0
            } else {
                (old(self).cursor().0 - 1) as usize
            }, old(self).cursor().1),
    {
        if self.cursor_pos.0 == 0 {
            return ;
        }
        self.cursor_pos.0 = self.cursor_pos.0 - 1;
    }

    fn update_visual_cursor(&mut self)
        ensures
            final(self).same_state(old(self)),
            final(self).cursor() == old(self).cursor(),
            final(self).fb.cells() == old(self).fb.cells().insert(old(self).cursor(), ('_', old(self).text_color())),
    {
        let (x, y) = self.cursor_pos;
        let color = self.color;
        self.fb.write_char(x, y, '_', color);
    }

    fn erase_visual_cursor(&mut self)
        ensures
            final(self).same_state(old(self)),
            final(self).cursor() == old(self).cursor(),
            final(self).fb.cells() == old(self).fb.cells().insert(old(self).cursor(), (old(self).under_cursor(), old(self).text_color())),
    {
        let (x, y) = self.cursor_pos;
        let color = self.color;
        let c = ' ';
        self.fb.write_char(x, y, c, color);
    }

    /// Moves the shown cursor up a row: the cell it leaves shows its
    /// character again, the cell it reaches shows `_`.
    pub fn visual_cursor_up(&mut self)
        ensures
            final(self).same_state(old(self)),
            final(self).cursor() == (old(self).cursor().0, if old(self).cursor().1 == 0 {
                0
            } else {
                (old(self).cursor().1 - 1) as usize
            }),
            final(self).fb.cells() == old(self).fb.cells().insert(old(self).cursor(), (old(self).under_cursor(), old(self).text_color())).insert(final(self).cursor(), ('_', old(self).text_color())),
    {
        self.erase_visual_cursor();
        self.cursor_up();
        self.update_visual_cursor();
    }

    pub fn visual_cursor_left(&mut self)
        ensures
            final(self).same_state(old(self)),
            final(self).cursor() == (if old(self).cursor().0 == 0 {
                0
            } else {
                (old(self).cursor().0 - 1) as usize
            }, old(self).cursor().1),
            final(self).fb.cells() == old(self).fb.cells().insert(old(self).cursor(), (old(self).under_cursor(), old(self).text_color())).insert(final(self).cursor(), ('_', old(self).text_color())),
    {
        self.erase_visual_cursor();
        self.cursor_left();
        self.update_visual_cursor();
    }

    pub fn visual_cursor_down(&mut self)
        requires
            old(self).fb.rows() >= 1,
        ensures
            final(self).same_state(old(self)),
            final(self).cursor() == (old(self).cursor().0, row_below(
                old(self).cursor().1,
                old(self).fb.rows(),
            )),
            final(self).fb.cells() == old(self).fb.cells().insert(old(self).cursor(), (old(self).under_cursor(), old(self).text_color())).insert(final(self).cursor(), ('_', old(self).text_color())),
    {
        self.erase_visual_cursor();
        self.cursor_down();
        self.update_visual_cursor();
    }

    /// Moves the shown cursor right, wrapping to a blanked row below.
    pub fn visual_cursor_right(&mut self)
        requires
            old(self).wf(),
        ensures
            final(self).same_state(old(self)),
            ({
                let erased = old(self).fb.cells().insert(old(self).cursor(), (old(self).under_cursor(), old(self).text_color()));
                if old(self).cursor().0 >= old(self).fb.cols() - 1 {
                    let y = row_below(old(self).cursor().1, old(self).fb.rows());
                    &&& final(self).cursor() == (0usize, y)
                    &&& final(self).fb.cells() == row_blanked(erased, y, old(self).fb.cols(), old(self).text_color()).insert(final(self).cursor(), ('_', old(self).text_color()))
                } else {
                    &&& final(self).cursor() == ((old(self).cursor().0 + 1) as usize, old(self).cursor().1)
                    &&& final(self).fb.cells() == erased.insert(final(self).cursor(), ('_', old(self).text_color()))
                }
            }),
    {
        self.erase_visual_cursor();
        self.cursor_right();
        self.update_visual_cursor();
    }

    /// Writes a character at the cursor and moves it on: a newline moves to
    /// the start of a blanked row below; a carriage return moves back a
    /// column and shows that column's character.
    pub fn write_char(&mut self, c: char)
        requires
            old(self).wf(),
        ensures
            final(self).same_state(old(self)),
            ({
                let color = old(self).text_color();
                let erased = old(self).fb.cells().insert(old(self).cursor(), (old(self).under_cursor(), color));
                let (x, y) = old(self).cursor();
                if c == '\n' {
                    let ny = row_below(y, old(self).fb.rows());
                    &&& final(self).cursor() == (0usize, ny)
                    &&& final(self).fb.cells() == row_blanked(erased, ny, old(self).fb.cols(), color).insert((0usize, ny), ('_', color))
                } else if c == '\r' {
                    let nx: usize = if x == 0 { 0 } else { (x - 1) as usize };
                    &&& final(self).cursor() == (nx, y)
                    &&& final(self).fb.cells() == erased.insert((nx, y), (old(self).under_cursor(), color)).insert((nx, y), ('_', color))
                } else {
                    let written = erased.insert((x, y), (c, color));
                    if x >= old(self).fb.cols() - 1 {
                        let ny = row_below(y, old(self).fb.rows());
                        &&& final(self).cursor() == (0usize, ny)
                        &&& final(self).fb.cells() == row_blanked(written, ny, old(self).fb.cols(), color).insert((0usize, ny), ('_', color))
                    } else {
                        &&& final(self).cursor() == ((x + 1) as usize, y)
                        &&& final(self).fb.cells() == written.insert(((x + 1) as usize, y), ('_', color))
                    }
                }
            }),
    {
        self.erase_visual_cursor();
        if c == '\n' {
            self.cursor_down();
            let y = self.cursor_pos.1;
            self.blank_row(y);
            self.cursor_pos.0 = 0;
        } else if c == '\r' {
            self.cursor_left();
            self.erase_visual_cursor();
        } else {
            let (x, y) = self.cursor_pos;
            let color = self.color;
            self.fb.write_char(x, y, c, color);
            self.cursor_right();
        }
        self.update_visual_cursor();
    }
}

} // verus!
