//! Turning a layout into the text that repaints the terminal.

use vstd::prelude::*;
use vstd::string::StringExecFns;
use crate::components::{Component, Layout, row_cols, row_rows, sub_row};
use crate::score::dec;

verus! {

/// Relies on termion's `clear::BeforeCursor`, which prints `ESC [ 1 J`.
#[verifier::external_body]
fn clear_before_cursor() -> (r: String)
    ensures
        r@ == "\x1b[1J"@,
{
    format!("{}", termion::clear::BeforeCursor)
}

/// Relies on termion's `clear::CurrentLine`, which prints `ESC [ 2 K`.
#[verifier::external_body]
fn clear_current_line() -> (r: String)
    ensures
        r@ == "\x1b[2K"@,
{
    format!("{}", termion::clear::CurrentLine)
}

/// Relies on termion's `cursor::Goto(x, y)`, which prints `ESC [ y ; x H`
/// (one-based; it asserts against `(0, 0)`).
#[verifier::external_body]
fn goto(x: u16, y: u16) -> (r: String)
    requires
        x >= 1,
        y >= 1,
    ensures
        r@ == "\x1b["@ + dec(y as nat) + ";"@ + dec(x as nat) + "H"@,
{
    format!("{}", termion::cursor::Goto(x, y))
}

/// Relies on termion's `cursor::Left(n)`, which prints `ESC [ n D`.
#[verifier::external_body]
fn cursor_left(n: u16) -> (r: String)
    ensures
        r@ == "\x1b["@ + dec(n as nat) + "D"@,
{
    format!("{}", termion::cursor::Left(n))
}

/// Clears the screen above the cursor and homes it.
pub open spec fn clear_text() -> Seq<char> {
    "\x1b[1J"@ + ("\x1b["@ + dec(1) + ";"@ + dec(1) + "H"@)
}

/// Ends a terminal line: newline, clear the line, back to the first column.
pub open spec fn line_end() -> Seq<char> {
    seq!['\n'] + "\x1b[2K"@ + ("\x1b["@ + dec(100) + "D"@)
}

/// The first `m` terminal lines of a row of components.
pub open spec fn grid_row(cs: Seq<Component>, m: int) -> Seq<char>
    decreases m,
{
    if m <= 0 {
        Seq::empty()
    } else {
        grid_row(cs, m - 1) + sub_row(cs, m - 1, cs.len() as int) + line_end()
    }
}

/// The first `n` rows of a layout, drawn.
pub open spec fn frame(l: Seq<Seq<Component>>, n: int) -> Seq<char>
    decreases n,
{
    if n <= 0 {
        Seq::empty()
    } else {
        frame(l, n - 1) + grid_row(l[n - 1], row_rows(l[n - 1]))
    }
}

/// Total height of the first `n` rows.
pub open spec fn total_rows(l: Seq<Seq<Component>>, n: int) -> int
    decreases n,
{
    if n <= 0 {
        0
    } else {
        total_rows(l, n - 1) + row_rows(l[n - 1])
    }
}

/// Width of the widest of the first `n` rows.
pub open spec fn widest(l: Seq<Seq<Component>>, n: int) -> int
    decreases n,
{
    if n <= 0 {
        0
    } else if row_cols(l[n - 1]) > widest(l, n - 1) {
        row_cols(l[n - 1])
    } else {
        widest(l, n - 1)
    }
}

/// Left margin that centres `cols` columns on a terminal `term_cols` wide.
pub open spec fn centre_offset(term_cols: int, cols: int) -> int {
    if term_cols > cols {
        (term_cols - cols) / 2
    } else {
        0
    }
}

/// What was measured of the layout on the first draw.
pub struct Display {
    col_offset: u16,
    bounds_set: bool,
    layout_size: (u64, u64),
}

proof fn lemma_row_bounds(cs: Seq<Component>)
    ensures
        0 <= row_rows(cs) <= 3,
        0 <= row_cols(cs) <= 200 * cs.len(),
    decreases cs.len(),
{
    if cs.len() > 0 {
        lemma_row_bounds(cs.drop_last());
        crate::components::lemma_template_bounds(cs.last());
    }
}

impl Display {
    /// `after` is `before` once a layout has been drawn on a terminal
    /// `term_cols` wide: the first draw measures the layout and centres it,
    /// later draws change nothing.
    pub open spec fn drawn(before: Display, after: Display, layout: Layout, term_cols: u16) -> bool {
        &&& before.measured() ==> after == before
        &&& !before.measured() ==> after.measured() && after.size() == (
            total_rows(layout.grid(), layout.grid().len() as int) as u64,
            widest(layout.grid(), layout.grid().len() as int) as u64,
        ) && after.offset() == centre_offset(
            term_cols as int,
            widest(layout.grid(), layout.grid().len() as int),
        )
    }

    pub closed spec fn measured(&self) -> bool {
        self.bounds_set
    }

    pub closed spec fn size(&self) -> (u64, u64) {
        self.layout_size
    }

    pub closed spec fn offset(&self) -> u16 {
        self.col_offset
    }

    pub fn new() -> (r: Self)
        ensures
            !r.measured(),
            r.size() == (0u64, 0u64),
            r.offset() == 0,
    {
        Self { bounds_set: false, col_offset: 0, layout_size: (0, 0) }
    }

    /// On the first call, measures `layout` and centres it on a terminal
    /// `term_cols` wide; later calls change nothing.
    fn set_bounds(&mut self, layout: &Layout, term_cols: u16)
        requires
            layout.wf(),
        ensures
            Self::drawn(*old(self), *final(self), *layout, term_cols),
    {
        if !self.bounds_set {
            let mut index: usize = 0;
            let mut rows_total: u64 = 0;
            let mut cols_total: u64 = 0;
            let ghost l = layout.grid();
            while index < layout.layout.len()
                invariant
                    layout.wf(),
                    l == layout.grid(),
                    index <= l.len(),
                    rows_total == total_rows(l, index as int),
                    cols_total == widest(l, index as int),
                    rows_total <= 3 * index,
                    cols_total <= 200 * 65535,
                decreases l.len() - index,
            {
                let (max_num_rows, max_num_cols) = layout.get_row_size(index).unwrap();
                proof {
                    lemma_row_bounds(l[index as int]);
                }
                rows_total = rows_total + max_num_rows;
                cols_total = if cols_total < max_num_cols {
                    max_num_cols
                } else {
                    cols_total
                };
                index = index + 1;
            }
            self.layout_size = (rows_total, cols_total);
            self.col_offset = if (term_cols as u64) > cols_total {
                ((term_cols as u64 - cols_total) / 2) as u16
            } else {
                0
            };
            self.bounds_set = true;
        }
    }

    /// The text that clears the screen above the cursor and homes it.
    pub fn clear() -> (r: String)
        ensures
            r@ == clear_text(),
    {
        let mut s = clear_before_cursor();
        let home = goto(1, 1);
        s.append(home.as_str());
        s
    }

    fn render_internal(&self, layout: &Layout, clear: bool) -> (r: String)
        requires
            layout.wf(),
        ensures
            r@ == (if clear {
                clear_text()
            } else {
                Seq::empty()
            }) + frame(layout.grid(), layout.grid().len() as int),
    {
        let mut out = if clear {
            Self::clear()
        } else {
            String::new()
        };
        let ghost head = out@;
        let ghost l = layout.grid();
        let mut index: usize = 0;
        while index < layout.layout.len()
            invariant
                layout.wf(),
                l == layout.grid(),
                index <= l.len(),
                out@ == head + frame(l, index as int),
            decreases l.len() - index,
        {
            let (rows, _) = layout.get_row_size(index).unwrap();
            let components = layout.get_row(index).unwrap();
            let ghost cs = l[index as int];
            proof {
                lemma_row_bounds(cs);
            }
            let mut x: u64 = 0;
            while x < rows
                invariant
                    components@ == cs,
                    rows == row_rows(cs),
                    rows <= 3,
                    x <= rows,
                    out@ == head + frame(l, index as int) + grid_row(cs, x as int),
                decreases rows - x,
            {
                let mut k: usize = 0;
                let ghost line_start = out@;
                while k < components.len()
                    invariant
                        components@ == cs,
                        k <= cs.len(),
                        out@ == line_start + sub_row(cs, x as int, k as int),
                        x < 3,
                    decreases cs.len() - k,
                {
                    let piece = components[k].line(x as usize);
                    out.append(piece.as_str());
                    proof {
                        assert(out@ =~= line_start + sub_row(cs, x as int, k + 1));
                    }
                    k = k + 1;
                }
                let mut end = String::new();
                crate::words::push_char_to(&mut end, '\n');
                let cl = clear_current_line();
                end.append(cl.as_str());
                let left = cursor_left(100);
                end.append(left.as_str());
                out.append(end.as_str());
                proof {
                    assert(end@ =~= line_end());
                    assert(out@ =~= head + frame(l, index as int) + grid_row(cs, x + 1));
                }
                x = x + 1;
            }
            proof {
                assert(out@ =~= head + frame(l, index + 1));
            }
            index = index + 1;
        }
        out
    }

    /// Draws `layout` below what the terminal already shows.
    pub fn render_no_clear(&mut self, layout: &Layout, term_cols: u16) -> (r: String)
        requires
            layout.wf(),
        ensures
            r@ == frame(layout.grid(), layout.grid().len() as int),
            Self::drawn(*old(self), *final(self), *layout, term_cols),
    {
        self.set_bounds(layout, term_cols);
        let r = self.render_internal(layout, false);
        proof {
            assert(r@ =~= frame(layout.grid(), layout.grid().len() as int));
        }
        r
    }

    /// Clears the screen and draws `layout`.
    pub fn render(&mut self, layout: &Layout, term_cols: u16) -> (r: String)
        requires
            layout.wf(),
        ensures
            r@ == clear_text() + frame(layout.grid(), layout.grid().len() as int),
            Self::drawn(*old(self), *final(self), *layout, term_cols),
    {
        self.set_bounds(layout, term_cols);
        self.render_internal(layout, true)
    }
}

} // verus!
