//! Framebuffer text console.
//!
//! A fixed cell grid over the framebuffer using the 8x8 font scaled 2x.
//! Wraps at the right edge and scrolls at the bottom.

use vstd::prelude::*;
use crate::font::{Font, draw_glyph, glyph_image};
use crate::framebuffer::{Color, Framebuffer, fill_image, scroll_image};

verus! {

/// Integer scale applied to the 8x8 glyphs: 16 pixel cells.
pub const SCALE: usize = 2;

/// Foreground, light gray.
pub const FG: Color = 0x00d8_d8d8;

/// Background, near black.
pub const BG: Color = 0x0018_1818;

/// Character cell width in pixels.
pub const CELL_W: usize = 16;

/// Character cell height in pixels.
pub const CELL_H: usize = 16;

/// The box glyph drawn for bytes outside printable ASCII.
pub const BOX_GLYPH: u8 = 0x7f;

/// What the console shows and where its cursor is.
pub struct ConsoleState {
    pub screen: Seq<Seq<u32>>,
    pub col: int,
    pub row: int,
}

/// Move the cursor to the start of the next line, scrolling the screen
/// by one cell when the cursor is on the last line.
pub open spec fn newline_state(st: ConsoleState, rows: int, width: int) -> ConsoleState {
    if st.row + 1 >= rows {
        ConsoleState {
            screen: scroll_image(st.screen, CELL_H as int, BG, width),
            col: 0,
            row: rows - 1,
        }
    } else {
        ConsoleState { screen: st.screen, col: 0, row: st.row + 1 }
    }
}

/// The glyph a byte is shown with: itself when printable ASCII, the box
/// otherwise.
pub open spec fn shown_glyph(b: u8) -> u8 {
    if 0x20 <= b <= 0x7e {
        b
    } else {
        BOX_GLYPH
    }
}

/// The effect of printing one byte: newline and carriage return move
/// the cursor, anything else draws a glyph at the cursor and advances
/// it, wrapping at the right edge.
pub open spec fn put_byte_state(
    st: ConsoleState,
    b: u8,
    font: Font,
    cols: int,
    rows: int,
    width: int,
) -> ConsoleState {
    if b == 0x0a {
        newline_state(st, rows, width)
    } else if b == 0x0d {
        ConsoleState { screen: st.screen, col: 0, row: st.row }
    } else {
        let drawn = ConsoleState {
            screen: glyph_image(
                st.screen,
                font.glyph(shown_glyph(b) as int),
                st.col * CELL_W,
                st.row * CELL_H,
                SCALE as int,
                FG,
                BG,
            ),
            col: st.col + 1,
            row: st.row,
        };
        if drawn.col >= cols {
            newline_state(drawn, rows, width)
        } else {
            drawn
        }
    }
}

/// Printing `b` moves to a new line.
pub open spec fn put_byte_breaks_line(col: int, cols: int, b: u8) -> bool {
    b == 0x0a || (b != 0x0d && col + 1 >= cols)
}

/// The effect of printing a run of bytes one after another.
pub open spec fn write_state(
    st: ConsoleState,
    bytes: Seq<u8>,
    font: Font,
    cols: int,
    rows: int,
    width: int,
) -> ConsoleState
    decreases bytes.len(),
{
    if bytes.len() == 0 {
        st
    } else {
        write_state(
            put_byte_state(st, bytes[0], font, cols, rows, width),
            bytes.drop_first(),
            font,
            cols,
            rows,
            width,
        )
    }
}

/// A run of bytes can be printed: it never breaks a line on a console
/// without rows.
pub open spec fn write_fits(
    st: ConsoleState,
    bytes: Seq<u8>,
    font: Font,
    cols: int,
    rows: int,
    width: int,
) -> bool
    decreases bytes.len(),
{
    bytes.len() == 0 || ((put_byte_breaks_line(st.col, cols, bytes[0]) ==> rows > 0) && write_fits(
        put_byte_state(st, bytes[0], font, cols, rows, width),
        bytes.drop_first(),
        font,
        cols,
        rows,
        width,
    ))
}

/// Text console over a framebuffer. It owns the framebuffer: nothing
/// else draws while the console is alive, except through `framebuffer`.
pub struct Console {
    fb: Framebuffer,
    font: Font,
    cols: usize,
    rows: usize,
    col: usize,
    row: usize,
}

impl Console {
    /// What the console shows and where its cursor is.
    pub open spec fn state(&self) -> ConsoleState {
        ConsoleState { screen: self.spec_fb()@, col: self.spec_col() as int, row: self.spec_row() as int }
    }

    /// The cursor's column.
    pub closed spec fn spec_col(&self) -> nat {
        self.col as nat
    }

    /// The cursor's row.
    pub closed spec fn spec_row(&self) -> nat {
        self.row as nat
    }

    pub closed spec fn spec_fb(&self) -> Framebuffer {
        self.fb
    }

    pub closed spec fn spec_font(&self) -> Font {
        self.font
    }

    pub closed spec fn spec_cols(&self) -> nat {
        self.cols as nat
    }

    pub closed spec fn spec_rows(&self) -> nat {
        self.rows as nat
    }

    /// The grid fits the framebuffer and the cursor stays on it.
    pub open spec fn wf(&self) -> bool {
        &&& self.spec_fb().wf()
        &&& self.spec_font().wf()
        &&& self.spec_cols() == self.spec_fb().spec_width() / CELL_W as nat
        &&& self.spec_rows() == self.spec_fb().spec_height() / CELL_H as nat
        &&& (self.spec_col() == 0 || self.spec_col() < self.spec_cols())
        &&& (self.spec_row() == 0 || self.spec_row() < self.spec_rows())
    }

    /// The grid follows the framebuffer: a console that `new` made and
    /// any run of its methods kept (each keeps it well formed and the
    /// framebuffer's size) has `width / 16` columns and `height / 16`
    /// rows, and its cursor on the grid.
    pub proof fn lemma_grid_follows_framebuffer(&self)
        requires
            self.wf(),
        ensures
            self.spec_cols() == self.spec_fb().spec_width() / CELL_W as nat,
            self.spec_rows() == self.spec_fb().spec_height() / CELL_H as nat,
            self.state().col == 0 || self.state().col < self.spec_cols(),
            self.state().row == 0 || self.state().row < self.spec_rows(),
    {
    }

    /// Take over a framebuffer, clear it, home the cursor.
    pub fn new(fb: Framebuffer, font: Font) -> (c: Self)
        requires
            fb.wf(),
            font.wf(),
        ensures
            c.wf(),
            c.spec_font() == font,
            c.spec_cols() == fb.spec_width() / CELL_W as nat,
            c.spec_rows() == fb.spec_height() / CELL_H as nat,
            c.spec_fb().spec_width() == fb.spec_width(),
            c.spec_fb().spec_height() == fb.spec_height(),
            c.spec_fb().spec_pitch() == fb.spec_pitch(),
            c.spec_fb().spec_bpp() == fb.spec_bpp(),
            c.state() == (ConsoleState {
                screen: fill_image(fb@, 0, 0, fb.spec_width() as int, fb.spec_height() as int, BG),
                col: 0,
                row: 0,
            }),
    {
        let cols = fb.width() / CELL_W;
        let rows = fb.height() / CELL_H;
        let mut c = Console { fb, font, cols, rows, col: 0, row: 0 };
        c.clear();
        c
    }

    pub fn cols(&self) -> (n: usize)
        ensures
            n == self.spec_cols(),
    {
        self.cols
    }

    pub fn rows(&self) -> (n: usize)
        ensures
            n == self.spec_rows(),
    {
        self.rows
    }

    /// Raw framebuffer access for full screen clients. Drawing over the
    /// console text is the caller's business; the console stays well
    /// formed as long as the framebuffer keeps its size.
    pub fn framebuffer(&mut self) -> (fb: &mut Framebuffer)
        ensures
            *fb == old(self).spec_fb(),
            final(self).spec_fb() == *final(fb),
            final(self).spec_font() == old(self).spec_font(),
            final(self).spec_cols() == old(self).spec_cols(),
            final(self).spec_rows() == old(self).spec_rows(),
            final(self).state().col == old(self).state().col,
            final(self).state().row == old(self).state().row,
            old(self).wf() && final(fb).wf() && final(fb).spec_width() == fb.spec_width()
                && final(fb).spec_height() == fb.spec_height() ==> final(self).wf(),
    {
        &mut self.fb
    }

    /// Wipe the screen and home the cursor.
    pub fn clear(&mut self)
        requires
            old(self).wf(),
        ensures
            final(self).wf(),
            final(self).spec_font() == old(self).spec_font(),
            final(self).spec_cols() == old(self).spec_cols(),
            final(self).spec_rows() == old(self).spec_rows(),
            final(self).spec_fb().spec_width() == old(self).spec_fb().spec_width(),
            final(self).spec_fb().spec_height() == old(self).spec_fb().spec_height(),
            final(self).spec_fb().spec_pitch() == old(self).spec_fb().spec_pitch(),
            final(self).spec_fb().spec_bpp() == old(self).spec_fb().spec_bpp(),
            final(self).state() == (ConsoleState {
                screen: fill_image(
                    old(self).spec_fb()@,
                    0,
                    0,
                    old(self).spec_fb().spec_width() as int,
                    old(self).spec_fb().spec_height() as int,
                    BG,
                ),
                col: 0,
                row: 0,
            }),
    {
        self.fb.clear(BG);
        self.col = 0;
        self.row = 0;
    }

    /// Draw one glyph cell at the cursor, background painted too so
    /// overwrites do not smear.
    fn draw_glyph(&mut self, ch: u8)
        requires
            old(self).wf(),
            ch < 128,
        ensures
            final(self).wf(),
            final(self).spec_font() == old(self).spec_font(),
            final(self).cols == old(self).cols,
            final(self).rows == old(self).rows,
            final(self).col == old(self).col,
            final(self).row == old(self).row,
            final(self).fb.spec_width() == old(self).fb.spec_width(),
            final(self).fb.spec_height() == old(self).fb.spec_height(),
            final(self).fb.spec_pitch() == old(self).fb.spec_pitch(),
            final(self).fb.spec_bpp() == old(self).fb.spec_bpp(),
            final(self).fb@ == glyph_image(
                old(self).fb@,
                old(self).font.glyph(ch as int),
                old(self).col * CELL_W,
                old(self).row * CELL_H,
                SCALE as int,
                FG,
                BG,
            ),
    {
        // the sizes are machine words: that bounds the cursor's pixels
        let _width = self.fb.width();
        let _height = self.fb.height();
        let px = self.col * CELL_W;
        let py = self.row * CELL_H;
        draw_glyph(&mut self.fb, &self.font, ch, px, py, SCALE, FG, BG);
    }

    /// Advance to the next line, scrolling when the screen is full.
    fn newline(&mut self)
        requires
            old(self).fb.wf(),
            old(self).font.wf(),
            old(self).cols == old(self).fb.spec_width() / CELL_W as nat,
            old(self).rows == old(self).fb.spec_height() / CELL_H as nat,
            old(self).row == 0 || old(self).row < old(self).rows,
            old(self).rows > 0,
        ensures
            final(self).wf(),
            final(self).spec_font() == old(self).spec_font(),
            final(self).cols == old(self).cols,
            final(self).rows == old(self).rows,
            final(self).fb.spec_width() == old(self).fb.spec_width(),
            final(self).fb.spec_height() == old(self).fb.spec_height(),
            final(self).fb.spec_pitch() == old(self).fb.spec_pitch(),
            final(self).fb.spec_bpp() == old(self).fb.spec_bpp(),
            final(self).state() == newline_state(
                old(self).state(),
                old(self).rows as int,
                old(self).fb.spec_width() as int,
            ),
    {
        self.col = 0;
        self.row = self.row + 1;
        if self.row >= self.rows {
            self.fb.scroll_up(CELL_H, BG);
            self.row = self.rows - 1;
        }
    }

    /// Print one byte. Newline and carriage return move the cursor;
    /// anything outside printable ASCII shows as the box glyph.
    pub fn put_byte(&mut self, b: u8)
        requires
            old(self).wf(),
            put_byte_breaks_line(old(self).state().col, old(self).spec_cols() as int, b) ==> old(
                self,
            ).spec_rows() > 0,
        ensures
            final(self).wf(),
            final(self).spec_font() == old(self).spec_font(),
            final(self).spec_cols() == old(self).spec_cols(),
            final(self).spec_rows() == old(self).spec_rows(),
            final(self).spec_fb().spec_width() == old(self).spec_fb().spec_width(),
            final(self).spec_fb().spec_height() == old(self).spec_fb().spec_height(),
            final(self).spec_fb().spec_pitch() == old(self).spec_fb().spec_pitch(),
            final(self).spec_fb().spec_bpp() == old(self).spec_fb().spec_bpp(),
            final(self).state() == put_byte_state(
                old(self).state(),
                b,
                old(self).spec_font(),
                old(self).spec_cols() as int,
                old(self).spec_rows() as int,
                old(self).spec_fb().spec_width() as int,
            ),
    {
        match b {
            0x0a => self.newline(),
            0x0d => self.col = 0,
            0x20..=0x7e => {
                self.draw_glyph(b);
                self.col = self.col + 1;
                if self.col >= self.cols {
                    self.newline();
                }
            },
            _ => {
                self.draw_glyph(BOX_GLYPH);
                self.col = self.col + 1;
                if self.col >= self.cols {
                    self.newline();
                }
            },
        }
    }

    /// Print a run of bytes, one after another.
    pub fn write_bytes(&mut self, bytes: &[u8])
        requires
            old(self).wf(),
            write_fits(
                old(self).state(),
                bytes@,
                old(self).spec_font(),
                old(self).spec_cols() as int,
                old(self).spec_rows() as int,
                old(self).spec_fb().spec_width() as int,
            ),
        ensures
            final(self).wf(),
            final(self).spec_font() == old(self).spec_font(),
            final(self).spec_cols() == old(self).spec_cols(),
            final(self).spec_rows() == old(self).spec_rows(),
            final(self).spec_fb().spec_width() == old(self).spec_fb().spec_width(),
            final(self).spec_fb().spec_height() == old(self).spec_fb().spec_height(),
            final(self).spec_fb().spec_pitch() == old(self).spec_fb().spec_pitch(),
            final(self).spec_fb().spec_bpp() == old(self).spec_fb().spec_bpp(),
            final(self).state() == write_state(
                old(self).state(),
                bytes@,
                old(self).spec_font(),
                old(self).spec_cols() as int,
                old(self).spec_rows() as int,
                old(self).spec_fb().spec_width() as int,
            ),
    {
        let ghost font = self.spec_font();
        let ghost cols = self.spec_cols() as int;
        let ghost rows = self.spec_rows() as int;
        let ghost width = self.spec_fb().spec_width() as int;
        let mut i: usize = 0;
        assert(bytes@.skip(0) =~= bytes@);
        while i < bytes.len()
            invariant
                self.wf(),
                i <= bytes@.len(),
                font == self.spec_font(),
                cols == self.spec_cols(),
                rows == self.spec_rows(),
                width == self.spec_fb().spec_width(),
                self.spec_font() == old(self).spec_font(),
                self.spec_cols() == old(self).spec_cols(),
                self.spec_rows() == old(self).spec_rows(),
                self.spec_fb().spec_width() == old(self).spec_fb().spec_width(),
                self.spec_fb().spec_height() == old(self).spec_fb().spec_height(),
                self.spec_fb().spec_pitch() == old(self).spec_fb().spec_pitch(),
                self.spec_fb().spec_bpp() == old(self).spec_fb().spec_bpp(),
                write_fits(self.state(), bytes@.skip(i as int), font, cols, rows, width),
                write_state(self.state(), bytes@.skip(i as int), font, cols, rows, width)
                    == write_state(old(self).state(), bytes@, font, cols, rows, width),
            decreases bytes@.len() - i,
        {
            let ghost rest = bytes@.skip(i as int);
            assert(rest[0] == bytes@[i as int]);
            assert(rest.drop_first() =~= bytes@.skip(i as int + 1));
            self.put_byte(bytes[i]);
            i = i + 1;
        }
    }
}

} // verus!

verus! {

/// A carriage return right before a line feed changes nothing: CR LF
/// and LF leave the console alike.
pub proof fn lemma_crlf_is_lf(st: ConsoleState, font: Font, cols: int, rows: int, width: int)
    ensures
        put_byte_state(put_byte_state(st, 0x0d, font, cols, rows, width), 0x0a, font, cols, rows, width)
            == put_byte_state(st, 0x0a, font, cols, rows, width),
{
}

/// Printing a concatenation is printing its two parts in turn.
pub proof fn lemma_write_concat(
    st: ConsoleState,
    a: Seq<u8>,
    b: Seq<u8>,
    font: Font,
    cols: int,
    rows: int,
    width: int,
)
    ensures
        write_state(st, a + b, font, cols, rows, width) == write_state(
            write_state(st, a, font, cols, rows, width),
            b,
            font,
            cols,
            rows,
            width,
        ),
    decreases a.len(),
{
    if a.len() == 0 {
        assert(a + b =~= b);
    } else {
        assert((a + b)[0] == a[0]);
        assert((a + b).drop_first() =~= a.drop_first() + b);
        lemma_write_concat(
            put_byte_state(st, a[0], font, cols, rows, width),
            a.drop_first(),
            b,
            font,
            cols,
            rows,
            width,
        );
    }
}

/// A byte that is neither a line end nor printable ASCII prints exactly
/// as the box glyph does.
pub proof fn lemma_unprintable_is_box(st: ConsoleState, b: u8, font: Font, cols: int, rows: int, width: int)
    requires
        b != 0x0a,
        b != 0x0d,
        !(0x20 <= b <= 0x7e),
    ensures
        put_byte_state(st, b, font, cols, rows, width) == put_byte_state(
            st,
            BOX_GLYPH,
            font,
            cols,
            rows,
            width,
        ),
{
}

/// Clearing twice leaves the screen as clearing once.
pub proof fn lemma_clear_twice(img: Seq<Seq<u32>>, width: int, height: int)
    ensures
        fill_image(fill_image(img, 0, 0, width, height, BG), 0, 0, width, height, BG) == fill_image(
            img,
            0,
            0,
            width,
            height,
            BG,
        ),
{
    let once = fill_image(img, 0, 0, width, height, BG);
    let twice = fill_image(once, 0, 0, width, height, BG);
    assert forall|r: int| 0 <= r < img.len() implies #[trigger] twice[r] =~= once[r] by {}
    assert(twice =~= once);
}

/// A carriage return homes the cursor on its line and leaves the screen
/// alone.
pub proof fn lemma_carriage_return(st: ConsoleState, font: Font, cols: int, rows: int, width: int)
    ensures
        put_byte_state(st, 0x0d, font, cols, rows, width) == (ConsoleState {
            screen: st.screen,
            col: 0,
            row: st.row,
        }),
{
}

/// A line feed on the last row scrolls the screen up one cell: each
/// pixel row takes the row 16 below it, the rows uncovered at the bottom
/// turn background (0x181818) across the screen's width, and the cursor
/// goes to the start of the last row. On any other row the cursor moves
/// to the start of the next row and the screen stays as it is.
pub proof fn lemma_newline_scrolls(st: ConsoleState, rows: int, width: int)
    requires
        rows > 0,
        width >= 0,
    ensures
        st.row + 1 < rows ==> newline_state(st, rows, width) == (ConsoleState {
            screen: st.screen,
            col: 0,
            row: st.row + 1,
        }),
        st.row + 1 >= rows ==> {
            let n = newline_state(st, rows, width);
            &&& n.col == 0
            &&& n.row == rows - 1
            &&& n.screen.len() == st.screen.len()
            &&& forall|r: int|
                0 <= r && r + 16 < st.screen.len() ==> #[trigger] n.screen[r] == st.screen[r + 16]
            &&& forall|r: int, c: int|
                0 <= r < st.screen.len() && r + 16 >= st.screen.len() && 0 <= c < width
                    ==> #[trigger] n.screen[r][c] == 0x0018_1818u32
            &&& forall|r: int|
                0 <= r < st.screen.len() && r + 16 >= st.screen.len() ==> #[trigger] n.screen[r].len()
                    == width
        },
{
}

/// Where printing a byte leaves the cursor, on a grid with at least one
/// row and the cursor on it: a line feed goes to the start of the next
/// row, or stays on the last row when the screen scrolls; a carriage
/// return goes to the start of the row and leaves the screen alone; any
/// other byte moves one cell right, or to the start of the next row
/// from the last column.
pub proof fn lemma_put_byte_cursor(st: ConsoleState, b: u8, font: Font, cols: int, rows: int, width: int)
    requires
        rows > 0,
        width >= 0,
        0 <= st.row < rows,
        0 <= st.col < cols,
    ensures
        ({
            let n = put_byte_state(st, b, font, cols, rows, width);
            let down = if st.row + 1 < rows {
                st.row + 1
            } else {
                rows - 1
            };
            &&& b == 0x0a ==> n.col == 0 && n.row == down
            &&& b == 0x0d ==> n.col == 0 && n.row == st.row && n.screen == st.screen
            &&& (b != 0x0a && b != 0x0d && st.col + 1 < cols) ==> n.col == st.col + 1 && n.row
                == st.row
            &&& (b != 0x0a && b != 0x0d && st.col + 1 >= cols) ==> n.col == 0 && n.row == down
        }),
{
}

} // verus!
