//! Linear framebuffer: a grid of 32 bpp XRGB pixels.
//!
//! The pixels are held row by row; the boot code presents them to the
//! hardware mapping. Drawing is clipped against the screen edges.

use vstd::prelude::*;

verus! {

/// Color as 0x00rrggbb. The top byte is ignored by XRGB hardware.
pub type Color = u32;

/// The rows of a pixel store as mathematical sequences.
pub open spec fn rows_view(rows: Seq<Vec<u32>>) -> Seq<Seq<u32>> {
    Seq::new(rows.len(), |r: int| rows[r]@)
}

/// Pixel (`px`, `py`) lies inside the rectangle at (`x`, `y`) of size
/// `w` by `h`.
pub open spec fn in_rect(x: int, y: int, w: int, h: int, px: int, py: int) -> bool {
    x <= px < x + w && y <= py < y + h
}

/// An image with a rectangle painted in one color; whatever of the
/// rectangle falls outside the image is dropped.
pub open spec fn fill_image(img: Seq<Seq<u32>>, x: int, y: int, w: int, h: int, c: u32) -> Seq<
    Seq<u32>,
> {
    Seq::new(
        img.len(),
        |r: int| Seq::new(img[r].len(), |col: int| if in_rect(x, y, w, h, col, r) { c } else { img[r][col] }),
    )
}

/// An image shifted up by `px` rows, the rows uncovered at the bottom
/// filled with one color.
pub open spec fn scroll_image(img: Seq<Seq<u32>>, px: int, fill: u32, width: int) -> Seq<Seq<u32>> {
    Seq::new(
        img.len(),
        |r: int| if r + px < img.len() { img[r + px] } else { Seq::new(width as nat, |c: int| fill) },
    )
}

/// An image of `width` by `height` pixels.
pub open spec fn is_image(img: Seq<Seq<u32>>, width: int, height: int) -> bool {
    &&& img.len() == height
    &&& forall|r: int| 0 <= r < height ==> #[trigger] img[r].len() == width
}

/// A framebuffer and its geometry.
pub struct Framebuffer {
    rows: Vec<Vec<u32>>,
    width: usize,
    height: usize,
    pitch: usize,
    bpp: usize,
}

impl Framebuffer {
    /// The visible pixels, `view()[y][x]` being the pixel at (`x`, `y`).
    pub closed spec fn view(&self) -> Seq<Seq<u32>> {
        rows_view(self.rows@)
    }

    pub closed spec fn spec_width(&self) -> nat {
        self.width as nat
    }

    pub closed spec fn spec_height(&self) -> nat {
        self.height as nat
    }

    pub closed spec fn spec_pitch(&self) -> nat {
        self.pitch as nat
    }

    pub closed spec fn spec_bpp(&self) -> nat {
        self.bpp as nat
    }

    /// The pixel store is exactly `width` by `height`.
    pub open spec fn wf(&self) -> bool {
        is_image(self.view(), self.spec_width() as int, self.spec_height() as int)
    }

    /// A framebuffer of the given geometry, all pixels black. `pitch` is
    /// the distance between rows in bytes, `bpp` the bits per pixel.
    pub fn new(width: usize, height: usize, pitch: usize, bpp: usize) -> (fb: Self)
        ensures
            fb.wf(),
            fb.spec_width() == width,
            fb.spec_height() == height,
            fb.spec_pitch() == pitch,
            fb.spec_bpp() == bpp,
            forall|y: int, x: int| 0 <= y < height && 0 <= x < width ==> #[trigger] fb@[y][x] == 0,
    {
        let mut rows: Vec<Vec<u32>> = Vec::new();
        let mut r: usize = 0;
        while r < height
            invariant
                r <= height,
                rows@.len() == r,
                forall|k: int| 0 <= k < r ==> #[trigger] rows@[k]@.len() == width,
                forall|k: int, x: int| 0 <= k < r && 0 <= x < width ==> #[trigger] rows@[k]@[x] == 0,
            decreases height - r,
        {
            rows.push(vec![0u32; width]);
            r = r + 1;
        }
        Framebuffer { rows, width, height, pitch, bpp }
    }

    pub fn width(&self) -> (w: usize)
        ensures
            w == self.spec_width(),
    {
        self.width
    }

    pub fn height(&self) -> (h: usize)
        ensures
            h == self.spec_height(),
    {
        self.height
    }

    pub fn bpp(&self) -> (b: usize)
        ensures
            b == self.spec_bpp(),
    {
        self.bpp
    }

    /// Fill a rectangle, clipped against the screen edges.
    pub fn fill_rect(&mut self, x: usize, y: usize, w: usize, h: usize, color: Color)
        requires
            old(self).wf(),
            x + w <= usize::MAX,
            y + h <= usize::MAX,
        ensures
            final(self).wf(),
            final(self).spec_width() == old(self).spec_width(),
            final(self).spec_height() == old(self).spec_height(),
            final(self).spec_pitch() == old(self).spec_pitch(),
            final(self).spec_bpp() == old(self).spec_bpp(),
            final(self)@ == fill_image(old(self)@, x as int, y as int, w as int, h as int, color),
    {
        let ghost img = self@;
        let width = self.width;
        let height = self.height;
        let x1 = if x + w < width { x + w } else { width };
        let y1 = if y + h < height { y + h } else { height };
        let x0 = if x < width { x } else { width };
        let mut row = if y < height { y } else { height };
        while row < y1
            invariant
                self.width == width,
                self.height == height,
                self.pitch == old(self).pitch,
                self.bpp == old(self).bpp,
                self.width == old(self).width,
                self.height == old(self).height,
                img == old(self)@,
                is_image(img, width as int, height as int),
                self.rows@.len() == height,
                y1 <= height,
                y <= row || row == height,
                row <= y1 || y1 < y,
                x1 <= width,
                x0 == if x < width { x } else { width },
                x1 == if x + w < width { x + w } else { width as int },
                y1 == if y + h < height { y + h } else { height as int },
                forall|r: int| 0 <= r < height ==> #[trigger] self.rows@[r]@ == if r < row {
                    fill_image(img, x as int, y as int, w as int, h as int, color)[r]
                } else {
                    img[r]
                },
            decreases height - row,
        {
            let mut line: Vec<u32> = Vec::new();
            self.rows.set_and_swap(row, &mut line);
            let mut col = x0;
            while col < x1
                invariant
                    line@.len() == width,
                    row < y1 <= height,
                    is_image(img, width as int, height as int),
                    x1 <= width,
                    x0 <= col <= x1,
                    x0 == if x < width { x } else { width },
                    forall|c: int| 0 <= c < width ==> #[trigger] line@[c] == if x0 <= c < col {
                        color
                    } else {
                        img[row as int][c]
                    },
                decreases width - col,
            {
                line.set(col, color);
                col = col + 1;
            }
            self.rows.set(row, line);
            proof {
                let f = fill_image(img, x as int, y as int, w as int, h as int, color);
                assert(self.rows@[row as int]@ =~= f[row as int]);
            }
            row = row + 1;
        }
        proof {
            let f = fill_image(img, x as int, y as int, w as int, h as int, color);
            assert forall|r: int| 0 <= r < height implies #[trigger] self@[r] == f[r] by {
                if r >= row {
                    assert(f[r] =~= img[r]);
                }
            }
            assert(self@ =~= f);
        }
    }

    /// The pixel at (`x`, `y`).
    pub fn pixel(&self, x: usize, y: usize) -> (c: Color)
        requires
            self.wf(),
            x < self.spec_width(),
            y < self.spec_height(),
        ensures
            c == self@[y as int][x as int],
    {
        assert(self@[y as int] == self.rows@[y as int]@);
        self.rows[y][x]
    }

    /// Write one pixel. Writes outside the screen are dropped, not wrapped.
    pub fn put_pixel(&mut self, x: usize, y: usize, color: Color)
        requires
            old(self).wf(),
        ensures
            final(self).wf(),
            final(self).spec_width() == old(self).spec_width(),
            final(self).spec_height() == old(self).spec_height(),
            final(self).spec_pitch() == old(self).spec_pitch(),
            final(self).spec_bpp() == old(self).spec_bpp(),
            final(self)@ == if x < old(self).spec_width() && y < old(self).spec_height() {
                old(self)@.update(y as int, old(self)@[y as int].update(x as int, color))
            } else {
                old(self)@
            },
    {
        if x >= self.width || y >= self.height {
            return;
        }
        let ghost img = self@;
        assert(img[y as int] == self.rows@[y as int]@);
        let mut line: Vec<u32> = Vec::new();
        self.rows.set_and_swap(y, &mut line);
        line.set(x, color);
        self.rows.set(y, line);
        assert(self@ =~= img.update(y as int, img[y as int].update(x as int, color)));
    }

    /// Shift the whole screen up by `px` scanlines and fill the gap at
    /// the bottom. A shift past the height fills the whole screen.
    pub fn scroll_up(&mut self, px: usize, fill: Color)
        requires
            old(self).wf(),
        ensures
            final(self).wf(),
            final(self).spec_width() == old(self).spec_width(),
            final(self).spec_height() == old(self).spec_height(),
            final(self).spec_pitch() == old(self).spec_pitch(),
            final(self).spec_bpp() == old(self).spec_bpp(),
            final(self)@ == scroll_image(old(self)@, px as int, fill, old(self).spec_width() as int),
    {
        let ghost img = self@;
        let height = self.height;
        let width = self.width;
        let px = if px < height { px } else { height };
        let moved = height - px;
        let mut r: usize = 0;
        while r < moved
            invariant
                self.width == old(self).width,
                self.height == old(self).height,
                self.pitch == old(self).pitch,
                self.bpp == old(self).bpp,
                height == self.height,
                width == self.width,
                img == old(self)@,
                is_image(img, width as int, height as int),
                moved + px == height,
                r <= moved,
                self.rows@.len() == height,
                forall|k: int| 0 <= k < r ==> #[trigger] self.rows@[k]@ == img[k + px],
                forall|k: int| r + px <= k < height ==> #[trigger] self.rows@[k]@ == img[k],
            decreases moved - r,
        {
            let mut line: Vec<u32> = Vec::new();
            self.rows.set_and_swap(r + px, &mut line);
            self.rows.set(r, line);
            r = r + 1;
        }
        let mut r: usize = moved;
        while r < height
            invariant
                self.width == old(self).width,
                self.height == old(self).height,
                self.pitch == old(self).pitch,
                self.bpp == old(self).bpp,
                height == self.height,
                width == self.width,
                img == old(self)@,
                is_image(img, width as int, height as int),
                moved + px == height,
                moved <= r <= height,
                self.rows@.len() == height,
                forall|k: int| 0 <= k < moved ==> #[trigger] self.rows@[k]@ == img[k + px],
                forall|k: int| moved <= k < r ==> #[trigger] self.rows@[k]@ == Seq::new(width as nat, |c: int| fill),
            decreases height - r,
        {
            let line = vec![fill; width];
            assert(line@ =~= Seq::new(width as nat, |c: int| fill));
            self.rows.set(r, line);
            r = r + 1;
        }
        assert(self@ =~= scroll_image(img, px as int, fill, width as int));
    }

    /// Wipe the whole screen to one color.
    pub fn clear(&mut self, color: Color)
        requires
            old(self).wf(),
        ensures
            final(self).wf(),
            final(self).spec_width() == old(self).spec_width(),
            final(self).spec_height() == old(self).spec_height(),
            final(self).spec_pitch() == old(self).spec_pitch(),
            final(self).spec_bpp() == old(self).spec_bpp(),
            final(self)@ == fill_image(old(self)@, 0, 0, old(self).spec_width() as int, old(self).spec_height() as int, color),
    {
        self.fill_rect(0, 0, self.width, self.height, color);
    }
}

/// Filling a rectangle paints exactly the pixels of the image that lie
/// in it: columns `x` up to but not including `x + w`, rows `y` up to but
/// not including `y + h`; every other pixel keeps its color, and the
/// image keeps its shape.
pub proof fn lemma_fill_pixels(img: Seq<Seq<u32>>, x: int, y: int, w: int, h: int, color: u32, r: int, col: int)
    requires
        0 <= r < img.len(),
        0 <= col < img[r].len(),
    ensures
        fill_image(img, x, y, w, h, color).len() == img.len(),
        fill_image(img, x, y, w, h, color)[r].len() == img[r].len(),
        fill_image(img, x, y, w, h, color)[r][col] == if 0 <= col - x < w && 0 <= r - y < h {
            color
        } else {
            img[r][col]
        },
{
}

/// Scrolling up by `px` rows moves each row up by `px` and fills the
/// `px` rows uncovered at the bottom, all `width` pixels of each, with
/// the fill color.
pub proof fn lemma_scroll_rows(img: Seq<Seq<u32>>, px: int, fill: u32, width: int, r: int, col: int)
    requires
        0 <= px,
        0 <= width,
        0 <= r < img.len(),
    ensures
        scroll_image(img, px, fill, width).len() == img.len(),
        r < img.len() - px ==> scroll_image(img, px, fill, width)[r] == img[r + px],
        r >= img.len() - px ==> scroll_image(img, px, fill, width)[r].len() == width,
        r >= img.len() - px && 0 <= col < width ==> scroll_image(img, px, fill, width)[r][col] == fill,
{
}

} // verus!
