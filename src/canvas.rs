use vstd::arithmetic::div_mod::lemma_fundamental_div_mod_converse;
use vstd::prelude::*;

verus! {

/// One pixel: red, green, blue and alpha channels.
pub type Pixel = [u8; 4];

/// A raster stored row by row: pixel `(x, y)` is `pixels[y * width + x]`.
#[derive(Clone, Debug)]
pub struct Canvas {
    pub width: u32,
    pub height: u32,
    pub pixels: Vec<Pixel>,
}

/// `y * w + x` addresses a pixel inside a `w` by `h` raster.
pub proof fn lemma_index_in_range(w: int, h: int, x: int, y: int)
    requires
        0 <= x < w,
        0 <= y < h,
    ensures
        0 <= y * w <= y * w + x < w * h,
{
    assert(0 <= y * w <= y * w + x < w * h) by (nonlinear_arith)
        requires
            0 <= x < w,
            0 <= y < h,
    ;
}

/// Distinct pixels of a row-by-row raster have distinct indices.
pub proof fn lemma_index_unique(w: int, x1: int, y1: int, x2: int, y2: int)
    requires
        0 <= x1 < w,
        0 <= x2 < w,
    ensures
        (y1 * w + x1 == y2 * w + x2) <==> (x1 == x2 && y1 == y2),
{
    if y1 * w + x1 == y2 * w + x2 {
        lemma_fundamental_div_mod_converse(y1 * w + x1, w, y1, x1);
        lemma_fundamental_div_mod_converse(y2 * w + x2, w, y2, x2);
    }
}

impl Canvas {
    /// The pixel buffer holds exactly `width * height` pixels.
    pub open spec fn wf(self) -> bool {
        self.pixels@.len() == self.width * self.height
    }

    /// Pixel `(x, y)`.
    pub open spec fn pixel(self, x: int, y: int) -> Pixel {
        self.pixels@[y * self.width + x]
    }

    /// A `width` by `height` canvas whose pixels are all zero (transparent black).
    pub fn new(width: u32, height: u32) -> (c: Canvas)
        requires
            width * height <= usize::MAX,
        ensures
            c.wf(),
            c.width == width,
            c.height == height,
            forall|x: int, y: int|
                0 <= x < width && 0 <= y < height ==> #[trigger] c.pixel(x, y) == [0u8, 0u8, 0u8, 0u8],
    {
        let n: usize = (width as usize) * (height as usize);
        let mut pixels: Vec<Pixel> = Vec::new();
        while pixels.len() < n
            invariant
                pixels@.len() <= n,
                forall|i: int| 0 <= i < pixels@.len() ==> #[trigger] pixels@[i] == [0u8, 0u8, 0u8, 0u8],
            decreases n - pixels@.len(),
        {
            pixels.push([0u8, 0u8, 0u8, 0u8]);
        }
        let c = Canvas { width, height, pixels };
        assert forall|x: int, y: int| 0 <= x < width && 0 <= y < height implies #[trigger] c.pixel(
            x,
            y,
        ) == [0u8, 0u8, 0u8, 0u8] by {
            lemma_index_in_range(width as int, height as int, x, y);
        }
        c
    }

    /// A canvas over the given row-by-row pixels; `None` when their number is
    /// not `width * height`.
    pub fn from_pixels(width: u32, height: u32, pixels: Vec<Pixel>) -> (r: Option<Canvas>)
        ensures
            (pixels@.len() == width * height) <==> r.is_some(),
            r matches Some(c) ==> c.wf() && c.width == width && c.height == height && c.pixels@
                == pixels@,
    {
        proof {
            assert((width as u128) * (height as u128) <= 0xffff_ffff * 0xffff_ffff) by (nonlinear_arith)
                requires
                    width <= 0xffff_ffff,
                    height <= 0xffff_ffff,
            ;
        }
        if (pixels.len() as u128) == (width as u128) * (height as u128) {
            Some(Canvas { width, height, pixels })
        } else {
            None
        }
    }

    /// Reads pixel `(x, y)`.
    pub fn get_pixel(&self, x: u32, y: u32) -> (p: Pixel)
        requires
            self.wf(),
            x < self.width,
            y < self.height,
        ensures
            p == self.pixel(x as int, y as int),
    {
        let _len = self.pixels.len();
        proof {
            lemma_index_in_range(self.width as int, self.height as int, x as int, y as int);
        }
        self.pixels[(y as usize) * (self.width as usize) + (x as usize)]
    }

    /// Overwrites the rectangle at `(ox, oy)` with the pixels of `tile`; every
    /// other pixel keeps its value.
    pub fn place_tile(&mut self, tile: &Canvas, ox: u32, oy: u32)
        requires
            old(self).wf(),
            tile.wf(),
            ox + tile.width <= old(self).width,
            oy + tile.height <= old(self).height,
        ensures
            final(self).wf(),
            final(self).width == old(self).width,
            final(self).height == old(self).height,
            forall|x: int, y: int|
                0 <= x < final(self).width && 0 <= y < final(self).height ==> #[trigger] final(self).pixel(x, y) == (if ox <= x < ox + tile.width && oy <= y < oy + tile.height {
                    tile.pixel(x - ox, y - oy)
                } else {
                    old(self).pixel(x, y)
                }),
    {
        let w = self.width;
        let h = self.height;
        let tw = tile.width;
        let th = tile.height;
        let len = self.pixels.len();
        let tile_len = tile.pixels.len();
        let mut ty: u32 = 0;
        while ty < th
            invariant
                self.wf(),
                tile.wf(),
                self.width == w,
                self.height == h,
                w == old(self).width,
                h == old(self).height,
                tw == tile.width,
                th == tile.height,
                ox + tw <= w,
                oy + th <= h,
                0 <= ty <= th,
                len == self.pixels@.len(),
                tile_len == tile.pixels@.len(),
                forall|x: int, y: int|
                    0 <= x < w && 0 <= y < h ==> #[trigger] self.pixel(x, y) == if ox <= x < ox + tw
                        && oy <= y < oy + ty {
                        tile.pixel(x - ox, y - oy)
                    } else {
                        old(self).pixel(x, y)
                    },
            decreases th - ty,
        {
            let mut tx: u32 = 0;
            while tx < tw
                invariant
                    self.wf(),
                    tile.wf(),
                    self.width == w,
                    self.height == h,
                    w == old(self).width,
                    h == old(self).height,
                    tw == tile.width,
                    th == tile.height,
                    ox + tw <= w,
                    oy + th <= h,
                    0 <= ty < th,
                    0 <= tx <= tw,
                    len == self.pixels@.len(),
                    tile_len == tile.pixels@.len(),
                    forall|x: int, y: int|
                        0 <= x < w && 0 <= y < h ==> #[trigger] self.pixel(x, y) == if ox <= x < ox
                            + tw && (oy <= y < oy + ty || (y == oy + ty && x < ox + tx)) {
                            tile.pixel(x - ox, y - oy)
                        } else {
                            old(self).pixel(x, y)
                        },
                decreases tw - tx,
            {
                proof {
                    lemma_index_in_range(tw as int, th as int, tx as int, ty as int);
                    lemma_index_in_range(w as int, h as int, (ox + tx) as int, (oy + ty) as int);
                }
                let src = tile.pixels[(ty as usize) * (tw as usize) + (tx as usize)];
                let di = ((oy + ty) as usize) * (w as usize) + ((ox + tx) as usize);
                let ghost prev_canvas = *self;
                let ghost prev = self.pixels@;
                self.pixels.set(di, src);
                proof {
                    assert forall|x: int, y: int| 0 <= x < w && 0 <= y < h implies #[trigger] self.pixel(
                        x,
                        y,
                    ) == if ox <= x < ox + tw && (oy <= y < oy + ty || (y == oy + ty && x < ox + tx
                        + 1)) {
                        tile.pixel(x - ox, y - oy)
                    } else {
                        old(self).pixel(x, y)
                    } by {
                        lemma_index_unique(w as int, x, y, (ox + tx) as int, (oy + ty) as int);
                        lemma_index_in_range(w as int, h as int, x, y);
                        assert(prev_canvas.pixel(x, y) == prev[y * w + x]);
                        assert(prev_canvas.pixel(x, y) == if ox <= x < ox + tw && (oy <= y < oy + ty || (y
                            == oy + ty && x < ox + tx)) {
                            tile.pixel(x - ox, y - oy)
                        } else {
                            old(self).pixel(x, y)
                        });
                    }
                }
                tx = tx + 1;
            }
            ty = ty + 1;
        }
    }
}

} // verus!
