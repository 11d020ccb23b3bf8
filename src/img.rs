use vstd::prelude::*;

use crate::canvas::{Canvas, Pixel};
use crate::dimension::Dimensions;
use crate::error::StitchError;
use crate::layout::{
    canvas_fits, canvas_height_of, canvas_width_of, compute_layout, lemma_cell_unique, layout_of,
    Layout,
};
use crate::write_direction::WriteDirection;

verus! {

/// The canvas has the size that the layout asks for.
pub open spec fn fits_layout(l: Layout, c: Canvas) -> bool {
    c.wf() && c.width == l.width && c.height == l.height
}

/// The image has exactly the layout's tile size.
pub open spec fn is_tile(l: Layout, img: Canvas) -> bool {
    img.wf() && img.width == l.tile.x && img.height == l.tile.y
}

/// Every image is a well-formed raster.
pub open spec fn all_wf(images: Seq<Canvas>) -> bool {
    forall|i: int| 0 <= i < images.len() ==> #[trigger] images[i].wf()
}

/// Every image has the layout's tile size.
pub open spec fn all_tiles(l: Layout, images: Seq<Canvas>) -> bool {
    forall|i: int| 0 <= i < images.len() ==> is_tile(l, #[trigger] images[i])
}

/// Pixel `(x, y)` after the images are composed over `before`: the matching
/// pixel of the image whose cell holds it, else the pixel of `before`.
pub open spec fn composed_pixel(l: Layout, before: Canvas, images: Seq<Canvas>, x: int, y: int) -> Pixel {
    let k = l.cell_at(x, y);
    if 0 <= k < images.len() {
        images[k].pixel(x - l.origin_x(k), y - l.origin_y(k))
    } else {
        before.pixel(x, y)
    }
}

/// Every pixel of `after` is what composing the images over `before` gives.
pub open spec fn is_composition(l: Layout, before: Canvas, images: Seq<Canvas>, after: Canvas) -> bool {
    &&& fits_layout(l, after)
    &&& forall|x: int, y: int|
        0 <= x < l.width && 0 <= y < l.height ==> #[trigger] after.pixel(x, y) == composed_pixel(
            l,
            before,
            images,
            x,
            y,
        )
}

/// Copies the `k`-th image into its cell; an image of another size than the
/// tile is refused and the canvas left as it was.
pub fn place_image(canvas: &mut Canvas, layout: &Layout, k: usize, image: &Canvas) -> (r: Result<
    (),
    StitchError,
>)
    requires
        layout.wf(),
        fits_layout(*layout, *old(canvas)),
        image.wf(),
        k < layout.image_count,
    ensures
        fits_layout(*layout, *final(canvas)),
        (image.width == layout.tile.x && image.height == layout.tile.y) <==> r is Ok,
        r is Err ==> r == Err::<(), StitchError>(StitchError::DimensionMismatch) && *final(canvas)
            == *old(canvas),
        r is Ok ==> forall|x: int, y: int|
            0 <= x < layout.width && 0 <= y < layout.height ==> #[trigger] final(canvas).pixel(x, y)
                == (if layout.in_cell(k as int, x, y) {
                image.pixel(x - layout.origin_x(k as int), y - layout.origin_y(k as int))
            } else {
                old(canvas).pixel(x, y)
            }),
{
    if image.width != layout.tile.x || image.height != layout.tile.y {
        return Err(StitchError::DimensionMismatch);
    }
    let (ox, oy) = layout.cell_origin(k);
    canvas.place_tile(image, ox, oy);
    Ok(())
}

/// Composes the images, in order, into their cells of the canvas. Fails,
/// leaving the canvas untouched, when an image is not of the tile's size.
pub fn process_images(images: &Vec<Canvas>, layout: &Layout, canvas: &mut Canvas) -> (r: Result<
    (),
    StitchError,
>)
    requires
        layout.wf(),
        fits_layout(*layout, *old(canvas)),
        images@.len() == layout.image_count,
        all_wf(images@),
    ensures
        all_tiles(*layout, images@) <==> r is Ok,
        r is Err ==> r == Err::<(), StitchError>(StitchError::DimensionMismatch) && *final(canvas)
            == *old(canvas),
        r is Ok ==> is_composition(*layout, *old(canvas), images@, *final(canvas)),
{
    let mut i: usize = 0;
    while i < images.len()
        invariant
            0 <= i <= images@.len(),
            forall|j: int| 0 <= j < i ==> is_tile(*layout, #[trigger] images@[j]),
            all_wf(images@),
        decreases images@.len() - i,
    {
        if images[i].width != layout.tile.x || images[i].height != layout.tile.y {
            return Err(StitchError::DimensionMismatch);
        }
        i = i + 1;
    }
    let ghost before = *canvas;
    let mut k: usize = 0;
    while k < images.len()
        invariant
            0 <= k <= images@.len(),
            images@.len() == layout.image_count,
            layout.wf(),
            all_wf(images@),
            all_tiles(*layout, images@),
            before == *old(canvas),
            fits_layout(*layout, *canvas),
            forall|x: int, y: int|
                0 <= x < layout.width && 0 <= y < layout.height ==> #[trigger] canvas.pixel(x, y)
                    == (if 0 <= layout.cell_at(x, y) < k {
                    images@[layout.cell_at(x, y)].pixel(
                        x - layout.origin_x(layout.cell_at(x, y)),
                        y - layout.origin_y(layout.cell_at(x, y)),
                    )
                } else {
                    before.pixel(x, y)
                }),
        decreases images@.len() - k,
    {
        let ghost prev = *canvas;
        let (ox, oy) = layout.cell_origin(k);
        canvas.place_tile(&images[k], ox, oy);
        proof {
            assert forall|x: int, y: int|
                0 <= x < layout.width && 0 <= y < layout.height implies #[trigger] canvas.pixel(x, y)
                == (if 0 <= layout.cell_at(x, y) < k + 1 {
                images@[layout.cell_at(x, y)].pixel(
                    x - layout.origin_x(layout.cell_at(x, y)),
                    y - layout.origin_y(layout.cell_at(x, y)),
                )
            } else {
                before.pixel(x, y)
            }) by {
                lemma_cell_unique(*layout, k as int, x, y);
                assert(prev.pixel(x, y) == (if 0 <= layout.cell_at(x, y) < k {
                    images@[layout.cell_at(x, y)].pixel(
                        x - layout.origin_x(layout.cell_at(x, y)),
                        y - layout.origin_y(layout.cell_at(x, y)),
                    )
                } else {
                    before.pixel(x, y)
                }));
            }
        }
        k = k + 1;
    }
    Ok(())
}

/// The pixel extent along the major axis: the given maximum, else one pixel.
pub open spec fn max_or_default(max: Option<u32>) -> int {
    match max {
        Some(m) => m as int,
        None => 1,
    }
}

/// The tile size of a run: that of its first image.
pub open spec fn first_dims(images: Seq<Canvas>) -> Dimensions {
    Dimensions { x: images[0].width, y: images[0].height }
}

/// The layout of a run over `images`.
pub open spec fn sheet_layout(images: Seq<Canvas>, max: Option<u32>, d: WriteDirection) -> Layout {
    layout_of(images.len() as int, max_or_default(max), first_dims(images), d)
}

/// The canvas of a run fits the layout and the machine's integers.
pub open spec fn sheet_fits(images: Seq<Canvas>, max: Option<u32>, d: WriteDirection) -> bool {
    let n = images.len() as int;
    let m = max_or_default(max);
    let t = first_dims(images);
    canvas_fits(n, m, t, d) && canvas_width_of(n, m, t, d) * canvas_height_of(n, m, t, d)
        <= usize::MAX
}

/// `sheet` is the contact sheet of `images`: each pixel comes from the image
/// whose cell holds it, and pixels of unused cells are zero.
pub open spec fn is_sheet(images: Seq<Canvas>, max: Option<u32>, d: WriteDirection, sheet: Canvas) -> bool {
    let l = sheet_layout(images, max, d);
    &&& fits_layout(l, sheet)
    &&& forall|x: int, y: int|
        0 <= x < l.width && 0 <= y < l.height ==> #[trigger] sheet.pixel(x, y) == (if 0 <= l.cell_at(
            x,
            y,
        ) < images.len() {
            images[l.cell_at(x, y)].pixel(
                x - l.origin_x(l.cell_at(x, y)),
                y - l.origin_y(l.cell_at(x, y)),
            )
        } else {
            [0u8, 0u8, 0u8, 0u8]
        })
}

/// Lays out the images, in order, on a fresh canvas, taking the tile size
/// from the first image and `max` (one pixel if absent) as the extent along
/// the major axis.
pub fn stitch(images: &Vec<Canvas>, max: Option<u32>, direction: WriteDirection) -> (r: Result<
    Canvas,
    StitchError,
>)
    requires
        all_wf(images@),
    ensures
        images@.len() == 0 ==> r == Err::<Canvas, StitchError>(StitchError::EmptyInput),
        images@.len() > 0 && !first_dims(images@).wf() ==> r == Err::<Canvas, StitchError>(
            StitchError::EmptyImage,
        ),
        images@.len() > 0 && first_dims(images@).wf() && !sheet_fits(images@, max, direction)
            ==> r == Err::<Canvas, StitchError>(StitchError::CanvasTooLarge),
        images@.len() > 0 && first_dims(images@).wf() && sheet_fits(images@, max, direction)
            && !all_tiles(sheet_layout(images@, max, direction), images@) ==> r == Err::<
            Canvas,
            StitchError,
        >(StitchError::DimensionMismatch),
        images@.len() > 0 && first_dims(images@).wf() && sheet_fits(images@, max, direction)
            && all_tiles(sheet_layout(images@, max, direction), images@) ==> (r matches Ok(c)
            && is_sheet(images@, max, direction, c)),
{
    if images.len() == 0 {
        return Err(StitchError::EmptyInput);
    }
    let dims = match Dimensions::from_tuple((images[0].width, images[0].height)) {
        Some(d) => d,
        None => {
            return Err(StitchError::EmptyImage);
        },
    };
    let max_extent: u32 = match max {
        Some(m) => m,
        None => 1,
    };
    let layout = match compute_layout(images.len(), dims, max_extent, direction) {
        Ok(l) => l,
        Err(e) => {
            return Err(e);
        },
    };
    proof {
        assert((layout.width as u128) * (layout.height as u128) <= 0xffff_ffff * 0xffff_ffff)
            by (nonlinear_arith)
            requires
                layout.width <= 0xffff_ffff,
                layout.height <= 0xffff_ffff,
        ;
    }
    if (layout.width as u128) * (layout.height as u128) > usize::MAX as u128 {
        return Err(StitchError::CanvasTooLarge);
    }
    let mut canvas = Canvas::new(layout.width, layout.height);
    let ghost blank = canvas;
    match process_images(images, &layout, &mut canvas) {
        Ok(()) => {
            proof {
                assert forall|x: int, y: int|
                    0 <= x < layout.width && 0 <= y < layout.height implies #[trigger] canvas.pixel(
                    x,
                    y,
                ) == (if 0 <= layout.cell_at(x, y) < images@.len() {
                    images@[layout.cell_at(x, y)].pixel(
                        x - layout.origin_x(layout.cell_at(x, y)),
                        y - layout.origin_y(layout.cell_at(x, y)),
                    )
                } else {
                    [0u8, 0u8, 0u8, 0u8]
                }) by {
                    assert(blank.pixel(x, y) == [0u8, 0u8, 0u8, 0u8]);
                    assert(canvas.pixel(x, y) == composed_pixel(layout, blank, images@, x, y));
                }
            }
            Ok(canvas)
        },
        Err(e) => Err(e),
    }
}

/// Two runs on the same images with the same parameters give byte-identical
/// canvases.
pub proof fn lemma_stitch_deterministic(
    images: Seq<Canvas>,
    max: Option<u32>,
    d: WriteDirection,
    c1: Canvas,
    c2: Canvas,
)
    requires
        is_sheet(images, max, d, c1),
        is_sheet(images, max, d, c2),
    ensures
        c1.width == c2.width,
        c1.height == c2.height,
        c1.pixels@ == c2.pixels@,
{
    let w = c1.width as int;
    let h = c1.height as int;
    assert forall|i: int| 0 <= i < c1.pixels@.len() implies c1.pixels@[i] == c2.pixels@[i] by {
        let x = i % w;
        let y = i / w;
        assert(w > 0) by (nonlinear_arith)
            requires
                0 <= i < w * h,
                w >= 0,
                h >= 0,
        ;
        vstd::arithmetic::div_mod::lemma_fundamental_div_mod(i, w);
        assert(0 <= x < w);
        assert(0 <= y < h && i == y * w + x) by (nonlinear_arith)
            requires
                i == w * (i / w) + (i % w),
                0 <= i < w * h,
                0 <= i % w < w,
                y == i / w,
                x == i % w,
        ;
        assert(c1.pixel(x, y) == c2.pixel(x, y));
    }
    assert(c1.pixels@ =~= c2.pixels@);
}

/// Composing the same images again over a composed canvas changes no pixel.
pub proof fn lemma_composition_idempotent(l: Layout, before: Canvas, images: Seq<Canvas>, once: Canvas)
    requires
        is_composition(l, before, images, once),
    ensures
        is_composition(l, once, images, once),
{
}

} // verus!
