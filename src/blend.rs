//! Compositing a foreground raster onto a background raster.

use vstd::prelude::*;

use crate::color::{blend_channel, blend_color_spec, lemma_blend_color_extremes, Strength, RGBA};
use crate::image::{Image, ImageModel, ImagePixel};

verus! {

/// The output color at background index `i`: the blend of the background
/// color with the foreground color that the offset maps onto it, or the
/// background color where no foreground pixel lies.
pub open spec fn composite_color(
    bg: ImageModel,
    fg: ImageModel,
    offset: (i32, i32),
    s: Strength,
    i: int,
) -> RGBA {
    let p = bg.pixel_of_index(i);
    match fg.color_at(p.x - offset.0, p.y - offset.1) {
        Some(c) => blend_color_spec(bg.colors[i], c, s),
        None => bg.colors[i],
    }
}

/// The background with the foreground composited onto it.
pub open spec fn composite(bg: ImageModel, fg: ImageModel, offset: (i32, i32), s: Strength) -> ImageModel {
    ImageModel {
        width: bg.width,
        height: bg.height,
        colors: Seq::new(bg.colors.len(), |i: int| composite_color(bg, fg, offset, s, i)),
    }
}

/// Blends the colors of two pixels, keeping the position of the first.
pub fn blend_pixels(pixel: ImagePixel, alpha: Strength, foreground_pixel: ImagePixel) -> (r: ImagePixel)
    requires
        alpha.wf(),
    ensures
        r.x == pixel.x,
        r.y == pixel.y,
        r.color == blend_color_spec(pixel.color, foreground_pixel.color, alpha),
{
    let bg = pixel.color;
    let fg = foreground_pixel.color;
    let r = blend_channel(bg.r, fg.r, alpha);
    let g = blend_channel(bg.g, fg.g, alpha);
    let b = blend_channel(bg.b, fg.b, alpha);
    let a = blend_channel(bg.a, fg.a, alpha);
    ImagePixel { x: pixel.x, y: pixel.y, color: RGBA { r, g, b, a } }
}

/// A new buffer, the size of `background`, holding `foreground` placed at
/// `offset` and blended with strength `alpha`.
pub fn alpha_blend(background: Image, foreground: Image, offset: (i32, i32), alpha: Strength) -> (r: Image)
    requires
        background@.wf(),
        foreground@.wf(),
        alpha.wf(),
    ensures
        r@.wf(),
        r@.width == background@.width,
        r@.height == background@.height,
        r@ == composite(background@, foreground@, offset, alpha),
{
    let background_pixels = background.pixels();
    let ghost target = composite(background@, foreground@, offset, alpha);
    let mut colors: Vec<RGBA> = Vec::new();
    let n = background_pixels.len();
    let mut i: usize = 0;
    while i < n
        invariant
            foreground@.wf(),
            alpha.wf(),
            n == background@.colors.len(),
            background_pixels@ == background@.enumeration(),
            target == composite(background@, foreground@, offset, alpha),
            i <= n,
            colors@ == target.colors.take(i as int),
        decreases n - i,
    {
        let pixel = background_pixels[i];
        let x = pixel.x as i64 - offset.0 as i64;
        let y = pixel.y as i64 - offset.1 as i64;
        let out = match foreground.lookup(x, y) {
            Some(foreground_pixel) => blend_pixels(pixel, alpha, foreground_pixel),
            None => pixel,
        };
        colors.push(out.color);
        assert(colors@ =~= target.colors.take(i + 1));
        i = i + 1;
    }
    assert(colors@ =~= target.colors);
    let blended = Image::new(background.width(), background.height(), colors);
    blended.unwrap()
}

/// Replaces `background` with its blend with `foreground` placed at `offset`.
pub fn alpha_blend_mut(background: &mut Image, foreground: Image, offset: (i32, i32), alpha: Strength)
    requires
        old(background)@.wf(),
        foreground@.wf(),
        alpha.wf(),
    ensures
        final(background)@.wf(),
        final(background)@ == composite(old(background)@, foreground@, offset, alpha),
{
    let mut previous = Image::new(0, 0, Vec::new()).unwrap();
    std::mem::swap(&mut previous, background);
    *background = alpha_blend(previous, foreground, offset, alpha);
}

/// Blending with strength zero leaves the background as it was, whatever the
/// foreground and the offset.
pub proof fn lemma_zero_strength_keeps_background(
    background: Image,
    foreground: Image,
    offset: (i32, i32),
    alpha: Strength,
)
    requires
        alpha.wf(),
        alpha.num == 0,
    ensures
        composite(background@, foreground@, offset, alpha) == background@,
{
    let out = composite(background@, foreground@, offset, alpha);
    assert forall|i: int| 0 <= i < background@.colors.len() implies out.colors[i]
        == background@.colors[i] by {
        let p = background@.pixel_of_index(i);
        if let Some(c) = foreground@.color_at(p.x - offset.0, p.y - offset.1) {
            lemma_blend_color_extremes(background@.colors[i], c, alpha);
        }
    }
    assert(out.colors =~= background@.colors);
}

/// Blending with full strength gives each background pixel that the
/// foreground covers exactly the foreground color, and keeps the others.
pub proof fn lemma_full_strength_takes_foreground(
    background: Image,
    foreground: Image,
    offset: (i32, i32),
    alpha: Strength,
)
    requires
        alpha.wf(),
        alpha.num == alpha.den,
    ensures
        ({
            let out = composite(background@, foreground@, offset, alpha);
            forall|i: int|
                0 <= i < background@.colors.len() ==> {
                    let p = #[trigger] background@.pixel_of_index(i);
                    out.colors[i] == match foreground@.color_at(p.x - offset.0, p.y - offset.1) {
                        Some(c) => c,
                        None => background@.colors[i],
                    }
                }
        }),
{
    let out = composite(background@, foreground@, offset, alpha);
    assert forall|i: int| 0 <= i < background@.colors.len() implies {
        let p = #[trigger] background@.pixel_of_index(i);
        out.colors[i] == match foreground@.color_at(p.x - offset.0, p.y - offset.1) {
            Some(c) => c,
            None => background@.colors[i],
        }
    } by {
        let p = background@.pixel_of_index(i);
        if let Some(c) = foreground@.color_at(p.x - offset.0, p.y - offset.1) {
            lemma_blend_color_extremes(background@.colors[i], c, alpha);
        }
    }
}

/// A foreground without area covers nothing: the background comes back
/// unchanged, whatever the offset and the strength.
pub proof fn lemma_empty_foreground_keeps_background(
    background: Image,
    foreground: Image,
    offset: (i32, i32),
    alpha: Strength,
)
    requires
        foreground@.width == 0 || foreground@.height == 0,
    ensures
        forall|x: int, y: int| #[trigger] foreground@.color_at(x, y) is None,
        composite(background@, foreground@, offset, alpha) == background@,
{
    let out = composite(background@, foreground@, offset, alpha);
    assert(out.colors =~= background@.colors);
}

} // verus!
