//! Row-major raster buffers and coordinate-indexed access to them.

use vstd::prelude::*;

use crate::color::RGBA;

verus! {

/// The mathematical content of an [`Image`].
pub struct ImageModel {
    pub width: nat,
    pub height: nat,
    pub colors: Seq<RGBA>,
}

impl ImageModel {
    /// The pixel sequence holds exactly one color per position.
    pub open spec fn wf(self) -> bool {
        self.colors.len() == self.width * self.height
    }

    pub open spec fn in_bounds(self, x: int, y: int) -> bool {
        0 <= x < self.width && 0 <= y < self.height
    }

    /// The row-major index of position `(x, y)`.
    pub open spec fn index_of(self, x: int, y: int) -> int {
        y * self.width + x
    }

    /// The color at `(x, y)`, absent outside the buffer.
    pub open spec fn color_at(self, x: int, y: int) -> Option<RGBA> {
        if self.in_bounds(x, y) {
            Some(self.colors[self.index_of(x, y)])
        } else {
            None
        }
    }

    /// The positioned pixel stored at linear index `i`.
    pub open spec fn pixel_of_index(self, i: int) -> ImagePixel {
        ImagePixel {
            x: (i % self.width as int) as u32,
            y: (i / self.width as int) as u32,
            color: self.colors[i],
        }
    }

    /// Every stored color with its position, in increasing index order.
    pub open spec fn enumeration(self) -> Seq<ImagePixel> {
        Seq::new(self.colors.len(), |i: int| self.pixel_of_index(i))
    }
}

/// A raster of `width * height` colors stored row by row.
#[derive(Clone, Debug)]
pub struct Image {
    width: u32,
    height: u32,
    pixels: Vec<RGBA>,
}

/// A color read from a buffer together with its position.
#[derive(Clone, Copy, Debug, PartialEq, Eq, Structural)]
pub struct ImagePixel {
    pub x: u32,
    pub y: u32,
    pub color: RGBA,
}

impl View for Image {
    type V = ImageModel;

    closed spec fn view(&self) -> ImageModel {
        ImageModel { width: self.width as nat, height: self.height as nat, colors: self.pixels@ }
    }
}

impl Image {
    /// A buffer of the given size, or `None` when `pixels` does not hold
    /// exactly `width * height` colors.
    pub fn new(width: u32, height: u32, pixels: Vec<RGBA>) -> (r: Option<Image>)
        ensures
            r is Some <==> pixels@.len() == width * height,
            r matches Some(img) ==> img@.wf() && img@.width == width && img@.height == height
                && img@.colors == pixels@,
    {
        assert((width as u64) * (height as u64) <= 0xffff_ffffu64 * 0xffff_ffffu64)
            by (nonlinear_arith);
        if (width as u64) * (height as u64) == pixels.len() as u64 {
            Some(Image { width, height, pixels })
        } else {
            None
        }
    }

    pub fn width(&self) -> (r: u32)
        ensures
            r == self@.width,
    {
        self.width
    }

    pub fn height(&self) -> (r: u32)
        ensures
            r == self@.height,
    {
        self.height
    }

    /// The stored colors in row-major order.
    pub fn colors(&self) -> (r: &Vec<RGBA>)
        ensures
            r@ == self@.colors,
    {
        &self.pixels
    }

    /// The pixel at a position given as wide signed integers; absent when
    /// either coordinate is negative or past the buffer's edge.
    pub fn lookup(&self, x: i64, y: i64) -> (r: Option<ImagePixel>)
        requires
            self@.wf(),
        ensures
            r is Some <==> self@.in_bounds(x as int, y as int),
            r matches Some(p) ==> p.x == x && p.y == y && p.color == self@.colors[self@.index_of(
                x as int,
                y as int,
            )],
    {
        if x < 0 || y < 0 {
            return None;
        }
        if (x as u64) < (self.width as u64) && (y as u64) < (self.height as u64) {
            let n = self.pixels.len();
            let w = self.width as usize;
            let h = self.height as usize;
            let xu = x as usize;
            let yu = y as usize;
            proof {
                lemma_index_in_range(xu as int, yu as int, w as int, h as int);
            }
            let index = yu * w + xu;
            Some(ImagePixel { x: xu as u32, y: yu as u32, color: self.pixels[index] })
        } else {
            None
        }
    }

    /// The pixel at `(x, y)`; absent when either coordinate is negative or
    /// past the buffer's edge.
    pub fn pixel_at(&self, x: i32, y: i32) -> (r: Option<ImagePixel>)
        requires
            self@.wf(),
        ensures
            (x < 0 || y < 0) ==> r is None,
            r is Some <==> self@.in_bounds(x as int, y as int),
            r matches Some(p) ==> p.x == x && p.y == y && p.color == self@.colors[self@.index_of(
                x as int,
                y as int,
            )],
    {
        self.lookup(x as i64, y as i64)
    }

    /// The position `(index % width, index / width)` of a linear index.
    pub fn index_to_coords(&self, index: usize) -> (r: (u32, u32))
        requires
            self@.wf(),
            self@.width > 0,
            index < self@.colors.len(),
        ensures
            r.0 == index as int % self@.width as int,
            r.1 == index as int / self@.width as int,
    {
        let w = self.width as usize;
        proof {
            lemma_div_below_height(index as int, w as int, self.height as int);
        }
        let x = index % w;
        let y = index / w;
        (x as u32, y as u32)
    }

    /// Every stored color with its position, in row-major order.
    pub fn pixels(&self) -> (r: Vec<ImagePixel>)
        requires
            self@.wf(),
        ensures
            r@ == self@.enumeration(),
    {
        let mut out: Vec<ImagePixel> = Vec::new();
        let n = self.pixels.len();
        let mut index: usize = 0;
        while index < n
            invariant
                self@.wf(),
                n == self@.colors.len(),
                index <= n,
                out@ == self@.enumeration().take(index as int),
            decreases n - index,
        {
            proof {
                if self.width == 0 {
                    assert(self@.colors.len() == 0) by (nonlinear_arith)
                        requires
                            self@.colors.len() == self@.width * self@.height,
                            self@.width == 0,
                    ;
                }
            }
            let (x, y) = self.index_to_coords(index);
            out.push(ImagePixel { x, y, color: self.pixels[index] });
            assert(out@ =~= self@.enumeration().take(index + 1));
            index = index + 1;
        }
        assert(out@ =~= self@.enumeration());
        out
    }
}

/// Enumeration yields `width * height` pixels in row-major order: the pixel
/// at index `y * width + x` is the one at `(x, y)`, and no two indices share
/// a position.
pub proof fn lemma_enumeration_row_major(img: Image)
    requires
        img@.wf(),
    ensures
        img@.enumeration().len() == img@.width * img@.height,
        forall|x: int, y: int|
            #![trigger img@.index_of(x, y)]
            img@.in_bounds(x, y) ==> {
                let p = img@.enumeration()[img@.index_of(x, y)];
                &&& p.x == x
                &&& p.y == y
                &&& img@.color_at(x, y) == Some(p.color)
            },
        forall|i: int, j: int|
            0 <= i < j < img@.enumeration().len() ==> {
                let p = #[trigger] img@.enumeration()[i];
                let q = #[trigger] img@.enumeration()[j];
                p.x != q.x || p.y != q.y
            },
{
    let m = img@;
    let w = m.width as int;
    let h = m.height as int;
    assert forall|x: int, y: int|
        #![trigger m.index_of(x, y)]
        m.in_bounds(x, y) implies {
            let p = m.enumeration()[m.index_of(x, y)];
            &&& p.x == x
            &&& p.y == y
            &&& m.color_at(x, y) == Some(p.color)
        } by {
        lemma_index_in_range(x, y, w, h);
        vstd::arithmetic::div_mod::lemma_fundamental_div_mod_converse(y * w + x, w, y, x);
    }
    assert forall|i: int, j: int|
        0 <= i < j < m.enumeration().len() implies {
            let p = #[trigger] m.enumeration()[i];
            let q = #[trigger] m.enumeration()[j];
            p.x != q.x || p.y != q.y
        } by {
        assert(w > 0) by (nonlinear_arith)
            requires
                0 <= i < j < w * h,
                w >= 0,
                h >= 0,
        ;
        lemma_div_below_height(i, w, h);
        lemma_div_below_height(j, w, h);
        vstd::arithmetic::div_mod::lemma_fundamental_div_mod(i, w);
        vstd::arithmetic::div_mod::lemma_fundamental_div_mod(j, w);
    }
}

proof fn lemma_index_in_range(x: int, y: int, w: int, h: int)
    requires
        0 <= x < w,
        0 <= y < h,
    ensures
        0 <= y * w + x < w * h,
{
    assert(y * w + x < w * h) by (nonlinear_arith)
        requires
            0 <= x < w,
            0 <= y < h,
    ;
    assert(0 <= y * w) by (nonlinear_arith)
        requires
            0 <= y,
            0 <= w,
    ;
}

proof fn lemma_div_below_height(i: int, w: int, h: int)
    requires
        0 <= i < w * h,
        0 < w,
    ensures
        0 <= i % w < w,
        0 <= i / w < h,
{
    vstd::arithmetic::div_mod::lemma_fundamental_div_mod(i, w);
    let q = i / w;
    let m = i % w;
    assert(0 <= q < h) by (nonlinear_arith)
        requires
            i == w * q + m,
            0 <= m < w,
            0 <= i < w * h,
            0 < w,
    ;
}

} // verus!
