//! The mutation target of the corner-rounding core: a width x height grid of
//! RGBA pixels, stored row-major, viewed as a `Seq<Pixel>`.

use vstd::prelude::*;

verus! {

/// One RGBA pixel; each channel is an 8-bit value.
#[derive(Clone, Copy, PartialEq, Eq, Structural, Debug)]
pub struct Pixel {
    pub r: u8,
    pub g: u8,
    pub b: u8,
    pub a: u8,
}

/// `p` with its alpha channel replaced and the colour channels kept.
pub open spec fn with_alpha(p: Pixel, a: u8) -> Pixel {
    Pixel { r: p.r, g: p.g, b: p.b, a: a }
}

/// Position of pixel `(x, y)` in the row-major sequence of a buffer of width `w`.
pub open spec fn pix_index(w: int, x: int, y: int) -> int {
    y * w + x
}

/// A row-major pixel index is in bounds whenever the coordinates are.
pub proof fn lemma_pix_index_bounds(w: int, h: int, x: int, y: int)
    by (nonlinear_arith)
    requires
        0 <= x < w,
        0 <= y < h,
    ensures
        0 <= y * w + x < w * h,
{
}

/// Distinct coordinates give distinct row-major indices.
pub proof fn lemma_pix_index_injective(w: int, x1: int, y1: int, x2: int, y2: int)
    by (nonlinear_arith)
    requires
        0 <= x1 < w,
        0 <= x2 < w,
        0 <= y1,
        0 <= y2,
        y1 * w + x1 == y2 * w + x2,
    ensures
        x1 == x2,
        y1 == y2,
{
}

/// An owned grid of RGBA pixels. The corner-rounding core mutates only the
/// alpha channel; decoding a container format into this shape and encoding it
/// back are the callers' business.
pub struct PixelBuffer {
    width: u32,
    height: u32,
    data: Vec<Pixel>,
}

impl View for PixelBuffer {
    type V = Seq<Pixel>;

    closed spec fn view(&self) -> Seq<Pixel> {
        self.data@
    }
}

impl PixelBuffer {
    pub closed spec fn spec_width(&self) -> u32 {
        self.width
    }

    pub closed spec fn spec_height(&self) -> u32 {
        self.height
    }

    /// Both dimensions are positive and the storage holds exactly
    /// width * height pixels.
    pub open spec fn wf(&self) -> bool {
        &&& self.spec_width() >= 1
        &&& self.spec_height() >= 1
        &&& self@.len() == self.spec_width() * self.spec_height()
    }

    /// The pixel at `(x, y)`, as a spec value.
    pub open spec fn spec_at(&self, x: int, y: int) -> Pixel {
        self@[pix_index(self.spec_width() as int, x, y)]
    }

    /// A buffer of the given dimensions with every pixel set to `fill`.
    pub fn new(width: u32, height: u32, fill: Pixel) -> (result: Self)
        requires
            width >= 1,
            height >= 1,
            width * height <= usize::MAX,
        ensures
            result.wf(),
            result.spec_width() == width,
            result.spec_height() == height,
            result@ =~= Seq::new((width * height) as nat, |i: int| fill),
    {
        let n: usize = (width as usize) * (height as usize);
        let mut data: Vec<Pixel> = Vec::new();
        let mut i: usize = 0;
        while i < n
            invariant
                i <= n,
                data@ =~= Seq::new(i as nat, |k: int| fill),
            decreases n - i,
        {
            data.push(fill);
            i = i + 1;
        }
        PixelBuffer { width, height, data }
    }

    pub fn width(&self) -> (w: u32)
        ensures
            w == self.spec_width(),
    {
        self.width
    }

    pub fn height(&self) -> (h: u32)
        ensures
            h == self.spec_height(),
    {
        self.height
    }

    /// The pixel at `(x, y)`.
    pub fn get(&self, x: u32, y: u32) -> (p: Pixel)
        requires
            self.wf(),
            x < self.spec_width(),
            y < self.spec_height(),
        ensures
            p == self.spec_at(x as int, y as int),
    {
        let i: usize = self.pos(x, y);
        self.data[i]
    }

    /// Row-major position of `(x, y)` in the storage vector.
    fn pos(&self, x: u32, y: u32) -> (i: usize)
        requires
            self.wf(),
            x < self.spec_width(),
            y < self.spec_height(),
        ensures
            i == pix_index(self.spec_width() as int, x as int, y as int),
            i < self@.len(),
    {
        proof {
            lemma_pix_index_bounds(
                self.spec_width() as int,
                self.spec_height() as int,
                x as int,
                y as int,
            );
            assert((y as int) * (self.spec_width() as int) + (x as int)
                <= u64::MAX) by (nonlinear_arith)
                requires
                    y <= u32::MAX,
                    self.spec_width() <= u32::MAX,
                    x <= u32::MAX;
        }
        let len: usize = self.data.len();
        let wide: u64 = (y as u64) * (self.width as u64) + (x as u64);
        wide as usize
    }

    /// Wrap an existing row-major pixel sequence, when its length matches
    /// the dimensions.
    pub fn from_pixels(width: u32, height: u32, data: Vec<Pixel>) -> (res: Option<PixelBuffer>)
        ensures
            match res {
                Some(b) => {
                    &&& b.wf()
                    &&& b.spec_width() == width
                    &&& b.spec_height() == height
                    &&& b@ == data@
                    &&& width >= 1
                    &&& height >= 1
                    &&& data@.len() == width * height
                },
                None => !(width >= 1 && height >= 1 && data@.len() == width * height),
            },
    {
        proof {
            assert((width as int) * (height as int) <= u64::MAX) by (nonlinear_arith)
                requires
                    width <= u32::MAX,
                    height <= u32::MAX;
        }
        if width >= 1 && height >= 1 && (data.len() as u64) == (width as u64) * (height as u64) {
            Some(PixelBuffer { width, height, data })
        } else {
            None
        }
    }

    /// How many pixels the buffer holds.
    pub fn pixel_count(&self) -> (n: usize)
        ensures
            n == self@.len(),
    {
        self.data.len()
    }

    /// The pixel at position `k` of the row-major sequence.
    pub fn get_linear(&self, k: usize) -> (p: Pixel)
        requires
            k < self@.len(),
        ensures
            p == self@[k as int],
    {
        self.data[k]
    }

    /// Overwrite the alpha channel of the pixel at `(x, y)`, leaving its
    /// colour channels and every other pixel as they were.
    pub fn set_alpha(&mut self, x: u32, y: u32, a: u8)
        requires
            old(self).wf(),
            x < old(self).spec_width(),
            y < old(self).spec_height(),
        ensures
            final(self).wf(),
            final(self).spec_width() == old(self).spec_width(),
            final(self).spec_height() == old(self).spec_height(),
            final(self)@ == old(self)@.update(
                pix_index(old(self).spec_width() as int, x as int, y as int),
                with_alpha(old(self).spec_at(x as int, y as int), a),
            ),
    {
        let i: usize = self.pos(x, y);
        let p = self.data[i];
        let q = Pixel { r: p.r, g: p.g, b: p.b, a: a };
        self.data.set(i, q);
    }
}

} // verus!
