//! The framebuffer: colour and depth for every subsample, and the resolve
//! that turns the subsamples of each pixel into one colour.

use crate::fixed::{lemma_div_one, Fixed};
use crate::pixel::LinearRgba;
use vstd::arithmetic::div_mod::lemma_fundamental_div_mod_converse;
use vstd::arithmetic::div_mod::lemma_multiply_divide_lt;
use vstd::prelude::*;

verus! {

/// The running sums of a resolve over some subsamples of one pixel.
pub struct Tally {
    /// Sum of red over the subsamples that were drawn on.
    pub r: Fixed,
    /// Sum of green over the subsamples that were drawn on.
    pub g: Fixed,
    /// Sum of blue over the subsamples that were drawn on.
    pub b: Fixed,
    /// Sum of opacity over all subsamples.
    pub a: Fixed,
    /// Number of subsamples that were drawn on.
    pub touched: nat,
}

/// What a framebuffer holds: `width` by `height` pixels, each split into
/// `fsaa` by `fsaa` subsamples, stored row by row at subsample resolution.
pub struct Frame {
    pub width: nat,
    pub height: nat,
    pub fsaa: nat,
    /// Colour of every subsample.
    pub colors: Seq<LinearRgba>,
    /// Depth of every subsample; `None` is further away than any depth.
    pub depths: Seq<Option<Fixed>>,
    /// Whether anything was drawn on the subsample.
    pub touched: Seq<bool>,
}

impl Frame {
    /// Number of subsamples in a row.
    pub open spec fn columns(self) -> nat {
        self.width * self.fsaa
    }

    /// Number of rows of subsamples.
    pub open spec fn lines(self) -> nat {
        self.height * self.fsaa
    }

    /// The invariant of a framebuffer: three buffers of one subsample each
    /// per cell, whose untouched cells are transparent and have no depth.
    pub open spec fn wf(self) -> bool {
        &&& self.fsaa >= 1
        &&& self.columns() <= u32::MAX
        &&& self.lines() <= u32::MAX
        &&& self.columns() * self.lines() <= usize::MAX
        &&& self.colors.len() == self.columns() * self.lines()
        &&& self.depths.len() == self.colors.len()
        &&& self.touched.len() == self.colors.len()
        &&& forall|i: int|
            0 <= i < self.colors.len() && !self.touched[i] ==> self.colors[i]
                == LinearRgba::transparent() && self.depths[i] is None
    }

    /// Whether a framebuffer of this size can be held in memory.
    pub open spec fn fits(width: nat, height: nat, fsaa: nat) -> bool {
        &&& fsaa >= 1
        &&& width * fsaa <= u32::MAX
        &&& height * fsaa <= u32::MAX
        &&& (width * fsaa) * (height * fsaa) <= usize::MAX
    }

    /// The framebuffer of the given size on which nothing was drawn.
    pub open spec fn blank(width: nat, height: nat, fsaa: nat) -> Frame {
        let cells = (width * fsaa) * (height * fsaa);
        Frame {
            width,
            height,
            fsaa,
            colors: Seq::new(cells, |i: int| LinearRgba::transparent()),
            depths: Seq::new(cells, |i: int| None),
            touched: Seq::new(cells, |i: int| false),
        }
    }

    /// The place in the buffers of the subsample in column `x` of row `y`.
    pub open spec fn cell(self, x: int, y: int) -> int {
        y * self.columns() + x
    }

    /// The framebuffer after `pixel` was written to the subsample at
    /// `(x, y)`, together with `depth` where there is one.
    pub open spec fn put(self, x: int, y: int, pixel: LinearRgba, depth: Option<Fixed>) -> Frame {
        let cell = self.cell(x, y);
        Frame {
            colors: self.colors.update(cell, pixel),
            depths: if depth is Some {
                self.depths.update(cell, depth)
            } else {
                self.depths
            },
            touched: self.touched.update(cell, true),
            ..self
        }
    }

    /// The place in the buffers of the `n`-th subsample of the pixel
    /// `(x, y)`; the subsamples of a pixel are counted column by column.
    pub open spec fn subsample(self, x: int, y: int, n: int) -> int {
        self.cell(x * self.fsaa + n / (self.fsaa as int), y * self.fsaa + n % (self.fsaa as int))
    }

    /// The sums over the first `n` subsamples of the pixel `(x, y)`.
    pub open spec fn tally(self, x: int, y: int, n: nat) -> Tally
        decreases n,
    {
        if n == 0 {
            Tally {
                r: Fixed::from_int(0),
                g: Fixed::from_int(0),
                b: Fixed::from_int(0),
                a: Fixed::from_int(0),
                touched: 0,
            }
        } else {
            let before = self.tally(x, y, (n - 1) as nat);
            let cell = self.subsample(x, y, n - 1);
            let pixel = self.colors[cell];
            if self.touched[cell] {
                Tally {
                    r: before.r.add_spec(pixel.r),
                    g: before.g.add_spec(pixel.g),
                    b: before.b.add_spec(pixel.b),
                    a: before.a.add_spec(pixel.a),
                    touched: before.touched + 1,
                }
            } else {
                Tally { a: before.a.add_spec(pixel.a), ..before }
            }
        }
    }

    /// The colour of the pixel `(x, y)` after the resolve: red, green and
    /// blue averaged over the subsamples that were drawn on (zero where
    /// there is none), opacity averaged over all subsamples.
    pub open spec fn resolved(self, x: int, y: int) -> LinearRgba {
        let total = self.tally(x, y, self.fsaa * self.fsaa);
        let drawn = Fixed::from_int(total.touched as int);
        let all = Fixed::from_int((self.fsaa * self.fsaa) as int);
        if total.touched > 0 {
            LinearRgba {
                r: total.r.div_spec(drawn),
                g: total.g.div_spec(drawn),
                b: total.b.div_spec(drawn),
                a: total.a.div_spec(all),
            }
        } else {
            LinearRgba {
                r: Fixed::from_int(0),
                g: Fixed::from_int(0),
                b: Fixed::from_int(0),
                a: total.a.div_spec(all),
            }
        }
    }

    /// The resolved image: `width` by `height` pixels, row by row.
    pub open spec fn resolve(self) -> Seq<LinearRgba> {
        Seq::new(
            self.width * self.height,
            |k: int| self.resolved(k % (self.width as int), k / (self.width as int)),
        )
    }
}

/// The channel `c` of `pixel`, counted red, green, blue, opacity.
pub open spec fn channel(pixel: LinearRgba, c: int) -> Fixed {
    if c == 0 {
        pixel.r
    } else if c == 1 {
        pixel.g
    } else if c == 2 {
        pixel.b
    } else {
        pixel.a
    }
}

/// The bytes of an image: four per pixel, each channel scaled from the
/// range `[0, 1]` to `0..=255`.
pub open spec fn bytes_of(pixels: Seq<LinearRgba>) -> Seq<u8> {
    Seq::new(4 * pixels.len(), |i: int| channel(pixels[i / 4], i % 4).to_u8_spec())
}

/// A framebuffer with depth.
pub struct DepthImage {
    width: u32,
    height: u32,
    fsaa: u32,
    frame_buf: Vec<LinearRgba>,
    depth_buf: Vec<Option<Fixed>>,
    touched: Vec<bool>,
}

impl View for DepthImage {
    type V = Frame;

    closed spec fn view(&self) -> Frame {
        Frame {
            width: self.width as nat,
            height: self.height as nat,
            fsaa: self.fsaa as nat,
            colors: self.frame_buf@,
            depths: self.depth_buf@,
            touched: self.touched@,
        }
    }
}

impl DepthImage {
    /// Whether the invariant of the framebuffer holds.
    pub open spec fn wf(&self) -> bool {
        self@.wf()
    }

    /// The empty framebuffer: no pixels, one subsample per pixel.
    pub fn default() -> (r: Self)
        ensures
            r.wf(),
            r@ == Frame::blank(0, 0, 1),
    {
        let r = Self {
            width: 0,
            height: 0,
            fsaa: 1,
            frame_buf: Vec::new(),
            depth_buf: Vec::new(),
            touched: Vec::new(),
        };
        assert((0nat * 1nat) * (0nat * 1nat) == 0) by (nonlinear_arith);
        assert(r@.colors =~= Frame::blank(0, 0, 1).colors);
        assert(r@.depths =~= Frame::blank(0, 0, 1).depths);
        assert(r@.touched =~= Frame::blank(0, 0, 1).touched);
        r
    }

    /// Whether a framebuffer of this size can be held in memory.
    pub fn fits(width: u32, height: u32, fsaa: u32) -> (r: bool)
        ensures
            r == Frame::fits(width as nat, height as nat, fsaa as nat),
    {
        if fsaa < 1 {
            return false;
        }
        assert(width * fsaa <= 0xffff_ffff * 0xffff_ffff) by (nonlinear_arith)
            requires
                0 <= width <= 0xffff_ffff,
                0 <= fsaa <= 0xffff_ffff,
        ;
        assert(height * fsaa <= 0xffff_ffff * 0xffff_ffff) by (nonlinear_arith)
            requires
                0 <= height <= 0xffff_ffff,
                0 <= fsaa <= 0xffff_ffff,
        ;
        let columns: u64 = (width as u64) * (fsaa as u64);
        let lines: u64 = (height as u64) * (fsaa as u64);
        if columns > u32::MAX as u64 || lines > u32::MAX as u64 {
            return false;
        }
        assert(columns * lines <= 0xffff_ffff * 0xffff_ffff) by (nonlinear_arith)
            requires
                0 <= columns <= 0xffff_ffff,
                0 <= lines <= 0xffff_ffff,
        ;
        let cells: u64 = columns * lines;
        cells <= usize::MAX as u64
    }

    /// A framebuffer of `width` by `height` pixels with `fsaa` by `fsaa`
    /// subsamples each, on which nothing is drawn yet; `None` where `fsaa`
    /// is zero or the buffers would not fit in memory.
    pub fn allocate(width: u32, height: u32, fsaa: u32) -> (r: Option<Self>)
        ensures
            r is Some <==> Frame::fits(width as nat, height as nat, fsaa as nat),
            r is Some ==> r.unwrap().wf() && r.unwrap()@ == Frame::blank(
                width as nat,
                height as nat,
                fsaa as nat,
            ),
    {
        if !Self::fits(width, height, fsaa) {
            return None;
        }
        let columns: usize = (width * fsaa) as usize;
        let lines: usize = (height * fsaa) as usize;
        let cells: usize = columns * lines;
        let frame_buf = vec![LinearRgba::clear(); cells];
        let depth_buf: Vec<Option<Fixed>> = vec![None; cells];
        let touched = vec![false; cells];
        let r = Self { width, height, fsaa, frame_buf, depth_buf, touched };
        proof {
            let blank = Frame::blank(width as nat, height as nat, fsaa as nat);
            assert(r@.colors =~= blank.colors);
            assert(r@.depths =~= blank.depths);
            assert(r@.touched =~= blank.touched);
        }
        Some(r)
    }

    /// Number of pixels in a row of the resolved image.
    pub fn pixel_width(&self) -> (w: u32)
        ensures
            w == self@.width,
    {
        self.width
    }

    /// Number of rows of the resolved image.
    pub fn pixel_height(&self) -> (h: u32)
        ensures
            h == self@.height,
    {
        self.height
    }

    /// Number of subsamples along each side of a pixel.
    pub fn fsaa(&self) -> (f: u32)
        ensures
            f == self@.fsaa,
    {
        self.fsaa
    }

    /// Number of subsamples in a row.
    pub fn width(&self) -> (w: u32)
        requires
            self.wf(),
        ensures
            w == self@.columns(),
    {
        self.width * self.fsaa
    }

    /// Number of rows of subsamples.
    pub fn height(&self) -> (h: u32)
        requires
            self.wf(),
        ensures
            h == self@.lines(),
    {
        self.height * self.fsaa
    }

    /// The place in the buffers of the subsample at `(x, y)`.
    fn coord(&self, x: u32, y: u32) -> (c: usize)
        requires
            self.wf(),
            x < self@.columns(),
            y < self@.lines(),
        ensures
            c == self@.cell(x as int, y as int),
            c < self@.colors.len(),
    {
        let columns = self.width();
        assert(0 <= y * columns && y * columns + x < self@.columns() * self@.lines())
            by (nonlinear_arith)
            requires
                0 <= x < columns,
                0 <= y < self@.lines(),
                columns == self@.columns(),
        ;
        (y as usize) * (columns as usize) + (x as usize)
    }

    /// The depth stored for the subsample at `(x, y)`; `None` where none
    /// was stored, which is further away than any depth.
    pub fn depth(&self, x: u32, y: u32) -> (d: Option<Fixed>)
        requires
            self.wf(),
            x < self@.columns(),
            y < self@.lines(),
        ensures
            d == self@.depths[self@.cell(x as int, y as int)],
    {
        let coord = self.coord(x, y);
        self.depth_buf[coord]
    }

    /// Writes `pixel` to the subsample at `(x, y)` and marks it as drawn
    /// on; stores `depth` for it where there is one.
    pub fn put_pixel(&mut self, x: u32, y: u32, pixel: LinearRgba, depth: Option<Fixed>)
        requires
            old(self).wf(),
            x < old(self)@.columns(),
            y < old(self)@.lines(),
        ensures
            final(self).wf(),
            final(self)@ == old(self)@.put(x as int, y as int, pixel, depth),
    {
        let coord = self.coord(x, y);
        self.frame_buf[coord] = pixel;
        self.touched[coord] = true;
        if depth.is_some() {
            self.depth_buf[coord] = depth;
        }
        proof {
            let after = old(self)@.put(x as int, y as int, pixel, depth);
            assert(self@.colors =~= after.colors);
            assert(self@.depths =~= after.depths);
            assert(self@.touched =~= after.touched);
        }
    }

    /// The colour of the subsample at `(x, y)`.
    pub fn get_pixel(&self, x: u32, y: u32) -> (p: LinearRgba)
        requires
            self.wf(),
            x < self@.columns(),
            y < self@.lines(),
        ensures
            p == self@.colors[self@.cell(x as int, y as int)],
    {
        let coord = self.coord(x, y);
        self.frame_buf[coord]
    }
}

impl DepthImage {
    /// The colour of the pixel `(x, y)` after the resolve.
    fn resolve_pixel(&self, x: u32, y: u32) -> (p: LinearRgba)
        requires
            self.wf(),
            x < self@.width,
            y < self@.height,
        ensures
            p == self@.resolved(x as int, y as int),
    {
        let f: u64 = self.fsaa as u64;
        assert(f * f <= 0xffff_ffff * 0xffff_ffff) by (nonlinear_arith)
            requires
                0 <= f <= 0xffff_ffff,
        ;
        let total: u64 = f * f;
        let mut r = Fixed::zero();
        let mut g = Fixed::zero();
        let mut b = Fixed::zero();
        let mut a = Fixed::zero();
        let mut count: u64 = 0;
        let mut n: u64 = 0;
        while n < total
            invariant
                self.wf(),
                x < self@.width,
                y < self@.height,
                f == self@.fsaa,
                total == f * f,
                n <= total,
                count <= n,
                (Tally { r, g, b, a, touched: count as nat }) == self@.tally(
                    x as int,
                    y as int,
                    n as nat,
                ),
            decreases total - n,
        {
            let i: u64 = n / f;
            let j: u64 = n % f;
            proof {
                lemma_multiply_divide_lt(n as int, f as int, f as int);
                assert(x * f + i < self@.width * f) by (nonlinear_arith)
                    requires
                        0 <= x < self@.width,
                        0 <= i < f,
                ;
                assert(y * f + j < self@.height * f) by (nonlinear_arith)
                    requires
                        0 <= y < self@.height,
                        0 <= j < f,
                ;
                assert(x * f >= 0 && y * f >= 0) by (nonlinear_arith)
                    requires
                        x >= 0,
                        y >= 0,
                        f >= 0,
                ;
            }
            let sx: u32 = ((x as u64) * f + i) as u32;
            let sy: u32 = ((y as u64) * f + j) as u32;
            let coord = self.coord(sx, sy);
            let pixel = self.frame_buf[coord];
            if self.touched[coord] {
                r = r.add(pixel.r);
                g = g.add(pixel.g);
                b = b.add(pixel.b);
                count += 1;
            }
            a = a.add(pixel.a);
            n += 1;
        }
        let all = Fixed::from_u64(total);
        if count > 0 {
            let drawn = Fixed::from_u64(count);
            LinearRgba { r: r.div(drawn), g: g.div(drawn), b: b.div(drawn), a: a.div(all) }
        } else {
            LinearRgba { r: Fixed::zero(), g: Fixed::zero(), b: Fixed::zero(), a: a.div(all) }
        }
    }

    /// Resolves the subsamples of every pixel into one colour: red, green
    /// and blue are averaged over the subsamples that were drawn on (and
    /// are zero where there is none), opacity over all subsamples. The
    /// image comes row by row.
    pub fn resolve(&self) -> (image: Vec<LinearRgba>)
        requires
            self.wf(),
        ensures
            image@ == self@.resolve(),
    {
        let mut image: Vec<LinearRgba> = Vec::new();
        let mut y: u32 = 0;
        while y < self.height
            invariant
                self.wf(),
                y <= self.height,
                image@.len() == y * self@.width,
                forall|k: int| 0 <= k < image@.len() ==> image@[k] == self@.resolve()[k],
            decreases self.height - y,
        {
            let mut x: u32 = 0;
            while x < self.width
                invariant
                    self.wf(),
                    y < self.height,
                    x <= self.width,
                    image@.len() == y * self@.width + x,
                    forall|k: int| 0 <= k < image@.len() ==> image@[k] == self@.resolve()[k],
                decreases self.width - x,
            {
                let pixel = self.resolve_pixel(x, y);
                proof {
                    let k = y * self@.width + x;
                    let w = self@.width as int;
                    assert(y * self@.width == w * y) by (nonlinear_arith)
                        requires
                            w == self@.width,
                    ;
                    lemma_fundamental_div_mod_converse(k, w, y as int, x as int);
                    assert(k < self@.width * self@.height) by (nonlinear_arith)
                        requires
                            k == y * self@.width + x,
                            0 <= x < self@.width,
                            0 <= y < self@.height,
                    ;
                }
                image.push(pixel);
                x += 1;
            }
            assert((y + 1) * self@.width == y * self@.width + self@.width) by (nonlinear_arith);
            y += 1;
        }
        assert(y * self@.width == self@.width * self@.height) by (nonlinear_arith)
            requires
                y == self@.height,
        ;
        assert(image@ =~= self@.resolve());
        image
    }
}

/// The bytes of an image, four per pixel: every channel is multiplied by
/// 255, rounded down and limited to `0..=255`.
pub fn quantize(pixels: &Vec<LinearRgba>) -> (bytes: Vec<u8>)
    ensures
        bytes@ == bytes_of(pixels@),
{
    let mut bytes: Vec<u8> = Vec::new();
    let mut i: usize = 0;
    while i < pixels.len()
        invariant
            i <= pixels.len(),
            bytes@.len() == 4 * i,
            forall|k: int| 0 <= k < bytes@.len() ==> bytes@[k] == bytes_of(pixels@)[k],
        decreases pixels.len() - i,
    {
        let pixel = pixels[i];
        bytes.push(pixel.r.to_u8());
        bytes.push(pixel.g.to_u8());
        bytes.push(pixel.b.to_u8());
        bytes.push(pixel.a.to_u8());
        i += 1;
    }
    assert(bytes@ =~= bytes_of(pixels@));
    bytes
}

/// With one subsample per pixel the resolve changes nothing: the resolved
/// image is the colour buffer itself.
pub proof fn lemma_resolve_single_sample(frame: Frame)
    requires
        frame.wf(),
        frame.fsaa == 1,
    ensures
        frame.resolve() == frame.colors,
{
    let w = frame.width as int;
    assert(frame.width * 1 == frame.width && frame.height * 1 == frame.height)
        by (nonlinear_arith);
    assert(frame.resolve().len() == frame.colors.len());
    assert forall|k: int| 0 <= k < frame.colors.len() implies frame.resolve()[k]
        == frame.colors[k] by {
        assert(w > 0) by (nonlinear_arith)
            requires
                0 <= k < w * frame.height,
                w >= 0,
        ;
        let x = k % w;
        let y = k / w;
        vstd::arithmetic::div_mod::lemma_fundamental_div_mod(k, w);
        assert(y * w == w * y) by (nonlinear_arith);
        assert(frame.subsample(x, y, 0) == k);
        let empty = frame.tally(x, y, 0);
        let total = frame.tally(x, y, 1);
        assert(1nat * 1nat == 1) by (nonlinear_arith);
        assert(total == frame.tally(x, y, frame.fsaa * frame.fsaa));
        let pixel = frame.colors[k];
        lemma_div_one(total.r);
        lemma_div_one(total.g);
        lemma_div_one(total.b);
        lemma_div_one(total.a);
    }
    assert(frame.resolve() =~= frame.colors);
}

} // verus!
