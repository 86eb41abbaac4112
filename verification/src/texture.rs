//! Textures: grids of colours that fragments look up by their texture
//! coordinates.

use crate::fixed::Fixed;
use crate::pixel::LinearRgba;
use vstd::prelude::*;

verus! {

/// The column or row of a texture of `extent` texels that the texture
/// coordinate `c` falls on: `c` is wrapped into `[0, 1)` and scaled to the
/// extent.
pub open spec fn wrap(c: Fixed, extent: nat) -> int {
    let e = Fixed::from_int(extent as int);
    c.mul_spec(e).rem_euclid_spec(e).to_u32_spec() as int
}

/// What a texture holds: `width` by `height` texels, row by row.
pub struct TextureModel {
    pub width: nat,
    pub height: nat,
    pub texels: Seq<LinearRgba>,
}

impl TextureModel {
    /// The invariant of a texture: it is not empty and has one texel for
    /// each position.
    pub open spec fn wf(self) -> bool {
        &&& 0 < self.width <= u32::MAX
        &&& 0 < self.height <= u32::MAX
        &&& self.texels.len() == self.width * self.height
    }

    /// The texel nearest to the texture coordinates `(s, t)`, which repeat
    /// with period one.
    pub open spec fn lookup(self, s: Fixed, t: Fixed) -> LinearRgba {
        self.texels[wrap(t, self.height) * self.width + wrap(s, self.width)]
    }
}

/// A texture whose texels are linear colours.
pub struct Texture {
    width: u32,
    height: u32,
    texels: Vec<LinearRgba>,
}

impl View for Texture {
    type V = TextureModel;

    closed spec fn view(&self) -> TextureModel {
        TextureModel {
            width: self.width as nat,
            height: self.height as nat,
            texels: self.texels@,
        }
    }
}

/// A wrapped texture coordinate is a position inside the texture.
pub proof fn lemma_wrap_in_range(c: Fixed, extent: nat)
    requires
        0 < extent <= u32::MAX,
    ensures
        0 <= wrap(c, extent) < extent,
{
    let e = Fixed::from_int(extent as int);
    let scaled = c.mul_spec(e);
    assert(e.raw > 0);
    assert(e.raw <= extent * crate::fixed::SCALE);
    let rem = scaled.rem_euclid_spec(e);
    assert(0 <= rem.raw < e.raw);
}

impl Texture {
    /// Whether the invariant of the texture holds.
    pub open spec fn wf(&self) -> bool {
        self@.wf()
    }

    /// The texture of `width` by `height` texels that `texels` lists row by
    /// row; `None` where the texture would be empty or `texels` has another
    /// length.
    pub fn new(width: u32, height: u32, texels: Vec<LinearRgba>) -> (r: Option<Self>)
        ensures
            r is Some <==> width > 0 && height > 0 && texels@.len() == width * height,
            r is Some ==> r.unwrap().wf() && r.unwrap()@ == (TextureModel {
                width: width as nat,
                height: height as nat,
                texels: texels@,
            }),
    {
        if width == 0 || height == 0 {
            return None;
        }
        assert(width * height <= 0xffff_ffff * 0xffff_ffff) by (nonlinear_arith)
            requires
                0 <= width <= 0xffff_ffff,
                0 <= height <= 0xffff_ffff,
        ;
        let cells: u64 = (width as u64) * (height as u64);
        if texels.len() as u64 != cells {
            return None;
        }
        Some(Self { width, height, texels })
    }

    /// Number of texels in a row.
    pub fn width(&self) -> (w: u32)
        ensures
            w == self@.width,
    {
        self.width
    }

    /// Number of rows of texels.
    pub fn height(&self) -> (h: u32)
        ensures
            h == self@.height,
    {
        self.height
    }

    /// The texel in column `x` of row `y`.
    pub fn get_pixel(&self, x: u32, y: u32) -> (p: LinearRgba)
        requires
            self.wf(),
            x < self@.width,
            y < self@.height,
        ensures
            p == self@.texels[y * self@.width + x],
    {
        assert(0 <= y * self.width && y * self.width + x < self@.width * self@.height)
            by (nonlinear_arith)
            requires
                0 <= x < self.width,
                0 <= y < self@.height,
                self.width == self@.width,
        ;
        let cells = self.texels.len();
        assert(y * self.width + x < cells);
        let index: usize = (y as usize) * (self.width as usize) + (x as usize);
        self.texels[index]
    }

    /// The texel nearest to the texture coordinates `(s, t)`, which repeat
    /// with period one.
    pub fn sample(&self, s: Fixed, t: Fixed) -> (p: LinearRgba)
        requires
            self.wf(),
        ensures
            p == self@.lookup(s, t),
    {
        let w = Fixed::from_u32(self.width);
        let h = Fixed::from_u32(self.height);
        let x = s.mul(w).rem_euclid(w).to_u32();
        let y = t.mul(h).rem_euclid(h).to_u32();
        proof {
            lemma_wrap_in_range(s, self@.width);
            lemma_wrap_in_range(t, self@.height);
        }
        self.get_pixel(x, y)
    }
}

} // verus!
