use image::DynamicImage;
use vstd::prelude::*;

verus! {

#[verifier::external_type_specification]
#[verifier::external_body]
pub struct ExDynamicImage(image::DynamicImage);

/// The width, height and raw bytes of `img` converted to RGBA8 by
/// `image::DynamicImage::to_rgba8`: a function of the image alone.
pub uninterp spec fn rgba8_image(img: DynamicImage) -> (u32, u32, Seq<u8>);

/// Converts `img` with `image::DynamicImage::to_rgba8` and takes the RGBA8
/// buffer apart into its width, its height and its raw bytes.
/// The contract claims that the parts are the image's RGBA8 conversion,
/// named `rgba8_image`, and what `image`'s `ImageBuffer` guarantees of every
/// buffer it holds: the bytes cover `width * height` pixels of four channels.
#[verifier::external_body]
fn rgba8_parts(img: &DynamicImage) -> (parts: (u32, u32, Vec<u8>))
    ensures
        (parts.0, parts.1, parts.2@) == rgba8_image(*img),
        parts.2@.len() >= parts.0 * parts.1 * 4,
{
    let rgba = img.to_rgba8();
    let (width, height) = rgba.dimensions();
    (width, height, rgba.into_raw())
}

/// The mathematical model of a texture: its size and its raw RGBA8 bytes.
pub struct TextureView {
    pub width: u32,
    pub height: u32,
    pub pixels: Seq<u8>,
}

impl TextureView {
    /// Byte offset of the first channel of pixel `(x, y)` in row-major RGBA8 order.
    pub open spec fn offset(self, x: int, y: int) -> int {
        (y * self.width + x) * 4
    }

    /// `(x, y)` lies inside the texture's width and height.
    pub open spec fn in_bounds(self, x: int, y: int) -> bool {
        0 <= x < self.width && 0 <= y < self.height
    }

    /// The byte offset of an in-bounds pixel is computable in `u32` arithmetic.
    pub open spec fn offset_fits(self, x: int, y: int) -> bool {
        self.in_bounds(x, y) ==> self.offset(x, y) <= u32::MAX
    }

    /// The four channels of pixel `(x, y)`, when it is in bounds and its
    /// bytes lie inside the pixel buffer.
    pub open spec fn pixel(self, x: int, y: int) -> Option<(u8, u8, u8, u8)> {
        let o = self.offset(x, y);
        if self.in_bounds(x, y) && o + 3 < self.pixels.len() {
            Some((self.pixels[o], self.pixels[o + 1], self.pixels[o + 2], self.pixels[o + 3]))
        } else {
            None
        }
    }

    /// The texture with pixel `(x, y)` overwritten, when `pixel` finds it.
    pub open spec fn with_pixel(self, x: int, y: int, r: u8, g: u8, b: u8, a: u8) -> TextureView {
        let o = self.offset(x, y);
        if self.pixel(x, y) is Some {
            TextureView {
                pixels: self.pixels.update(o, r).update(o + 1, g).update(o + 2, b).update(o + 3, a),
                ..self
            }
        } else {
            self
        }
    }
}

/// `v` moved into `[0, hi]`.
pub open spec fn clamp_coord(v: int, hi: int) -> int {
    if v < 0 {
        0
    } else if v > hi {
        hi
    } else {
        v
    }
}

/// `v` restricted to `[lo, hi]`.
fn clamp_i32(v: i32, lo: i32, hi: i32) -> (r: i32)
    requires
        lo <= hi,
    ensures
        lo == 0 ==> r == clamp_coord(v as int, hi as int),
        lo <= r <= hi,
        v < lo ==> r == lo,
        v > hi ==> r == hi,
        lo <= v <= hi ==> r == v,
{
    if v < lo {
        lo
    } else if v > hi {
        hi
    } else {
        v
    }
}

/// `w` read as an `i32`, as `w as i32` does.
pub open spec fn as_i32(w: u32) -> int {
    if w < 0x8000_0000 {
        w as int
    } else {
        w - 0x1_0000_0000
    }
}

/// The remainder of `x / d` with the quotient rounded toward zero, as Rust's
/// `%` computes it on signed integers (its sign is that of `x`).
pub open spec fn trunc_rem(x: int, d: int) -> int {
    let m = if d < 0 {
        -d
    } else {
        d
    };
    if x >= 0 {
        x % m
    } else {
        -((-x) % m)
    }
}

/// The wrapped coordinate `((x % w) + w) % w`, computed on `i32` with
/// `w as i32` and read back as a `u32`.
pub open spec fn wrap_coord(x: int, w: u32) -> int {
    let wi = as_i32(w);
    let r = trunc_rem(trunc_rem(x, wi) + wi, wi);
    if r >= 0 {
        r
    } else {
        r + 0x1_0000_0000
    }
}

/// The `i32` computation of `wrap_coord` neither divides by zero nor overflows.
pub open spec fn wrap_defined(x: int, w: u32) -> bool {
    let wi = as_i32(w);
    &&& wi != 0
    &&& !(x == i32::MIN && wi == -1)
    &&& i32::MIN <= trunc_rem(x, wi) + wi <= i32::MAX
}

/// `((v % w) + w) % w` on `i32`, with `w as i32`, read back as a `u32`.
/// A size beyond `i32::MAX` reads as the negative `w - 2^32`; Rust's `%`
/// then takes the remainder by its magnitude `2^32 - w`, which is computed
/// here in `i64`.
fn wrap_i32(v: i32, w: u32) -> (r: u32)
    requires
        wrap_defined(v as int, w),
    ensures
        r == wrap_coord(v as int, w),
{
    if w <= 0x7fff_ffff {
        let wi = w as i32;
        let s = (v % wi) + wi;
        let t = s % wi;
        assert(0 <= t);
        t as u32
    } else {
        let wi: i64 = w as i64 - 0x1_0000_0000;
        let m: i64 = 0x1_0000_0000 - w as i64;
        let s = (v as i64) % m + wi;
        let t = s % m;
        if t < 0 {
            (t + 0x1_0000_0000) as u32
        } else {
            t as u32
        }
    }
}

/// For a size that fits in `i32`, the wrapped coordinate is the
/// non-negative remainder.
pub proof fn lemma_wrap_is_mod(x: int, w: u32)
    requires
        1 <= w <= i32::MAX,
    ensures
        wrap_coord(x, w) == x % (w as int),
{
    let wi = w as int;
    if x >= 0 {
        assert(0 <= x % wi < wi);
        vstd::arithmetic::div_mod::lemma_mod_add_multiples_vanish(x % wi, wi);
        vstd::arithmetic::div_mod::lemma_mod_twice(x, wi);
    } else {
        let r = (-x) % wi;
        assert(0 <= r < wi);
        vstd::arithmetic::div_mod::lemma_fundamental_div_mod(-x, wi);
        let q = (-x) / wi;
        assert(x == wi * (-q - 1) + (wi - r)) by (nonlinear_arith)
            requires -x == wi * q + r;
        vstd::arithmetic::div_mod::lemma_mod_multiples_vanish(-q - 1, wi - r, wi);
        assert(0 <= wi - r <= wi);
        if r == 0 {
            vstd::arithmetic::div_mod::lemma_mod_self_0(wi);
        } else {
            vstd::arithmetic::div_mod::lemma_small_mod((wi - r) as nat, wi as nat);
        }
    }
}

/// Distinct in-bounds pixels own disjoint groups of four bytes.
proof fn lemma_offsets_apart(t: TextureView, x: int, y: int, x2: int, y2: int)
    requires
        t.in_bounds(x, y),
        t.in_bounds(x2, y2),
        x != x2 || y != y2,
    ensures
        t.offset(x, y) + 4 <= t.offset(x2, y2) || t.offset(x2, y2) + 4 <= t.offset(x, y),
{
    let w = t.width as int;
    if y == y2 {
        assert(y * w + x - (y2 * w + x2) == x - x2);
    } else if y < y2 {
        assert(y * w + w <= y2 * w) by (nonlinear_arith)
            requires y < y2, 0 <= w;
    } else {
        assert(y2 * w + w <= y * w) by (nonlinear_arith)
            requires y2 < y, 0 <= w;
    }
}

/// Reading a pixel just written gives the written channels, when the pixel
/// is in the texture and its bytes are in the buffer; otherwise the write
/// changed nothing.
pub proof fn lemma_read_after_write(t: TextureView, x: int, y: int, r: u8, g: u8, b: u8, a: u8)
    ensures
        t.with_pixel(x, y, r, g, b, a).pixel(x, y) == if t.pixel(x, y) is Some {
            Some((r, g, b, a))
        } else {
            None::<(u8, u8, u8, u8)>
        },
        t.pixel(x, y) is None ==> t.with_pixel(x, y, r, g, b, a) == t,
{
}

/// Writing one pixel leaves the size and every other pixel as it was.
pub proof fn lemma_write_keeps_other_pixels(
    t: TextureView,
    x: int,
    y: int,
    r: u8,
    g: u8,
    b: u8,
    a: u8,
    x2: int,
    y2: int,
)
    requires
        x != x2 || y != y2,
    ensures
        t.with_pixel(x, y, r, g, b, a).width == t.width,
        t.with_pixel(x, y, r, g, b, a).height == t.height,
        t.with_pixel(x, y, r, g, b, a).pixels.len() == t.pixels.len(),
        t.with_pixel(x, y, r, g, b, a).pixel(x2, y2) == t.pixel(x2, y2),
{
    if t.pixel(x, y) is Some && t.in_bounds(x2, y2) {
        lemma_offsets_apart(t, x, y, x2, y2);
    }
}

/// Every pixel of a new texture reads as four zero bytes.
pub proof fn lemma_new_texture_is_blank(width: u32, height: u32, x: int, y: int)
    requires
        width * height * 4 <= u32::MAX,
        0 <= x < width,
        0 <= y < height,
    ensures
        (TextureView {
            width,
            height,
            pixels: Seq::new((width * height * 4) as nat, |i: int| 0u8),
        }).pixel(x, y) == Some((0u8, 0u8, 0u8, 0u8)),
{
    let w = width as int;
    let h = height as int;
    assert((y * w + x) * 4 + 3 < w * h * 4) by (nonlinear_arith)
        requires 0 <= x < w, 0 <= y < h;
}

/// Clamping saturates at both edges and is monotone: a coordinate below the
/// range goes to `0`, one above it to `hi`, one inside it stays, and a larger
/// coordinate never clamps to a smaller one.
pub proof fn lemma_clamp_saturates(v: int, w: int, hi: int)
    requires
        0 <= hi,
    ensures
        0 <= clamp_coord(v, hi) <= hi,
        v <= 0 ==> clamp_coord(v, hi) == 0,
        v >= hi ==> clamp_coord(v, hi) == hi,
        0 <= v <= hi ==> clamp_coord(v, hi) == v,
        v <= w ==> clamp_coord(v, hi) <= clamp_coord(w, hi),
{
}

/// Inside the texture, clamping leaves the coordinates alone, so the clamped
/// read agrees with the plain read.
pub proof fn lemma_in_bounds_reads_agree(t: TextureView, x: int, y: int)
    requires
        t.in_bounds(x, y),
    ensures
        clamp_coord(x, t.width - 1) == x,
        clamp_coord(y, t.height - 1) == y,
{
}

/// The wrapped read tiles the plane: shifting a coordinate by the texture's
/// width (or height) reads the same pixel, and a coordinate inside the
/// texture is left alone.
pub proof fn lemma_wrap_is_periodic(x: int, w: u32)
    requires
        1 <= w <= i32::MAX,
    ensures
        wrap_coord(x + w, w) == wrap_coord(x, w),
        0 <= x < w ==> wrap_coord(x, w) == x,
{
    lemma_wrap_is_mod(x, w);
    lemma_wrap_is_mod(x + w, w);
    vstd::arithmetic::div_mod::lemma_mod_add_multiples_vanish(x, w as int);
    if 0 <= x < w {
        vstd::arithmetic::div_mod::lemma_small_mod(x as nat, w as nat);
    }
}

/// An RGBA8 image stored row by row, four bytes per pixel.
pub struct Texture {
    width: u32,
    height: u32,
    pixels: Vec<u8>,
}

impl View for Texture {
    type V = TextureView;

    closed spec fn view(&self) -> TextureView {
        TextureView { width: self.width, height: self.height, pixels: self.pixels@ }
    }
}

impl Texture {
    /// A `width` x `height` texture whose bytes are all zero.
    pub fn new(width: u32, height: u32) -> (t: Self)
        requires
            width * height * 4 <= u32::MAX,
        ensures
            t@.width == width,
            t@.height == height,
            t@.pixels == Seq::new((width * height * 4) as nat, |i: int| 0u8),
    {
        assert(width * height <= u32::MAX) by (nonlinear_arith)
            requires width * height * 4 <= u32::MAX;
        let n = ((width * height * 4) as usize);
        let pixels = vec![0u8; n];
        let t = Self { width, height, pixels };
        assert(t@.pixels =~= Seq::new((width * height * 4) as nat, |i: int| 0u8));
        t
    }

    /// The texture of the given size holding the given RGBA8 bytes, row by
    /// row.
    pub fn from_raw(width: u32, height: u32, pixels: Vec<u8>) -> (t: Self)
        ensures
            t@ == (TextureView { width, height, pixels: pixels@ }),
    {
        Self { width, height, pixels }
    }

    /// The texture holding `img` converted to RGBA8; this never fails.
    pub fn from_dynamic_image(img: DynamicImage) -> (r: Result<Self, String>)
        ensures
            r is Ok,
            r matches Ok(t) ==> (t@.width, t@.height, t@.pixels) == rgba8_image(img),
            r matches Ok(t) ==> t@.pixels.len() >= t@.width * t@.height * 4,
    {
        let (width, height, pixels) = rgba8_parts(&img);
        Ok(Self::from_raw(width, height, pixels))
    }

    pub fn width(&self) -> (w: u32)
        ensures
            w == self@.width,
    {
        self.width
    }

    pub fn height(&self) -> (h: u32)
        ensures
            h == self@.height,
    {
        self.height
    }

    /// Whether the byte offset of pixel `(x, y)` can be computed in `u32`
    /// arithmetic when the pixel is in bounds, as `get_pixel` and `set_pixel`
    /// require.
    pub fn offset_fits(&self, x: u32, y: u32) -> (ok: bool)
        ensures
            ok == self@.offset_fits(x as int, y as int),
    {
        if x >= self.width || y >= self.height {
            return true;
        }
        let (w, yy, xx) = (self.width as u64, y as u64, x as u64);
        assert(yy * w <= 0xffff_ffff * 0xffff_ffff) by (nonlinear_arith)
            requires yy <= 0xffff_ffff, w <= 0xffff_ffff;
        // (y * width + x) * 4 <= u32::MAX exactly when y * width + x <= u32::MAX / 4
        yy * w + xx <= 0x3fff_ffff
    }

    /// The channels of pixel `(x, y)`, or `None` when it is outside the
    /// texture or its bytes are missing from the buffer.
    pub fn get_pixel(&self, x: u32, y: u32) -> (p: Option<(u8, u8, u8, u8)>)
        requires
            self@.offset_fits(x as int, y as int),
        ensures
            p == self@.pixel(x as int, y as int),
    {
        if x >= self.width || y >= self.height {
            return None;
        }
        let index = ((y * self.width + x) * 4) as usize;
        if index + 3 < self.pixels.len() {
            Some((
                self.pixels[index],
                self.pixels[index + 1],
                self.pixels[index + 2],
                self.pixels[index + 3],
            ))
        } else {
            None
        }
    }

    /// The pixel nearest to `(x, y)` inside the texture, each coordinate
    /// clamped into range; opaque black when its bytes are missing.
    pub fn get_pixel_clamped(&self, x: i32, y: i32) -> (p: (u8, u8, u8, u8))
        requires
            1 <= self@.width <= i32::MAX,
            1 <= self@.height <= i32::MAX,
            self@.offset_fits(
                clamp_coord(x as int, self@.width - 1),
                clamp_coord(y as int, self@.height - 1),
            ),
        ensures
            p == self@.pixel(
                clamp_coord(x as int, self@.width - 1),
                clamp_coord(y as int, self@.height - 1),
            ).unwrap_or((0u8, 0u8, 0u8, 255u8)),
    {
        let x = clamp_i32(x, 0, self.width as i32 - 1) as u32;
        let y = clamp_i32(y, 0, self.height as i32 - 1) as u32;
        self.get_pixel(x, y).unwrap_or((0, 0, 0, 255))
    }

    /// The pixel at `(x, y)` with each coordinate wrapped around the
    /// texture's size (so the texture tiles the plane); opaque black when
    /// its bytes are missing.
    pub fn get_pixel_wrapped(&self, x: i32, y: i32) -> (p: (u8, u8, u8, u8))
        requires
            wrap_defined(x as int, self@.width),
            wrap_defined(y as int, self@.height),
            self@.offset_fits(wrap_coord(x as int, self@.width), wrap_coord(y as int, self@.height)),
        ensures
            p == self@.pixel(wrap_coord(x as int, self@.width), wrap_coord(y as int, self@.height)).unwrap_or(
                (0u8, 0u8, 0u8, 255u8),
            ),
    {
        let xw = wrap_i32(x, self.width);
        let yw = wrap_i32(y, self.height);
        self.get_pixel(xw, yw).unwrap_or((0, 0, 0, 255))
    }

    /// Writes the four channels of pixel `(x, y)`; does nothing when it is
    /// outside the texture or its bytes are missing from the buffer.
    pub fn set_pixel(&mut self, x: u32, y: u32, r: u8, g: u8, b: u8, a: u8)
        requires
            old(self)@.offset_fits(x as int, y as int),
        ensures
            final(self)@ == old(self)@.with_pixel(x as int, y as int, r, g, b, a),
    {
        if x >= self.width || y >= self.height {
            return;
        }
        let index = ((y * self.width + x) * 4) as usize;
        if index + 3 < self.pixels.len() {
            self.pixels.set(index, r);
            self.pixels.set(index + 1, g);
            self.pixels.set(index + 2, b);
            self.pixels.set(index + 3, a);
        }
        proof {
            assert(self@.pixels =~= old(self)@.with_pixel(x as int, y as int, r, g, b, a).pixels);
        }
    }

    /// The raw RGBA8 bytes.
    pub fn get_raw_pixels(&self) -> (p: &[u8])
        ensures
            p@ == self@.pixels,
    {
        self.pixels.as_slice()
    }

    /// The raw RGBA8 bytes, writable in place; the size of the texture and
    /// the number of bytes stay as they are.
    pub fn get_raw_pixels_mut(&mut self) -> (p: &mut [u8])
        ensures
            p@ == old(self)@.pixels,
            final(self)@.pixels == final(p)@,
            final(self)@.width == old(self)@.width,
            final(self)@.height == old(self)@.height,
    {
        self.pixels.as_mut_slice()
    }
}

} // verus!
