//! The raster sampler: decodes a source image once (flipped upright at
//! load), computes a brightness normalization ceiling over all pixels, and
//! exposes per-grid-cell lookups that tint a monochrome cell brightness by a
//! target color.

use vstd::prelude::*;
use crate::palette::Rgb;

verus! {

/// Image bytes that could not be decoded as a supported raster format.
#[derive(Debug)]
pub struct DecodeError {
    pub message: String,
}

/// The upright four-channel pixels that decoding a raster byte buffer
/// yields, as (width, height, row-major RGBA bytes), or nothing when the
/// bytes are not a supported image. Decoding depends on the bytes alone.
pub uninterp spec fn decoded_rgba_of(bytes: Seq<u8>) -> Option<(nat, nat, Seq<u8>)>;

/// Relies on image::load_from_memory (the format is guessed from the bytes),
/// DynamicImage::flipv (source rasters arrive bottom-up, so they are flipped
/// upright once at load) and DynamicImage::to_rgba8: together a function of
/// the bytes alone, yielding width*height four-channel row-major pixels.
#[verifier::external_body]
fn decode_rgba(bytes: &[u8]) -> (r: Result<(u32, u32, Vec<u8>), String>)
    ensures
        r is Ok <==> decoded_rgba_of(bytes@) is Some,
        r matches Ok(t) ==> decoded_rgba_of(bytes@) == Some(
            ((t.0 as nat), (t.1 as nat), t.2@),
        ) && t.2@.len() == t.0 as nat * t.1 as nat * 4,
{
    match image::load_from_memory(bytes) {
        Ok(img) => {
            let rgba = img.flipv().to_rgba8();
            let (w, h) = rgba.dimensions();
            Ok((w, h, rgba.into_raw()))
        },
        Err(e) => Err(e.to_string()),
    }
}

/// A decoded, upright image: row-major four-channel pixels.
pub struct RasterImage {
    pub width: usize,
    pub height: usize,
    pub rgba: Vec<u8>,
}

impl RasterImage {
    /// At least one pixel, and exactly four channel bytes per pixel.
    pub open spec fn wf(self) -> bool {
        &&& self.rgba@.len() == self.width * self.height * 4
        &&& self.width > 0
        &&& self.height > 0
    }

    /// One channel byte of the pixel at column `x`, row `y`.
    pub open spec fn channel(self, x: int, y: int, c: int) -> int {
        self.rgba@[4 * (y * self.width + x) + c] as int
    }

    /// The greyscale proxy of one pixel: the sum of its four channel values,
    /// divided by four. An intentional approximation of luminance, not a
    /// perceptually weighted one.
    pub open spec fn grey(self, x: int, y: int) -> int {
        (self.channel(x, y, 0) + self.channel(x, y, 1) + self.channel(x, y, 2) + self.channel(
            x,
            y,
            3,
        )) / 4
    }

    /// The greyscale proxy of the pixel at flat index `i`, row-major.
    pub open spec fn grey_at(self, i: int) -> int {
        self.grey(i % self.width as int, i / self.width as int)
    }

    /// Builds an image from plain decoded pixel data.
    pub fn new(width: usize, height: usize, rgba: Vec<u8>) -> (img: RasterImage)
        requires
            width > 0,
            height > 0,
            rgba@.len() == width * height * 4,
        ensures
            img.wf(),
            img == (RasterImage { width, height, rgba }),
    {
        RasterImage { width, height, rgba }
    }

    /// Reads the greyscale proxy of the pixel at column `x`, row `y`.
    pub fn grey_value(&self, x: usize, y: usize) -> (g: u8)
        requires
            self.wf(),
            x < self.width,
            y < self.height,
        ensures
            g as int == self.grey(x as int, y as int),
            g as int == self.grey_at(y * self.width + x),
    {
        proof {
            lemma_pixel_index_bounds(*self, x as int, y as int);
            lemma_flat_index(*self, x as int, y as int);
        }
        let n = self.rgba.len();
        assert(4 * (y * self.width + x) + 3 < n);
        let base: usize = 4 * (y * self.width + x);
        let sum: u16 = self.rgba[base] as u16 + self.rgba[base + 1] as u16 + self.rgba[base
            + 2] as u16 + self.rgba[base + 3] as u16;
        (sum / 4) as u8
    }
}

/// A pixel's four channel bytes lie inside the buffer.
proof fn lemma_pixel_index_bounds(img: RasterImage, x: int, y: int)
    requires
        img.wf(),
        0 <= x < img.width,
        0 <= y < img.height,
    ensures
        0 <= y * img.width + x < img.width * img.height,
        4 * (y * img.width + x) + 3 < img.rgba@.len(),
{
    assert(y * img.width <= (img.height - 1) * img.width) by {
        vstd::arithmetic::mul::lemma_mul_inequality(y, img.height - 1, img.width as int);
    }
    assert((img.height - 1) * img.width == img.height * img.width - img.width) by {
        vstd::arithmetic::mul::lemma_mul_is_distributive_sub_other_way(
            img.width as int,
            img.height as int,
            1,
        );
    }
    assert(y * img.width >= 0) by {
        vstd::arithmetic::mul::lemma_mul_nonnegative(y, img.width as int);
    }
    assert(img.width * img.height == img.height * img.width) by {
        vstd::arithmetic::mul::lemma_mul_is_commutative(img.width as int, img.height as int);
    }
}

/// The flat row-major index of a pixel names the same pixel.
proof fn lemma_flat_index(img: RasterImage, x: int, y: int)
    requires
        img.wf(),
        0 <= x < img.width,
        0 <= y < img.height,
    ensures
        (y * img.width + x) % (img.width as int) == x,
        (y * img.width + x) / (img.width as int) == y,
        img.grey_at(y * img.width + x) == img.grey(x, y),
{
    vstd::arithmetic::div_mod::lemma_fundamental_div_mod_converse(
        y * img.width + x,
        img.width as int,
        y,
        x,
    );
}

/// The greatest greyscale proxy among the first `n` pixels (zero when there
/// are none): the brightness ceiling every pixel is normalized against.
pub open spec fn max_grey_prefix(img: RasterImage, n: int) -> int
    decreases n,
{
    if n <= 0 {
        0
    } else {
        vstd::math::max(max_grey_prefix(img, n - 1), img.grey_at(n - 1))
    }
}

/// The brightness ceiling over the whole image.
pub open spec fn max_grey(img: RasterImage) -> int {
    max_grey_prefix(img, img.width * img.height)
}

/// Every channel byte is at most 255, so every greyscale proxy lies in
/// 0..=255, and so does the ceiling.
pub proof fn lemma_grey_bounds(img: RasterImage, x: int, y: int)
    requires
        img.wf(),
        0 <= x < img.width,
        0 <= y < img.height,
    ensures
        0 <= img.grey(x, y) <= 255,
{
    lemma_pixel_index_bounds(img, x, y);
}

/// The ceiling bounds every pixel it covers.
pub proof fn lemma_max_grey_prefix_bound(img: RasterImage, n: int, i: int)
    requires
        0 <= i < n,
    ensures
        img.grey_at(i) <= max_grey_prefix(img, n),
    decreases n,
{
    if i < n - 1 {
        lemma_max_grey_prefix_bound(img, n - 1, i);
    }
}

/// A flat pixel index splits into coordinates inside the image.
proof fn lemma_flat_coords(img: RasterImage, i: int)
    requires
        img.wf(),
        0 <= i < img.width * img.height,
    ensures
        0 <= i % (img.width as int) < img.width,
        0 <= i / (img.width as int) < img.height,
{
    let w = img.width as int;
    let h = img.height as int;
    vstd::arithmetic::div_mod::lemma_mod_division_less_than_divisor(i, w);
    vstd::arithmetic::div_mod::lemma_div_pos_is_pos(i, w);
    if i / w >= h {
        vstd::arithmetic::div_mod::lemma_fundamental_div_mod(i, w);
        assert((i / w) * w >= h * w) by {
            vstd::arithmetic::mul::lemma_mul_inequality(h, i / w, w);
        }
        assert(w * h == h * w) by {
            vstd::arithmetic::mul::lemma_mul_is_commutative(w, h);
        }
        assert(w * (i / w) == (i / w) * w) by {
            vstd::arithmetic::mul::lemma_mul_is_commutative(w, i / w);
        }
    }
}

/// The ceiling never falls as it covers more pixels, and never exceeds 255
/// on a well-formed image.
pub proof fn lemma_max_grey_prefix_le_255(img: RasterImage, n: int)
    requires
        img.wf(),
        0 <= n <= img.width * img.height,
    ensures
        0 <= max_grey_prefix(img, n) <= 255,
    decreases n,
{
    if n > 0 {
        lemma_max_grey_prefix_le_255(img, n - 1);
        lemma_flat_coords(img, n - 1);
        lemma_grey_bounds(img, (n - 1) % (img.width as int), (n - 1) / (img.width as int));
    }
}

/// Decodes image bytes into an upright raster; fails with a diagnostic when
/// the bytes are not a supported raster format, are truncated, or hold no
/// pixels.
pub fn decode_image(bytes: &[u8]) -> (r: Result<RasterImage, DecodeError>)
    ensures
        r is Ok <==> (decoded_rgba_of(bytes@) matches Some(t) && t.0 > 0 && t.1 > 0),
        r matches Ok(img) ==> img.wf() && decoded_rgba_of(bytes@) == Some(
            ((img.width as nat), (img.height as nat), img.rgba@),
        ),
{
    match decode_rgba(bytes) {
        Ok((w, h, rgba)) => {
            if w == 0 || h == 0 {
                Err(DecodeError { message: "decoded image holds no pixels".to_owned() })
            } else {
                Ok(RasterImage::new(w as usize, h as usize, rgba))
            }
        },
        Err(message) => Err(DecodeError { message }),
    }
}

/// One tinted channel: the tint channel scaled by `value / ceiling` in
/// integer arithmetic, clamped defensively to the valid channel range. A
/// zero ceiling (an all-black image) paints black.
pub open spec fn painted_channel(c: int, value: int, ceiling: int) -> int {
    if ceiling <= 0 {
        0
    } else {
        vstd::math::min(255, c * value / ceiling)
    }
}

/// A tint color scaled by the brightness ratio `value / ceiling`.
pub open spec fn painted(tint: Rgb, value: int, ceiling: int) -> Rgb {
    Rgb {
        r: painted_channel(tint.r as int, value, ceiling) as u8,
        g: painted_channel(tint.g as int, value, ceiling) as u8,
        b: painted_channel(tint.b as int, value, ceiling) as u8,
    }
}

/// While the brightness value stays at or below the ceiling, a painted
/// channel never exceeds its tint channel — the defensive clamp never
/// engages; at the ceiling the tint comes through exactly, and at zero
/// brightness the channel is black.
pub proof fn lemma_paint_within_tint(c: int, value: int, ceiling: int)
    requires
        0 <= c <= 255,
        0 <= value <= ceiling,
    ensures
        0 <= painted_channel(c, value, ceiling) <= c,
        value == ceiling && ceiling > 0 ==> painted_channel(c, value, ceiling) == c,
        value == 0 ==> painted_channel(c, value, ceiling) == 0,
{
    if ceiling > 0 {
        assert(c * value <= c * ceiling) by {
            vstd::arithmetic::mul::lemma_mul_inequality(value, ceiling, c);
            vstd::arithmetic::mul::lemma_mul_is_commutative(value, c);
            vstd::arithmetic::mul::lemma_mul_is_commutative(ceiling, c);
        }
        assert(c * value >= 0) by {
            vstd::arithmetic::mul::lemma_mul_nonnegative(c, value);
        }
        assert(c * ceiling / ceiling == c) by {
            vstd::arithmetic::mul::lemma_mul_is_commutative(c, ceiling);
            vstd::arithmetic::div_mod::lemma_div_multiples_vanish(c, ceiling);
        }
        assert(c * value / ceiling <= c) by {
            vstd::arithmetic::div_mod::lemma_div_is_ordered(c * value, c * ceiling, ceiling);
        }
        assert(c * value / ceiling >= 0) by {
            vstd::arithmetic::div_mod::lemma_div_pos_is_pos(c * value, ceiling);
        }
        if value == 0 {
            assert(c * 0 == 0);
            assert(0int / ceiling == 0) by {
                vstd::arithmetic::div_mod::lemma_div_of0(ceiling);
            }
        }
    }
}

/// One tinted channel, in executable integer arithmetic.
fn paint_channel(c: u8, value: u8, ceiling: u8) -> (r: u8)
    ensures
        r as int == painted_channel(c as int, value as int, ceiling as int),
{
    if ceiling == 0 {
        0
    } else {
        proof {
            vstd::arithmetic::mul::lemma_mul_upper_bound(c as int, 255, value as int, 255);
        }
        let v: u32 = (c as u32) * (value as u32) / (ceiling as u32);
        if v > 255 {
            255
        } else {
            v as u8
        }
    }
}

/// Owns a decoded image, a brightness normalization ceiling computed once at
/// construction, and an immutable tint color; exposes per-grid-cell tinted
/// brightness lookups.
pub struct RasterSampler {
    pub image: RasterImage,
    pub max_brightness: u8,
    pub tint: Rgb,
}

impl RasterSampler {
    /// The ceiling is exactly the greatest greyscale proxy in the image.
    pub open spec fn wf(self) -> bool {
        self.image.wf() && self.max_brightness as int == max_grey(self.image)
    }

    /// Builds a sampler: scans every pixel once for the brightness ceiling.
    pub fn new(image: RasterImage, tint: Rgb) -> (s: RasterSampler)
        requires
            image.wf(),
        ensures
            s.wf(),
            s.image == image,
            s.tint == tint,
    {
        let n = image.rgba.len();
        proof {
            vstd::arithmetic::mul::lemma_mul_nonnegative(image.width as int, image.height as int);
            assert(image.width * image.height * 4 == n);
        }
        let total: usize = image.width * image.height;
        let mut m: u8 = 0;
        let mut i: usize = 0;
        while i < total
            invariant
                image.wf(),
                total == image.width * image.height,
                i <= total,
                m as int == max_grey_prefix(image, i as int),
            decreases total - i,
        {
            proof {
                lemma_flat_coords(image, i as int);
            }
            let x = i % image.width;
            let y = i / image.width;
            let g = image.grey_value(x, y);
            proof {
                vstd::arithmetic::div_mod::lemma_fundamental_div_mod(
                    i as int,
                    image.width as int,
                );
                assert((image.width as int) * (y as int) == (y as int) * (image.width as int))
                    by {
                    vstd::arithmetic::mul::lemma_mul_is_commutative(
                        image.width as int,
                        y as int,
                    );
                }
                assert(image.grey_at(i as int) == image.grey(x as int, y as int));
            }
            if g > m {
                m = g;
            }
            i = i + 1;
        }
        RasterSampler { image, max_brightness: m, tint }
    }

    /// Looks the grid cell at `(x, y)` up: `None` when the coordinate lies
    /// outside the image's pixel extent, else the cell's greyscale value,
    /// which never exceeds the normalization ceiling — the brightness ratio
    /// always lies within zero and one.
    pub fn sample_cell(&self, x: usize, y: usize) -> (r: Option<u8>)
        requires
            self.wf(),
        ensures
            r is Some <==> (x < self.image.width && y < self.image.height),
            r matches Some(g) ==> g as int == self.image.grey(x as int, y as int) && g
                <= self.max_brightness,
    {
        if x < self.image.width && y < self.image.height {
            let g = self.image.grey_value(x, y);
            proof {
                lemma_pixel_index_bounds(self.image, x as int, y as int);
                lemma_max_grey_prefix_bound(
                    self.image,
                    self.image.width * self.image.height,
                    (y * self.image.width + x) as int,
                );
            }
            Some(g)
        } else {
            None
        }
    }

    /// Scales one sampled brightness value by the tint color.
    pub fn paint(&self, value: u8) -> (c: Rgb)
        ensures
            c == painted(self.tint, value as int, self.max_brightness as int),
    {
        Rgb {
            r: paint_channel(self.tint.r, value, self.max_brightness),
            g: paint_channel(self.tint.g, value, self.max_brightness),
            b: paint_channel(self.tint.b, value, self.max_brightness),
        }
    }

    /// The tinted color of the grid cell at `(x, y)`, or `None` outside the
    /// image's pixel extent.
    pub fn paint_cell(&self, x: usize, y: usize) -> (r: Option<Rgb>)
        requires
            self.wf(),
        ensures
            r is Some <==> (x < self.image.width && y < self.image.height),
            r matches Some(c) ==> c == painted(
                self.tint,
                self.image.grey(x as int, y as int),
                self.max_brightness as int,
            ),
    {
        match self.sample_cell(x, y) {
            Some(g) => Some(self.paint(g)),
            None => None,
        }
    }

    /// Paints the whole grid, row-major: one tinted color per pixel cell.
    pub fn painted_grid(&self) -> (v: Vec<Rgb>)
        requires
            self.wf(),
        ensures
            v@.len() == self.image.width * self.image.height,
            forall|i: int|
                0 <= i < v@.len() ==> v@[i] == painted(
                    self.tint,
                    self.image.grey_at(i),
                    self.max_brightness as int,
                ),
    {
        let n = self.image.rgba.len();
        proof {
            vstd::arithmetic::mul::lemma_mul_nonnegative(
                self.image.width as int,
                self.image.height as int,
            );
            assert(self.image.width * self.image.height * 4 == n);
        }
        let total: usize = self.image.width * self.image.height;
        let mut v: Vec<Rgb> = Vec::new();
        let mut i: usize = 0;
        while i < total
            invariant
                self.wf(),
                total == self.image.width * self.image.height,
                i <= total,
                v@.len() == i,
                forall|j: int|
                    0 <= j < i ==> v@[j] == painted(
                        self.tint,
                        self.image.grey_at(j),
                        self.max_brightness as int,
                    ),
            decreases total - i,
        {
            proof {
                lemma_flat_coords(self.image, i as int);
            }
            let x = i % self.image.width;
            let y = i / self.image.width;
            let g = self.image.grey_value(x, y);
            proof {
                vstd::arithmetic::div_mod::lemma_fundamental_div_mod(
                    i as int,
                    self.image.width as int,
                );
                assert((self.image.width as int) * (y as int) == (y as int) * (
                self.image.width as int)) by {
                    vstd::arithmetic::mul::lemma_mul_is_commutative(
                        self.image.width as int,
                        y as int,
                    );
                }
                assert(self.image.grey_at(i as int) == self.image.grey(x as int, y as int));
            }
            let c = self.paint(g);
            v.push(c);
            i = i + 1;
        }
        v
    }
}

} // verus!
