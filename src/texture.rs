//! Color sources: a flat color, or an image sampled with wrap-around.
use vstd::prelude::*;
use image::{DynamicImage, GenericImageView};
use crate::color::{Color, Rgba, from_rgba_spec};
use crate::fixed::{div_toward_zero, div_trunc, SCALE};

verus! {

#[verifier::external_type_specification]
#[verifier::external_body]
pub struct ExDynamicImage(DynamicImage);

/// Width in pixels of a decoded image.
pub uninterp spec fn image_width(img: DynamicImage) -> nat;

/// Height in pixels of a decoded image.
pub uninterp spec fn image_height(img: DynamicImage) -> nat;

/// The pixels of a decoded image as 8-bit RGBA, row by row.
pub uninterp spec fn image_texels(img: DynamicImage) -> Seq<Rgba>;

/// Relies on `DynamicImage::width`: the width of the image in pixels.
#[verifier::external_body]
fn texture_width(img: &DynamicImage) -> (r: u32)
    ensures
        r == image_width(*img),
{
    img.width()
}

/// Relies on `DynamicImage::height`: the height of the image in pixels.
#[verifier::external_body]
fn texture_height(img: &DynamicImage) -> (r: u32)
    ensures
        r == image_height(*img),
{
    img.height()
}

/// Relies on `GenericImageView::get_pixel` of `DynamicImage`: the pixel at
/// column `x` of row `y`, as 8-bit RGBA. It panics outside the image.
#[verifier::external_body]
fn texel(img: &DynamicImage, x: u32, y: u32) -> (r: Rgba)
    requires
        x < image_width(*img),
        y < image_height(*img),
    ensures
        r == image_texels(*img)[y * image_width(*img) + x],
{
    let p = img.get_pixel(x, y);
    (p[0], p[1], p[2], p[3])
}

/// Relies on `ImageBuffer::from_raw` and `DynamicImage::ImageRgb8`: an RGB
/// image of `w` by `h` pixels over `bytes`, three per pixel, row by row,
/// whose `get_pixel` gives back those three channels. `from_raw` returns
/// `None` only when the buffer is too short, which `requires` rules out.
#[verifier::external_body]
pub(crate) fn rgb_image(w: u32, h: u32, bytes: Vec<u8>) -> (r: DynamicImage)
    requires
        bytes@.len() == 3 * w * h,
    ensures
        image_width(r) == w,
        image_height(r) == h,
        forall|i: int|
            0 <= i < w * h ==> (#[trigger] image_texels(r)[i]).0 == bytes@[3 * i]
                && image_texels(r)[i].1 == bytes@[3 * i + 1] && image_texels(r)[i].2 == bytes@[3 * i
                + 2],
{
    DynamicImage::ImageRgb8(image::RgbImage::from_raw(w, h, bytes).unwrap())
}

/// 2-D surface coordinates, fixed-point; one unit spans a texture once.
#[allow(non_camel_case_types)]
#[derive(Clone, Copy, Debug, PartialEq, Eq, Structural)]
pub struct Texture_thing {
    pub x: i64,
    pub y: i64,
}

#[allow(non_camel_case_types)]
#[derive(Debug)]
pub enum Texture {
    color(Color),
    image(DynamicImage),
}

/// Texel index of a coordinate along an axis of `bound` texels: the
/// coordinate times `bound`, truncated toward zero, then reduced modulo
/// `bound` into `[0, bound)`, so that the texture tiles.
pub open spec fn wrap_spec(val: int, bound: int) -> int {
    div_trunc(val * bound, SCALE as int) % bound
}

pub open spec fn texture_wf(t: Texture) -> bool {
    match t {
        Texture::color(_) => true,
        Texture::image(img) => image_width(img) > 0 && image_height(img) > 0,
    }
}

/// The color that a texture shows at the given coordinates.
pub open spec fn sample_spec(t: Texture, coords: Texture_thing) -> Color {
    match t {
        Texture::color(c) => c,
        Texture::image(img) => {
            let w = image_width(img) as int;
            let h = image_height(img) as int;
            let x = wrap_spec(coords.x as int, w);
            let y = wrap_spec(coords.y as int, h);
            from_rgba_spec(image_texels(img)[y * w + x])
        },
    }
}

pub fn wrap(val: i64, bound: u32) -> (r: u32)
    requires
        bound > 0,
    ensures
        r == wrap_spec(val as int, bound as int),
        r < bound,
{
    assert(-0x8000_0000_0000_0000_0000_0000 <= (val as int) * (bound as int)
        <= 0x8000_0000_0000_0000_0000_0000) by (nonlinear_arith)
        requires
            -0x8000_0000_0000_0000 <= val <= 0x7fff_ffff_ffff_ffff,
            0 < bound <= 0xffff_ffff,
    ;
    let t = div_toward_zero(val as i128 * bound as i128, SCALE as i128);
    let b = bound as u128;
    proof {
        if t >= 0 {
            vstd::arithmetic::div_mod::lemma_div_is_ordered(
                (val as int) * (bound as int),
                0x8000_0000_0000_0000_0000_0000,
                SCALE as int,
            );
        } else {
            vstd::arithmetic::div_mod::lemma_div_is_ordered(
                -((val as int) * (bound as int)),
                0x8000_0000_0000_0000_0000_0000,
                SCALE as int,
            );
        }
    }
    if t >= 0 {
        (t as u128 % b) as u32
    } else {
        let n = (-t) as u128;
        let m = n % b;
        proof {
            vstd::arithmetic::div_mod::lemma_sub_mod_noop(0, n as int, b as int);
            vstd::arithmetic::div_mod::lemma_small_mod(0, b as nat);
            if m > 0 {
                vstd::arithmetic::div_mod::lemma_mod_multiples_vanish(-1, b - m, b as int);
                vstd::arithmetic::div_mod::lemma_small_mod((b - m) as nat, b as nat);
                assert(b * (-1) + (b - m) == -m) by (nonlinear_arith);
            }
        }
        if m == 0 {
            0
        } else {
            (b - m) as u32
        }
    }
}

impl Texture {
    pub open spec fn wf(&self) -> bool {
        texture_wf(*self)
    }

    /// Whether the texture can be sampled: an image must not be empty.
    pub fn is_sampleable(&self) -> (r: bool)
        ensures
            r == self.wf(),
    {
        match self {
            Texture::color(_) => true,
            Texture::image(img) => texture_width(img) > 0 && texture_height(img) > 0,
        }
    }

    pub fn get_color(&self, coords: &Texture_thing) -> (r: Color)
        requires
            self.wf(),
        ensures
            r == sample_spec(*self, *coords),
    {
        match self {
            Texture::color(c) => *c,
            Texture::image(img) => {
                let w = texture_width(img);
                let h = texture_height(img);
                let x = wrap(coords.x, w);
                let y = wrap(coords.y, h);
                Color::from_rgba(texel(img, x, y))
            },
        }
    }
}

} // verus!
