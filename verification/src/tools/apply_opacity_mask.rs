//! Opacity-mask compositing: colour from the texture image, transparency
//! from the mask image's red channel.
//!
//! Taking the mask's red channel rather than its own alpha lets any
//! grayscale image serve as a mask, whether or not it has an alpha
//! channel of its own.

use vstd::arithmetic::div_mod::{
    lemma_fundamental_div_mod_converse_div, lemma_fundamental_div_mod_converse_mod,
};
use vstd::arithmetic::mul::lemma_mul_inequality;
use vstd::prelude::*;

use crate::error::ToolError;
use crate::raster::{Image, Pixel};

verus! {

/// The composite of one mask pixel and one texture pixel: the texture's
/// colour channels, with the mask's red channel as the new alpha.
pub open spec fn masked_pixel(mask: Pixel, texture: Pixel) -> Pixel {
    Pixel { r: texture.r, g: texture.g, b: texture.b, a: mask.r }
}

/// Builds the composite pixel for one coordinate.
pub fn get_new_pixel(mask: Pixel, texture: Pixel) -> (p: Pixel)
    ensures
        p == masked_pixel(mask, texture),
{
    Pixel { r: texture.r, g: texture.g, b: texture.b, a: mask.r }
}

/// Applies an opacity mask to a texture image.
///
/// The two images must have exactly the same dimensions; otherwise the
/// transform breaks its precondition before any pixel work, and the
/// failure ends the whole batch (`FailureScope::BatchFatal`).
///
/// Law: on success, at every coordinate the output's red, green and blue
/// equal the texture's, and the output's alpha equals the mask's red
/// channel — independent of the mask's own alpha and of the texture's
/// own alpha.
#[verifier::loop_isolation(false)]
pub fn apply_opacity_mask(mask: &Image, texture: &Image) -> (r: Result<Image, ToolError>)
    ensures
        (mask.spec_width() != texture.spec_width() || mask.spec_height() != texture.spec_height())
            ==> r == Err::<Image, ToolError>(ToolError::PreconditionViolation),
        (mask.spec_width() == texture.spec_width() && mask.spec_height() == texture.spec_height())
            ==> {
            &&& r is Ok
            &&& r->Ok_0.spec_width() == texture.spec_width()
            &&& r->Ok_0.spec_height() == texture.spec_height()
            &&& forall|x: int, y: int|
                0 <= x < texture.spec_width() && 0 <= y < texture.spec_height()
                    ==> #[trigger] r->Ok_0.pixel(x, y) == masked_pixel(
                    mask.pixel(x, y),
                    texture.pixel(x, y),
                )
        },
{
    let w = texture.width();
    let h = texture.height();
    if mask.width() != w || mask.height() != h {
        return Err(ToolError::PreconditionViolation);
    }
    let mut pixels: Vec<Pixel> = Vec::new();
    let mut y: u32 = 0;
    while y < h
        invariant
            y <= h,
            pixels@.len() == y * (w as int),
            forall|n: int|
                0 <= n < pixels@.len() ==> #[trigger] pixels@[n] == masked_pixel(
                    mask.pixel(n % (w as int), n / (w as int)),
                    texture.pixel(n % (w as int), n / (w as int)),
                ),
        decreases h - y,
    {
        let mut x: u32 = 0;
        while x < w
            invariant
                x <= w,
                y < h,
                pixels@.len() == y * (w as int) + x,
                forall|n: int|
                    0 <= n < pixels@.len() ==> #[trigger] pixels@[n] == masked_pixel(
                        mask.pixel(n % (w as int), n / (w as int)),
                        texture.pixel(n % (w as int), n / (w as int)),
                    ),
            decreases w - x,
        {
            let p = get_new_pixel(mask.get_pixel(x, y), texture.get_pixel(x, y));
            proof {
                let n = y as int * (w as int) + x;
                lemma_fundamental_div_mod_converse_div(n, w as int, y as int, x as int);
                lemma_fundamental_div_mod_converse_mod(n, w as int, y as int, x as int);
            }
            pixels.push(p);
            x = x + 1;
        }
        proof {
            assert((y as int + 1) * (w as int) == y as int * (w as int) + w) by (nonlinear_arith);
        }
        y = y + 1;
    }
    proof {
        assert((h as int) * (w as int) == (w as int) * (h as int)) by (nonlinear_arith);
    }
    let out = Image::from_pixels(w, h, pixels);
    proof {
        assert forall|x: int, y: int| 0 <= x < w && 0 <= y < h implies #[trigger] out.pixel(x, y)
            == masked_pixel(mask.pixel(x, y), texture.pixel(x, y)) by {
            let n = y * (w as int) + x;
            lemma_mul_inequality(y, h as int - 1, w as int);
            assert((h as int - 1) * (w as int) == (h as int) * (w as int)
                - w) by (nonlinear_arith);
            assert(0 <= y * (w as int)) by (nonlinear_arith)
                requires
                    0 <= y && 0 <= w as int,
            ;
            lemma_fundamental_div_mod_converse_div(n, w as int, y, x);
            lemma_fundamental_div_mod_converse_mod(n, w as int, y, x);
        }
    }
    Ok(out)
}

} // verus!
