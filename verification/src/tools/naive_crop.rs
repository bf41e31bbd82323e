//! Axis-aligned cropping, anchored at the top-left corner or centred.

use vstd::arithmetic::div_mod::{
    lemma_div_nonincreasing, lemma_fundamental_div_mod_converse_div,
    lemma_fundamental_div_mod_converse_mod,
};
use vstd::arithmetic::mul::lemma_mul_inequality;
use vstd::prelude::*;

use crate::error::ToolError;
use crate::raster::{Image, Pixel};

verus! {

/// Where the crop region starts along one axis: 0 when anchored at the
/// top-left, or half the slack with integer (floor) division when
/// centred — an odd difference biases the region toward the top-left.
pub open spec fn spec_crop_origin(centre: bool, source: u32, target: u32) -> int
    recommends
        target <= source,
{
    if centre {
        (source - target) / 2 as int
    } else {
        0
    }
}

/// Computes the crop region's origin along one axis.
pub fn crop_origin(centre: bool, source: u32, target: u32) -> (o: u32)
    requires
        target <= source,
    ensures
        o == spec_crop_origin(centre, source, target),
        o + target <= source,
{
    if centre {
        proof {
            lemma_div_nonincreasing(source as int - target as int, 2);
        }
        (source - target) / 2
    } else {
        0
    }
}

/// Crops one image to `target_width` by `target_height`.
///
/// A source smaller than the target along either axis breaks the
/// transform's precondition; unlike the other two transforms, that
/// failure only skips the offending file (`FailureScope::PerFileSkip`).
///
/// Law: on success the output holds exactly the source's pixels of the
/// region starting at the crop origin — `centre == false` always anchors
/// the region at the source's top-left corner `(0, 0)`.
#[verifier::loop_isolation(false)]
pub fn naive_crop(image: &Image, target_width: u32, target_height: u32, centre: bool) -> (r: Result<
    Image,
    ToolError,
>)
    ensures
        (image.spec_width() < target_width || image.spec_height() < target_height) ==> r == Err::<
            Image,
            ToolError,
        >(ToolError::PreconditionViolation),
        (target_width <= image.spec_width() && target_height <= image.spec_height()) ==> {
            &&& r is Ok
            &&& r->Ok_0.spec_width() == target_width
            &&& r->Ok_0.spec_height() == target_height
            &&& forall|x: int, y: int|
                0 <= x < target_width && 0 <= y < target_height ==> #[trigger] r->Ok_0.pixel(x, y)
                    == image.pixel(
                    spec_crop_origin(centre, image.spec_width(), target_width) + x,
                    spec_crop_origin(centre, image.spec_height(), target_height) + y,
                )
        },
{
    let w = image.width();
    let h = image.height();
    if w < target_width || h < target_height {
        return Err(ToolError::PreconditionViolation);
    }
    let x0 = crop_origin(centre, w, target_width);
    let y0 = crop_origin(centre, h, target_height);
    let mut pixels: Vec<Pixel> = Vec::new();
    let mut y: u32 = 0;
    while y < target_height
        invariant
            y <= target_height,
            pixels@.len() == y * (target_width as int),
            forall|n: int|
                0 <= n < pixels@.len() ==> #[trigger] pixels@[n] == image.pixel(
                    x0 + n % (target_width as int),
                    y0 + n / (target_width as int),
                ),
        decreases target_height - y,
    {
        let mut x: u32 = 0;
        while x < target_width
            invariant
                x <= target_width,
                y < target_height,
                pixels@.len() == y * (target_width as int) + x,
                forall|n: int|
                    0 <= n < pixels@.len() ==> #[trigger] pixels@[n] == image.pixel(
                        x0 + n % (target_width as int),
                        y0 + n / (target_width as int),
                    ),
            decreases target_width - x,
        {
            let p = image.get_pixel(x0 + x, y0 + y);
            proof {
                let n = y as int * (target_width as int) + x;
                lemma_fundamental_div_mod_converse_div(
                    n,
                    target_width as int,
                    y as int,
                    x as int,
                );
                lemma_fundamental_div_mod_converse_mod(
                    n,
                    target_width as int,
                    y as int,
                    x as int,
                );
            }
            pixels.push(p);
            x = x + 1;
        }
        proof {
            assert((y as int + 1) * (target_width as int) == y as int * (target_width as int)
                + target_width) by (nonlinear_arith);
        }
        y = y + 1;
    }
    proof {
        assert((target_height as int) * (target_width as int) == (target_width as int) * (
        target_height as int)) by (nonlinear_arith);
    }
    let out = Image::from_pixels(target_width, target_height, pixels);
    proof {
        assert forall|x: int, y: int| 0 <= x < target_width && 0 <= y < target_height implies #[trigger] out.pixel(x, y) == image.pixel(
            spec_crop_origin(centre, image.spec_width(), target_width) + x,
            spec_crop_origin(centre, image.spec_height(), target_height) + y,
        ) by {
            let n = y * (target_width as int) + x;
            lemma_mul_inequality(y, target_height as int - 1, target_width as int);
            assert((target_height as int - 1) * (target_width as int) == (target_height as int) * (
            target_width as int) - target_width) by (nonlinear_arith);
            assert(0 <= y * (target_width as int)) by (nonlinear_arith)
                requires
                    0 <= y && 0 <= target_width as int,
            ;
            lemma_fundamental_div_mod_converse_div(n, target_width as int, y, x);
            lemma_fundamental_div_mod_converse_mod(n, target_width as int, y, x);
        }
    }
    Ok(out)
}

} // verus!
