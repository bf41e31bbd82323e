//! Block-average pixelation: each square block of the source becomes one
//! output pixel holding the per-channel integer-truncated mean of the block.

use vstd::arithmetic::div_mod::{
    lemma_div_is_ordered, lemma_div_multiples_vanish, lemma_div_pos_is_pos,
    lemma_fundamental_div_mod, lemma_fundamental_div_mod_converse_div,
    lemma_fundamental_div_mod_converse_mod, lemma_mod_bound, lemma_multiply_divide_lt,
};
use vstd::arithmetic::mul::lemma_mul_inequality;
use vstd::prelude::*;
use vstd::seq_lib::group_to_multiset_ensures;

use crate::error::ToolError;
use crate::raster::{Image, Pixel};

verus! {

/// Per-channel sum over a pixel sequence, as the quadruple
/// (red sum, green sum, blue sum, alpha sum).
pub open spec fn pixel_sum(s: Seq<Pixel>) -> (int, int, int, int)
    decreases s.len(),
{
    if s.len() == 0 {
        (0, 0, 0, 0)
    } else {
        let t = pixel_sum(s.drop_last());
        let p = s.last();
        (t.0 + p.r, t.1 + p.g, t.2 + p.b, t.3 + p.a)
    }
}

/// The integer-truncated per-channel mean of a pixel sequence:
/// each channel is summed over the sequence and divided, rounding
/// toward zero, by the sequence length.
pub open spec fn average_spec(s: Seq<Pixel>) -> Pixel
    recommends
        s.len() > 0,
{
    let t = pixel_sum(s);
    let n = s.len() as int;
    Pixel { r: (t.0 / n) as u8, g: (t.1 / n) as u8, b: (t.2 / n) as u8, a: (t.3 / n) as u8 }
}

/// Each channel sum lies between 0 and 255 times the sequence length.
pub proof fn lemma_pixel_sum_bounds(s: Seq<Pixel>)
    ensures
        0 <= pixel_sum(s).0 <= 255 * s.len(),
        0 <= pixel_sum(s).1 <= 255 * s.len(),
        0 <= pixel_sum(s).2 <= 255 * s.len(),
        0 <= pixel_sum(s).3 <= 255 * s.len(),
    decreases s.len(),
{
    if s.len() > 0 {
        lemma_pixel_sum_bounds(s.drop_last());
    }
}

/// Over a sequence holding one colour only, each channel sum is the
/// length times that colour's channel.
pub proof fn lemma_pixel_sum_uniform(s: Seq<Pixel>, c: Pixel)
    requires
        forall|k: int| 0 <= k < s.len() ==> s[k] == c,
    ensures
        pixel_sum(s) == (s.len() * c.r as int, s.len() * c.g as int, s.len() * c.b as int, s.len()
            * c.a as int),
    decreases s.len(),
{
    if s.len() > 0 {
        lemma_pixel_sum_uniform(s.drop_last(), c);
        let n = s.len() as int;
        assert((n - 1) * (c.r as int) + c.r == n * (c.r as int)) by (nonlinear_arith);
        assert((n - 1) * (c.g as int) + c.g == n * (c.g as int)) by (nonlinear_arith);
        assert((n - 1) * (c.b as int) + c.b == n * (c.b as int)) by (nonlinear_arith);
        assert((n - 1) * (c.a as int) + c.a == n * (c.a as int)) by (nonlinear_arith);
    }
}

/// Taking one pixel out of a sequence takes exactly its channels out of
/// the channel sums.
pub proof fn lemma_pixel_sum_remove(s: Seq<Pixel>, i: int)
    requires
        0 <= i < s.len(),
    ensures
        pixel_sum(s.remove(i)).0 == pixel_sum(s).0 - s[i].r,
        pixel_sum(s.remove(i)).1 == pixel_sum(s).1 - s[i].g,
        pixel_sum(s.remove(i)).2 == pixel_sum(s).2 - s[i].b,
        pixel_sum(s.remove(i)).3 == pixel_sum(s).3 - s[i].a,
    decreases s.len(),
{
    if i == s.len() - 1 {
        assert(s.remove(i) =~= s.drop_last());
    } else {
        lemma_pixel_sum_remove(s.drop_last(), i);
        assert(s.remove(i).drop_last() =~= s.drop_last().remove(i));
        assert(s.remove(i).last() == s.last());
    }
}

/// Law: the channel sums do not depend on the order of the pixels —
/// two sequences holding the same pixels the same number of times have
/// the same sums.
pub proof fn lemma_pixel_sum_permutation(s1: Seq<Pixel>, s2: Seq<Pixel>)
    requires
        s1.to_multiset() == s2.to_multiset(),
    ensures
        pixel_sum(s1) == pixel_sum(s2),
    decreases s1.len(),
{
    broadcast use group_to_multiset_ensures;

    if s1.len() == 0 {
        assert(s1.to_multiset().len() == s1.len());
        assert(s2.to_multiset().len() == s2.len());
    } else {
        let p = s1.last();
        assert(s1.contains(p));
        assert(s2.to_multiset().count(p) > 0);
        assert(s2.contains(p));
        let i = choose|i: int| 0 <= i < s2.len() && s2[i] == p;
        assert(s1.drop_last() =~= s1.remove(s1.len() - 1));
        assert(s1.remove(s1.len() - 1).to_multiset() == s1.to_multiset().remove(p));
        assert(s2.remove(i).to_multiset() == s2.to_multiset().remove(p));
        lemma_pixel_sum_permutation(s1.drop_last(), s2.remove(i));
        lemma_pixel_sum_remove(s2, i);
    }
}

/// Law: the block average is unchanged by any reordering of the block's
/// pixels — summing each channel and then dividing does not depend on
/// the order in which the pixels were gathered.
pub proof fn lemma_average_permutation(s1: Seq<Pixel>, s2: Seq<Pixel>)
    requires
        s1.to_multiset() == s2.to_multiset(),
        s1.len() > 0,
    ensures
        average_spec(s1) == average_spec(s2),
{
    broadcast use group_to_multiset_ensures;

    lemma_pixel_sum_permutation(s1, s2);
    assert(s1.len() == s1.to_multiset().len());
    assert(s2.len() == s2.to_multiset().len());
}

/// The integer-truncated per-channel mean of a pixel vector.
///
/// The length bound is a machine limit: it keeps every channel sum
/// within the 32-bit accumulators.
pub fn average_pixels(pixels: &Vec<Pixel>) -> (p: Pixel)
    requires
        1 <= pixels@.len() <= 0x00ff_ffff,
    ensures
        p == average_spec(pixels@),
{
    let mut red: u32 = 0;
    let mut green: u32 = 0;
    let mut blue: u32 = 0;
    let mut alpha: u32 = 0;
    let n = pixels.len();
    let mut idx: usize = 0;
    while idx < n
        invariant
            0 <= idx <= n,
            n == pixels@.len() <= 0x00ff_ffff,
            red == pixel_sum(pixels@.take(idx as int)).0,
            green == pixel_sum(pixels@.take(idx as int)).1,
            blue == pixel_sum(pixels@.take(idx as int)).2,
            alpha == pixel_sum(pixels@.take(idx as int)).3,
        decreases n - idx,
    {
        proof {
            lemma_pixel_sum_bounds(pixels@.take(idx as int));
            assert(pixels@.take(idx + 1).drop_last() =~= pixels@.take(idx as int));
            assert(pixels@.take(idx + 1).last() == pixels@[idx as int]);
        }
        let px = pixels[idx];
        red = red + px.r as u32;
        green = green + px.g as u32;
        blue = blue + px.b as u32;
        alpha = alpha + px.a as u32;
        idx = idx + 1;
    }
    proof {
        assert(pixels@.take(n as int) =~= pixels@);
        lemma_pixel_sum_bounds(pixels@);
        lemma_div_is_ordered(red as int, 255 * n, n as int);
        lemma_div_is_ordered(green as int, 255 * n, n as int);
        lemma_div_is_ordered(blue as int, 255 * n, n as int);
        lemma_div_is_ordered(alpha as int, 255 * n, n as int);
        lemma_div_multiples_vanish(255, n as int);
    }
    let count = n as u32;
    Pixel {
        r: (red / count) as u8,
        g: (green / count) as u8,
        b: (blue / count) as u8,
        a: (alpha / count) as u8,
    }
}

/// The square block of source pixels that output coordinate `(ox, oy)`
/// draws from, in the order the block is gathered: entry `k` is the
/// source pixel at column `ox * scale + k / scale`, row
/// `oy * scale + k % scale`.
pub open spec fn block(img: Image, ox: int, oy: int, scale: int) -> Seq<Pixel> {
    Seq::new(
        (scale * scale) as nat,
        |k: int| img.pixel(ox * scale + k / scale, oy * scale + k % scale),
    )
}

/// Pixelates one image. On success the output is `w / scale` by
/// `h / scale` pixels, each the integer-truncated per-channel mean of
/// its source block.
///
/// A scale outside `[2, 16]` is an invalid parameter; an accepted scale
/// that does not divide both dimensions breaks the transform's
/// precondition. Either failure ends the whole batch
/// (`FailureScope::BatchFatal`), and no pixel work happens.
#[verifier::loop_isolation(false)]
pub fn pixelate(image: &Image, scale: u32) -> (r: Result<Image, ToolError>)
    ensures
        !(2 <= scale <= 16) ==> r == Err::<Image, ToolError>(ToolError::InvalidParameter),
        2 <= scale <= 16 && !(image.spec_width() % scale == 0 && image.spec_height() % scale == 0)
            ==> r == Err::<Image, ToolError>(ToolError::PreconditionViolation),
        2 <= scale <= 16 && image.spec_width() % scale == 0 && image.spec_height() % scale == 0
            ==> {
            &&& r is Ok
            &&& r->Ok_0.spec_width() == image.spec_width() / scale
            &&& r->Ok_0.spec_height() == image.spec_height() / scale
            &&& forall|ox: int, oy: int|
                0 <= ox < image.spec_width() / scale && 0 <= oy < image.spec_height() / scale
                    ==> #[trigger] r->Ok_0.pixel(ox, oy) == average_spec(
                    block(*image, ox, oy, scale as int),
                )
        },
{
    if scale < 2 || scale > 16 {
        return Err(ToolError::InvalidParameter);
    }
    let w = image.width();
    let h = image.height();
    if w % scale != 0 || h % scale != 0 {
        return Err(ToolError::PreconditionViolation);
    }
    let out_w = w / scale;
    let out_h = h / scale;
    proof {
        lemma_fundamental_div_mod(w as int, scale as int);
        lemma_fundamental_div_mod(h as int, scale as int);
        assert(w == scale * out_w);
        assert(h == scale * out_h);
    }
    let ghost gblock = |ox: int, oy: int| block(*image, ox, oy, scale as int);
    let mut pixels: Vec<Pixel> = Vec::new();
    let mut oy: u32 = 0;
    while oy < out_h
        invariant
            oy <= out_h,
            pixels@.len() == oy * (out_w as int),
            forall|n: int|
                0 <= n < pixels@.len() ==> #[trigger] pixels@[n] == average_spec(
                    block(*image, n % (out_w as int), n / (out_w as int), scale as int),
                ),
        decreases out_h - oy,
    {
        let mut ox: u32 = 0;
        while ox < out_w
            invariant
                ox <= out_w,
                oy < out_h,
                pixels@.len() == oy * (out_w as int) + ox,
                forall|n: int|
                    0 <= n < pixels@.len() ==> #[trigger] pixels@[n] == average_spec(
                        block(*image, n % (out_w as int), n / (out_w as int), scale as int),
                    ),
            decreases out_w - ox,
        {
            proof {
                lemma_mul_inequality(ox as int + 1, out_w as int, scale as int);
                assert((ox as int + 1) * (scale as int) == ox as int * (scale as int)
                    + scale) by (nonlinear_arith);
                assert((out_w as int) * (scale as int) == (scale as int) * (
                out_w as int)) by (nonlinear_arith);
                lemma_mul_inequality(oy as int + 1, out_h as int, scale as int);
                assert((oy as int + 1) * (scale as int) == oy as int * (scale as int)
                    + scale) by (nonlinear_arith);
                assert((out_h as int) * (scale as int) == (scale as int) * (
                out_h as int)) by (nonlinear_arith);
            }
            let mut block_pixels: Vec<Pixel> = Vec::new();
            let mut i: u32 = 0;
            while i < scale
                invariant
                    i <= scale,
                    ox < out_w,
                    oy < out_h,
                    block_pixels@.len() == i * (scale as int),
                    forall|k: int|
                        0 <= k < block_pixels@.len() ==> #[trigger] block_pixels@[k] == gblock(
                            ox as int,
                            oy as int,
                        )[k],
                decreases scale - i,
            {
                let mut j: u32 = 0;
                while j < scale
                    invariant
                        j <= scale,
                        i < scale,
                        ox < out_w,
                        oy < out_h,
                        block_pixels@.len() == i * (scale as int) + j,
                        forall|k: int|
                            0 <= k < block_pixels@.len() ==> #[trigger] block_pixels@[k] == gblock(
                                ox as int,
                                oy as int,
                            )[k],
                    decreases scale - j,
                {
                    proof {
                        lemma_mul_inequality(ox as int, out_w as int - 1, scale as int);
                        assert((out_w as int - 1) * (scale as int) == (out_w as int) * (
                        scale as int) - scale) by (nonlinear_arith);
                        lemma_mul_inequality(oy as int, out_h as int - 1, scale as int);
                        assert((out_h as int - 1) * (scale as int) == (out_h as int) * (
                        scale as int) - scale) by (nonlinear_arith);
                    }
                    let sx = ox * scale + i;
                    let sy = oy * scale + j;
                    let p = image.get_pixel(sx, sy);
                    proof {
                        let k = i as int * (scale as int) + j;
                        lemma_fundamental_div_mod_converse_div(k, scale as int, i as int, j as int);
                        lemma_fundamental_div_mod_converse_mod(k, scale as int, i as int, j as int);
                        assert((i as int + 1) * (scale as int) == i as int * (scale as int)
                            + scale) by (nonlinear_arith);
                        lemma_mul_inequality(i as int + 1, scale as int, scale as int);
                        assert(0 <= k < (scale as int) * (scale as int));
                        assert(gblock(ox as int, oy as int)[k] == image.pixel(
                            ox as int * (scale as int) + i,
                            oy as int * (scale as int) + j,
                        ));
                    }
                    block_pixels.push(p);
                    j = j + 1;
                }
                proof {
                    assert((i as int + 1) * (scale as int) == i as int * (scale as int)
                        + scale) by (nonlinear_arith);
                }
                i = i + 1;
            }
            proof {
                assert((scale as int) * (scale as int) <= 256) by (nonlinear_arith)
                    requires
                        2 <= scale <= 16,
                ;
                assert(4 <= (scale as int) * (scale as int)) by (nonlinear_arith)
                    requires
                        2 <= scale,
                ;
                assert(block_pixels@ =~= gblock(ox as int, oy as int));
            }
            let p = average_pixels(&block_pixels);
            proof {
                let n = oy as int * (out_w as int) + ox;
                lemma_fundamental_div_mod_converse_div(n, out_w as int, oy as int, ox as int);
                lemma_fundamental_div_mod_converse_mod(n, out_w as int, oy as int, ox as int);
            }
            pixels.push(p);
            ox = ox + 1;
        }
        proof {
            assert((oy as int + 1) * (out_w as int) == oy as int * (out_w as int)
                + out_w) by (nonlinear_arith);
        }
        oy = oy + 1;
    }
    proof {
        assert((out_h as int) * (out_w as int) == (out_w as int) * (
        out_h as int)) by (nonlinear_arith);
    }
    let out = Image::from_pixels(out_w, out_h, pixels);
    proof {
        assert forall|ox: int, oy: int| 0 <= ox < out_w && 0 <= oy < out_h implies #[trigger] out
            .pixel(ox, oy) == average_spec(block(*image, ox, oy, scale as int)) by {
            let n = oy * (out_w as int) + ox;
            lemma_mul_inequality(oy, out_h as int - 1, out_w as int);
            assert((out_h as int - 1) * (out_w as int) == (out_h as int) * (out_w as int)
                - out_w) by (nonlinear_arith);
            assert(0 <= oy * (out_w as int)) by (nonlinear_arith)
                requires
                    0 <= oy && 0 <= out_w as int,
            ;
            lemma_fundamental_div_mod_converse_div(n, out_w as int, oy, ox);
            lemma_fundamental_div_mod_converse_mod(n, out_w as int, oy, ox);
        }
    }
    Ok(out)
}

/// Law: the pixelated image holds exactly `w * h / (scale * scale)`
/// pixels — its two dimensions multiply out to the source's pixel count
/// divided by the block size.
pub proof fn lemma_pixelate_pixel_count(image: Image, scale: u32)
    requires
        2 <= scale <= 16,
        image.spec_width() % scale == 0,
        image.spec_height() % scale == 0,
    ensures
        (image.spec_width() / scale) as int * (image.spec_height() / scale) as int == (
        image.spec_width() as int * image.spec_height()) / ((scale * scale) as int),
{
    let w = image.spec_width() as int;
    let h = image.spec_height() as int;
    let s = scale as int;
    let a = w / s;
    let b = h / s;
    lemma_fundamental_div_mod(w, s);
    lemma_fundamental_div_mod(h, s);
    assert(w == s * a);
    assert(h == s * b);
    assert(w * h == (s * s) * (a * b)) by (nonlinear_arith)
        requires
            w == s * a && h == s * b,
    ;
    assert(0 < s * s) by (nonlinear_arith)
        requires
            2 <= s,
    ;
    lemma_div_multiples_vanish(a * b, s * s);
}

/// Law: pixelating a uniform image is lossless — when every source pixel
/// equals `c`, every block average equals `c` exactly, because averaging
/// equal channel values gives that value back.
pub proof fn lemma_pixelate_uniform(image: Image, scale: u32, c: Pixel)
    requires
        2 <= scale <= 16,
        image.spec_width() % scale == 0,
        image.spec_height() % scale == 0,
        forall|x: int, y: int|
            0 <= x < image.spec_width() && 0 <= y < image.spec_height()
                ==> #[trigger] image.pixel(x, y) == c,
    ensures
        forall|ox: int, oy: int|
            0 <= ox < image.spec_width() / scale && 0 <= oy < image.spec_height() / scale
                ==> #[trigger] average_spec(block(image, ox, oy, scale as int)) == c,
{
    let w = image.spec_width() as int;
    let h = image.spec_height() as int;
    let s = scale as int;
    let out_w = w / s;
    let out_h = h / s;
    lemma_fundamental_div_mod(w, s);
    lemma_fundamental_div_mod(h, s);
    assert(w == s * out_w);
    assert(h == s * out_h);
    assert forall|ox: int, oy: int| 0 <= ox < out_w && 0 <= oy < out_h implies #[trigger]
    average_spec(block(image, ox, oy, s)) == c by {
        let blk = block(image, ox, oy, s);
        assert(0 < s * s) by (nonlinear_arith)
            requires
                2 <= s,
        ;
        assert forall|k: int| 0 <= k < s * s implies blk[k] == c by {
            lemma_fundamental_div_mod(k, s);
            lemma_mod_bound(k, s);
            lemma_div_pos_is_pos(k, s);
            lemma_multiply_divide_lt(k, s, s);
            lemma_mul_inequality(ox, out_w - 1, s);
            assert((out_w - 1) * s == out_w * s - s) by (nonlinear_arith);
            assert(out_w * s == s * out_w) by (nonlinear_arith);
            lemma_mul_inequality(oy, out_h - 1, s);
            assert((out_h - 1) * s == out_h * s - s) by (nonlinear_arith);
            assert(out_h * s == s * out_h) by (nonlinear_arith);
            assert(0 <= ox * s) by (nonlinear_arith)
                requires
                    0 <= ox && 0 < s,
            ;
            assert(0 <= oy * s) by (nonlinear_arith)
                requires
                    0 <= oy && 0 < s,
            ;
            assert(0 <= ox * s + k / s < w);
            assert(0 <= oy * s + k % s < h);
            assert(image.pixel(ox * s + k / s, oy * s + k % s) == c);
        }
        lemma_pixel_sum_uniform(blk, c);
        lemma_div_multiples_vanish(c.r as int, s * s);
        lemma_div_multiples_vanish(c.g as int, s * s);
        lemma_div_multiples_vanish(c.b as int, s * s);
        lemma_div_multiples_vanish(c.a as int, s * s);
        assert(blk.len() * (c.r as int) == (s * s) * (c.r as int));
        assert(blk.len() * (c.g as int) == (s * s) * (c.g as int));
        assert(blk.len() * (c.b as int) == (s * s) * (c.b as int));
        assert(blk.len() * (c.a as int) == (s * s) * (c.a as int));
    }
}

} // verus!
