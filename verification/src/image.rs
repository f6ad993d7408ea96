//! Decoded images and the size a preview is decoded at.

use vstd::prelude::*;
use vstd::string::StringExecFns;

verus! {

/// A decoded image: 32-bit BGRA pixels, `stride` bytes per row.
pub struct DecodedImage {
    pub file_name: String,
    pub original_width: u32,
    pub original_height: u32,
    pub width: u32,
    pub height: u32,
    pub stride: u32,
    pub file_size: u64,
    pub pixels: Vec<u8>,
}

impl DecodedImage {
    /// Rows of four bytes per pixel, packed without padding, with storage for every row.
    pub open spec fn has_bgra_storage(&self) -> bool {
        &&& self.stride as int == self.width as int * 4
        &&& self.pixels@.len() == self.stride as int * self.height as int
    }
}

/// Width of the built-in demo picture.
pub const DEMO_WIDTH: u32 = 1280;

/// Height of the built-in demo picture.
pub const DEMO_HEIGHT: u32 = 720;

/// Byte `channel` (0 to 3) of a BGRA pixel of colour `color` = (red, green, blue), opaque.
pub open spec fn bgra_channel(color: (u8, u8, u8), channel: int) -> u8 {
    if channel == 0 {
        color.2
    } else if channel == 1 {
        color.1
    } else if channel == 2 {
        color.0
    } else {
        255
    }
}

/// Whether `image` is the demo picture made from `colors`: 1280 by 720 pixels at their
/// original size, opaque BGRA rows without padding whose bytes come from the colours in
/// order, no file size, and the demo name.
pub open spec fn is_demo_image(colors: Seq<(u8, u8, u8)>, image: DecodedImage) -> bool {
    &&& image.width == DEMO_WIDTH
    &&& image.height == DEMO_HEIGHT
    &&& image.original_width == DEMO_WIDTH
    &&& image.original_height == DEMO_HEIGHT
    &&& image.stride == DEMO_WIDTH * 4
    &&& image.has_bgra_storage()
    &&& image.file_size == 0
    &&& image.file_name@ == "PurePic 演示图"@
    &&& forall|k: int|
        0 <= k < image.pixels@.len() ==> #[trigger] image.pixels@[k] == bgra_channel(
            colors[k / 4],
            k % 4,
        )
}

/// The demo picture depends on nothing but its colours: two pictures made from the same
/// colours agree in every field, and each is shown at its original size, with no file
/// size and the demo name.
pub proof fn demo_image_is_determined(colors: Seq<(u8, u8, u8)>, first: DecodedImage, second: DecodedImage)
    requires
        is_demo_image(colors, first),
        is_demo_image(colors, second),
    ensures
        first.width == second.width && first.height == second.height,
        first.original_width == second.original_width && first.original_height
            == second.original_height,
        first.stride == second.stride && first.file_size == second.file_size,
        first.file_name@ == second.file_name@,
        first.pixels@ == second.pixels@,
        first.original_width == first.width && first.original_height == first.height,
        first.file_size == 0,
{
    assert(first.pixels@ =~= second.pixels@);
}

/// The demo picture shown when no file is open, from the (red, green, blue) colour of
/// each of its pixels, row by row: opaque BGRA rows without padding.
pub fn create_demo_image(colors: &Vec<(u8, u8, u8)>) -> (r: DecodedImage)
    requires
        colors@.len() == DEMO_WIDTH * DEMO_HEIGHT,
    ensures
        is_demo_image(colors@, r),
        r.width == DEMO_WIDTH,
        r.height == DEMO_HEIGHT,
        r.original_width == DEMO_WIDTH,
        r.original_height == DEMO_HEIGHT,
        r.stride == DEMO_WIDTH * 4,
        r.has_bgra_storage(),
        r.file_size == 0,
        r.file_name@ == "PurePic 演示图"@,
        forall|k: int|
            0 <= k < r.pixels@.len() ==> #[trigger] r.pixels@[k] == bgra_channel(
                colors@[k / 4],
                k % 4,
            ),
{
    let mut pixels: Vec<u8> = Vec::new();
    let mut i: usize = 0;
    while i < colors.len()
        invariant
            i <= colors@.len(),
            colors@.len() == DEMO_WIDTH * DEMO_HEIGHT,
            pixels@.len() == 4 * i,
            forall|k: int|
                0 <= k < pixels@.len() ==> #[trigger] pixels@[k] == bgra_channel(
                    colors@[k / 4],
                    k % 4,
                ),
        decreases colors@.len() - i,
    {
        let (red, green, blue) = colors[i];
        pixels.push(blue);
        pixels.push(green);
        pixels.push(red);
        pixels.push(255);
        proof {
            assert forall|k: int| 0 <= k < pixels@.len() implies #[trigger] pixels@[k] == bgra_channel(
                colors@[k / 4],
                k % 4,
            ) by {
                if k >= 4 * i {
                    assert(k / 4 == i);
                }
            }
        }
        i = i + 1;
    }
    DecodedImage {
        file_name: String::from_str("PurePic 演示图"),
        original_width: DEMO_WIDTH,
        original_height: DEMO_HEIGHT,
        width: DEMO_WIDTH,
        height: DEMO_HEIGHT,
        stride: DEMO_WIDTH * 4,
        file_size: 0,
        pixels,
    }
}

/// `num / den` rounded to the nearest integer, halves rounding up (for `num >= 0`, `den > 0`).
pub open spec fn rounded_quotient(num: int, den: int) -> int {
    (2 * num + den) / (2 * den)
}

/// The larger of `value` and 1.
pub open spec fn at_least_one(value: int) -> int {
    if value < 1 {
        1
    } else {
        value
    }
}

/// The size at which an image of `width` by `height` pixels is decoded to fit a target of
/// `target_width` by `target_height`: unchanged when it already fits, otherwise scaled by
/// the smaller of the two axis ratios (keeping the aspect ratio), rounded to whole pixels
/// and never below one pixel.
pub open spec fn preview_size(width: int, height: int, target_width: int, target_height: int) -> (int, int) {
    if width <= target_width && height <= target_height {
        (width, height)
    } else if width == 0 {
        (1, at_least_one(target_height))
    } else if height == 0 {
        (at_least_one(target_width), 1)
    } else if target_width * height <= target_height * width {
        (at_least_one(target_width), at_least_one(rounded_quotient(height * target_width, width)))
    } else {
        (at_least_one(rounded_quotient(width * target_height, height)), at_least_one(target_height))
    }
}

/// A rounded quotient of a value of at most `bound * den` is at most `bound`.
proof fn lemma_rounded_quotient_bound(num: int, den: int, bound: int)
    requires
        0 <= num <= bound * den,
        den > 0,
        bound >= 0,
    ensures
        rounded_quotient(num, den) <= bound,
{
    assert((2 * num + den) / (2 * den) <= bound) by (nonlinear_arith)
        requires
            0 <= num <= bound * den,
            den > 0,
            bound >= 0,
    {
        assert(2 * num + den < 2 * den * (bound + 1));
    }
}

/// A preview fits its target, never enlarges the image, and keeps at least one pixel on
/// each side.
pub proof fn preview_fits_the_target(width: int, height: int, target_width: int, target_height: int)
    requires
        width >= 1,
        height >= 1,
        target_width >= 1,
        target_height >= 1,
    ensures
        1 <= preview_size(width, height, target_width, target_height).0 <= target_width,
        1 <= preview_size(width, height, target_width, target_height).1 <= target_height,
        preview_size(width, height, target_width, target_height).0 <= width,
        preview_size(width, height, target_width, target_height).1 <= height,
{
    if !(width <= target_width && height <= target_height) {
        if target_width * height <= target_height * width {
            assert(target_width <= width) by (nonlinear_arith)
                requires
                    target_width * height <= target_height * width,
                    !(width <= target_width && height <= target_height),
                    width >= 1,
                    height >= 1,
                    target_width >= 1,
                    target_height >= 1,
            ;
            assert(height * target_width <= target_height * width) by (nonlinear_arith)
                requires
                    target_width * height <= target_height * width,
            ;
            assert(height * target_width <= height * width) by (nonlinear_arith)
                requires
                    target_width <= width,
                    height >= 1,
            ;
            assert(0 <= height * target_width) by (nonlinear_arith)
                requires
                    height >= 1,
                    target_width >= 1,
            ;
            lemma_rounded_quotient_bound(height * target_width, width, target_height);
            lemma_rounded_quotient_bound(height * target_width, width, height);
        } else {
            assert(target_height <= height) by (nonlinear_arith)
                requires
                    target_width * height > target_height * width,
                    !(width <= target_width && height <= target_height),
                    width >= 1,
                    height >= 1,
                    target_width >= 1,
                    target_height >= 1,
            ;
            assert(width * target_height <= target_width * height) by (nonlinear_arith)
                requires
                    target_width * height > target_height * width,
            ;
            assert(width * target_height <= width * height) by (nonlinear_arith)
                requires
                    target_height <= height,
                    width >= 1,
            ;
            assert(0 <= width * target_height) by (nonlinear_arith)
                requires
                    width >= 1,
                    target_height >= 1,
            ;
            lemma_rounded_quotient_bound(width * target_height, height, target_width);
            lemma_rounded_quotient_bound(width * target_height, height, width);
        }
    }
}

/// A rounded quotient is within half a unit of the exact quotient.
proof fn lemma_rounded_quotient_error(num: int, den: int)
    requires
        num >= 0,
        den > 0,
    ensures
        2 * den * rounded_quotient(num, den) <= 2 * num + den,
        2 * num < 2 * den * rounded_quotient(num, den) + den,
{
    let q = (2 * num + den) / (2 * den);
    assert(2 * den * q <= 2 * num + den && 2 * num < 2 * den * q + den) by (nonlinear_arith)
        requires
            q == (2 * num + den) / (2 * den),
            num >= 0,
            den > 0,
    {
        assert(2 * num + den < 2 * den * (q + 1));
        assert(2 * den * (q + 1) == 2 * den * q + 2 * den);
    }
}

/// A preview keeps the image's aspect ratio to within half a pixel on the side that was
/// scaled, unless that side was raised to its one-pixel minimum.
pub proof fn preview_keeps_the_aspect_ratio(width: int, height: int, target_width: int, target_height: int)
    requires
        width >= 1,
        height >= 1,
        target_width >= 1,
        target_height >= 1,
    ensures
        ({
            let (w, h) = preview_size(width, height, target_width, target_height);
            w == 1 || h == 1 || (-width - height <= 2 * width * h - 2 * height * w <= width + height)
        }),
{
    let (w, h) = preview_size(width, height, target_width, target_height);
    if width <= target_width && height <= target_height {
        assert(2 * width * height - 2 * height * width == 0) by (nonlinear_arith);
    } else if target_width * height <= target_height * width {
        assert(0 <= height * target_width) by (nonlinear_arith)
            requires
                height >= 1,
                target_width >= 1,
        ;
        lemma_rounded_quotient_error(height * target_width, width);
        assert(2 * height * target_width == 2 * (height * target_width)) by (nonlinear_arith);
    } else {
        assert(0 <= width * target_height) by (nonlinear_arith)
            requires
                width >= 1,
                target_height >= 1,
        ;
        lemma_rounded_quotient_error(width * target_height, height);
        assert(2 * width * target_height == 2 * (width * target_height)) by (nonlinear_arith);
        assert(2 * height * w == 2 * w * height) by (nonlinear_arith);
    }
}

proof fn lemma_product_fits(a: u32, b: u32)
    ensures
        0 <= a as int * b as int <= 0xffff_ffff * 0xffff_ffff,
{
    assert(0 <= a as int * b as int <= 0xffff_ffff * 0xffff_ffff) by (nonlinear_arith)
        requires
            a <= 0xffff_ffff,
            b <= 0xffff_ffff,
    ;
}

fn rounded_scale(value: u32, numerator: u32, denominator: u32) -> (r: u32)
    requires
        denominator > 0,
        numerator < denominator,
    ensures
        r as int == at_least_one(rounded_quotient(value as int * numerator as int, denominator as int)),
{
    proof {
        lemma_product_fits(value, numerator);
    }
    let product: u128 = value as u128 * numerator as u128;
    let q: u128 = (2 * product + denominator as u128) / (2 * denominator as u128);
    assert(q <= value) by (nonlinear_arith)
        requires
            q == (2 * product + denominator) / (2 * denominator),
            product == value as int * numerator as int,
            numerator < denominator,
            denominator > 0,
    ;
    if q < 1 {
        1
    } else {
        q as u32
    }
}

/// The size at which to decode a preview of a `width` by `height` image for a target of
/// `target_width` by `target_height` pixels.
pub fn preview_dimensions(width: u32, height: u32, target_width: u32, target_height: u32) -> (r: (u32, u32))
    ensures
        (r.0 as int, r.1 as int) == preview_size(
            width as int,
            height as int,
            target_width as int,
            target_height as int,
        ),
{
    if width <= target_width && height <= target_height {
        return (width, height);
    }
    let tw: u32 = if target_width < 1 { 1 } else { target_width };
    let th: u32 = if target_height < 1 { 1 } else { target_height };
    if width == 0 {
        return (1, th);
    }
    if height == 0 {
        return (tw, 1);
    }
    proof {
        lemma_product_fits(target_width, height);
        lemma_product_fits(target_height, width);
    }
    let width_limited = (target_width as u64) * (height as u64) <= (target_height as u64) * (width as u64);
    if width_limited {
        assert(target_width < width) by (nonlinear_arith)
            requires
                target_width as int * height as int <= target_height as int * width as int,
                !(width <= target_width && height <= target_height),
                height > 0,
                width > 0,
        ;
        (tw, rounded_scale(height, target_width, width))
    } else {
        assert(target_height < height) by (nonlinear_arith)
            requires
                target_width as int * height as int > target_height as int * width as int,
                !(width <= target_width && height <= target_height),
                width > 0,
                height > 0,
        ;
        (rounded_scale(width, target_height, height), th)
    }
}

} // verus!
