//! The denoising pass: a median filter over a square window.

use imageproc::filter::median_filter;
use imageproc::image::RgbaImage;
use vstd::arithmetic::div_mod::{lemma_fundamental_div_mod, lemma_multiply_divide_lt};
use vstd::prelude::*;

use crate::image::{Image, ImageModel};

verus! {

/// How many of `values` are at most `limit`.
pub open spec fn count_at_most(values: Seq<u8>, limit: int) -> nat
    decreases values.len(),
{
    if values.len() == 0 {
        0
    } else {
        let rest = count_at_most(values.drop_last(), limit);
        if values.last() <= limit {
            rest + 1
        } else {
            rest
        }
    }
}

/// `m` is the median of `values`: fewer than half of them are below `m`,
/// and at least half of them are at most `m`.
pub open spec fn is_median(values: Seq<u8>, m: u8) -> bool {
    2 * count_at_most(values, m - 1) < values.len() <= 2 * count_at_most(values, m as int)
}

/// The values of channel `c` in the square window of the given radius
/// around the pixel in column `x` of row `y`, row by row. Where the window
/// reaches beyond an edge of the image, the pixels on the edge are repeated.
pub open spec fn window(image: ImageModel, x: int, y: int, c: int, radius: int) -> Seq<u8> {
    let side = 2 * radius + 1;
    Seq::new(
        (side * side) as nat,
        |k: int| image.sample(x - radius + k % side, y - radius + k / side, c),
    )
}

/// `out` is `image` after the median filter of the given radius: it has the
/// size of `image`, and each channel of each pixel is the median of that
/// channel in the window around the pixel.
pub open spec fn is_denoised(image: ImageModel, radius: int, out: ImageModel) -> bool {
    &&& out.width == image.width
    &&& out.height == image.height
    &&& out.bytes.len() == image.bytes.len()
    &&& forall|x: int, y: int, c: int|
        0 <= x < image.width && 0 <= y < image.height && 0 <= c < 4 ==> is_median(
            window(image, x, y, c, radius),
            #[trigger] out.sample(x, y, c),
        )
}

/// Raising the limit does not lower the count.
pub proof fn lemma_count_grows_with_limit(values: Seq<u8>, low: int, high: int)
    requires
        low <= high,
    ensures
        count_at_most(values, low) <= count_at_most(values, high) <= values.len(),
    decreases values.len(),
{
    if values.len() > 0 {
        lemma_count_grows_with_limit(values.drop_last(), low, high);
    }
}

/// Of equal values all are at most the limit, or none is.
pub proof fn lemma_count_of_equal_values(values: Seq<u8>, v: u8, limit: int)
    requires
        forall|k: int| 0 <= k < values.len() ==> values[k] == v,
    ensures
        count_at_most(values, limit) == if v <= limit {
            values.len()
        } else {
            0
        },
    decreases values.len(),
{
    if values.len() > 0 {
        lemma_count_of_equal_values(values.drop_last(), v, limit);
    }
}

/// Values have at most one median.
pub proof fn median_is_unique(values: Seq<u8>, a: u8, b: u8)
    requires
        is_median(values, a),
        is_median(values, b),
    ensures
        a == b,
{
    if a < b {
        lemma_count_grows_with_limit(values, a as int, b - 1);
    } else if b < a {
        lemma_count_grows_with_limit(values, b as int, a - 1);
    }
}

/// The median of equal values is that value.
pub proof fn median_of_equal_values(values: Seq<u8>, v: u8, m: u8)
    requires
        values.len() > 0,
        forall|k: int| 0 <= k < values.len() ==> values[k] == v,
        is_median(values, m),
    ensures
        m == v,
{
    lemma_count_of_equal_values(values, v, m - 1);
    lemma_count_of_equal_values(values, v, m as int);
}

/// Byte number `k` of an image is a channel of a pixel: of the one in column
/// `(k / 4) % width` of row `(k / 4) / width`, the channel `k % 4`.
pub proof fn lemma_byte_is_sample(image: ImageModel, k: int)
    requires
        image.wf(),
        0 <= k < image.bytes.len(),
    ensures
        0 <= (k / 4) % (image.width as int) < image.width,
        0 <= (k / 4) / (image.width as int) < image.height,
        image.sample((k / 4) % (image.width as int), (k / 4) / (image.width as int), k % 4)
            == image.bytes[k],
{
    let w = image.width as int;
    let h = image.height as int;
    let i = k / 4;
    assert(w > 0) by (nonlinear_arith)
        requires
            0 <= 4 * i < 4 * (w * h),
            0 <= w,
    ;
    lemma_fundamental_div_mod(i, w);
    lemma_multiply_divide_lt(i, w, h);
    assert(0 <= i / w) by (nonlinear_arith)
        requires
            0 <= i,
            0 < w,
    ;
    assert((i / w) * w == w * (i / w)) by (nonlinear_arith);
}

/// The channels of the pixels within the image are bytes of the image.
pub proof fn lemma_sample_is_byte(image: ImageModel, x: int, y: int, c: int)
    requires
        image.wf(),
        image.width > 0,
        image.height > 0,
        0 <= c < 4,
    ensures
        exists|i: int|
            0 <= i < image.pixel_count() && image.sample(x, y, c) == #[trigger] image.pixel(
                i,
            ).channel(c),
{
    let w = image.width as int;
    let h = image.height as int;
    let column = crate::image::clamp_to(x, w);
    let row = crate::image::clamp_to(y, h);
    let i = row * w + column;
    assert(0 <= i < w * h) by (nonlinear_arith)
        requires
            0 <= row < h,
            0 <= column < w,
            i == row * w + column,
    ;
    assert(image.sample(x, y, c) == image.pixel(i).channel(c));
}

/// An image has at most one denoised image for a radius.
pub proof fn denoised_is_unique(image: ImageModel, radius: int, a: ImageModel, b: ImageModel)
    requires
        image.wf(),
        is_denoised(image, radius, a),
        is_denoised(image, radius, b),
    ensures
        a == b,
{
    assert forall|k: int| 0 <= k < a.bytes.len() implies a.bytes[k] == b.bytes[k] by {
        let w = image.width as int;
        let x = (k / 4) % w;
        let y = (k / 4) / w;
        lemma_byte_is_sample(a, k);
        lemma_byte_is_sample(b, k);
        assert(is_median(window(image, x, y, k % 4, radius), a.sample(x, y, k % 4)));
        assert(is_median(window(image, x, y, k % 4, radius), b.sample(x, y, k % 4)));
        median_is_unique(
            window(image, x, y, k % 4, radius),
            a.sample(x, y, k % 4),
            b.sample(x, y, k % 4),
        );
    }
    assert(a.bytes =~= b.bytes);
}

/// All pixels of the image are equal.
pub open spec fn is_uniform(image: ImageModel) -> bool {
    forall|i: int, j: int|
        0 <= i < image.pixel_count() && 0 <= j < image.pixel_count() ==> #[trigger] image.pixel(i)
            == #[trigger] image.pixel(j)
}

/// Denoising an image of one colour changes nothing: the median of equal
/// values is that value.
pub proof fn denoising_uniform_image_changes_nothing(
    image: ImageModel,
    radius: int,
    out: ImageModel,
)
    requires
        image.wf(),
        radius >= 0,
        is_uniform(image),
        is_denoised(image, radius, out),
    ensures
        out == image,
{
    assert forall|k: int| 0 <= k < out.bytes.len() implies out.bytes[k] == image.bytes[k] by {
        let w = image.width as int;
        let x = (k / 4) % w;
        let y = (k / 4) / w;
        let c = k % 4;
        lemma_byte_is_sample(out, k);
        lemma_byte_is_sample(image, k);
        let values = window(image, x, y, c, radius);
        let side = 2 * radius + 1;
        assert(side * side > 0) by (nonlinear_arith)
            requires
                side > 0,
        ;
        let here = k / 4;
        assert(image.bytes[k] == image.pixel(here).channel(c));
        assert forall|n: int| 0 <= n < values.len() implies values[n] == image.bytes[k] by {
            lemma_sample_is_byte(image, x - radius + n % side, y - radius + n / side, c);
            let i = choose|i: int|
                0 <= i < image.pixel_count() && image.sample(
                    x - radius + n % side,
                    y - radius + n / side,
                    c,
                ) == #[trigger] image.pixel(i).channel(c);
            assert(image.pixel(i) == image.pixel(here));
        }
        assert(is_median(values, out.sample(x, y, c)));
        median_of_equal_values(values, image.bytes[k], out.sample(x, y, c));
    }
    assert(out.bytes =~= image.bytes);
}

/// The sizes for which the median filter computes within 32 bits: the
/// window may reach `radius` beyond the image, and must hold fewer than
/// `2^31` pixels.
pub open spec fn window_fits(width: nat, height: nat, radius: nat) -> bool {
    &&& width + radius <= i32::MAX
    &&& height + radius <= i32::MAX
    &&& (2 * radius + 1) * (2 * radius + 1) <= i32::MAX
}

/// `imageproc::filter::median_filter` on an image of four 8-bit channels,
/// with the same radius in both directions. The image is handed over as its
/// size and its bytes, and the bytes of the filtered image come back.
///
/// The contract claims what the function documents: the result has the size
/// of the input, and each channel of each pixel is the median of that channel
/// over the window of `2 * radius + 1` pixels a side around the pixel, padded
/// by continuity. The function counts the window's values in 32 bits and
/// panics where `width + radius` or `height + radius` exceeds `i32::MAX`;
/// `requires` leaves those sizes out.
#[verifier::external_body]
fn median_filter_rgba(width: u32, height: u32, data: &Vec<u8>, radius: u32) -> (out: Vec<u8>)
    requires
        data@.len() == 4 * (width * height),
        window_fits(width as nat, height as nat, radius as nat),
    ensures
        is_denoised(
            ImageModel { width: width as nat, height: height as nat, bytes: data@ },
            radius as int,
            ImageModel { width: width as nat, height: height as nat, bytes: out@ },
        ),
{
    let image = RgbaImage::from_raw(width, height, data.clone()).unwrap();
    median_filter(&image, radius, radius).into_raw()
}

/// Whether the median filter of the given radius can be applied to `image`.
pub fn can_denoise(image: &Image, radius: u32) -> (fits: bool)
    ensures
        fits == window_fits(image@.width, image@.height, radius as nat),
{
    let limit: u64 = 0x7fff_ffff;
    let side: u64 = 2 * (radius as u64) + 1;
    if side > 0xffff {
        assert((2 * radius + 1) * (2 * radius + 1) > i32::MAX) by (nonlinear_arith)
            requires
                2 * radius + 1 >= 0x1_0000,
        ;
        return false;
    }
    assert(side * side <= 0xffff * 0xffff) by (nonlinear_arith)
        requires
            side <= 0xffff,
    ;
    image.width() as u64 + radius as u64 <= limit && image.height() as u64 + radius as u64
        <= limit && side * side <= limit
}

/// The image after a median filter over a square window of `2 * radius + 1`
/// pixels a side: each channel of each pixel, alpha too, becomes the median
/// of that channel in the window around the pixel. Beyond the edges of the
/// image the window repeats the pixels on the edge. `image` itself is left
/// as it is.
pub fn denoise_image(image: &Image, radius: u32) -> (out: Image)
    requires
        window_fits(image@.width, image@.height, radius as nat),
    ensures
        image@.wf(),
        out@.wf(),
        is_denoised(image@, radius as int, out@),
{
    let width: u32 = image.width();
    let height: u32 = image.height();
    let data = median_filter_rgba(width, height, image.as_raw(), radius);
    Image::from_bytes(width, height, data)
}

} // verus!
