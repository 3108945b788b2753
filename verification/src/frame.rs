//! Assembly of a frame: which pixel is shaded when, and where its bytes go.
//!
//! Rows are emitted from the bottom of the image to the top, each row from
//! left to right, four bytes to a pixel.

use vstd::prelude::*;
use crate::color::{Color, OPAQUE, pack_pixel, pixel_bytes};
use crate::params::ImageParameters;

verus! {

/// Position in emission order of the pixel in column `i` of row `j`, where
/// row 0 is the bottom row of an image `height` rows high.
pub open spec fn emission_index(width: int, height: int, i: int, j: int) -> int {
    (height - 1 - j) * width + i
}

/// The column of the pixel emitted at position `k`.
pub open spec fn column_at(width: int, k: int) -> int {
    k % width
}

/// The row of the pixel emitted at position `k`.
pub open spec fn row_at(width: int, height: int, k: int) -> int {
    height - 1 - k / width
}

/// The four bytes that a buffer holds for the pixel at emission position `k`.
pub open spec fn pixel_at(buffer: Seq<u8>, k: int) -> Seq<u8> {
    buffer.subrange(4 * k, 4 * k + 4)
}

/// The buffer holds, for pixel `(i, j)`, the bytes of a colour that `shade`
/// can return for that pixel.
pub open spec fn pixel_shaded_by<F: Fn(u32, u32) -> Option<Color>>(
    shade: F,
    buffer: Seq<u8>,
    width: u32,
    height: u32,
    i: u32,
    j: u32,
) -> bool {
    exists|c: Option<Color>| #[trigger]
        call_ensures(shade, (i, j), c) && pixel_at(
            buffer,
            emission_index(width as int, height as int, i as int, j as int),
        ) == pixel_bytes(c)
}

/// Where `shade` can return but one outcome for a pixel, the buffer holds the
/// bytes of that outcome: of a miss, opaque black.
pub proof fn lemma_pixel_of_outcome<F: Fn(u32, u32) -> Option<Color>>(
    shade: F,
    buffer: Seq<u8>,
    width: u32,
    height: u32,
    i: u32,
    j: u32,
    outcome: Option<Color>,
)
    requires
        pixel_shaded_by(shade, buffer, width, height, i, j),
        forall|c: Option<Color>| call_ensures(shade, (i, j), c) ==> c == outcome,
    ensures
        pixel_at(buffer, emission_index(width as int, height as int, i as int, j as int))
            == pixel_bytes(outcome),
        outcome is None ==> pixel_at(
            buffer,
            emission_index(width as int, height as int, i as int, j as int),
        ) == seq![0u8, 0u8, 0u8, OPAQUE],
{
}

/// Emission positions and pixel coordinates are the same thing counted two
/// ways: each pixel has one position below the pixel count, and the column
/// and row of that position are the pixel's.
pub proof fn lemma_emission_order(width: int, height: int, i: int, j: int)
    requires
        0 <= i < width,
        0 <= j < height,
    ensures
        0 <= emission_index(width, height, i, j) < width * height,
        column_at(width, emission_index(width, height, i, j)) == i,
        row_at(width, height, emission_index(width, height, i, j)) == j,
{
    let r = height - 1 - j;
    let k = emission_index(width, height, i, j);
    assert(0 <= r * width && r * width + width <= height * width) by (nonlinear_arith)
        requires
            0 <= r,
            r + 1 <= height,
            0 < width,
    ;
    assert(height * width == width * height) by (nonlinear_arith);
    assert(k == width * r + i) by (nonlinear_arith)
        requires
            k == r * width + i,
    ;
    vstd::arithmetic::div_mod::lemma_fundamental_div_mod_converse(k, width, r, i);
}

/// Every emission position below the pixel count is that of one pixel of the
/// image, whose column and row are those of the position.
pub proof fn lemma_position_is_pixel(width: int, height: int, k: int)
    requires
        0 <= width,
        0 <= height,
        0 <= k < width * height,
    ensures
        0 <= column_at(width, k) < width,
        0 <= row_at(width, height, k) < height,
        emission_index(width, height, column_at(width, k), row_at(width, height, k)) == k,
{
    assert(width > 0 && height > 0) by (nonlinear_arith)
        requires
            0 <= width,
            0 <= height,
            0 <= k < width * height,
    ;
    vstd::arithmetic::div_mod::lemma_fundamental_div_mod(k, width);
    vstd::arithmetic::div_mod::lemma_div_pos_is_pos(k, width);
    let q = k / width;
    assert(q < height) by (nonlinear_arith)
        requires
            width * q <= k,
            k < width * height,
            width > 0,
    ;
    assert(width * q == q * width) by (nonlinear_arith);
}

/// Byte offset in the rendered buffer of the pixel in column `i` of row `j`.
pub fn pixel_offset(params: &ImageParameters, i: u32, j: u32) -> (offset: usize)
    requires
        i < params.image_width,
        j < params.image_height,
        params.buffer_size() <= usize::MAX,
    ensures
        offset == 4 * emission_index(
            params.image_width as int,
            params.image_height as int,
            i as int,
            j as int,
        ),
        offset + 4 <= params.buffer_size(),
{
    let w: usize = params.image_width as usize;
    let row: usize = (params.image_height - 1 - j) as usize;
    proof {
        lemma_emission_order(
            params.image_width as int,
            params.image_height as int,
            i as int,
            j as int,
        );
        assert(0 <= row * w <= row * w + i) by (nonlinear_arith)
            requires
                0 <= row,
                0 <= w,
                0 <= i,
        ;
    }
    4 * (row * w + i as usize)
}

/// Renders the image: shades every pixel with `shade` and packs the colours
/// into a fresh buffer of four bytes a pixel, rows from bottom to top.  A
/// pixel for which `shade` returns `None` gets the black background.
pub fn render<F: Fn(u32, u32) -> Option<Color>>(params: &ImageParameters, shade: F) -> (buffer:
    Vec<u8>)
    requires
        params.buffer_size() <= usize::MAX,
        forall|i: u32, j: u32|
            i < params.image_width && j < params.image_height ==> call_requires(shade, (i, j)),
    ensures
        buffer@.len() == params.buffer_size(),
        forall|i: u32, j: u32|
            i < params.image_width && j < params.image_height ==> #[trigger] pixel_shaded_by(
                shade,
                buffer@,
                params.image_width,
                params.image_height,
                i,
                j,
            ),
        forall|k: int| 0 <= k < params.pixel_count() ==> (#[trigger] pixel_at(buffer@, k))[3] == OPAQUE,
{
    let width: u32 = params.image_width;
    let height: u32 = params.image_height;
    let mut buffer: Vec<u8> = Vec::new();
    let mut j: u32 = height;
    while j > 0
        invariant
            width == params.image_width,
            height == params.image_height,
            j <= height,
            buffer@.len() == 4 * ((height - j) * width),
            forall|i: u32, j: u32| i < width && j < height ==> call_requires(shade, (i, j)),
            forall|a: u32, b: u32|
                a < width && j <= b < height ==> #[trigger] pixel_shaded_by(
                    shade,
                    buffer@,
                    width,
                    height,
                    a,
                    b,
                ),
        decreases j,
    {
        j = j - 1;
        let mut i: u32 = 0;
        while i < width
            invariant
                width == params.image_width,
                height == params.image_height,
                j < height,
                i <= width,
                buffer@.len() == 4 * ((height - 1 - j) * width + i),
                forall|i: u32, j: u32| i < width && j < height ==> call_requires(shade, (i, j)),
                forall|a: u32, b: u32|
                    a < width && (j < b < height || (b == j && a < i)) ==> #[trigger] pixel_shaded_by(
                        shade,
                        buffer@,
                        width,
                        height,
                        a,
                        b,
                    ),
            decreases width - i,
        {
            let ghost before = buffer@;
            let shaded = shade(i, j);
            let px = pack_pixel(shaded);
            buffer.push(px[0]);
            buffer.push(px[1]);
            buffer.push(px[2]);
            buffer.push(px[3]);
            proof {
                let k = emission_index(width as int, height as int, i as int, j as int);
                assert(before.len() == 4 * k);
                assert(pixel_at(buffer@, k) =~= px@);
                assert(buffer@.subrange(0, before.len() as int) =~= before);
                assert(pixel_shaded_by(shade, buffer@, width, height, i, j));
                assert forall|a: u32, b: u32|
                    a < width && (j < b < height || (b == j && a < i)) implies #[trigger] pixel_shaded_by(
                    shade,
                    buffer@,
                    width,
                    height,
                    a,
                    b,
                ) by {
                    lemma_emitted_earlier(
                        width as int,
                        height as int,
                        a as int,
                        b as int,
                        i as int,
                        j as int,
                    );
                    lemma_kept(shade, before, buffer@, width, height, a, b);
                }
            }
            i = i + 1;
        }
        assert((height - 1 - j) * width + width == (height - j) * width) by (nonlinear_arith);
    }
    assert((height - 0) * width == width * height) by (nonlinear_arith);
    assert forall|k: int| 0 <= k < params.pixel_count() implies (#[trigger] pixel_at(buffer@, k))[3]
        == OPAQUE by {
        lemma_position_is_pixel(width as int, height as int, k);
        let i = column_at(width as int, k) as u32;
        let j = row_at(width as int, height as int, k) as u32;
        assert(pixel_shaded_by(shade, buffer@, width, height, i, j));
    }
    buffer
}

/// A pixel of a higher row, or further left in the same row, is emitted
/// earlier.
pub proof fn lemma_emitted_earlier(width: int, height: int, a: int, b: int, i: int, j: int)
    requires
        0 <= a < width,
        0 <= i <= width,
        0 <= j <= b < height,
        j < b || a < i,
    ensures
        emission_index(width, height, a, b) < emission_index(width, height, i, j),
{
    if j < b {
        assert((height - 1 - b) * width + width <= (height - 1 - j) * width) by (nonlinear_arith)
            requires
                j < b,
                0 < width,
        ;
    }
}

/// Bytes appended to a buffer leave the pixels it already holds as they were.
proof fn lemma_kept<F: Fn(u32, u32) -> Option<Color>>(
    shade: F,
    before: Seq<u8>,
    after: Seq<u8>,
    width: u32,
    height: u32,
    a: u32,
    b: u32,
)
    requires
        a < width,
        b < height,
        pixel_shaded_by(shade, before, width, height, a, b),
        4 * emission_index(width as int, height as int, a as int, b as int) + 4 <= before.len(),
        before.len() <= after.len(),
        after.subrange(0, before.len() as int) == before,
    ensures
        pixel_shaded_by(shade, after, width, height, a, b),
{
    let k = emission_index(width as int, height as int, a as int, b as int);
    lemma_emission_order(width as int, height as int, a as int, b as int);
    let c = choose|c: Option<Color>| #[trigger]
        call_ensures(shade, (a, b), c) && pixel_at(before, k) == pixel_bytes(c);
    assert(pixel_at(after, k) =~= pixel_at(before, k)) by {
        assert forall|x: int| 0 <= x < 4 implies pixel_at(after, k)[x] == pixel_at(before, k)[x] by {
            assert(after.subrange(0, before.len() as int)[4 * k + x] == after[4 * k + x]);
        }
    }
}

} // verus!
