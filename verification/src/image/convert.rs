//! Repacking between the two monochrome encodings. A pixel is "ink" when its
//! high bit is set; repacking writes all-ones for ink pixels in the target
//! encoding (a single 1 bit, or a full 0xFF byte).

use super::{
    image_wf, lemma_live_rows_disjoint, lemma_live_rows_step, lemma_row_bounds, spec_in_live_rows,
    spec_minimum_pitch, ConstImage, ConstImageView, HasImageHeader, Image, ImageBuffer,
    ImageFormat, ImageHeader,
};
use vstd::prelude::*;

verus! {

/// Whether `format` is one of the two monochrome encodings.
pub open spec fn spec_is_mono(format: ImageFormat) -> bool {
    format == ImageFormat::Mono1Bpp || format == ImageFormat::Mono8Bpp
}

/// The "ink" boolean of mono pixel `(x, y)`: for 1 bpp, bit `x % 8` of byte
/// `x / 8` of the row; for 8 bpp, the high bit of the pixel's byte.
pub open spec fn spec_mono_ink(data: Seq<u8>, h: ImageHeader, x: int, y: int) -> bool
    recommends
        h.valid(),
        spec_is_mono(h.spec_format()),
        0 <= x < h.spec_width(),
        0 <= y < h.spec_height(),
{
    if h.spec_format() == ImageFormat::Mono1Bpp {
        (data[y * h.spec_pitch() + x / 8] >> ((x % 8) as u8)) & 1 == 1
    } else {
        data[y * h.spec_pitch() + x] >= 0x80
    }
}

/// Reads the ink boolean of mono pixel `(x, y)`.
pub fn read_mono_ink(img: &ConstImageView<'_>, x: i32, y: i32) -> (r: bool)
    requires
        image_wf(img),
        spec_is_mono(img.spec_header().spec_format()),
        0 <= x < img.spec_header().spec_width(),
        0 <= y < img.spec_header().spec_height(),
    ensures
        r == spec_mono_ink(img.spec_img_data(), img.spec_header(), x as int, y as int),
{
    let h = img.header();
    proof {
        lemma_row_bounds(img.spec_header(), y as int);
        assert(x / 8 < h.spec_row_bytes() || h.spec_format() != ImageFormat::Mono1Bpp) by {
            if h.spec_format() == ImageFormat::Mono1Bpp {
                assert(h.spec_row_bytes() == (h.spec_width() + 7) / 8);
            }
        }
    }
    let row_start = (y as usize) * (h.pitch() as usize);
    let d = img.data();
    match h.format() {
        ImageFormat::Mono1Bpp => {
            let byte = d[row_start + (x / 8) as usize];
            (byte >> ((x % 8) as u8)) & 1 == 1
        },
        _ => {
            let byte = d[row_start + x as usize];
            byte >= 0x80
        },
    }
}

/// Packs a sequence of booleans into bytes, least significant bit first.
/// Bits past the end of the input are zero.
pub fn pack_bits_lsb(bits: &[bool]) -> (r: Vec<u8>)
    requires
        bits@.len() + 7 <= usize::MAX,
    ensures
        r@.len() == (bits@.len() + 7) / 8,
        forall|j: int, k: int|
            0 <= j < r@.len() && 0 <= k < 8 ==> (#[trigger] (r@[j] >> (k as u8))) & 1 == (if 8 * j
                + k < bits@.len() && bits@[8 * j + k] {
                1u8
            } else {
                0u8
            }),
{
    let n = bits.len();
    let n_bytes = (n + 7) / 8;
    let mut r: Vec<u8> = Vec::new();
    let mut j: usize = 0;
    while j < n_bytes
        invariant
            n == bits@.len(),
            n + 7 <= usize::MAX,
            n_bytes == (n + 7) / 8,
            0 <= j <= n_bytes,
            r@.len() == j,
            forall|jj: int, k: int|
                0 <= jj < j && 0 <= k < 8 ==> (#[trigger] (r@[jj] >> (k as u8))) & 1 == (if 8 * jj
                    + k < n && bits@[8 * jj + k] {
                    1u8
                } else {
                    0u8
                }),
        decreases n_bytes - j,
    {
        let mut acc: u8 = 0;
        proof {
            assert forall|kk: int| 0 <= kk < 8 implies (#[trigger] (acc >> (kk as u8))) & 1
                == 0u8 by {
                let kku = kk as u8;
                assert(kku < 8 ==> ((0u8 >> kku) & 1) == 0u8) by (bit_vector);
            }
        }
        let mut k: usize = 0;
        while k < 8
            invariant
                n == bits@.len(),
                0 <= j < n_bytes,
                n_bytes == (n + 7) / 8,
                0 <= k <= 8,
                forall|kk: int|
                    0 <= kk < 8 ==> (#[trigger] (acc >> (kk as u8))) & 1 == (if kk < k && 8 * j + kk
                        < n && bits@[8 * j + kk] {
                        1u8
                    } else {
                        0u8
                    }),
            decreases 8 - k,
        {
            if 8 * j + k < n {
                if bits[8 * j + k] {
                    let ghost acc0 = acc;
                    let kb = k as u8;
                    acc = acc | (1u8 << kb);
                    proof {
                        assert forall|kk: int| 0 <= kk < 8 implies (#[trigger] (acc >> (kk as u8)))
                            & 1 == (if kk < k + 1 && 8 * j + kk < n && bits@[8 * j + kk] {
                            1u8
                        } else {
                            0u8
                        }) by {
                            let kku = kk as u8;
                            assert((kb < 8 && kku < 8) ==> ((acc0 | (1u8 << kb)) >> kku) & 1 == (
                            if kku == kb {
                                1u8
                            } else {
                                (acc0 >> kku) & 1
                            })) by (bit_vector);
                        }
                    }
                }
            }
            k += 1;
        }
        r.push(acc);
        j += 1;
    }
    r
}

/// Repacks a monochrome image into `dst_format` with row pitch `dst_pitch`:
/// every pixel keeps its ink boolean, ink pixels become all-ones in the
/// target encoding, everything else (trailing bits, padding) is zero.
pub fn repack_mono(src: &ConstImageView<'_>, dst_format: ImageFormat, dst_pitch: i32) -> (r:
    ImageBuffer)
    requires
        image_wf(src),
        spec_is_mono(src.spec_header().spec_format()),
        spec_is_mono(dst_format),
        src.spec_header().spec_width() * dst_format.spec_bpp() + 7 <= i32::MAX,
        spec_minimum_pitch(dst_format.spec_bpp(), src.spec_header().spec_width()) <= dst_pitch,
        src.spec_header().spec_height() * dst_pitch <= i32::MAX,
    ensures
        image_wf(&r),
        r.spec_header().spec_format() == dst_format,
        r.spec_header().spec_width() == src.spec_header().spec_width(),
        r.spec_header().spec_height() == src.spec_header().spec_height(),
        r.spec_header().spec_pitch() == dst_pitch,
        r.spec_header().spec_data_len() == src.spec_header().spec_height() * dst_pitch,
        forall|x: int, y: int|
            0 <= x < r.spec_header().spec_width() && 0 <= y < r.spec_header().spec_height()
                ==> spec_mono_ink(r.spec_img_data(), r.spec_header(), x, y) == spec_mono_ink(
                src.spec_img_data(),
                src.spec_header(),
                x,
                y,
            ),
        dst_format == ImageFormat::Mono8Bpp ==> forall|x: int, y: int|
            0 <= x < r.spec_header().spec_width() && 0 <= y < r.spec_header().spec_height()
                ==> #[trigger] r.spec_img_data()[y * r.spec_header().spec_pitch() + x] == (
            if spec_mono_ink(src.spec_img_data(), src.spec_header(), x, y) {
                0xffu8
            } else {
                0x00u8
            }),
        dst_format == ImageFormat::Mono1Bpp ==> forall|y: int, j: int, k: int|
            0 <= y < r.spec_header().spec_height() && 0 <= j < r.spec_header().spec_row_bytes() && 0
                <= k < 8 && 8 * j + k >= r.spec_header().spec_width() ==> (#[trigger] (
            r.spec_img_data()[y * r.spec_header().spec_pitch() + j] >> (k as u8))) & 1 == 0,
        forall|i: int|
            0 <= i < r.spec_img_data().len() && !spec_in_live_rows(
                r.spec_header(),
                i,
                r.spec_header().spec_height(),
            ) ==> r.spec_img_data()[i] == 0,
{
    let src_h = src.header();
    let width = src_h.width();
    let height = src_h.height();
    let mut dst = ImageBuffer::new(dst_format, width, height, Some(dst_pitch));
    let dst_h = dst.header();
    let dlen = dst_h.data_len();
    let row_bytes = minimum_pitch_of(dst_format, width) as usize;
    let mut y: i32 = 0;
    while y < height
        invariant
            image_wf(src),
            image_wf(&dst),
            spec_is_mono(src.spec_header().spec_format()),
            spec_is_mono(dst_format),
            src_h == src.spec_header(),
            dst_h == dst.spec_header(),
            dst.spec_header().spec_format() == dst_format,
            dst.spec_header().spec_width() == width,
            dst.spec_header().spec_height() == height,
            dst.spec_header().spec_pitch() == dst_pitch,
            dst.spec_header().spec_data_len() == height * dst_pitch,
            dst.spec_img_data().len() == dst_h.spec_data_len(),
            dlen == dst_h.spec_data_len(),
            width == src_h.spec_width(),
            height == src_h.spec_height(),
            row_bytes == dst_h.spec_row_bytes(),
            0 <= y <= height,
            dst_format == ImageFormat::Mono1Bpp ==> forall|yy: int, j: int, k: int|
                0 <= yy < y && 0 <= j < row_bytes && 0 <= k < 8 ==> (#[trigger] (
                dst.spec_img_data()[yy * dst_h.spec_pitch() + j] >> (k as u8))) & 1 == (if 8 * j + k
                    < width && spec_mono_ink(src.spec_img_data(), src_h, 8 * j + k, yy) {
                    1u8
                } else {
                    0u8
                }),
            dst_format == ImageFormat::Mono8Bpp ==> forall|x: int, yy: int|
                0 <= x < width && 0 <= yy < y ==> #[trigger] dst.spec_img_data()[yy
                    * dst_h.spec_pitch() + x] == (if spec_mono_ink(
                    src.spec_img_data(),
                    src_h,
                    x,
                    yy,
                ) {
                    0xffu8
                } else {
                    0x00u8
                }),
            forall|i: int|
                0 <= i < dst.spec_img_data().len() && !spec_in_live_rows(dst_h, i, y as int)
                    ==> dst.spec_img_data()[i] == 0,
        decreases height - y,
    {
        proof {
            lemma_row_bounds(dst_h, y as int);
        }
        // Gather the row's ink booleans.
        let mut bits: Vec<bool> = Vec::new();
        let mut x: i32 = 0;
        while x < width
            invariant
                image_wf(src),
                spec_is_mono(src.spec_header().spec_format()),
                src_h == src.spec_header(),
                width == src_h.spec_width(),
                height == src_h.spec_height(),
                0 <= y < height,
                0 <= x <= width,
                bits@.len() == x,
                forall|xx: int| 0 <= xx < x ==> #[trigger] bits@[xx] == spec_mono_ink(
                    src.spec_img_data(),
                    src_h,
                    xx,
                    y as int,
                ),
            decreases width - x,
        {
            bits.push(read_mono_ink(src, x, y));
            x += 1;
        }
        // Emit the row in the destination encoding.
        let row_start = (y as usize) * (dst_pitch as usize);
        let ghost snap = dst.spec_img_data();
        proof {
            assert(forall|i: int|
                0 <= i < snap.len() && !spec_in_live_rows(dst_h, i, y as int) ==> snap[i] == 0);
        }
        match dst_format {
            ImageFormat::Mono1Bpp => {
                let packed = pack_bits_lsb(bits.as_slice());
                let mut j: usize = 0;
                while j < row_bytes
                    invariant
                        image_wf(&dst),
                        dst_h == dst.spec_header(),
                        dst.spec_img_data().len() == snap.len(),
                        dst.spec_img_data().len() == dst_h.spec_data_len(),
                        dlen == dst_h.spec_data_len(),
                        dst_format == ImageFormat::Mono1Bpp,
                        dst.spec_header().spec_format() == dst_format,
                        width == dst_h.spec_width(),
                        height == dst_h.spec_height(),
                        dst_pitch == dst_h.spec_pitch(),
                        row_bytes == dst_h.spec_row_bytes(),
                        row_bytes == (width + 7) / 8,
                        0 <= y < height,
                        row_start == y * dst_h.spec_pitch(),
                        y * dst_h.spec_pitch() + dst_h.spec_row_bytes() <= dst_h.spec_data_len(),
                        bits@.len() == width,
                        forall|xx: int| 0 <= xx < width ==> #[trigger] bits@[xx] == spec_mono_ink(
                            src.spec_img_data(),
                            src_h,
                            xx,
                            y as int,
                        ),
                        packed@.len() == (width + 7) / 8,
                        forall|jj: int, k: int|
                            0 <= jj < packed@.len() && 0 <= k < 8 ==> (#[trigger] (packed@[jj] >> (
                            k as u8))) & 1 == (if 8 * jj + k < width && bits@[8 * jj + k] {
                                1u8
                            } else {
                                0u8
                            }),
                        0 <= j <= row_bytes,
                        forall|jj: int| 0 <= jj < j ==> #[trigger] dst.spec_img_data()[row_start
                            + jj] == packed@[jj],
                        forall|i: int|
                            0 <= i < snap.len() && !(row_start <= i < row_start + j)
                                ==> dst.spec_img_data()[i] == snap[i],
                    decreases row_bytes - j,
                {
                    dst.set_byte(row_start + j, packed[j]);
                    j += 1;
                }
            },
            _ => {
                let mut x: usize = 0;
                while x < width as usize
                    invariant
                        image_wf(&dst),
                        dst_h == dst.spec_header(),
                        dst.spec_img_data().len() == snap.len(),
                        dst.spec_img_data().len() == dst_h.spec_data_len(),
                        dlen == dst_h.spec_data_len(),
                        dst_format == ImageFormat::Mono8Bpp,
                        dst.spec_header().spec_format() == dst_format,
                        width == dst_h.spec_width(),
                        height == dst_h.spec_height(),
                        dst_pitch == dst_h.spec_pitch(),
                        row_bytes == dst_h.spec_row_bytes(),
                        row_bytes == width,
                        0 <= y < height,
                        row_start == y * dst_h.spec_pitch(),
                        y * dst_h.spec_pitch() + dst_h.spec_row_bytes() <= dst_h.spec_data_len(),
                        bits@.len() == width,
                        forall|xx: int| 0 <= xx < width ==> #[trigger] bits@[xx] == spec_mono_ink(
                            src.spec_img_data(),
                            src_h,
                            xx,
                            y as int,
                        ),
                        0 <= x <= width,
                        forall|xx: int| 0 <= xx < x ==> #[trigger] dst.spec_img_data()[row_start
                            + xx] == (if bits@[xx] {
                            0xffu8
                        } else {
                            0x00u8
                        }),
                        forall|i: int|
                            0 <= i < snap.len() && !(row_start <= i < row_start + x)
                                ==> dst.spec_img_data()[i] == snap[i],
                    decreases width - x,
                {
                    let v: u8 = if bits[x] {
                        0xff
                    } else {
                        0x00
                    };
                    dst.set_byte(row_start + x, v);
                    x += 1;
                }
            },
        }
        proof {
            lemma_live_rows_step(dst_h, y as int);
            let cur = dst.spec_img_data();
            if dst_format == ImageFormat::Mono1Bpp {
                assert forall|yy: int, j: int, k: int|
                    0 <= yy < y + 1 && 0 <= j < row_bytes && 0 <= k < 8 implies (#[trigger] (cur[yy
                    * dst_h.spec_pitch() + j] >> (k as u8))) & 1 == (if 8 * j + k < width
                    && spec_mono_ink(src.spec_img_data(), src_h, 8 * j + k, yy) {
                    1u8
                } else {
                    0u8
                }) by {
                    lemma_row_bounds(dst_h, yy);
                    if yy < y {
                        assert(yy * dst_h.spec_pitch() + j < y * dst_h.spec_pitch())
                            by (nonlinear_arith)
                            requires
                                yy + 1 <= y,
                                0 <= j < dst_h.spec_row_bytes(),
                                dst_h.spec_row_bytes() <= dst_h.spec_pitch(),
                        ;
                        assert(cur[yy * dst_h.spec_pitch() + j] == snap[yy * dst_h.spec_pitch()
                            + j]);
                    } else {
                        assert(cur[y * dst_h.spec_pitch() + j] == dst.spec_img_data()[row_start
                            + j]);
                    }
                }
            } else {
                assert forall|x: int, yy: int|
                    0 <= x < width && 0 <= yy < y + 1 implies #[trigger] cur[yy
                    * dst_h.spec_pitch() + x] == (if spec_mono_ink(
                    src.spec_img_data(),
                    src_h,
                    x,
                    yy,
                ) {
                    0xffu8
                } else {
                    0x00u8
                }) by {
                    lemma_row_bounds(dst_h, yy);
                    if yy < y {
                        assert(yy * dst_h.spec_pitch() + x < y * dst_h.spec_pitch())
                            by (nonlinear_arith)
                            requires
                                yy + 1 <= y,
                                0 <= x < dst_h.spec_row_bytes(),
                                dst_h.spec_row_bytes() <= dst_h.spec_pitch(),
                        ;
                        assert(cur[yy * dst_h.spec_pitch() + x] == snap[yy * dst_h.spec_pitch()
                            + x]);
                    }
                }
            }
            assert forall|i: int|
                0 <= i < cur.len() && !spec_in_live_rows(dst_h, i, y as int + 1) implies cur[i]
                == 0 by {
                assert(!(spec_in_live_rows(dst_h, i, y as int) || (y * dst_h.spec_pitch() <= i < y
                    * dst_h.spec_pitch() + dst_h.spec_row_bytes())));
            }
        }
        y += 1;
    }
    // Pixel-level ink preservation follows from the per-byte facts.
    proof {
        let cur = dst.spec_img_data();
        assert forall|x: int, y: int|
            0 <= x < width && 0 <= y < height implies spec_mono_ink(cur, dst_h, x, y)
            == spec_mono_ink(src.spec_img_data(), src_h, x, y) by {
            if dst_format == ImageFormat::Mono1Bpp {
                let j = x / 8;
                let k = x % 8;
                assert(0 <= j < (width + 7) / 8 && 0 <= k < 8 && 8 * j + k == x);
                assert((cur[y * dst_h.spec_pitch() + j] >> (k as u8)) & 1 == (if 8 * j + k < width
                    && spec_mono_ink(src.spec_img_data(), src_h, 8 * j + k, y) {
                    1u8
                } else {
                    0u8
                }));
            } else {
                assert(cur[y * dst_h.spec_pitch() + x] == (if spec_mono_ink(
                    src.spec_img_data(),
                    src_h,
                    x,
                    y,
                ) {
                    0xffu8
                } else {
                    0x00u8
                }));
            }
        }
    }
    dst
}

/// Minimum pitch of `format` at `width` pixels.
fn minimum_pitch_of(format: ImageFormat, width: i32) -> (r: i32)
    requires
        0 < width,
        width * format.spec_bpp() + 7 <= i32::MAX,
    ensures
        r == spec_minimum_pitch(format.spec_bpp(), width as int),
{
    super::minimum_pitch(format.bpp(), width)
}

/// Bit-repack round trip, 1-bpp side: unpacking a 1-bpp image to 8 bpp and
/// packing it back to 1 bpp leaves every pixel's ink bit as it was.
pub proof fn lemma_repack_round_trip_1bpp(
    src_data: Seq<u8>,
    src_h: ImageHeader,
    mid_data: Seq<u8>,
    mid_h: ImageHeader,
    out_data: Seq<u8>,
    out_h: ImageHeader,
)
    requires
        src_h.valid() && mid_h.valid() && out_h.valid(),
        src_h.spec_format() == ImageFormat::Mono1Bpp,
        mid_h.spec_format() == ImageFormat::Mono8Bpp,
        out_h.spec_format() == ImageFormat::Mono1Bpp,
        mid_h.spec_width() == src_h.spec_width() && mid_h.spec_height() == src_h.spec_height(),
        out_h.spec_width() == src_h.spec_width() && out_h.spec_height() == src_h.spec_height(),
        forall|x: int, y: int|
            0 <= x < src_h.spec_width() && 0 <= y < src_h.spec_height() ==> spec_mono_ink(
                mid_data,
                mid_h,
                x,
                y,
            ) == spec_mono_ink(src_data, src_h, x, y),
        forall|x: int, y: int|
            0 <= x < src_h.spec_width() && 0 <= y < src_h.spec_height() ==> spec_mono_ink(
                out_data,
                out_h,
                x,
                y,
            ) == spec_mono_ink(mid_data, mid_h, x, y),
    ensures
        forall|x: int, y: int|
            0 <= x < src_h.spec_width() && 0 <= y < src_h.spec_height() ==> (#[trigger] (out_data[y
                * out_h.spec_pitch() + x / 8] >> ((x % 8) as u8))) & 1 == (src_data[y
                * src_h.spec_pitch() + x / 8] >> ((x % 8) as u8)) & 1,
{
    assert forall|x: int, y: int|
        0 <= x < src_h.spec_width() && 0 <= y < src_h.spec_height() implies (#[trigger] (out_data[y
        * out_h.spec_pitch() + x / 8] >> ((x % 8) as u8))) & 1 == (src_data[y * src_h.spec_pitch()
        + x / 8] >> ((x % 8) as u8)) & 1 by {
        assert(spec_mono_ink(out_data, out_h, x, y) == spec_mono_ink(src_data, src_h, x, y));
        let a = (out_data[y * out_h.spec_pitch() + x / 8] >> ((x % 8) as u8)) & 1;
        let b = (src_data[y * src_h.spec_pitch() + x / 8] >> ((x % 8) as u8)) & 1;
        let aa = out_data[y * out_h.spec_pitch() + x / 8];
        let bb = src_data[y * src_h.spec_pitch() + x / 8];
        let sh = (x % 8) as u8;
        assert((aa >> sh) & 1 == 0 || (aa >> sh) & 1 == 1) by (bit_vector);
        assert((bb >> sh) & 1 == 0 || (bb >> sh) & 1 == 1) by (bit_vector);
    }
}

/// Bit-repack round trip, 8-bpp side: for an 8-bpp mono image whose pixels
/// are all 0x00 or 0xFF, packing to 1 bpp and unpacking back reproduces
/// every pixel byte exactly.
pub proof fn lemma_repack_round_trip_8bpp(
    src_data: Seq<u8>,
    src_h: ImageHeader,
    mid_data: Seq<u8>,
    mid_h: ImageHeader,
    out_data: Seq<u8>,
    out_h: ImageHeader,
)
    requires
        src_h.valid() && mid_h.valid() && out_h.valid(),
        src_h.spec_format() == ImageFormat::Mono8Bpp,
        mid_h.spec_format() == ImageFormat::Mono1Bpp,
        out_h.spec_format() == ImageFormat::Mono8Bpp,
        mid_h.spec_width() == src_h.spec_width() && mid_h.spec_height() == src_h.spec_height(),
        out_h.spec_width() == src_h.spec_width() && out_h.spec_height() == src_h.spec_height(),
        forall|x: int, y: int|
            0 <= x < src_h.spec_width() && 0 <= y < src_h.spec_height() ==> #[trigger] src_data[y
                * src_h.spec_pitch() + x] == 0x00 || src_data[y * src_h.spec_pitch() + x] == 0xff,
        forall|x: int, y: int|
            0 <= x < src_h.spec_width() && 0 <= y < src_h.spec_height() ==> spec_mono_ink(
                mid_data,
                mid_h,
                x,
                y,
            ) == spec_mono_ink(src_data, src_h, x, y),
        // The unpacking step wrote all-ones or all-zeros bytes.
        forall|x: int, y: int|
            0 <= x < src_h.spec_width() && 0 <= y < src_h.spec_height() ==> out_data[y
                * out_h.spec_pitch() + x] == (if spec_mono_ink(mid_data, mid_h, x, y) {
                0xffu8
            } else {
                0x00u8
            }),
    ensures
        forall|x: int, y: int|
            0 <= x < src_h.spec_width() && 0 <= y < src_h.spec_height() ==> #[trigger] out_data[y
                * out_h.spec_pitch() + x] == src_data[y * src_h.spec_pitch() + x],
{
    assert forall|x: int, y: int|
        0 <= x < src_h.spec_width() && 0 <= y < src_h.spec_height() implies #[trigger] out_data[y
        * out_h.spec_pitch() + x] == src_data[y * src_h.spec_pitch() + x] by {
        let sb = src_data[y * src_h.spec_pitch() + x];
        assert(sb == 0x00 || sb == 0xff);
        assert(spec_mono_ink(src_data, src_h, x, y) == (sb >= 0x80));
        assert(spec_mono_ink(mid_data, mid_h, x, y) == spec_mono_ink(src_data, src_h, x, y));
        assert(out_data[y * out_h.spec_pitch() + x] == (if spec_mono_ink(mid_data, mid_h, x, y) {
            0xffu8
        } else {
            0x00u8
        }));
    }
}

} // verus!
