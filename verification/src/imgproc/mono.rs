//! The mono conversion pipeline: BGRA input, rotation to panel orientation,
//! gray conversion, ordered (Bayer) threshold dithering, and 1-bpp packing,
//! fused into one pass over the output pixels.

use super::rotate::{spec_rotation_source, Rotation};
use super::{DitheringMethod, MonoImgprocOptions};
use crate::image::convert::pack_bits_lsb;
use super::dithering::spec_bgra_gray;
use crate::image::{
    image_wf, lemma_live_rows_disjoint, lemma_live_rows_step, lemma_row_bounds, spec_in_live_rows,
    ConstImage, ConstImageView, HasImageHeader, Image, ImageBuffer, ImageFormat, Size,
};
use vstd::prelude::*;

verus! {

/// The ordered-dither threshold for output pixel `(x, y)`: a 4x4 Bayer
/// matrix, a 2x2 Bayer matrix tiled, or a flat 128.
pub open spec fn spec_bayer_threshold(d: DitheringMethod, x: int, y: int) -> int {
    match d {
        DitheringMethod::NoDithering => 128,
        DitheringMethod::Bayers2 => if y % 2 == 0 {
            if x % 2 == 0 {
                0
            } else {
                128
            }
        } else {
            if x % 2 == 0 {
                192
            } else {
                64
            }
        },
        DitheringMethod::Bayers4 => {
            let r = y % 4;
            let c = x % 4;
            if r == 0 {
                if c == 0 {
                    0
                } else if c == 1 {
                    128
                } else if c == 2 {
                    32
                } else {
                    160
                }
            } else if r == 1 {
                if c == 0 {
                    192
                } else if c == 1 {
                    64
                } else if c == 2 {
                    224
                } else {
                    96
                }
            } else if r == 2 {
                if c == 0 {
                    48
                } else if c == 1 {
                    176
                } else if c == 2 {
                    16
                } else {
                    144
                }
            } else {
                if c == 0 {
                    240
                } else if c == 1 {
                    112
                } else if c == 2 {
                    208
                } else {
                    80
                }
            }
        },
    }
}

/// The ordered-dither threshold for output pixel `(x, y)`.
pub fn bayer_threshold(d: DitheringMethod, x: i32, y: i32) -> (r: i32)
    requires
        0 <= x,
        0 <= y,
    ensures
        r == spec_bayer_threshold(d, x as int, y as int),
{
    match d {
        DitheringMethod::NoDithering => 128,
        DitheringMethod::Bayers2 => {
            if y % 2 == 0 {
                if x % 2 == 0 {
                    0
                } else {
                    128
                }
            } else {
                if x % 2 == 0 {
                    192
                } else {
                    64
                }
            }
        },
        DitheringMethod::Bayers4 => {
            let r = y % 4;
            let c = x % 4;
            if r == 0 {
                if c == 0 {
                    0
                } else if c == 1 {
                    128
                } else if c == 2 {
                    32
                } else {
                    160
                }
            } else if r == 1 {
                if c == 0 {
                    192
                } else if c == 1 {
                    64
                } else if c == 2 {
                    224
                } else {
                    96
                }
            } else if r == 2 {
                if c == 0 {
                    48
                } else if c == 1 {
                    176
                } else if c == 2 {
                    16
                } else {
                    144
                }
            } else {
                if c == 0 {
                    240
                } else if c == 1 {
                    112
                } else if c == 2 {
                    208
                } else {
                    80
                }
            }
        },
    }
}

/// The mono bit of output pixel `(x, y)`: the rotated source pixel's gray
/// value compared against the ordered-dither threshold; zero when the
/// source coordinates fall outside the input.
pub open spec fn spec_mono_bit(
    in_data: Seq<u8>,
    in_h: crate::image::ImageHeader,
    rot: Rotation,
    out_size: Size,
    d: DitheringMethod,
    x: int,
    y: int,
) -> bool {
    let (sx, sy) = spec_rotation_source(rot, out_size, x, y);
    &&& 0 <= sx < in_h.spec_width()
    &&& 0 <= sy < in_h.spec_height()
    &&& spec_bgra_gray(in_data, in_h, sx, sy) > spec_bayer_threshold(d, x, y)
}

/// The CPU mono pipeline; it carries only its geometry.
pub struct MonoImgproc {
    opts: MonoImgprocOptions,
}

impl MonoImgproc {
    pub closed spec fn spec_opts(&self) -> MonoImgprocOptions {
        self.opts
    }

    pub fn new(opts: MonoImgprocOptions) -> (r: MonoImgproc)
        ensures
            r.spec_opts() == opts,
    {
        MonoImgproc { opts }
    }

    /// Converts one BGRA frame to 1-bpp mono in the panel's orientation:
    /// for every output pixel the rotated source pixel's gray value is
    /// compared to the Bayer threshold, and the bits are packed eight per
    /// byte, low bit first. Output bytes outside the live row spans keep
    /// their old values.
    pub fn process(
        &self,
        input_img: &ConstImageView<'_>,
        output_img: &mut ImageBuffer,
        dithering_method: DitheringMethod,
    )
        requires
            image_wf(input_img),
            input_img.spec_header().spec_format() == ImageFormat::BGRA,
            image_wf(old(output_img)),
            old(output_img).spec_header().spec_format() == ImageFormat::Mono1Bpp,
            input_img.spec_header().spec_width() == self.spec_opts().input_size.width,
            input_img.spec_header().spec_height() == self.spec_opts().input_size.height,
            old(output_img).spec_header().spec_width() == self.spec_opts().output_size.width,
            old(output_img).spec_header().spec_height() == self.spec_opts().output_size.height,
        ensures
            final(output_img).spec_header() == old(output_img).spec_header(),
            image_wf(final(output_img)),
            forall|y: int, j: int, k: int|
                0 <= y < old(output_img).spec_header().spec_height() && 0 <= j < old(
                    output_img,
                ).spec_header().spec_row_bytes() && 0 <= k < 8 ==> (#[trigger] (final(output_img).spec_img_data()[y * old(output_img).spec_header().spec_pitch() + j] >> (
                k as u8))) & 1 == (if 8 * j + k < old(output_img).spec_header().spec_width()
                    && spec_mono_bit(
                    input_img.spec_img_data(),
                    input_img.spec_header(),
                    self.spec_opts().rotation,
                    self.spec_opts().output_size,
                    dithering_method,
                    8 * j + k,
                    y,
                ) {
                    1u8
                } else {
                    0u8
                }),
            forall|i: int|
                0 <= i < old(output_img).spec_img_data().len() && !spec_in_live_rows(
                    old(output_img).spec_header(),
                    i,
                    old(output_img).spec_header().spec_height(),
                ) ==> final(output_img).spec_img_data()[i] == old(output_img).spec_img_data()[i],
    {
        let rotation = self.opts.rotation;
        let out_size = self.opts.output_size;
        let in_h = input_img.header();
        let out_h = output_img.header();
        let width = out_h.width();
        let height = out_h.height();
        let pitch = out_h.pitch();
        let dlen = out_h.data_len();
        let row_bytes = crate::image::minimum_pitch(1, width) as usize;
        let in_width = in_h.width();
        let in_height = in_h.height();
        proof {
            assert(out_size.width == width && out_size.height == height);
        }
        let mut y: i32 = 0;
        while y < height
            invariant
                image_wf(input_img),
                image_wf(output_img),
                in_h == input_img.spec_header(),
                out_h == output_img.spec_header(),
                output_img.spec_header() == old(output_img).spec_header(),
                output_img.spec_img_data().len() == old(output_img).spec_img_data().len(),
                in_h.spec_format() == ImageFormat::BGRA,
                out_h.spec_format() == ImageFormat::Mono1Bpp,
                width == out_h.spec_width(),
                height == out_h.spec_height(),
                pitch == out_h.spec_pitch(),
                dlen == out_h.spec_data_len(),
                row_bytes == out_h.spec_row_bytes(),
                in_width == in_h.spec_width(),
                in_height == in_h.spec_height(),
                rotation == self.spec_opts().rotation,
                out_size == self.spec_opts().output_size,
                out_size.width == width,
                out_size.height == height,
                0 <= y <= height,
                forall|yy: int, j: int, k: int|
                    0 <= yy < y && 0 <= j < row_bytes && 0 <= k < 8 ==> (#[trigger] (
                    output_img.spec_img_data()[yy * out_h.spec_pitch() + j] >> (k as u8))) & 1 == (
                    if 8 * j + k < width && spec_mono_bit(
                        input_img.spec_img_data(),
                        in_h,
                        rotation,
                        out_size,
                        dithering_method,
                        8 * j + k,
                        yy,
                    ) {
                        1u8
                    } else {
                        0u8
                    }),
                forall|i: int|
                    0 <= i < output_img.spec_img_data().len() && !spec_in_live_rows(
                        out_h,
                        i,
                        y as int,
                    ) ==> output_img.spec_img_data()[i] == old(output_img).spec_img_data()[i],
            decreases height - y,
        {
            proof {
                lemma_row_bounds(out_h, y as int);
            }
            // Compute the row's mono bits.
            let mut bits: Vec<bool> = Vec::new();
            let mut x: i32 = 0;
            while x < width
                invariant
                    image_wf(input_img),
                    in_h == input_img.spec_header(),
                    in_h.spec_format() == ImageFormat::BGRA,
                    in_width == in_h.spec_width(),
                    in_height == in_h.spec_height(),
                    0 <= y < height,
                    height == out_size.height,
                    width == out_size.width,
                    0 <= x <= width,
                    bits@.len() == x,
                    forall|xx: int| 0 <= xx < x ==> bits@[xx] == spec_mono_bit(
                        input_img.spec_img_data(),
                        in_h,
                        rotation,
                        out_size,
                        dithering_method,
                        xx,
                        y as int,
                    ),
                decreases width - x,
            {
                let (sx, sy): (i32, i32) = match rotation {
                    Rotation::NoRotation => (x, y),
                    Rotation::Rotate90 => (y, out_size.width - 1 - x),
                    Rotation::Rotate180 => (out_size.width - 1 - x, out_size.height - 1 - y),
                    Rotation::Rotate270 => (out_size.height - 1 - y, x),
                };
                let bit: bool = if sx >= 0 && sx < in_width && sy >= 0 && sy < in_height {
                    proof {
                        lemma_row_bounds(in_h, sy as int);
                        assert(4 * sx + 2 < in_h.spec_row_bytes()) by (nonlinear_arith)
                            requires
                                0 <= sx < in_h.spec_width(),
                                in_h.spec_row_bytes() == (in_h.spec_width() * 32 + 7) / 8,
                        ;
                    }
                    let in_row = (sy as usize) * (in_h.pitch() as usize);
                    let d = input_img.data();
                    let base = in_row + 4 * (sx as usize);
                    let gray = super::dithering::bgra_to_gray(d[base], d[base + 1], d[base + 2]);
                    let thr = bayer_threshold(dithering_method, x, y);
                    (gray as i32) > thr
                } else {
                    false
                };
                bits.push(bit);
                x += 1;
            }
            // Pack and store the row.
            let packed = pack_bits_lsb(bits.as_slice());
            let row_start = (y as usize) * (pitch as usize);
            let ghost snap = output_img.spec_img_data();
            proof {
                assert(forall|yy: int, jj: int, k: int|
                    0 <= yy < y && 0 <= jj < row_bytes && 0 <= k < 8 ==> (#[trigger] (snap[yy
                        * out_h.spec_pitch() + jj] >> (k as u8))) & 1 == (if 8 * jj + k < width
                        && spec_mono_bit(
                        input_img.spec_img_data(),
                        in_h,
                        rotation,
                        out_size,
                        dithering_method,
                        8 * jj + k,
                        yy,
                    ) {
                        1u8
                    } else {
                        0u8
                    }));
                assert(forall|i: int|
                    0 <= i < snap.len() && !spec_in_live_rows(out_h, i, y as int) ==> snap[i]
                        == old(output_img).spec_img_data()[i]);
            }
            let mut j: usize = 0;
            while j < row_bytes
                invariant
                    image_wf(output_img),
                    out_h == output_img.spec_header(),
                    output_img.spec_header() == old(output_img).spec_header(),
                    output_img.spec_img_data().len() == snap.len(),
                    out_h.spec_format() == ImageFormat::Mono1Bpp,
                    width == out_h.spec_width(),
                    pitch == out_h.spec_pitch(),
                    row_bytes == out_h.spec_row_bytes(),
                    row_bytes == (width + 7) / 8,
                    0 <= y < height,
                    height == out_h.spec_height(),
                    dlen == out_h.spec_data_len(),
                    row_start == y * out_h.spec_pitch(),
                    y * out_h.spec_pitch() + out_h.spec_row_bytes() <= out_h.spec_data_len(),
                    packed@.len() == (width + 7) / 8,
                    forall|jj: int, k: int|
                        0 <= jj < packed@.len() && 0 <= k < 8 ==> (#[trigger] (packed@[jj] >> (
                        k as u8))) & 1 == (if 8 * jj + k < width && bits@[8 * jj + k] {
                            1u8
                        } else {
                            0u8
                        }),
                    bits@.len() == width,
                    forall|xx: int| 0 <= xx < width ==> bits@[xx] == spec_mono_bit(
                        input_img.spec_img_data(),
                        in_h,
                        rotation,
                        out_size,
                        dithering_method,
                        xx,
                        y as int,
                    ),
                    0 <= j <= row_bytes,
                    forall|jj: int| 0 <= jj < j ==> output_img.spec_img_data()[row_start + jj]
                        == packed@[jj],
                    forall|i: int|
                        0 <= i < snap.len() && !(row_start <= i < row_start + j)
                            ==> output_img.spec_img_data()[i] == snap[i],
                decreases row_bytes - j,
            {
                output_img.set_byte(row_start + j, packed[j]);
                j += 1;
            }
            proof {
                lemma_live_rows_step(out_h, y as int);
                let cur = output_img.spec_img_data();
                assert forall|yy: int, jj: int, k: int|
                    0 <= yy < y + 1 && 0 <= jj < row_bytes && 0 <= k < 8 implies (#[trigger] (
                cur[yy * out_h.spec_pitch() + jj] >> (k as u8))) & 1 == (if 8 * jj + k < width
                    && spec_mono_bit(
                    input_img.spec_img_data(),
                    in_h,
                    rotation,
                    out_size,
                    dithering_method,
                    8 * jj + k,
                    yy,
                ) {
                    1u8
                } else {
                    0u8
                }) by {
                    lemma_row_bounds(out_h, yy);
                    if yy < y {
                        assert(yy * out_h.spec_pitch() + jj < y * out_h.spec_pitch())
                            by (nonlinear_arith)
                            requires
                                yy + 1 <= y,
                                0 <= jj < out_h.spec_row_bytes(),
                                out_h.spec_row_bytes() <= out_h.spec_pitch(),
                        ;
                        assert(cur[yy * out_h.spec_pitch() + jj] == snap[yy * out_h.spec_pitch()
                            + jj]);
                    } else {
                        assert(cur[y * out_h.spec_pitch() + jj] == packed@[jj]);
                    }
                }
                assert forall|i: int|
                    0 <= i < cur.len() && !spec_in_live_rows(out_h, i, y as int + 1) implies cur[i]
                    == old(output_img).spec_img_data()[i] by {
                    assert(!(spec_in_live_rows(out_h, i, y as int) || (y * out_h.spec_pitch() <= i
                        < y * out_h.spec_pitch() + out_h.spec_row_bytes())));
                }
            }
            y += 1;
        }
    }
}

} // verus!
