//! Rotation by quarter turns for byte-aligned pixel formats. The output
//! pixel at `(x, y)` is copied from the input pixel the inverse map names;
//! output pixels whose preimage falls outside the input stay zero.

use crate::image::{
    image_wf, lemma_row_bounds, ConstImage, ConstImageView, HasImageHeader, Image, ImageBuffer,
    ImageHeader, Size,
};
use vstd::prelude::*;

verus! {

#[derive(Clone, Copy, Debug, PartialEq, Eq, Structural)]
pub enum Rotation {
    NoRotation,
    Rotate90,
    Rotate180,
    Rotate270,
}

impl Rotation {
    /// Size of an image of size `size` after this rotation: the axes swap
    /// for quarter turns.
    pub open spec fn spec_rotated_size(self, size: Size) -> Size {
        match self {
            Rotation::NoRotation | Rotation::Rotate180 => size,
            Rotation::Rotate90 | Rotation::Rotate270 => Size {
                width: size.height,
                height: size.width,
            },
        }
    }

    pub fn rotated_size(&self, size: Size) -> (r: Size)
        ensures
            r == self.spec_rotated_size(size),
    {
        match self {
            Rotation::NoRotation | Rotation::Rotate180 => size,
            Rotation::Rotate90 | Rotation::Rotate270 => Size {
                width: size.height,
                height: size.width,
            },
        }
    }
}

/// The input pixel coordinates that rotation `rot` maps to output pixel
/// `(x, y)`, for an output of size `out_size`.
pub open spec fn spec_rotation_source(rot: Rotation, out_size: Size, x: int, y: int) -> (int, int) {
    match rot {
        Rotation::NoRotation => (x, y),
        Rotation::Rotate90 => (y, out_size.width - 1 - x),
        Rotation::Rotate180 => (out_size.width - 1 - x, out_size.height - 1 - y),
        Rotation::Rotate270 => (out_size.height - 1 - y, x),
    }
}

/// The byte `k` of the output pixel `(x, y)` after rotating `data`:
/// the matching input pixel byte, or zero when the preimage lies outside
/// the input.
pub open spec fn spec_rotated_byte(
    data: Seq<u8>,
    h: ImageHeader,
    rot: Rotation,
    out_size: Size,
    x: int,
    y: int,
    k: int,
) -> u8 {
    let b8 = h.spec_format().spec_bpp() / 8;
    let (sx, sy) = spec_rotation_source(rot, out_size, x, y);
    if 0 <= sx < h.spec_width() && 0 <= sy < h.spec_height() {
        data[sy * h.spec_pitch() + sx * b8 + k]
    } else {
        0
    }
}

/// Rotates `input_img` by `rotation` into a fresh buffer of `output_size`
/// with minimum pitch. Supports only byte-aligned formats.
pub fn rotate(input_img: &ConstImageView<'_>, rotation: Rotation, output_size: Size) -> (r:
    ImageBuffer)
    requires
        image_wf(input_img),
        input_img.spec_header().spec_format().spec_bpp() % 8 == 0,
        0 < output_size.width,
        0 < output_size.height,
        output_size.width * input_img.spec_header().spec_format().spec_bpp() + 7 <= i32::MAX,
        output_size.height * (output_size.width * (input_img.spec_header().spec_format().spec_bpp()
            / 8)) <= i32::MAX,
    ensures
        image_wf(&r),
        r.spec_header().spec_format() == input_img.spec_header().spec_format(),
        r.spec_header().spec_width() == output_size.width,
        r.spec_header().spec_height() == output_size.height,
        r.spec_header().spec_pitch() == output_size.width
            * (input_img.spec_header().spec_format().spec_bpp() / 8),
        forall|x: int, y: int, k: int|
            0 <= x < output_size.width && 0 <= y < output_size.height && 0 <= k < input_img.spec_header().spec_format().spec_bpp() / 8
                ==> r.spec_img_data()[y * r.spec_header().spec_pitch() + x
                * (input_img.spec_header().spec_format().spec_bpp() / 8) + k] == spec_rotated_byte(
                input_img.spec_img_data(),
                input_img.spec_header(),
                rotation,
                output_size,
                x,
                y,
                k,
            ),
{
    let in_h = input_img.header();
    let format = in_h.format();
    let b8 = format.bpp() / 8;
    proof {
        assert(in_h.spec_format().spec_bpp() == 8 || in_h.spec_format().spec_bpp() == 16
            || in_h.spec_format().spec_bpp() == 32);
        assert(output_size.width * in_h.spec_format().spec_bpp() == (output_size.width * (
        in_h.spec_format().spec_bpp() / 8)) * 8) by (nonlinear_arith)
            requires
                in_h.spec_format().spec_bpp() % 8 == 0,
        ;
        assert(spec_min_pitch_byte_aligned(in_h.spec_format().spec_bpp(), output_size.width as int))
            by (nonlinear_arith)
            requires
                in_h.spec_format().spec_bpp() % 8 == 0,
                0 < in_h.spec_format().spec_bpp(),
                0 < output_size.width,
        ;
    }
    let pitch = output_size.width * b8;
    let mut out = ImageBuffer::new(format, output_size.width, output_size.height, Some(pitch));
    let out_h = out.header();
    let dlen = out_h.data_len();
    let in_width = in_h.width();
    let in_height = in_h.height();
    let mut y: i32 = 0;
    while y < output_size.height
        invariant
            image_wf(input_img),
            image_wf(&out),
            in_h == input_img.spec_header(),
            out_h == out.spec_header(),
            in_h.spec_format().spec_bpp() % 8 == 0,
            b8 == in_h.spec_format().spec_bpp() / 8,
            0 < b8 <= 4,
            in_width == in_h.spec_width(),
            in_height == in_h.spec_height(),
            out_h.spec_format() == in_h.spec_format(),
            out_h.spec_width() == output_size.width,
            out_h.spec_height() == output_size.height,
            pitch == out_h.spec_pitch(),
            pitch == output_size.width * b8,
            out_h.spec_row_bytes() == pitch,
            dlen == out_h.spec_data_len(),
            out.spec_img_data().len() == out_h.spec_data_len(),
            out_h.spec_data_len() == output_size.height * out_h.spec_pitch(),
            0 <= y <= output_size.height,
            forall|xx: int, yy: int, kk: int|
                0 <= xx < output_size.width && 0 <= yy < y && 0 <= kk < b8 ==> #[trigger] out.spec_img_data()[yy * out_h.spec_pitch() + xx * b8 + kk]
                    == spec_rotated_byte(
                    input_img.spec_img_data(),
                    in_h,
                    rotation,
                    output_size,
                    xx,
                    yy,
                    kk,
                ),
            forall|i: int| y * out_h.spec_pitch() <= i < out.spec_img_data().len()
                ==> out.spec_img_data()[i] == 0,
        decreases output_size.height - y,
    {
        proof {
            lemma_row_bounds(out_h, y as int);
        }
        // Assemble the output row left to right, byte by byte.
        let mut row_buf: Vec<u8> = Vec::new();
        let mut x: i32 = 0;
        while x < output_size.width
            invariant
                image_wf(input_img),
                in_h == input_img.spec_header(),
                in_h.spec_format().spec_bpp() % 8 == 0,
                b8 == in_h.spec_format().spec_bpp() / 8,
                0 < b8 <= 4,
                in_width == in_h.spec_width(),
                in_height == in_h.spec_height(),
                0 <= y < output_size.height,
                pitch == output_size.width * b8,
                0 <= x <= output_size.width,
                row_buf@.len() == x * b8,
                forall|xx: int, kk: int|
                    0 <= xx < x && 0 <= kk < b8 ==> #[trigger] row_buf@[xx * b8 + kk]
                        == spec_rotated_byte(
                        input_img.spec_img_data(),
                        in_h,
                        rotation,
                        output_size,
                        xx,
                        y as int,
                        kk,
                    ),
            decreases output_size.width - x,
        {
            let (input_x, input_y): (i32, i32) = match rotation {
                Rotation::NoRotation => (x, y),
                Rotation::Rotate90 => (y, output_size.width - 1 - x),
                Rotation::Rotate180 => (output_size.width - 1 - x, output_size.height - 1 - y),
                Rotation::Rotate270 => (output_size.height - 1 - y, x),
            };
            proof {
                assert((x + 1) * b8 == x * b8 + b8) by (nonlinear_arith);
                assert(x * b8 + b8 <= output_size.width * b8) by (nonlinear_arith)
                    requires
                        x + 1 <= output_size.width,
                        0 < b8,
                ;
            }
            let ghost row_snap = row_buf@;
            if input_x >= 0 && input_x < in_width && input_y >= 0 && input_y < in_height {
                proof {
                    lemma_row_bounds(in_h, input_y as int);
                    assert(input_x * b8 + b8 <= in_h.spec_row_bytes()) by (nonlinear_arith)
                        requires
                            input_x + 1 <= in_h.spec_width(),
                            0 < b8,
                            in_h.spec_row_bytes() == (in_h.spec_width()
                                * in_h.spec_format().spec_bpp() + 7) / 8,
                            b8 == in_h.spec_format().spec_bpp() / 8,
                            in_h.spec_format().spec_bpp() % 8 == 0,
                    ;
                }
                let in_row_start = (input_y as usize) * (in_h.pitch() as usize);
                let d = input_img.data();
                let d_len = d.len();
                let mut k: usize = 0;
                while k < b8 as usize
                    invariant
                        image_wf(input_img),
                        in_h == input_img.spec_header(),
                        0 < b8 <= 4,
                        0 <= input_x < in_h.spec_width(),
                        0 <= input_y < in_h.spec_height(),
                        in_row_start == input_y * in_h.spec_pitch(),
                        input_x * b8 + b8 <= in_h.spec_row_bytes(),
                        input_y * in_h.spec_pitch() + in_h.spec_row_bytes()
                            <= in_h.spec_data_len(),
                        d@ == input_img.spec_img_data(),
                        d_len == d@.len(),
                        d@.len() == in_h.spec_data_len(),
                        0 <= k <= b8,
                        row_buf@.len() == row_snap.len() + k,
                        row_buf@ =~= row_snap + input_img.spec_img_data().subrange(
                            input_y * in_h.spec_pitch() + input_x * b8,
                            input_y * in_h.spec_pitch() + input_x * b8 + k,
                        ),
                    decreases b8 - k,
                {
                    let v = d[in_row_start + (input_x as usize) * (b8 as usize) + k];
                    row_buf.push(v);
                    proof {
                        assert(row_buf@ =~= row_snap + input_img.spec_img_data().subrange(
                            input_y * in_h.spec_pitch() + input_x * b8,
                            input_y * in_h.spec_pitch() + input_x * b8 + k + 1,
                        ));
                    }
                    k += 1;
                }
            } else {
                let mut k: usize = 0;
                while k < b8 as usize
                    invariant
                        0 < b8 <= 4,
                        0 <= k <= b8,
                        row_buf@.len() == row_snap.len() + k,
                        forall|kk: int| 0 <= kk < k ==> #[trigger] row_buf@[row_snap.len() + kk]
                            == 0u8,
                        forall|i: int| 0 <= i < row_snap.len() ==> #[trigger] row_buf@[i]
                            == row_snap[i],
                    decreases b8 - k,
                {
                    row_buf.push(0);
                    k += 1;
                }
            }
            proof {
                assert forall|xx: int, kk: int|
                    0 <= xx < x + 1 && 0 <= kk < b8 implies #[trigger] row_buf@[xx * b8 + kk]
                    == spec_rotated_byte(
                    input_img.spec_img_data(),
                    in_h,
                    rotation,
                    output_size,
                    xx,
                    y as int,
                    kk,
                ) by {
                    if xx < x {
                        assert(xx * b8 + kk < x * b8) by (nonlinear_arith)
                            requires
                                xx + 1 <= x,
                                0 <= kk < b8,
                        ;
                        assert(row_buf@[xx * b8 + kk] == row_snap[xx * b8 + kk]);
                    } else {
                        assert(xx * b8 + kk == row_snap.len() + kk);
                    }
                }
            }
            x += 1;
        }
        // Store the assembled row; everything past it stays zero.
        let row_start = (y as usize) * (pitch as usize);
        let ghost snap = out.spec_img_data();
        let row_bytes = pitch as usize;
        proof {
            assert(row_buf@.len() == pitch) by (nonlinear_arith)
                requires
                    row_buf@.len() == output_size.width * b8,
                    pitch == output_size.width * b8,
            ;
        }
        let mut j: usize = 0;
        while j < row_bytes
            invariant
                image_wf(&out),
                out_h == out.spec_header(),
                out.spec_img_data().len() == snap.len(),
                out.spec_img_data().len() == out_h.spec_data_len(),
                dlen == out_h.spec_data_len(),
                pitch == out_h.spec_pitch(),
                row_bytes == pitch,
                0 <= y < out_h.spec_height(),
                row_start == y * out_h.spec_pitch(),
                y * out_h.spec_pitch() + out_h.spec_pitch() <= out_h.spec_data_len(),
                row_buf@.len() == pitch,
                0 <= j <= row_bytes,
                forall|jj: int| 0 <= jj < j ==> out.spec_img_data()[row_start + jj]
                    == row_buf@[jj],
                forall|i: int|
                    0 <= i < snap.len() && !(row_start <= i < row_start + j)
                        ==> out.spec_img_data()[i] == snap[i],
            decreases row_bytes - j,
        {
            proof {
                lemma_row_bounds(out_h, y as int);
            }
            out.set_byte(row_start + j, row_buf[j]);
            j += 1;
        }
        proof {
            let cur = out.spec_img_data();
            assert((y + 1) * pitch == y * pitch + pitch) by (nonlinear_arith);
            assert forall|xx: int, yy: int, kk: int|
                0 <= xx < output_size.width && 0 <= yy < y + 1 && 0 <= kk
                    < b8 implies #[trigger] cur[yy * out_h.spec_pitch() + xx * b8 + kk]
                == spec_rotated_byte(
                input_img.spec_img_data(),
                in_h,
                rotation,
                output_size,
                xx,
                yy,
                kk,
            ) by {
                lemma_row_bounds(out_h, yy);
                assert(xx * b8 + kk < pitch) by (nonlinear_arith)
                    requires
                        xx + 1 <= output_size.width,
                        0 <= kk < b8,
                        pitch == output_size.width * b8,
                ;
                if yy < y {
                    assert(yy * out_h.spec_pitch() + xx * b8 + kk < y * out_h.spec_pitch())
                        by (nonlinear_arith)
                        requires
                            yy + 1 <= y,
                            0 <= xx * b8 + kk < out_h.spec_pitch(),
                    ;
                    assert(cur[yy * out_h.spec_pitch() + xx * b8 + kk] == snap[yy
                        * out_h.spec_pitch() + xx * b8 + kk]);
                } else {
                    assert(cur[y * out_h.spec_pitch() + (xx * b8 + kk)] == row_buf@[xx * b8 + kk]);
                }
            }
            assert forall|i: int|
                (y + 1) * out_h.spec_pitch() <= i < cur.len() implies cur[i] == 0 by {
                assert(cur[i] == snap[i]);
            }
        }
        y += 1;
    }
    out
}

/// For byte-aligned bpp the minimum pitch is exactly `width * bpp / 8`.
spec fn spec_min_pitch_byte_aligned(bpp: int, width: int) -> bool {
    (width * bpp + 7) / 8 == width * (bpp / 8)
}

/// Rotation involution, half turns: rotating an image by 180 degrees twice
/// reproduces every pixel byte of the original. `size` is the shared size
/// of all three images.
pub proof fn lemma_rotate180_involution(
    in_data: Seq<u8>,
    in_h: ImageHeader,
    mid_data: Seq<u8>,
    mid_h: ImageHeader,
    out_data: Seq<u8>,
    out_h: ImageHeader,
    size: Size,
)
    requires
        in_h.valid() && mid_h.valid() && out_h.valid(),
        in_h.spec_format() == mid_h.spec_format() && in_h.spec_format() == out_h.spec_format(),
        in_h.spec_format().spec_bpp() % 8 == 0,
        size.width == in_h.spec_width() && size.height == in_h.spec_height(),
        mid_h.spec_width() == size.width && mid_h.spec_height() == size.height,
        out_h.spec_width() == size.width && out_h.spec_height() == size.height,
        forall|x: int, y: int, k: int|
            0 <= x < size.width && 0 <= y < size.height && 0 <= k < in_h.spec_format().spec_bpp()
                / 8 ==> #[trigger] mid_data[y * mid_h.spec_pitch() + x * (
            in_h.spec_format().spec_bpp() / 8) + k] == spec_rotated_byte(
                in_data,
                in_h,
                Rotation::Rotate180,
                size,
                x,
                y,
                k,
            ),
        forall|x: int, y: int, k: int|
            0 <= x < size.width && 0 <= y < size.height && 0 <= k < in_h.spec_format().spec_bpp()
                / 8 ==> #[trigger] out_data[y * out_h.spec_pitch() + x * (
            in_h.spec_format().spec_bpp() / 8) + k] == spec_rotated_byte(
                mid_data,
                mid_h,
                Rotation::Rotate180,
                size,
                x,
                y,
                k,
            ),
    ensures
        forall|x: int, y: int, k: int|
            0 <= x < size.width && 0 <= y < size.height && 0 <= k < in_h.spec_format().spec_bpp()
                / 8 ==> #[trigger] out_data[y * out_h.spec_pitch() + x * (
            in_h.spec_format().spec_bpp() / 8) + k] == in_data[y * in_h.spec_pitch() + x * (
            in_h.spec_format().spec_bpp() / 8) + k],
{
    let b8 = in_h.spec_format().spec_bpp() / 8;
    assert forall|x: int, y: int, k: int|
        0 <= x < size.width && 0 <= y < size.height && 0 <= k
            < b8 implies #[trigger] out_data[y * out_h.spec_pitch() + x * b8 + k] == in_data[y
        * in_h.spec_pitch() + x * b8 + k] by {
        let mx = size.width - 1 - x;
        let my = size.height - 1 - y;
        assert(spec_rotation_source(Rotation::Rotate180, size, x, y) == (mx, my));
        assert(out_data[y * out_h.spec_pitch() + x * b8 + k] == mid_data[my * mid_h.spec_pitch()
            + mx * b8 + k]);
        assert(mid_data[my * mid_h.spec_pitch() + mx * b8 + k] == spec_rotated_byte(
            in_data,
            in_h,
            Rotation::Rotate180,
            size,
            mx,
            my,
            k,
        ));
        assert(spec_rotation_source(Rotation::Rotate180, size, mx, my) == (x, y));
    }
}

/// Rotation involution, quarter turns: rotating by 90 degrees and then by
/// 270 degrees reproduces every pixel byte of the original. `size` is the
/// input's size, `mid_size` the quarter-turned size with the axes swapped.
pub proof fn lemma_rotate90_270_involution(
    in_data: Seq<u8>,
    in_h: ImageHeader,
    mid_data: Seq<u8>,
    mid_h: ImageHeader,
    out_data: Seq<u8>,
    out_h: ImageHeader,
    size: Size,
    mid_size: Size,
)
    requires
        in_h.valid() && mid_h.valid() && out_h.valid(),
        in_h.spec_format() == mid_h.spec_format() && in_h.spec_format() == out_h.spec_format(),
        in_h.spec_format().spec_bpp() % 8 == 0,
        size.width == in_h.spec_width() && size.height == in_h.spec_height(),
        mid_size.width == size.height && mid_size.height == size.width,
        mid_h.spec_width() == mid_size.width && mid_h.spec_height() == mid_size.height,
        out_h.spec_width() == size.width && out_h.spec_height() == size.height,
        forall|x: int, y: int, k: int|
            0 <= x < mid_size.width && 0 <= y < mid_size.height && 0 <= k
                < in_h.spec_format().spec_bpp() / 8 ==> #[trigger] mid_data[y * mid_h.spec_pitch()
                + x * (in_h.spec_format().spec_bpp() / 8) + k] == spec_rotated_byte(
                in_data,
                in_h,
                Rotation::Rotate90,
                mid_size,
                x,
                y,
                k,
            ),
        forall|x: int, y: int, k: int|
            0 <= x < size.width && 0 <= y < size.height && 0 <= k < in_h.spec_format().spec_bpp()
                / 8 ==> #[trigger] out_data[y * out_h.spec_pitch() + x * (
            in_h.spec_format().spec_bpp() / 8) + k] == spec_rotated_byte(
                mid_data,
                mid_h,
                Rotation::Rotate270,
                size,
                x,
                y,
                k,
            ),
    ensures
        forall|x: int, y: int, k: int|
            0 <= x < size.width && 0 <= y < size.height && 0 <= k < in_h.spec_format().spec_bpp()
                / 8 ==> #[trigger] out_data[y * out_h.spec_pitch() + x * (
            in_h.spec_format().spec_bpp() / 8) + k] == in_data[y * in_h.spec_pitch() + x * (
            in_h.spec_format().spec_bpp() / 8) + k],
{
    let b8 = in_h.spec_format().spec_bpp() / 8;
    assert forall|x: int, y: int, k: int|
        0 <= x < size.width && 0 <= y < size.height && 0 <= k
            < b8 implies #[trigger] out_data[y * out_h.spec_pitch() + x * b8 + k] == in_data[y
        * in_h.spec_pitch() + x * b8 + k] by {
        let (mx, my) = spec_rotation_source(Rotation::Rotate270, size, x, y);
        assert(mx == size.height - 1 - y && my == x);
        assert(0 <= mx < mid_size.width && 0 <= my < mid_size.height);
        assert(out_data[y * out_h.spec_pitch() + x * b8 + k] == mid_data[my * mid_h.spec_pitch()
            + mx * b8 + k]);
        assert(spec_rotation_source(Rotation::Rotate90, mid_size, mx, my) == (
            my,
            mid_size.width - 1 - mx,
        ));
        assert(mid_size.width - 1 - mx == y);
        assert(mid_data[my * mid_h.spec_pitch() + mx * b8 + k] == spec_rotated_byte(
            in_data,
            in_h,
            Rotation::Rotate90,
            mid_size,
            mx,
            my,
            k,
        ));
    }
}

} // verus!
