//! Floyd-Steinberg error diffusion from BGRA to an 8-bpp gray target with a
//! fixed quantization grid. Errors are carried as integers scaled by 256;
//! each pixel's residual is split into sixteenths with the classic
//! 7/16, 3/16, 5/16, 1/16 weights.

use crate::image::{
    image_wf, lemma_row_bounds, ConstImage, ConstImageView, HasImageHeader, Image, ImageBuffer,
    ImageFormat, ImageHeader,
};
use vstd::prelude::*;

verus! {

/// A quantization target: `n_levels` output levels spaced `step` apart.
#[derive(Clone, Copy, Debug)]
pub struct TargetColorSpace {
    step: u8,
    n_levels: u8,
}

impl TargetColorSpace {
    pub closed spec fn spec_step(&self) -> int {
        self.step as int
    }

    pub closed spec fn spec_n_levels(&self) -> int {
        self.n_levels as int
    }

    /// An even positive step whose top level still fits in a byte.
    pub open spec fn valid(&self) -> bool {
        &&& 2 <= self.spec_step()
        &&& self.spec_step() % 2 == 0
        &&& 1 <= self.spec_n_levels()
        &&& (self.spec_n_levels() - 1) * self.spec_step() <= 255
    }

    pub fn new(step: u8, n_levels: u8) -> (r: TargetColorSpace)
        requires
            2 <= step,
            step % 2 == 0,
            1 <= n_levels,
            (n_levels - 1) * step <= 255,
        ensures
            r.valid(),
            r.spec_step() == step,
            r.spec_n_levels() == n_levels,
    {
        TargetColorSpace { step, n_levels }
    }

    /// The quantization level of value `v`: `v / (step / 2) / 2`, capped at
    /// the top level.
    pub open spec fn spec_level(&self, v: int) -> int {
        let l = v / (self.spec_step() / 2) / 2;
        if l < self.spec_n_levels() - 1 {
            l
        } else {
            self.spec_n_levels() - 1
        }
    }

    /// The quantized output for value `v`.
    pub open spec fn spec_quantized(&self, v: int) -> int {
        self.spec_level(v) * self.spec_step()
    }

    /// The quantized output never exceeds the input, so the residual is the
    /// exact quantization error.
    pub proof fn lemma_quantized_le(&self, v: int)
        requires
            self.valid(),
            0 <= v,
        ensures
            0 <= self.spec_quantized(v) <= v,
            self.spec_quantized(v) <= 255,
    {
        let s = self.spec_step();
        let h2 = s / 2;
        let q1 = v / h2;
        let l0 = q1 / 2;
        assert(s == 2 * h2);
        assert(0 <= q1 && q1 * h2 <= v) by (nonlinear_arith)
            requires
                0 <= v,
                0 < h2,
                q1 == v / h2,
        ;
        assert(0 <= l0 && l0 * 2 <= q1) by (nonlinear_arith)
            requires
                0 <= q1,
                l0 == q1 / 2,
        ;
        assert(l0 * 2 * h2 <= q1 * h2) by (nonlinear_arith)
            requires
                l0 * 2 <= q1,
                0 < h2,
        ;
        assert(l0 * s == l0 * 2 * h2) by (nonlinear_arith)
            requires
                s == 2 * h2,
        ;
        let l = self.spec_level(v);
        assert(l * s <= l0 * s) by (nonlinear_arith)
            requires
                l <= l0,
                0 < s,
        ;
        assert(0 <= l * s) by (nonlinear_arith)
            requires
                0 <= l,
                0 < s,
        ;
        assert(l <= self.spec_n_levels() - 1);
        assert(l * s <= (self.spec_n_levels() - 1) * s) by (nonlinear_arith)
            requires
                l <= self.spec_n_levels() - 1,
                0 < s,
        ;
        if l != self.spec_n_levels() - 1 {
            assert(l * s <= v);
        }
    }

    /// The quantized output and the exact residual `src - output`.
    pub fn find_nearest_and_residual(&self, src: u8) -> (r: (u8, u8))
        requires
            self.valid(),
        ensures
            r.0 == self.spec_quantized(src as int),
            r.0 + r.1 == src,
    {
        proof {
            self.lemma_quantized_le(src as int);
        }
        let l0 = src / (self.step / 2) / 2;
        let level = if l0 < self.n_levels - 1 {
            l0
        } else {
            self.n_levels - 1
        };
        proof {
            assert(level * self.spec_step() <= 255);
        }
        let dst = level * self.step;
        (dst, src - dst)
    }
}

/// The black/white target: outputs 0x00 and 0xF0.
pub fn bw_target() -> (r: TargetColorSpace)
    ensures
        r.valid(),
        r.spec_step() == 0xf0,
        r.spec_n_levels() == 2,
{
    TargetColorSpace::new(0xf0, 2)
}

/// The 16-level gray target: outputs 0x00, 0x10, ..., 0xF0.
pub fn grey16_target() -> (r: TargetColorSpace)
    ensures
        r.valid(),
        r.spec_step() == 0x10,
        r.spec_n_levels() == 16,
{
    TargetColorSpace::new(0x10, 16)
}

/// Gray value of BGRA pixel `(x, y)` by the luminosity weights
/// 0.30 R + 0.59 G + 0.11 B, computed exactly over hundredths.
pub open spec fn spec_bgra_gray(data: Seq<u8>, h: ImageHeader, x: int, y: int) -> int {
    let base = y * h.spec_pitch() + 4 * x;
    (30 * data[base + 2] + 59 * data[base + 1] + 11 * data[base]) / 100
}

/// Gray value of a B, G, R byte triple.
pub fn bgra_to_gray(b: u8, g: u8, r: u8) -> (v: u8)
    ensures
        v == (30 * (r as int) + 59 * (g as int) + 11 * (b as int)) / 100,
        v <= 255,
{
    ((30 * (r as u32) + 59 * (g as u32) + 11 * (b as u32)) / 100) as u8
}

/// The error-diffusion state after some number of pixels: the outputs
/// emitted so far, and the carried errors (scaled by 256) for the current
/// and the next row. Both carry rows have one extra slot past the right
/// edge; what lands there is discarded at the end of the row.
pub ghost struct DitherState {
    pub out: Seq<u8>,
    pub cur: Seq<int>,
    pub next: Seq<int>,
}

/// A zeroed carry row of `w + 1` slots.
pub open spec fn spec_zero_carry(w: int) -> Seq<int> {
    Seq::new((w + 1) as nat, |i: int| 0)
}

/// The initial state: nothing emitted, no carried error.
pub open spec fn spec_dither_init(w: int) -> DitherState {
    DitherState { out: Seq::empty(), cur: spec_zero_carry(w), next: spec_zero_carry(w) }
}

/// The adjusted value of pixel `(x, y)`: its gray value plus the carried
/// error, clamped to a byte.
pub open spec fn spec_dither_adjusted(
    data: Seq<u8>,
    h: ImageHeader,
    st: DitherState,
    x: int,
    y: int,
) -> int {
    let v = spec_bgra_gray(data, h, x, y) + st.cur[x] / 256;
    if v < 0 {
        0
    } else if v > 255 {
        255
    } else {
        v
    }
}

/// One pixel step: quantize the adjusted value, emit it, and push the
/// residual (times 16, in the scaled representation) to the right, the
/// lower-left, the lower, and the lower-right neighbours with weights
/// 7, 3, 5 and 1.
pub open spec fn spec_dither_step(
    data: Seq<u8>,
    h: ImageHeader,
    t: TargetColorSpace,
    st: DitherState,
    x: int,
    y: int,
) -> DitherState {
    let adj = spec_dither_adjusted(data, h, st, x, y);
    let outv = t.spec_quantized(adj);
    let r16 = (adj - outv) * 16;
    let cur1 = st.cur.update(x + 1, st.cur[x + 1] + 7 * r16);
    let next1 = if x >= 1 {
        st.next.update(x - 1, st.next[x - 1] + 3 * r16)
    } else {
        st.next
    };
    let next2 = next1.update(x, next1[x] + 5 * r16);
    let next3 = next2.update(x + 1, next2[x + 1] + r16);
    DitherState { out: st.out.push(outv as u8), cur: cur1, next: next3 }
}

/// End of a row: the next row's carries become current, and a fresh zero
/// row is started. The slot past the right edge of the finished row is
/// discarded with the rest of its carry row.
pub open spec fn spec_dither_row_end(st: DitherState, w: int) -> DitherState {
    DitherState { out: st.out, cur: st.next, next: spec_zero_carry(w) }
}

/// The state after the first `n` pixels in raster order, row ends applied.
pub open spec fn spec_dither_upto(
    data: Seq<u8>,
    h: ImageHeader,
    t: TargetColorSpace,
    n: nat,
) -> DitherState
    decreases n,
{
    let w = h.spec_width();
    if n == 0 {
        spec_dither_init(w)
    } else {
        let x = (n - 1) as int % w;
        let y = (n - 1) as int / w;
        let st = spec_dither_step(data, h, t, spec_dither_upto(data, h, t, (n - 1) as nat), x, y);
        if x == w - 1 {
            spec_dither_row_end(st, w)
        } else {
            st
        }
    }
}

/// Cap on a next-row carry slot while the next pixel of the row is `x0`:
/// slot `i` has received its 3/16 share from pixel `i + 1`, its 5/16 share
/// from pixel `i`, and its 1/16 share from pixel `i - 1`, each only once
/// the contributing pixel has been processed. Residuals are at most 255,
/// so each sixteenth-share is at most `16 * 255 = 4080`.
pub open spec fn spec_next_cap(i: int, x0: int) -> int {
    (if i + 1 < x0 {
        3 * 4080int
    } else {
        0int
    }) + (if i < x0 {
        5 * 4080int
    } else {
        0int
    }) + (if 1 <= i && i - 1 < x0 {
        4080int
    } else {
        0int
    })
}

/// Cap on a current-row carry slot: what it accumulated as a next-row slot,
/// plus the 7/16 share from its left neighbour once that pixel is done.
pub open spec fn spec_cur_cap(i: int, x0: int) -> int {
    9 * 4080int + (if 1 <= i && i - 1 < x0 {
        7 * 4080int
    } else {
        0int
    })
}

/// Shape and bounds of the diffusion state: `n` outputs, carry rows of
/// `w + 1` slots, and every carry within its positional cap (so at most
/// `16 * 16 * 255 = 65280`).
pub proof fn lemma_dither_state_bounds(data: Seq<u8>, h: ImageHeader, t: TargetColorSpace, n: nat)
    requires
        h.valid(),
        t.valid(),
    ensures
        ({
            let st = spec_dither_upto(data, h, t, n);
            let w = h.spec_width();
            let x0 = n as int % w;
            &&& st.out.len() == n
            &&& st.cur.len() == w + 1
            &&& st.next.len() == w + 1
            &&& forall|i: int| 0 <= i <= w ==> 0 <= #[trigger] st.cur[i] <= spec_cur_cap(i, x0)
            &&& forall|i: int| 0 <= i <= w ==> 0 <= #[trigger] st.next[i] <= spec_next_cap(i, x0)
        }),
    decreases n,
{
    let w = h.spec_width();
    if n == 0 {
        assert(0int % w == 0) by (nonlinear_arith)
            requires
                0 < w,
        ;
    } else {
        lemma_dither_state_bounds(data, h, t, (n - 1) as nat);
        let prev = spec_dither_upto(data, h, t, (n - 1) as nat);
        let x = (n - 1) as int % w;
        let y = (n - 1) as int / w;
        assert(0 <= x < w) by (nonlinear_arith)
            requires
                0 < w,
                x == (n - 1) as int % w,
        ;
        let adj = spec_dither_adjusted(data, h, prev, x, y);
        assert(0 <= prev.cur[x] / 256);
        assert(0 <= adj <= 255);
        t.lemma_quantized_le(adj);
        let outv = t.spec_quantized(adj);
        let r16 = (adj - outv) * 16;
        assert(0 <= r16 <= 4080);
        let st1 = spec_dither_step(data, h, t, prev, x, y);
        let st = spec_dither_upto(data, h, t, n);
        if x == w - 1 {
            assert(n as int % w == 0) by (nonlinear_arith)
                requires
                    0 < w,
                    (n - 1) as int % w == w - 1,
                    n >= 1,
            ;
            assert forall|i: int| 0 <= i <= w implies 0 <= #[trigger] st.cur[i] <= spec_cur_cap(
                i,
                0,
            ) by {
                assert(st.cur[i] == st1.next[i]);
                assert(st1.next[i] <= spec_next_cap(i, x) + 9 * r16);
                assert(spec_next_cap(i, x) + 9 * 4080 <= 2 * 9 * 4080);
                assert(st1.next[i] <= spec_next_cap(i, w));
            }
        } else {
            assert(n as int % w == x + 1) by (nonlinear_arith)
                requires
                    0 < w,
                    (n - 1) as int % w == x,
                    x < w - 1,
                    n >= 1,
            ;
            assert forall|i: int| 0 <= i <= w implies 0 <= #[trigger] st.cur[i] <= spec_cur_cap(
                i,
                x + 1,
            ) by {
                if i == x + 1 {
                    assert(st.cur[i] == prev.cur[i] + 7 * r16);
                    assert(spec_cur_cap(x + 1, x) == 9 * 4080);
                } else {
                    assert(st.cur[i] == prev.cur[i]);
                    assert(spec_cur_cap(i, x) <= spec_cur_cap(i, x + 1));
                }
            }
            assert forall|i: int| 0 <= i <= w implies 0 <= #[trigger] st.next[i] <= spec_next_cap(
                i,
                x + 1,
            ) by {
                lemma_dither_next_shares(prev.next, st.next, x, r16, i, w);
            }
        }
    }
}

/// How one step's next-row updates move each slot from its old cap to its
/// new cap.
proof fn lemma_dither_next_shares(
    old_next: Seq<int>,
    new_next: Seq<int>,
    x: int,
    r16: int,
    i: int,
    w: int,
)
    requires
        0 <= x < w,
        0 <= i <= w,
        0 <= r16 <= 4080,
        old_next.len() == w + 1,
        new_next.len() == w + 1,
        0 <= old_next[i] <= spec_next_cap(i, x),
        new_next[i] == old_next[i] + (if i == x - 1 {
            3 * r16
        } else {
            0
        }) + (if i == x {
            5 * r16
        } else {
            0
        }) + (if i == x + 1 {
            r16
        } else {
            0
        }),
    ensures
        0 <= new_next[i] <= spec_next_cap(i, x + 1),
{
}

/// Error conservation of one diffusion step: the total carried error grows
/// by exactly 256 times the pixel's residual, and the emitted output plus
/// the residual equals the adjusted value exactly.
pub proof fn lemma_dither_step_conserves(
    data: Seq<u8>,
    h: ImageHeader,
    t: TargetColorSpace,
    st: DitherState,
    x: int,
    y: int,
)
    requires
        h.valid(),
        t.valid(),
        st.cur.len() == h.spec_width() + 1,
        st.next.len() == h.spec_width() + 1,
        0 <= x < h.spec_width(),
    ensures
        ({
            let adj = spec_dither_adjusted(data, h, st, x, y);
            let outv = t.spec_quantized(adj);
            let st1 = spec_dither_step(data, h, t, st, x, y);
            &&& outv + (adj - outv) == adj
            &&& seq_int_sum(st1.cur) + seq_int_sum(st1.next) == seq_int_sum(st.cur)
                + seq_int_sum(st.next) + (if x >= 1 {
                256 * (adj - outv)
            } else {
                // The leftmost column has no lower-left neighbour, so its
                // 3/16 share is dropped: 13 of 16 sixteenths are carried.
                13 * 16 * (adj - outv)
            })
        }),
{
    let adj = spec_dither_adjusted(data, h, st, x, y);
    let outv = t.spec_quantized(adj);
    let r16 = (adj - outv) * 16;
    let cur1 = st.cur.update(x + 1, st.cur[x + 1] + 7 * r16);
    lemma_seq_int_sum_update(st.cur, x + 1, st.cur[x + 1] + 7 * r16);
    let next1 = if x >= 1 {
        st.next.update(x - 1, st.next[x - 1] + 3 * r16)
    } else {
        st.next
    };
    if x >= 1 {
        lemma_seq_int_sum_update(st.next, x - 1, st.next[x - 1] + 3 * r16);
        assert(seq_int_sum(next1) == seq_int_sum(st.next) + 3 * r16);
    } else {
        // The first column has no lower-left neighbour; its 3/16 share is
        // folded into nothing, so the classic weights shrink to 5 + 1 + 7.
        assert(seq_int_sum(next1) == seq_int_sum(st.next));
    }
    let next2 = next1.update(x, next1[x] + 5 * r16);
    lemma_seq_int_sum_update(next1, x, next1[x] + 5 * r16);
    let next3 = next2.update(x + 1, next2[x + 1] + r16);
    lemma_seq_int_sum_update(next2, x + 1, next2[x + 1] + r16);
    let st1 = spec_dither_step(data, h, t, st, x, y);
    assert(st1.cur == cur1);
    assert(st1.next == next3);
    assert(seq_int_sum(cur1) == seq_int_sum(st.cur) + 7 * r16);
    if x >= 1 {
        assert(seq_int_sum(next3) == seq_int_sum(st.next) + 9 * r16);
        assert(seq_int_sum(cur1) + seq_int_sum(next3) == seq_int_sum(st.cur) + seq_int_sum(st.next)
            + 16 * r16);
        assert(16 * r16 == 256 * (adj - outv)) by (nonlinear_arith)
            requires
                r16 == (adj - outv) * 16,
        ;
        assert(seq_int_sum(st1.cur) + seq_int_sum(st1.next) == seq_int_sum(st.cur) + seq_int_sum(
            st.next,
        ) + 256 * (adj - outv));
    } else {
        assert(seq_int_sum(next3) == seq_int_sum(st.next) + 6 * r16);
        assert(seq_int_sum(cur1) + seq_int_sum(next3) == seq_int_sum(st.cur) + seq_int_sum(st.next)
            + 13 * r16);
        assert(13 * r16 == 13 * 16 * (adj - outv)) by (nonlinear_arith)
            requires
                r16 == (adj - outv) * 16,
        ;
        assert(seq_int_sum(st1.cur) + seq_int_sum(st1.next) == seq_int_sum(st.cur) + seq_int_sum(
            st.next,
        ) + 13 * 16 * (adj - outv));
    }
}

/// Sum of an integer sequence.
pub open spec fn seq_int_sum(s: Seq<int>) -> int
    decreases s.len(),
{
    if s.len() == 0 {
        0
    } else {
        s[0] + seq_int_sum(s.subrange(1, s.len() as int))
    }
}

/// Updating one slot changes the sum by the difference at that slot.
pub proof fn lemma_seq_int_sum_update(s: Seq<int>, i: int, v: int)
    requires
        0 <= i < s.len(),
    ensures
        seq_int_sum(s.update(i, v)) == seq_int_sum(s) - s[i] + v,
    decreases s.len(),
{
    let su = s.update(i, v);
    if i == 0 {
        assert(su.subrange(1, su.len() as int) =~= s.subrange(1, s.len() as int));
    } else {
        assert(su.subrange(1, su.len() as int) =~= s.subrange(1, s.len() as int).update(i - 1, v));
        lemma_seq_int_sum_update(s.subrange(1, s.len() as int), i - 1, v);
    }
}


/// Floyd-Steinberg error diffusion of a BGRA image into an 8-bpp gray
/// buffer with minimum pitch: exactly the pixel-by-pixel diffusion that
/// `spec_dither_upto` describes, over the whole image in raster order.
pub fn floyd_steinberg(bgra_src: &ConstImageView<'_>, target_color_space: TargetColorSpace) -> (r:
    ImageBuffer)
    requires
        image_wf(bgra_src),
        bgra_src.spec_header().spec_format() == ImageFormat::BGRA,
        target_color_space.valid(),
    ensures
        image_wf(&r),
        r.spec_header().spec_format() == ImageFormat::Mono8Bpp,
        r.spec_header().spec_width() == bgra_src.spec_header().spec_width(),
        r.spec_header().spec_height() == bgra_src.spec_header().spec_height(),
        r.spec_header().spec_pitch() == bgra_src.spec_header().spec_width(),
        r.spec_img_data() == spec_dither_upto(
            bgra_src.spec_img_data(),
            bgra_src.spec_header(),
            target_color_space,
            (bgra_src.spec_header().spec_width() * bgra_src.spec_header().spec_height()) as nat,
        ).out,
{
    let src_h = bgra_src.header();
    let width = src_h.width();
    let height = src_h.height();
    let ghost sdata = bgra_src.spec_img_data();
    let ghost t = target_color_space;
    proof {
        assert(width * 8 + 7 <= i32::MAX);
        assert(height * width <= height * src_h.spec_pitch()) by (nonlinear_arith)
            requires
                0 < height,
                width <= src_h.spec_pitch(),
        ;
        assert(width <= src_h.spec_row_bytes());
        assert((width * 8 + 7) / 8 == width);
    }
    let mut dst = ImageBuffer::new(ImageFormat::Mono8Bpp, width, height, None);
    let dst_h = dst.header();
    let dlen = dst_h.data_len();
    let wu = width as usize;
    let mut current: Vec<i32> = vec![0i32; wu + 1];
    let mut nxt: Vec<i32> = vec![0i32; wu + 1];
    let d = bgra_src.data();
    let d_len = d.len();
    proof {
        lemma_dither_state_bounds(sdata, src_h, t, 0);
        assert(spec_dither_upto(sdata, src_h, t, 0).cur =~= spec_zero_carry(width as int));
        assert(forall|i: int| 0 <= i <= width ==> current@[i] == spec_dither_upto(
            sdata,
            src_h,
            t,
            0,
        ).cur[i]);
        assert(forall|i: int| 0 <= i <= width ==> nxt@[i] == spec_dither_upto(
            sdata,
            src_h,
            t,
            0,
        ).next[i]);
    }
    let mut y: i32 = 0;
    while y < height
        invariant
            image_wf(bgra_src),
            image_wf(&dst),
            src_h == bgra_src.spec_header(),
            dst_h == dst.spec_header(),
            sdata == bgra_src.spec_img_data(),
            t == target_color_space,
            t.valid(),
            src_h.spec_format() == ImageFormat::BGRA,
            dst_h.spec_format() == ImageFormat::Mono8Bpp,
            width == src_h.spec_width(),
            height == src_h.spec_height(),
            width == dst_h.spec_width(),
            height == dst_h.spec_height(),
            width == dst_h.spec_pitch(),
            wu == width,
            dlen == dst_h.spec_data_len(),
            dst.spec_img_data().len() == dst_h.spec_data_len(),
            dst_h.spec_data_len() == height * width,
            d@ == sdata,
            d_len == d@.len(),
            d@.len() == src_h.spec_data_len(),
            current@.len() == width + 1,
            nxt@.len() == width + 1,
            0 <= y <= height,
            forall|i: int| 0 <= i <= width ==> current@[i] == spec_dither_upto(
                sdata,
                src_h,
                t,
                (y * width) as nat,
            ).cur[i],
            forall|i: int| 0 <= i <= width ==> nxt@[i] == spec_dither_upto(
                sdata,
                src_h,
                t,
                (y * width) as nat,
            ).next[i],
            forall|i: int| 0 <= i < y * width ==> dst.spec_img_data()[i] == spec_dither_upto(
                sdata,
                src_h,
                t,
                (y * width) as nat,
            ).out[i],
            0 <= y * width <= height * width,
            y < height ==> y * width + width <= height * width,
        decreases height - y,
    {
        proof {
            assert(0 <= y * width && (y + 1) * width == y * width + width && (y + 1) * width
                <= height * width) by (nonlinear_arith)
                requires
                    0 <= y < height,
                    0 < width,
            ;
            lemma_row_bounds(src_h, y as int);
        }
        let mut x: i32 = 0;
        while x < width
            invariant
                image_wf(bgra_src),
                image_wf(&dst),
                src_h == bgra_src.spec_header(),
                dst_h == dst.spec_header(),
                sdata == bgra_src.spec_img_data(),
                t == target_color_space,
                t.valid(),
                src_h.spec_format() == ImageFormat::BGRA,
                width == src_h.spec_width(),
                height == src_h.spec_height(),
                width == dst_h.spec_pitch(),
                wu == width,
                dlen == dst_h.spec_data_len(),
                dst.spec_img_data().len() == dst_h.spec_data_len(),
                dst_h.spec_data_len() == height * width,
                d@ == sdata,
                d_len == d@.len(),
                d@.len() == src_h.spec_data_len(),
                current@.len() == width + 1,
                nxt@.len() == width + 1,
                0 <= y < height,
                0 <= x <= width,
                0 <= y * width <= y * width + width <= height * width,
                y * src_h.spec_pitch() + src_h.spec_row_bytes() <= src_h.spec_data_len(),
                width <= src_h.spec_row_bytes(),
                forall|i: int| 0 <= i <= width ==> current@[i] == spec_dither_upto(
                    sdata,
                    src_h,
                    t,
                    (y * width + x) as nat,
                ).cur[i],
                forall|i: int| 0 <= i <= width ==> nxt@[i] == spec_dither_upto(
                    sdata,
                    src_h,
                    t,
                    (y * width + x) as nat,
                ).next[i],
                forall|i: int| 0 <= i < y * width + x ==> dst.spec_img_data()[i]
                    == spec_dither_upto(sdata, src_h, t, (y * width + x) as nat).out[i],
            decreases width - x,
        {
            let ghost n = (y * width + x) as nat;
            let ghost st = spec_dither_upto(sdata, src_h, t, n);
            proof {
                lemma_dither_state_bounds(sdata, src_h, t, n);
                lemma_dither_state_bounds(sdata, src_h, t, (n + 1) as nat);
                assert(n as int % (width as int) == x as int && n as int / (width as int) == y as int)
                    by (nonlinear_arith)
                    requires
                        0 <= x < width,
                        0 <= y,
                        n == y * width + x,
                ;
                assert(forall|i: int| 0 <= i <= width ==> 0 <= #[trigger] st.cur[i] <= 16 * 4080);
                assert(forall|i: int| 0 <= i <= width ==> 0 <= #[trigger] st.next[i] <= 9 * 4080);
                assert(4 * x + 2 < src_h.spec_row_bytes()) by (nonlinear_arith)
                    requires
                        0 <= x < src_h.spec_width(),
                        src_h.spec_row_bytes() == (src_h.spec_width() * 32 + 7) / 8,
                ;
            }
            let base = (y as usize) * (src_h.pitch() as usize) + 4 * (x as usize);
            let gray = bgra_to_gray(d[base], d[base + 1], d[base + 2]);
            let adj0: i32 = gray as i32 + current[x as usize] / 256;
            let adj: i32 = if adj0 < 0 {
                0
            } else if adj0 > 255 {
                255
            } else {
                adj0
            };
            proof {
                assert(adj == spec_dither_adjusted(sdata, src_h, st, x as int, y as int));
            }
            let (val, residual) = target_color_space.find_nearest_and_residual(adj as u8);
            let idx = (y as usize) * wu + (x as usize);
            dst.set_byte(idx, val);
            let r16: i32 = residual as i32 * 16;
            proof {
                assert(t.spec_quantized(adj as int) + residual == adj);
                assert(r16 == (adj - t.spec_quantized(adj as int)) * 16);
                assert(0 <= r16 <= 4080);
            }
            current[x as usize + 1] = current[x as usize + 1] + 7 * r16;
            if x >= 1 {
                nxt[x as usize - 1] = nxt[x as usize - 1] + 3 * r16;
            }
            nxt[x as usize] = nxt[x as usize] + 5 * r16;
            nxt[x as usize + 1] = nxt[x as usize + 1] + r16;
            let ghost st1 = spec_dither_step(sdata, src_h, t, st, x as int, y as int);
            proof {
                assert(forall|i: int| 0 <= i <= width ==> current@[i] == #[trigger] st1.cur[i]);
                assert(forall|i: int| 0 <= i <= width ==> nxt@[i] == #[trigger] st1.next[i]);
                assert(st1.out == st.out.push(t.spec_quantized(adj as int) as u8));
                assert(forall|i: int| 0 <= i < n + 1 ==> dst.spec_img_data()[i]
                    == #[trigger] st1.out[i]);
            }
            if x == width - 1 {
                // End of the row: the next row's carries become current.
                let tmp = current;
                current = nxt;
                nxt = tmp;
                let mut z: usize = 0;
                while z < wu + 1
                    invariant
                        wu == width,
                        0 <= z <= wu + 1,
                        nxt@.len() == wu + 1,
                        forall|i: int| 0 <= i < z ==> #[trigger] nxt@[i] == 0,
                    decreases wu + 1 - z,
                {
                    nxt[z] = 0;
                    z += 1;
                }
                proof {
                    let st2 = spec_dither_upto(sdata, src_h, t, (n + 1) as nat);
                    assert(st2 == spec_dither_row_end(st1, width as int));
                    assert(forall|i: int| 0 <= i <= width ==> current@[i] == #[trigger] st2.cur[i]);
                    assert(nxt@ =~= Seq::new((wu + 1) as nat, |i: int| 0i32));
                    assert(forall|i: int| 0 <= i <= width ==> nxt@[i] == #[trigger] st2.next[i]);
                }
            } else {
                proof {
                    assert(spec_dither_upto(sdata, src_h, t, (n + 1) as nat) == st1);
                }
            }
            x += 1;
        }
        proof {
            assert((y + 1) * width == y * width + width) by (nonlinear_arith);
            if y + 1 < height {
                assert((y + 1) * width + width <= height * width) by (nonlinear_arith)
                    requires
                        y + 2 <= height,
                        0 < width,
                ;
            }
        }
        y += 1;
    }
    proof {
        assert(height * width == (height * width) as nat);
        lemma_dither_state_bounds(sdata, src_h, t, (height * width) as nat);
        assert(dst.spec_img_data() =~= spec_dither_upto(
            sdata,
            src_h,
            t,
            (height * width) as nat,
        ).out);
        assert(width * height == height * width) by (nonlinear_arith);
    }
    dst
}

} // verus!
