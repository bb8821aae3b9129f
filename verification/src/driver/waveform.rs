//! Waveform lookup table: a sequence of 64-byte frames, each packing a 2-bit
//! action for every (source level, destination level) pair of a 16x16 matrix.
//! The on-device table terminates at the first all-0xFF frame, and no valid
//! frame contains a 2-bit lane equal to 3.

use crate::error::Error;
use vstd::prelude::*;

verus! {

/// One pixel-voltage step of a waveform frame.
#[derive(Clone, Copy, Debug, PartialEq, Eq, Structural)]
pub enum Action {
    Keep,
    Down,
    Up,
}

/// Position of the 2-bit entry for `(src, dst)` inside a 64-byte frame,
/// counted in 2-bit lanes. The destination level is stored reversed because
/// the device packs each 32-bit group big-endian.
pub open spec fn spec_lane_index(src: u8, dst: u8) -> int
    recommends
        src < 16,
        dst < 16,
{
    src * 16 + (15 - dst)
}

/// Lane position of `(src, dst)` inside a 64-byte frame.
pub fn index(src: u8, dst: u8) -> (r: usize)
    requires
        src < 16,
        dst < 16,
    ensures
        r == spec_lane_index(src, dst),
        r < 256,
{
    src as usize * 16 + (15 - dst as usize)
}

/// A byte is invalid when any of its four 2-bit lanes holds 3.
pub open spec fn spec_is_invalid_byte(val: u8) -> bool {
    (val & 0xc0) == 0xc0 || (val & 0x30) == 0x30 || (val & 0x0c) == 0x0c || (val & 0x03) == 0x03
}

/// Whether any 2-bit lane of `val` holds the reserved value 3.
pub fn is_invalid_byte(val: u8) -> (r: bool)
    ensures
        r == spec_is_invalid_byte(val),
{
    (val & 0xc0) == 0xc0 || (val & 0x30) == 0x30 || (val & 0x0c) == 0x0c || (val & 0x03) == 0x03
}

/// The 2-bit value stored in lane `slot` (0..4) of `byte`.
pub open spec fn spec_lane_bits(byte: u8, slot: int) -> u8
    recommends
        0 <= slot < 4,
{
    (byte >> ((slot * 2) as u8)) & 3
}

/// The action denoted by a 2-bit lane value. Lane value 3 never occurs in a
/// well-formed table; it is mapped to `Keep` to keep the function total.
pub open spec fn spec_decode_action(bits: u8) -> Action {
    if bits == 1 {
        Action::Down
    } else if bits == 2 {
        Action::Up
    } else {
        Action::Keep
    }
}

/// The 2-bit lane value that encodes `action`.
pub open spec fn spec_encode_action(action: Action) -> u8 {
    match action {
        Action::Keep => 0,
        Action::Down => 1,
        Action::Up => 2,
    }
}

/// The action of frame `frame` for the pair `(src, dst)` in a flat table.
pub open spec fn spec_action(data: Seq<u8>, frame: int, src: u8, dst: u8) -> Action
    recommends
        src < 16,
        dst < 16,
        0 <= frame,
        64 * (frame + 1) <= data.len(),
{
    let lane = spec_lane_index(src, dst);
    spec_decode_action(spec_lane_bits(data[frame * 64 + lane / 4], lane % 4))
}

/// Number of frames, starting at frame `f`, that precede the first all-0xFF
/// terminator frame (or the end of the data).
pub open spec fn spec_frames_before_terminator(data: Seq<u8>, f: int) -> int
    recommends
        data.len() % 64 == 0,
        0 <= f,
    decreases data.len() - 64 * f,
{
    if 64 * (f + 1) > data.len() {
        0
    } else if forall|j: int| 0 <= j < 64 ==> #[trigger] data[64 * f + j] == 0xff {
        0
    } else {
        1 + spec_frames_before_terminator(data, f + 1)
    }
}

/// No byte of frames `f..f + n` of the flat table is invalid.
pub open spec fn spec_frames_valid(data: Seq<u8>, f: int, n: int) -> bool {
    forall|i: int| 64 * f <= i < 64 * (f + n) ==> !spec_is_invalid_byte(#[trigger] data[i])
}

/// An in-memory waveform table: the frames before the terminator, flat,
/// 64 bytes per frame, every 2-bit lane in 0..3.
pub struct Waveform {
    data: Vec<u8>,
}

impl Waveform {
    /// The flat table bytes.
    pub closed spec fn spec_data(&self) -> Seq<u8> {
        self.data@
    }

    /// Well-formed: whole frames only, and no reserved lane value anywhere.
    pub open spec fn wf(&self) -> bool {
        &&& self.spec_data().len() % 64 == 0
        &&& spec_frames_valid(self.spec_data(), 0, self.spec_data().len() as int / 64)
    }

    /// Number of frames held.
    pub open spec fn spec_frame_count(&self) -> int {
        self.spec_data().len() as int / 64
    }

    pub fn frame_count(&self) -> (r: usize)
        ensures
            r == self.spec_frame_count(),
    {
        self.data.len() / 64
    }

    /// The flat table bytes, e.g. for writing the table back to the device.
    pub fn data(&self) -> (r: &[u8])
        ensures
            r@ == self.spec_data(),
    {
        self.data.as_slice()
    }

    /// Parses a table image: takes whole frames up to (excluding) the first
    /// all-0xFF terminator frame, and rejects the image if any retained byte
    /// has a 2-bit lane equal to 3.
    ///
    /// Returns `Ok` exactly when all frames before the terminator are valid,
    /// and then holds exactly those frames.
    pub fn new(data: &[u8]) -> (r: Result<Waveform, Error>)
        requires
            data@.len() % 64 == 0,
        ensures
            match r {
                Ok(w) => {
                    &&& spec_frames_valid(data@, 0, spec_frames_before_terminator(data@, 0))
                    &&& w.spec_data() == data@.subrange(
                        0,
                        64 * spec_frames_before_terminator(data@, 0),
                    )
                    &&& w.wf()
                },
                Err(e) => {
                    &&& e == Error::InvalidWaveform
                    &&& !spec_frames_valid(data@, 0, spec_frames_before_terminator(data@, 0))
                },
            },
    {
        let data_len = data.len();
        let total_frames = data_len / 64;
        proof {
            assert(64 * (data@.len() as int / 64) == data@.len());
        }
        let mut res: Vec<u8> = Vec::new();
        let mut f: usize = 0;
        loop
            invariant
                data@.len() % 64 == 0,
                data_len == data@.len(),
                64 * total_frames == data@.len(),
                0 <= f <= total_frames,
                spec_frames_before_terminator(data@, 0) == f + spec_frames_before_terminator(
                    data@,
                    f as int,
                ) || f == total_frames,
                f == total_frames ==> spec_frames_before_terminator(data@, 0) == f,
                spec_frames_valid(data@, 0, f as int),
                res@ == data@.subrange(0, 64 * f),
            ensures
                spec_frames_before_terminator(data@, 0) == f,
                spec_frames_valid(data@, 0, f as int),
                res@ == data@.subrange(0, 64 * f),
            decreases total_frames - f,
        {
            if f == total_frames {
                break;
            }
            // Check for the all-0xFF terminator frame.
            let mut all_ff = true;
            let mut j: usize = 0;
            while j < 64
                invariant
                    0 <= j <= 64,
                    f < total_frames,
                    data_len == data@.len(),
                    64 * total_frames == data@.len(),
                    all_ff == forall|k: int| 0 <= k < j ==> #[trigger] data@[64 * f + k] == 0xff,
                decreases 64 - j,
            {
                if data[64 * f + j] != 0xff {
                    all_ff = false;
                }
                j += 1;
            }
            if all_ff {
                proof {
                    assert(spec_frames_before_terminator(data@, f as int) == 0);
                }
                break;
            }
            proof {
                assert(spec_frames_before_terminator(data@, f as int) == 1
                    + spec_frames_before_terminator(data@, f as int + 1));
                assert(spec_frames_before_terminator(data@, f as int + 1) >= 0) by {
                    lemma_terminator_nonneg(data@, f as int + 1);
                }
            }
            // Check the frame for reserved lane values and append it.
            let mut j: usize = 0;
            while j < 64
                invariant
                    0 <= j <= 64,
                    f < total_frames,
                    data_len == data@.len(),
                    64 * total_frames == data@.len(),
                    data@.len() % 64 == 0,
                    spec_frames_valid(data@, 0, f as int),
                    spec_frames_before_terminator(data@, 0) == f + spec_frames_before_terminator(
                        data@,
                        f as int,
                    ),
                    spec_frames_before_terminator(data@, f as int) >= 1,
                    forall|k: int| 64 * f <= k < 64 * f + j ==> !spec_is_invalid_byte(
                        #[trigger] data@[k],
                    ),
                    res@ == data@.subrange(0, 64 * f + j),
                decreases 64 - j,
            {
                let b = data[64 * f + j];
                if is_invalid_byte(b) {
                    proof {
                        let n0 = spec_frames_before_terminator(data@, 0);
                        assert(64 * (f as int) <= 64 * f + j < 64 * (0 + n0));
                    }
                    return Err(Error::InvalidWaveform);
                }
                res.push(b);
                proof {
                    assert(res@ =~= data@.subrange(0, 64 * f + j + 1));
                }
                j += 1;
            }
            f += 1;
        }
        proof {
            assert((64 * (f as int)) % 64 == 0) by (nonlinear_arith);
            assert((64 * (f as int)) / 64 == f as int) by (nonlinear_arith);
        }
        Ok(Waveform { data: res })
    }

    /// The per-frame actions for the pair `(src, dst)`.
    pub fn get(&self, src: u8, dst: u8) -> (r: Vec<Action>)
        requires
            self.wf(),
            src < 16,
            dst < 16,
        ensures
            r@.len() == self.spec_frame_count(),
            forall|f: int| 0 <= f < r@.len() ==> r@[f] == spec_action(
                self.spec_data(),
                f,
                src,
                dst,
            ),
    {
        let lane = index(src, dst);
        let dlen = self.data.len();
        let n = self.frame_count();
        let mut r: Vec<Action> = Vec::new();
        let mut f: usize = 0;
        while f < n
            invariant
                self.wf(),
                src < 16,
                dst < 16,
                lane == spec_lane_index(src, dst),
                lane < 256,
                n == self.spec_frame_count(),
                dlen == self.spec_data().len(),
                64 * n == self.spec_data().len(),
                0 <= f <= n,
                r@.len() == f,
                forall|g: int| 0 <= g < f ==> r@[g] == spec_action(self.spec_data(), g, src, dst),
            decreases n - f,
        {
            let byte = self.data[f * 64 + lane / 4];
            let shift = ((lane % 4) * 2) as u8;
            let bits = (byte >> shift) & 3;
            proof {
                assert(!spec_is_invalid_byte(byte));
                assert(shift == 0 || shift == 2 || shift == 4 || shift == 6);
                assert((!((byte & 0xc0) == 0xc0 || (byte & 0x30) == 0x30 || (byte & 0x0c) == 0x0c
                    || (byte & 0x03) == 0x03) && (shift == 0 || shift == 2 || shift == 4 || shift
                    == 6)) ==> ((byte >> shift) & 3) != 3) by (bit_vector);
            }
            let action = if bits == 1 {
                Action::Down
            } else if bits == 2 {
                Action::Up
            } else {
                Action::Keep
            };
            r.push(action);
            f += 1;
        }
        r
    }

    /// Overwrites the per-frame actions for the pair `(src, dst)`, leaving
    /// every other pair's actions and every other byte unchanged.
    #[verifier::rlimit(100)]
    pub fn set(&mut self, src: u8, dst: u8, actions: &[Action])
        requires
            old(self).wf(),
            src < 16,
            dst < 16,
            actions@.len() == old(self).spec_frame_count(),
        ensures
            final(self).wf(),
            final(self).spec_frame_count() == old(self).spec_frame_count(),
            forall|f: int| 0 <= f < actions@.len() ==> spec_action(
                final(self).spec_data(),
                f,
                src,
                dst,
            ) == spec_decode_action(spec_encode_action(actions@[f])),
            forall|s2: u8, d2: u8|
                s2 < 16 && d2 < 16 && spec_lane_index(s2, d2) != spec_lane_index(src, dst)
                    ==> forall|f: int| 0 <= f < actions@.len() ==> spec_action(
                    final(self).spec_data(),
                    f,
                    s2,
                    d2,
                ) == spec_action(old(self).spec_data(), f, s2, d2),
            forall|i: int| 0 <= i < final(self).spec_data().len() && i % 64 != spec_lane_index(
                src,
                dst,
            ) / 4 ==> final(self).spec_data()[i] == old(self).spec_data()[i],
    {
        let lane = index(src, dst);
        let dlen = self.data.len();
        let n = self.frame_count();
        let shift = ((lane % 4) * 2) as u8;
        let mut f: usize = 0;
        while f < n
            invariant
                src < 16,
                dst < 16,
                lane == spec_lane_index(src, dst),
                lane < 256,
                shift == (lane % 4) * 2,
                actions@.len() == n,
                dlen == self.spec_data().len(),
                64 * n == self.spec_data().len(),
                self.spec_data().len() % 64 == 0,
                self.spec_data().len() == old(self).spec_data().len(),
                0 <= f <= n,
                spec_frames_valid(self.spec_data(), 0, n as int),
                forall|g: int| 0 <= g < f ==> spec_action(self.spec_data(), g, src, dst)
                    == spec_decode_action(spec_encode_action(actions@[g])),
                forall|i: int| 0 <= i < self.spec_data().len() && i % 64 != lane / 4
                    ==> self.spec_data()[i] == old(self).spec_data()[i],
                forall|i: int| 64 * f <= i < self.spec_data().len() ==> self.spec_data()[i] == old(
                    self,
                ).spec_data()[i],
                forall|i: int, sh2: u8| 0 <= i < self.spec_data().len() && (sh2 == 0 || sh2 == 2
                    || sh2 == 4 || sh2 == 6) && sh2 != shift ==> (#[trigger] (self.spec_data()[i]
                    >> sh2)) & 3 == (old(self).spec_data()[i] >> sh2) & 3,
            decreases n - f,
        {
            let pos = f * 64 + lane / 4;
            let old_byte = self.data[pos];
            let val = match actions[f] {
                Action::Keep => 0u8,
                Action::Down => 1u8,
                Action::Up => 2u8,
            };
            let cleared = old_byte & !(3u8 << shift);
            let new_byte = cleared | (val << shift);
            proof {
                assert(shift == 0 || shift == 2 || shift == 4 || shift == 6);
                lemma_set_lane(old_byte, new_byte, val, shift);
            }
            let ghost prev = self.spec_data();
            proof {
                assert(forall|g: int| 0 <= g < f ==> spec_action(prev, g, src, dst)
                    == spec_decode_action(spec_encode_action(actions@[g])));
            }
            self.data[pos] = new_byte;
            proof {
                assert(self.spec_data() == prev.update(pos as int, new_byte));
                assert(val == spec_encode_action(actions@[f as int]));
                assert(spec_lane_bits(new_byte, lane as int % 4) == val);
                assert(spec_action(self.spec_data(), f as int, src, dst)
                    == spec_decode_action(spec_encode_action(actions@[f as int])));
                assert forall|g: int| 0 <= g < f + 1 implies spec_action(
                    self.spec_data(),
                    g,
                    src,
                    dst,
                ) == spec_decode_action(spec_encode_action(actions@[g])) by {
                    let ll = spec_lane_index(src, dst);
                    if g < f {
                        assert(spec_action(prev, g, src, dst) == spec_decode_action(
                            spec_encode_action(actions@[g]),
                        ));
                        assert(g * 64 + ll / 4 != pos);
                        assert(self.spec_data()[g * 64 + ll / 4] == prev[g * 64 + ll / 4]);
                        assert(spec_action(self.spec_data(), g, src, dst) == spec_action(
                            prev,
                            g,
                            src,
                            dst,
                        ));
                    } else {
                        assert(g == f as int);
                        assert(spec_action(self.spec_data(), g, src, dst) == spec_decode_action(
                            spec_encode_action(actions@[g]),
                        ));
                    }
                }
            }
            f += 1;
        }
    }
}

/// Setting one 2-bit lane of a byte changes only that lane and never
/// introduces the reserved lane value when `val <= 2`.
proof fn lemma_set_lane(old_byte: u8, new_byte: u8, val: u8, shift: u8)
    requires
        val <= 2,
        shift == 0 || shift == 2 || shift == 4 || shift == 6,
        new_byte == (old_byte & !(3u8 << shift)) | (val << shift),
        !spec_is_invalid_byte(old_byte),
    ensures
        (new_byte >> shift) & 3 == val,
        forall|sh2: u8| (sh2 == 0 || sh2 == 2 || sh2 == 4 || sh2 == 6) && sh2 != shift ==> (
        new_byte >> sh2) & 3 == (old_byte >> sh2) & 3,
        !spec_is_invalid_byte(new_byte),
{
    assert((val <= 2 && (shift == 0 || shift == 2 || shift == 4 || shift == 6) && new_byte == (
    old_byte & !(3u8 << shift)) | (val << shift)) ==> (new_byte >> shift) & 3 == val)
        by (bit_vector);
    assert forall|sh2: u8|
        (sh2 == 0 || sh2 == 2 || sh2 == 4 || sh2 == 6) && sh2 != shift implies (new_byte >> sh2) & 3
        == (old_byte >> sh2) & 3 by {
        assert((val <= 2 && (shift == 0 || shift == 2 || shift == 4 || shift == 6) && (sh2 == 0
            || sh2 == 2 || sh2 == 4 || sh2 == 6) && sh2 != shift && new_byte == (old_byte & !(3u8
            << shift)) | (val << shift)) ==> (new_byte >> sh2) & 3 == (old_byte >> sh2) & 3)
            by (bit_vector);
    }
    assert((val <= 2 && (shift == 0 || shift == 2 || shift == 4 || shift == 6) && new_byte == (
    old_byte & !(3u8 << shift)) | (val << shift) && !((old_byte & 0xc0) == 0xc0 || (old_byte & 0x30)
        == 0x30 || (old_byte & 0x0c) == 0x0c || (old_byte & 0x03) == 0x03)) ==> !((new_byte & 0xc0)
        == 0xc0 || (new_byte & 0x30) == 0x30 || (new_byte & 0x0c) == 0x0c || (new_byte & 0x03)
        == 0x03)) by (bit_vector);
}

/// The frame count before the terminator is never negative.
proof fn lemma_terminator_nonneg(data: Seq<u8>, f: int)
    requires
        0 <= f,
    ensures
        spec_frames_before_terminator(data, f) >= 0,
    decreases data.len() - 64 * f,
{
    if 64 * (f + 1) > data.len() {
    } else if forall|j: int| 0 <= j < 64 ==> #[trigger] data[64 * f + j] == 0xff {
    } else {
        lemma_terminator_nonneg(data, f + 1);
    }
}

} // verus!
