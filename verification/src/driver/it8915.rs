//! The IT8915 panel controller command layer: device identification and
//! sysinfo, register setup, memory reads and writes, image upload in
//! width-aligned strips, display dispatch with per-generation waveform mode
//! translation, and the full reset sequence. Every contract is stated over
//! the transfer history of the underlying `DeviceIO` channel.

use super::scsi::{spec_transfers_data_len, Device, DeviceIO, Transfer};
use super::serde::{spec_u16_to_be_bytes, spec_u32_from_be_bytes, spec_u32_to_be_bytes};
use super::waveform::{spec_frames_before_terminator, spec_frames_valid, Waveform};
use crate::error::Error;
use crate::image::{image_wf, ConstImage, ConstImageView, HasImageHeader, Image, ImageBuffer,
    ImageFormat, Point, Size};
use vstd::prelude::*;

verus! {

/// The waveform modes the controller knows, with their generation-8 wire
/// codes 0 through 7 in declaration order.
#[derive(Clone, Copy, Debug, PartialEq, Eq, Structural)]
pub enum DisplayMode {
    INIT,
    DU,
    GC16,
    GL16,
    GLR16,
    GLD16,
    A2,
    DU4,
}

impl DisplayMode {
    /// The mode's generation-8 wire code.
    pub open spec fn spec_code(self) -> int {
        match self {
            DisplayMode::INIT => 0,
            DisplayMode::DU => 1,
            DisplayMode::GC16 => 2,
            DisplayMode::GL16 => 3,
            DisplayMode::GLR16 => 4,
            DisplayMode::GLD16 => 5,
            DisplayMode::A2 => 6,
            DisplayMode::DU4 => 7,
        }
    }

    pub fn code(&self) -> (r: u32)
        ensures
            r == self.spec_code(),
    {
        match self {
            DisplayMode::INIT => 0,
            DisplayMode::DU => 1,
            DisplayMode::GC16 => 2,
            DisplayMode::GL16 => 3,
            DisplayMode::GLR16 => 4,
            DisplayMode::GLD16 => 5,
            DisplayMode::A2 => 6,
            DisplayMode::DU4 => 7,
        }
    }
}

/// The wire code of `mode` on a device of the given mode generation:
/// generation 8 sends the code as is; generation 6 collapses A2 and DU4 by
/// two and has no GLR16 or GLD16; other generations are unsupported.
pub open spec fn spec_wire_mode_code(mode: DisplayMode, generation: int) -> Option<int> {
    if generation == 8 {
        Some(mode.spec_code())
    } else if generation == 6 {
        match mode {
            DisplayMode::INIT | DisplayMode::DU | DisplayMode::GC16 | DisplayMode::GL16 => Some(
                mode.spec_code(),
            ),
            DisplayMode::A2 | DisplayMode::DU4 => Some(mode.spec_code() - 2),
            _ => None,
        }
    } else {
        None
    }
}

/// The two encodings of the device's image memory.
#[derive(Clone, Copy, Debug, PartialEq, Eq, Structural)]
pub enum MemMode {
    Mem1bpp,
    Mem8bpp,
}

/// The 16-byte CDB of a raw memory command: header 0xFE, the address
/// big-endian, the opcode, and the transfer length big-endian.
pub open spec fn spec_mem_io_cdb(op: u8, addr: u32, len: u16) -> Seq<u8> {
    seq![0xfeu8, 0x00u8] + spec_u32_to_be_bytes(addr) + seq![op] + spec_u16_to_be_bytes(len) + seq![
        0u8,
        0u8,
        0u8,
        0u8,
        0u8,
        0u8,
        0u8,
    ]
}

/// The INQUIRY CDB.
pub open spec fn spec_inquiry_cdb() -> Seq<u8> {
    seq![
        0x12u8,
        0u8,
        0u8,
        0u8,
        0u8,
        0u8,
        0u8,
        0u8,
        0u8,
        0u8,
        0u8,
        0u8,
        0u8,
        0u8,
        0u8,
        0u8,
    ]
}

/// The vendor-specific sysinfo CDB: 0xFE, "8951", subcode 0x80, version
/// 0x00010002.
pub open spec fn spec_sysinfo_cdb() -> Seq<u8> {
    seq![
        0xfeu8,
        0x00u8,
        0x38u8,
        0x39u8,
        0x35u8,
        0x31u8,
        0x80u8,
        0x00u8,
        0x01u8,
        0x00u8,
        0x02u8,
        0x00u8,
        0x00u8,
        0x00u8,
        0x00u8,
        0x00u8,
    ]
}

/// The display-area CDB: opcode 0x94 at offset 6.
pub open spec fn spec_display_cdb() -> Seq<u8> {
    seq![
        0xfeu8,
        0x00u8,
        0x00u8,
        0x00u8,
        0x00u8,
        0x00u8,
        0x94u8,
        0x00u8,
        0x00u8,
        0x00u8,
        0x00u8,
        0x00u8,
        0x00u8,
        0x00u8,
        0x00u8,
        0x00u8,
    ]
}

/// The 28-byte big-endian payload of a display-area command.
pub open spec fn spec_display_payload(
    addr: u32,
    code: u32,
    x: u32,
    y: u32,
    w: u32,
    h: u32,
    wait_ready: bool,
) -> Seq<u8> {
    spec_u32_to_be_bytes(addr) + spec_u32_to_be_bytes(code) + spec_u32_to_be_bytes(x)
        + spec_u32_to_be_bytes(y) + spec_u32_to_be_bytes(w) + spec_u32_to_be_bytes(h)
        + spec_u32_to_be_bytes(
        if wait_ready {
            1u32
        } else {
            0u32
        },
    )
}

/// The 16-byte PMIC control CDB: opcode 0xA3, the VCOM millivolts
/// big-endian with its set flag, and the power state with its set flag.
pub open spec fn spec_pmic_cdb(vcom: Option<u16>, power: Option<bool>) -> Seq<u8> {
    seq![0xfeu8, 0u8, 0u8, 0u8, 0u8, 0u8, 0xa3u8] + (match vcom {
        Some(v) => spec_u16_to_be_bytes(v) + seq![1u8],
        None => seq![0u8, 0u8, 0u8],
    }) + (match power {
        Some(p) => seq![
            1u8,
            (if p {
                1u8
            } else {
                0u8
            }),
        ],
        None => seq![0u8, 0u8],
    }) + seq![0u8, 0u8, 0u8, 0u8]
}

/// The ASCII bytes of the vendor and product identification an IT8915
/// answers to INQUIRY: "Generic Storage RamDisc 1.00".
pub open spec fn spec_expected_vendor() -> Seq<u8> {
    seq![
        71u8,
        101u8,
        110u8,
        101u8,
        114u8,
        105u8,
        99u8,
        32u8,
        83u8,
        116u8,
        111u8,
        114u8,
        97u8,
        103u8,
        101u8,
        32u8,
        82u8,
        97u8,
        109u8,
        68u8,
        105u8,
        115u8,
        99u8,
        32u8,
        49u8,
        46u8,
        48u8,
        48u8,
    ]
}

/// The expected INQUIRY vendor and product bytes, as a vector.
fn expected_vendor() -> (r: Vec<u8>)
    ensures
        r@ == spec_expected_vendor(),
        r@.len() == 28,
{
    let mut v: Vec<u8> = Vec::new();
    v.push(71);
    v.push(101);
    v.push(110);
    v.push(101);
    v.push(114);
    v.push(105);
    v.push(99);
    v.push(32);
    v.push(83);
    v.push(116);
    v.push(111);
    v.push(114);
    v.push(97);
    v.push(103);
    v.push(101);
    v.push(32);
    v.push(82);
    v.push(97);
    v.push(109);
    v.push(68);
    v.push(105);
    v.push(115);
    v.push(99);
    v.push(32);
    v.push(49);
    v.push(46);
    v.push(48);
    v.push(48);
    proof {
        assert(v@ =~= spec_expected_vendor());
    }
    v
}

/// Whether a device is accepted from what it answered: the 28 INQUIRY
/// identification bytes match exactly, and the decoded canvas geometry
/// lies within the range all of the library's index arithmetic is bounded
/// by.
pub open spec fn spec_device_accepted(inquiry: Seq<u8>, sysinfo: Seq<u8>) -> bool {
    &&& inquiry.subrange(8, 36) == spec_expected_vendor()
    &&& 1 <= spec_u32_from_be_bytes(sysinfo.subrange(16, 20)) <= 16384
    &&& 1 <= spec_u32_from_be_bytes(sysinfo.subrange(20, 24)) <= 16384
}

/// Whether the decoded mode generation is one the library can translate
/// waveform modes for.
pub open spec fn spec_generation_supported(sysinfo: Seq<u8>) -> bool {
    spec_u32_from_be_bytes(sysinfo.subrange(36, 40)) == 6 || spec_u32_from_be_bytes(
        sysinfo.subrange(36, 40),
    ) == 8
}

/// The accept/reject decision over a device's INQUIRY and sysinfo answers,
/// and the decoded fields (width, height, image buffer base, mode
/// generation) on acceptance. Accepted exactly when the identification
/// matches, the geometry is in range, and the generation is one the
/// library supports; a mismatched or out-of-range device is refused as
/// unexpected, and a matching device of another generation is refused as
/// an unsupported generation -- at startup, before any state is touched.
pub fn check_and_decode_sysinfo(inquiry: &[u8], sysinfo: &[u8]) -> (r: Result<
    (u32, u32, u32, u32),
    Error,
>)
    requires
        inquiry@.len() == 40,
        sysinfo@.len() == 112,
    ensures
        r is Ok <==> spec_device_accepted(inquiry@, sysinfo@) && spec_generation_supported(
            sysinfo@,
        ),
        r matches Ok(t) ==> t.0 == spec_u32_from_be_bytes(sysinfo@.subrange(16, 20)) && t.1
            == spec_u32_from_be_bytes(sysinfo@.subrange(20, 24)) && t.2 == spec_u32_from_be_bytes(
            sysinfo@.subrange(28, 32),
        ) && t.3 == spec_u32_from_be_bytes(sysinfo@.subrange(36, 40)),
        r == Err::<(u32, u32, u32, u32), Error>(Error::UnexpectedDevice) <==> !spec_device_accepted(
            inquiry@,
            sysinfo@,
        ),
        r == Err::<(u32, u32, u32, u32), Error>(Error::UnsupportedGeneration)
            <==> spec_device_accepted(inquiry@, sysinfo@) && !spec_generation_supported(sysinfo@),
{
    let expect = expected_vendor();
    let mut i: usize = 0;
    while i < 28
        invariant
            0 <= i <= 28,
            inquiry@.len() == 40,
            expect@ == spec_expected_vendor(),
            forall|j: int| 0 <= j < i ==> inquiry@[8 + j] == spec_expected_vendor()[j],
        decreases 28 - i,
    {
        if inquiry[8 + i] != expect[i] {
            proof {
                assert(inquiry@.subrange(8, 36)[i as int] != spec_expected_vendor()[i as int]);
            }
            return Err(Error::UnexpectedDevice);
        }
        i += 1;
    }
    proof {
        assert(inquiry@.subrange(8, 36) =~= spec_expected_vendor());
    }
    let width_raw = be32_at(sysinfo, 16);
    let height_raw = be32_at(sysinfo, 20);
    let image_buf_base = be32_at(sysinfo, 28);
    let mode_no = be32_at(sysinfo, 36);
    // Guard the geometry so that all later index arithmetic fits the
    // machine types.
    if width_raw == 0 || width_raw > 16384 || height_raw == 0 || height_raw > 16384 {
        return Err(Error::UnexpectedDevice);
    }
    if mode_no != 6 && mode_no != 8 {
        return Err(Error::UnsupportedGeneration);
    }
    Ok((width_raw, height_raw, image_buf_base, mode_no))
}

/// The transfers a full-width strip upload performs from row `y` on: one
/// fast-write (opcode 0xA5) per chunk of `rows_per_step` rows, each to the
/// address of its first row in image memory and carrying exactly the
/// chunk's `rows * pitch` bytes of the strip.
pub open spec fn spec_upload_transfers(
    strip: Seq<u8>,
    pitch: int,
    height: int,
    rows_per_step: int,
    base_addr: int,
    y: int,
) -> Seq<Transfer>
    recommends
        0 < pitch,
        0 < rows_per_step,
    decreases height - y,
{
    if y >= height || rows_per_step <= 0 {
        Seq::empty()
    } else {
        let rows = if rows_per_step < height - y {
            rows_per_step
        } else {
            height - y
        };
        seq![
            Transfer {
                cdb: spec_mem_io_cdb(0xa5, (base_addr + pitch * y) as u32, (rows * pitch) as u16),
                data: strip.subrange(y * pitch, (y + rows) * pitch),
                is_read: false,
            },
        ] + spec_upload_transfers(strip, pitch, height, rows_per_step, base_addr, y + rows)
    }
}

/// Upload bound: the strip upload writes exactly `pitch * (height - y)`
/// data bytes to the device, no more and no fewer.
pub proof fn lemma_upload_data_len(
    strip: Seq<u8>,
    pitch: int,
    height: int,
    rows_per_step: int,
    base_addr: int,
    y: int,
)
    requires
        0 < pitch,
        0 < rows_per_step,
        0 <= y,
        pitch * height <= strip.len(),
    ensures
        spec_transfers_data_len(
            spec_upload_transfers(strip, pitch, height, rows_per_step, base_addr, y),
        ) == if y < height {
            pitch * (height - y)
        } else {
            0
        },
    decreases height - y,
{
    let ts = spec_upload_transfers(strip, pitch, height, rows_per_step, base_addr, y);
    if y >= height {
        assert(ts =~= Seq::<Transfer>::empty());
    } else {
        let rows = if rows_per_step < height - y {
            rows_per_step
        } else {
            height - y
        };
        assert(0 < rows);
        let head = Transfer {
            cdb: spec_mem_io_cdb(0xa5, (base_addr + pitch * y) as u32, (rows * pitch) as u16),
            data: strip.subrange(y * pitch, (y + rows) * pitch),
            is_read: false,
        };
        let tail = spec_upload_transfers(strip, pitch, height, rows_per_step, base_addr, y + rows);
        lemma_upload_data_len(strip, pitch, height, rows_per_step, base_addr, y + rows);
        lemma_transfers_data_len_prepend(head, tail);
        assert(ts == seq![head] + tail);
        assert((y + rows) * pitch - y * pitch == rows * pitch) by (nonlinear_arith);
        assert(0 <= y * pitch <= (y + rows) * pitch) by (nonlinear_arith)
            requires
                0 <= y,
                0 < rows,
                0 < pitch,
        ;
        assert((y + rows) * pitch <= height * pitch) by (nonlinear_arith)
            requires
                y + rows <= height,
                0 < pitch,
        ;
        assert(height * pitch == pitch * height) by (nonlinear_arith);
        assert(head.data.len() == rows * pitch);
        assert(spec_transfers_data_len(ts) == head.data.len() + spec_transfers_data_len(tail));
        if y + rows < height {
            assert(rows * pitch + pitch * (height - (y + rows)) == pitch * (height - y))
                by (nonlinear_arith);
        } else {
            assert(rows == height - y);
            assert(rows * pitch == pitch * (height - y)) by (nonlinear_arith)
                requires
                    rows == height - y,
            ;
        }
    }
}

/// Prepending one transfer adds its data length to the total.
proof fn lemma_transfers_data_len_prepend(head: Transfer, tail: Seq<Transfer>)
    ensures
        spec_transfers_data_len(seq![head] + tail) == head.data.len()
            + spec_transfers_data_len(tail),
    decreases tail.len(),
{
    let all = seq![head] + tail;
    if tail.len() == 0 {
        assert(all.len() == 1);
        assert(all.drop_last() =~= Seq::<Transfer>::empty());
        assert(all.last() == head);
        assert(spec_transfers_data_len(all.drop_last()) == 0);
        assert(spec_transfers_data_len(all) == spec_transfers_data_len(all.drop_last())
            + all.last().data.len());
        assert(spec_transfers_data_len(tail) == 0);
    } else {
        assert(all.last() == tail.last());
        assert(all.drop_last() =~= seq![head] + tail.drop_last());
        lemma_transfers_data_len_prepend(head, tail.drop_last());
        assert(spec_transfers_data_len(all) == spec_transfers_data_len(all.drop_last())
            + all.last().data.len());
        assert(spec_transfers_data_len(all.drop_last()) == spec_transfers_data_len(
            seq![head] + tail.drop_last(),
        ));
        assert(spec_transfers_data_len(tail) == spec_transfers_data_len(tail.drop_last())
            + tail.last().data.len());
    }
}

/// An open IT8915 controller: the transport channel, the geometry and
/// addresses decoded from sysinfo, and the 4-byte-aligned 1-bpp memory
/// pitch.
pub struct IT8915<D: DeviceIO> {
    device: Device<D>,
    width: i32,
    height: i32,
    image_buf_base: u32,
    mode_no: u32,
    mem_pitch: u32,
}

/// The address of the LUT busy-status register.
pub const LUTAFSR_ADDR: u32 = 0x1800_1224;

/// The device-specific waveform table address observed on a 6-inch panel;
/// not portable across firmware revisions.
pub const WAVEFORM_DATA_ADDR: u32 = 0x9c3e8;

impl<D: DeviceIO> IT8915<D> {
    /// All transfers performed on the channel so far.
    pub closed spec fn transfers(&self) -> Seq<Transfer> {
        self.device.transfers()
    }

    pub closed spec fn spec_width(&self) -> int {
        self.width as int
    }

    pub closed spec fn spec_height(&self) -> int {
        self.height as int
    }

    pub closed spec fn spec_image_buf_base(&self) -> u32 {
        self.image_buf_base
    }

    pub closed spec fn spec_mode_no(&self) -> int {
        self.mode_no as int
    }

    pub closed spec fn spec_mem_pitch(&self) -> int {
        self.mem_pitch as int
    }

    /// Decoded geometry within the ranges the library's index arithmetic
    /// relies on, and the memory pitch derived from the width.
    pub open spec fn wf(&self) -> bool {
        &&& 0 < self.spec_width() <= 16384
        &&& 0 < self.spec_height() <= 16384
        &&& self.spec_mem_pitch() == ((self.spec_width() + 31) / 32) * 4
    }

    pub fn get_screen_size(&self) -> (r: Size)
        ensures
            r.width == self.spec_width(),
            r.height == self.spec_height(),
    {
        Size { width: self.width, height: self.height }
    }

    /// Bytes per row of device image memory in the given encoding: the
    /// width rounded up to 4-byte alignment for 1 bpp, the width itself
    /// for 8 bpp.
    pub fn get_mem_pitch(&self, mode: MemMode) -> (r: i32)
        requires
            self.wf(),
        ensures
            r == (match mode {
                MemMode::Mem1bpp => self.spec_mem_pitch(),
                MemMode::Mem8bpp => self.spec_width(),
            }),
    {
        match mode {
            MemMode::Mem1bpp => self.mem_pitch as i32,
            MemMode::Mem8bpp => self.width,
        }
    }

    pub fn get_mode_no(&self) -> (r: u32)
        ensures
            r == self.spec_mode_no(),
    {
        self.mode_no
    }

    pub fn get_image_buf_base(&self) -> (r: u32)
        ensures
            r == self.spec_image_buf_base(),
    {
        self.image_buf_base
    }

    /// Opens the controller over an already-open channel: sends INQUIRY
    /// and requires the fixed vendor/product identification, decodes the
    /// sysinfo structure, and performs the one-time register setup
    /// (1-bit drawing mode, bitmap color map, and the image pitch
    /// register in double-words).
    pub fn open(device: Device<D>) -> (r: Result<IT8915<D>, Error>)
        ensures
            r matches Ok(dev) ==> {
                let ts = dev.transfers();
                let n = device.transfers().len() as int;
                &&& dev.wf()
                &&& ts.len() == n + 6
                &&& ts.subrange(0, n) == device.transfers()
                &&& ts[n].is_read && ts[n].cdb == spec_inquiry_cdb() && ts[n].data.len() == 40
                &&& ts[n + 1].is_read && ts[n + 1].cdb == spec_sysinfo_cdb() && ts[n
                    + 1].data.len() == 112
                // The device was accepted: the identification matched, the
                // geometry is in range, and the generation is supported.
                &&& spec_device_accepted(ts[n].data, ts[n + 1].data)
                &&& spec_generation_supported(ts[n + 1].data)
                &&& (dev.spec_mode_no() == 6 || dev.spec_mode_no() == 8)
                &&& dev.spec_width() == spec_u32_from_be_bytes(ts[n + 1].data.subrange(16, 20))
                &&& dev.spec_height() == spec_u32_from_be_bytes(ts[n + 1].data.subrange(20, 24))
                &&& dev.spec_image_buf_base() == spec_u32_from_be_bytes(
                    ts[n + 1].data.subrange(28, 32),
                )
                &&& dev.spec_mode_no() == spec_u32_from_be_bytes(ts[n + 1].data.subrange(36, 40))
                &&& ts[n + 2].is_read && ts[n + 2].cdb == spec_mem_io_cdb(0x81, 0x1800_1138, 4)
                    && ts[n + 2].data.len() == 4
                &&& ts[n + 3] == (Transfer {
                    cdb: spec_mem_io_cdb(0x82, 0x1800_1138, 4),
                    data: ts[n + 2].data.update(2, ts[n + 2].data[2] | 0x06),
                    is_read: false,
                })
                &&& ts[n + 4] == (Transfer {
                    cdb: spec_mem_io_cdb(0x82, 0x1800_1250, 2),
                    data: seq![0xf0u8, 0x00u8],
                    is_read: false,
                })
                &&& ts[n + 5] == (Transfer {
                    cdb: spec_mem_io_cdb(0x82, 0x1800_124c, 2),
                    data: seq![
                        ((dev.spec_mem_pitch() / 4) % 256) as u8,
                        ((dev.spec_mem_pitch() / 4) / 256) as u8,
                    ],
                    is_read: false,
                })
            },
    {
        let mut device = device;
        // INQUIRY: the identification must match exactly.
        let inquiry_cdb: [u8; 16] = [0x12, 0, 0, 0, 0, 0, 0, 0, 0, 0, 0, 0, 0, 0, 0, 0];
        proof {
            assert(inquiry_cdb@ =~= spec_inquiry_cdb());
        }
        let mut inquiry_buf: Vec<u8> = vec![0u8; 40];
        match device.io_read(&inquiry_cdb, &mut inquiry_buf) {
            Ok(_) => {},
            Err(e) => {
                return Err(e);
            },
        }
        // Sysinfo: big-endian fields at fixed offsets.
        let sysinfo_cdb: [u8; 16] = [
            0xfe,
            0x00,
            0x38,
            0x39,
            0x35,
            0x31,
            0x80,
            0x00,
            0x01,
            0x00,
            0x02,
            0x00,
            0x00,
            0x00,
            0x00,
            0x00,
        ];
        proof {
            assert(sysinfo_cdb@ =~= spec_sysinfo_cdb());
        }
        let mut sysinfo_buf: Vec<u8> = vec![0u8; 112];
        match device.io_read(&sysinfo_cdb, &mut sysinfo_buf) {
            Ok(_) => {},
            Err(e) => {
                return Err(e);
            },
        }
        // Accept or refuse the device from its two answers, and decode the
        // geometry; the decision is a function of the answered bytes alone.
        let decoded = match check_and_decode_sysinfo(
            inquiry_buf.as_slice(),
            sysinfo_buf.as_slice(),
        ) {
            Ok(t) => t,
            Err(e) => {
                return Err(e);
            },
        };
        let width_raw = decoded.0;
        let height_raw = decoded.1;
        let image_buf_base = decoded.2;
        let mode_no = decoded.3;
        let mem_pitch: u32 = ((width_raw + 31) / 32) * 4;
        let mut res = IT8915 {
            device,
            width: width_raw as i32,
            height: height_raw as i32,
            image_buf_base,
            mode_no,
            mem_pitch,
        };
        // Enable 1-bit drawing and image pitch mode: set bits 0x06 of the
        // third byte of the register quad at 0x1800_1138.
        let up1sr = match res.read_mem(0x1800_1138, 4) {
            Ok(v) => v,
            Err(e) => {
                return Err(e);
            },
        };
        let mut up1sr2 = up1sr;
        let b2 = up1sr2[2];
        up1sr2[2] = b2 | 0x06;
        match res.write_mem(0x1800_1138, up1sr2.as_slice()) {
            Ok(_) => {},
            Err(e) => {
                return Err(e);
            },
        }
        // Bitmap color map: bit 0 draws black 0x00, bit 1 draws white 0xF0.
        let mut color_map: Vec<u8> = Vec::new();
        color_map.push(0xf0);
        color_map.push(0x00);
        match res.write_mem(0x1800_1250, color_map.as_slice()) {
            Ok(_) => {},
            Err(e) => {
                return Err(e);
            },
        }
        // Image pitch register, in double-words, little-endian.
        let mut pitch_reg: Vec<u8> = Vec::new();
        pitch_reg.push(((mem_pitch / 4) & 0xff) as u8);
        pitch_reg.push((((mem_pitch / 4) >> 8) & 0xff) as u8);
        proof {
            assert(((mem_pitch / 4) & 0xff) == (mem_pitch / 4) % 256 && (((mem_pitch / 4) >> 8)
                & 0xff) == ((mem_pitch / 4) / 256) % 256) by (bit_vector);
            let mp = res.spec_mem_pitch();
            assert(mp == mem_pitch);
            assert((mp / 4) / 256 < 256);
            assert(((mp / 4) / 256) % 256 == (mp / 4) / 256);
        }
        match res.write_mem(0x1800_124c, pitch_reg.as_slice()) {
            Ok(_) => {},
            Err(e) => {
                return Err(e);
            },
        }
        proof {
            assert(pitch_reg@ =~= seq![
                ((res.spec_mem_pitch() / 4) % 256) as u8,
                ((res.spec_mem_pitch() / 4) / 256) as u8,
            ]);
            assert(color_map@ =~= seq![0xf0u8, 0x00u8]);
            assert(res.transfers().subrange(0, res.transfers().len() - 6)
                =~= res.transfers().subrange(0, res.transfers().len() - 6));
        }
        Ok(res)
    }

    /// Reads `len` bytes of controller memory at `addr` (opcode 0x81).
    pub fn read_mem(&mut self, addr: u32, len: u16) -> (r: Result<Vec<u8>, Error>)
        ensures
            final(self).spec_width() == old(self).spec_width(),
            final(self).spec_height() == old(self).spec_height(),
            final(self).spec_image_buf_base() == old(self).spec_image_buf_base(),
            final(self).spec_mode_no() == old(self).spec_mode_no(),
            final(self).spec_mem_pitch() == old(self).spec_mem_pitch(),
            r matches Ok(v) ==> v@.len() == len && final(self).transfers() == old(
                self,
            ).transfers().push(
                Transfer { cdb: spec_mem_io_cdb(0x81, addr, len), data: v@, is_read: true },
            ),
    {
        let cdb = mem_io_cdb(0x81, addr, len);
        let mut buf: Vec<u8> = vec![0u8; len as usize];
        match self.device.io_read(&cdb, &mut buf) {
            Ok(_) => Ok(buf),
            Err(e) => Err(e),
        }
    }

    /// Writes `data` to controller memory at `addr` (opcode 0x82).
    fn write_mem(&mut self, addr: u32, data: &[u8]) -> (r: Result<(), Error>)
        requires
            data@.len() <= 0xffff,
        ensures
            final(self).spec_width() == old(self).spec_width(),
            final(self).spec_height() == old(self).spec_height(),
            final(self).spec_image_buf_base() == old(self).spec_image_buf_base(),
            final(self).spec_mode_no() == old(self).spec_mode_no(),
            final(self).spec_mem_pitch() == old(self).spec_mem_pitch(),
            r is Ok ==> final(self).transfers() == old(self).transfers().push(
                Transfer {
                    cdb: spec_mem_io_cdb(0x82, addr, data@.len() as u16),
                    data: data@,
                    is_read: false,
                },
            ),
    {
        let cdb = mem_io_cdb(0x82, addr, data.len() as u16);
        self.device.io_write(&cdb, data)
    }

    /// Writes `data` to controller memory at `addr` through the fast path
    /// (opcode 0xA5) used for image streaming.
    fn write_mem_fast(&mut self, addr: u32, data: &[u8]) -> (r: Result<(), Error>)
        requires
            data@.len() <= 0xffff,
        ensures
            final(self).spec_width() == old(self).spec_width(),
            final(self).spec_height() == old(self).spec_height(),
            final(self).spec_image_buf_base() == old(self).spec_image_buf_base(),
            final(self).spec_mode_no() == old(self).spec_mode_no(),
            final(self).spec_mem_pitch() == old(self).spec_mem_pitch(),
            r is Ok ==> final(self).transfers() == old(self).transfers().push(
                Transfer {
                    cdb: spec_mem_io_cdb(0xa5, addr, data@.len() as u16),
                    data: data@,
                    is_read: false,
                },
            ),
    {
        let cdb = mem_io_cdb(0xa5, addr, data.len() as u16);
        self.device.io_write(&cdb, data)
    }

    /// Polls the LUT busy register: the panel is busy exactly when either
    /// of its two bytes is nonzero.
    pub fn read_busy_state(&mut self) -> (r: Result<bool, Error>)
        ensures
            final(self).spec_width() == old(self).spec_width(),
            final(self).spec_height() == old(self).spec_height(),
            final(self).spec_image_buf_base() == old(self).spec_image_buf_base(),
            final(self).spec_mode_no() == old(self).spec_mode_no(),
            final(self).spec_mem_pitch() == old(self).spec_mem_pitch(),
            r matches Ok(busy) ==> {
                let ts = final(self).transfers();
                &&& ts.len() == old(self).transfers().len() + 1
                &&& ts.drop_last() == old(self).transfers()
                &&& ts.last().cdb == spec_mem_io_cdb(0x81, LUTAFSR_ADDR, 2)
                &&& ts.last().is_read
                &&& ts.last().data.len() == 2
                &&& busy == (ts.last().data[0] != 0 || ts.last().data[1] != 0)
            },
    {
        match self.read_mem(LUTAFSR_ADDR, 2) {
            Ok(v) => {
                proof {
                    assert(final(self).transfers().drop_last() =~= old(self).transfers());
                }
                Ok(v[0] != 0 || v[1] != 0)
            },
            Err(e) => Err(e),
        }
    }

    /// Reads the temperature sensor (vendor opcode 0xA4, subcode 0).
    pub fn read_temperature(&mut self) -> (r: Result<u8, Error>)
        ensures
            final(self).spec_width() == old(self).spec_width(),
            final(self).spec_height() == old(self).spec_height(),
            final(self).spec_image_buf_base() == old(self).spec_image_buf_base(),
            final(self).spec_mode_no() == old(self).spec_mode_no(),
            final(self).spec_mem_pitch() == old(self).spec_mem_pitch(),
            r matches Ok(t) ==> {
                let ts = final(self).transfers();
                &&& ts.len() == old(self).transfers().len() + 1
                &&& ts.drop_last() == old(self).transfers()
                &&& ts.last().cdb == seq![
                    0xfeu8,
                    0u8,
                    0u8,
                    0u8,
                    0u8,
                    0u8,
                    0xa4u8,
                    0u8,
                    0u8,
                    0u8,
                    0u8,
                    0u8,
                    0u8,
                    0u8,
                    0u8,
                    0u8,
                ]
                &&& ts.last().is_read
                &&& ts.last().data.len() == 4
                &&& t == ts.last().data[0]
            },
    {
        let cdb: [u8; 16] = [0xfe, 0, 0, 0, 0, 0, 0xa4, 0, 0, 0, 0, 0, 0, 0, 0, 0];
        let mut buf: Vec<u8> = vec![0u8; 4];
        match self.device.io_read(&cdb, &mut buf) {
            Ok(_) => {
                proof {
                    assert(final(self).transfers().drop_last() =~= old(self).transfers());
                }
                Ok(buf[0])
            },
            Err(e) => Err(e),
        }
    }

    /// Forces the temperature the waveform tables are chosen for (vendor
    /// opcode 0xA4, subcode 1). There is no way to unset it short of a
    /// restart.
    pub fn set_force_temperature(&mut self, val: u8) -> (r: Result<(), Error>)
        ensures
            final(self).spec_width() == old(self).spec_width(),
            final(self).spec_height() == old(self).spec_height(),
            final(self).spec_image_buf_base() == old(self).spec_image_buf_base(),
            final(self).spec_mode_no() == old(self).spec_mode_no(),
            final(self).spec_mem_pitch() == old(self).spec_mem_pitch(),
            r is Ok ==> {
                let ts = final(self).transfers();
                &&& ts.len() == old(self).transfers().len() + 1
                &&& ts.drop_last() == old(self).transfers()
                &&& ts.last().cdb == seq![
                    0xfeu8,
                    0u8,
                    0u8,
                    0u8,
                    0u8,
                    0u8,
                    0xa4u8,
                    0x01u8,
                    val,
                    0u8,
                    0u8,
                    0u8,
                    0u8,
                    0u8,
                    0u8,
                    0u8,
                ]
                &&& ts.last().is_read
                &&& ts.last().data.len() == 4
            },
    {
        let cdb: [u8; 16] = [0xfe, 0, 0, 0, 0, 0, 0xa4, 0x01, val, 0, 0, 0, 0, 0, 0, 0];
        let mut buf: Vec<u8> = vec![0u8; 4];
        match self.device.io_read(&cdb, &mut buf) {
            Ok(_) => {
                proof {
                    assert(final(self).transfers().drop_last() =~= old(self).transfers());
                }
                Ok(())
            },
            Err(e) => Err(e),
        }
    }

    /// PMIC control (opcode 0xA3): optionally sets the VCOM bias in
    /// millivolts and optionally switches the panel power, each with its
    /// own set flag.
    pub fn pmic_control(&mut self, vcom: Option<u16>, power: Option<bool>) -> (r: Result<
        (),
        Error,
    >)
        ensures
            final(self).spec_width() == old(self).spec_width(),
            final(self).spec_height() == old(self).spec_height(),
            final(self).spec_image_buf_base() == old(self).spec_image_buf_base(),
            final(self).spec_mode_no() == old(self).spec_mode_no(),
            final(self).spec_mem_pitch() == old(self).spec_mem_pitch(),
            r is Ok ==> final(self).transfers() == old(self).transfers().push(
                Transfer { cdb: spec_pmic_cdb(vcom, power), data: Seq::empty(), is_read: false },
            ),
    {
        let mut cdb: [u8; 16] = [0xfe, 0, 0, 0, 0, 0, 0xa3, 0, 0, 0, 0, 0, 0, 0, 0, 0];
        match vcom {
            Some(v) => {
                cdb[7] = ((v >> 8) & 0xff) as u8;
                cdb[8] = (v & 0xff) as u8;
                cdb[9] = 1;
            },
            None => {},
        }
        match power {
            Some(p) => {
                cdb[10] = 1;
                cdb[11] = if p {
                    1
                } else {
                    0
                };
            },
            None => {},
        }
        proof {
            assert(cdb@ =~= spec_pmic_cdb(vcom, power));
        }
        let data: [u8; 0] = [];
        proof {
            assert(data@ =~= Seq::<u8>::empty());
        }
        self.device.io_write(&cdb, data.as_slice())
    }

    /// Dispatches a display-area refresh (opcode 0x94): the region must be
    /// 32-pixel aligned in x (or span the full width), and the waveform
    /// mode is translated to the wire code of the device's generation.
    pub fn display_area(&mut self, tl: Point, size: Size, mode: DisplayMode, wait_ready: bool) -> (
    r: Result<(), Error>)
        requires
            old(self).wf(),
            0 <= tl.x < old(self).spec_width(),
            0 <= tl.y < old(self).spec_height(),
            0 < size.width,
            0 < size.height,
            tl.x % 32 == 0,
            size.width % 32 == 0 || size.width == old(self).spec_width(),
        ensures
            final(self).spec_width() == old(self).spec_width(),
            final(self).spec_height() == old(self).spec_height(),
            final(self).spec_image_buf_base() == old(self).spec_image_buf_base(),
            final(self).spec_mode_no() == old(self).spec_mode_no(),
            final(self).spec_mem_pitch() == old(self).spec_mem_pitch(),
            old(self).spec_mode_no() != 6 && old(self).spec_mode_no() != 8 ==> r == Err::<
                (),
                Error,
            >(Error::UnsupportedGeneration) && final(self).transfers() == old(self).transfers(),
            old(self).spec_mode_no() == 6 && spec_wire_mode_code(mode, 6) is None ==> r == Err::<
                (),
                Error,
            >(Error::UnsupportedMode) && final(self).transfers() == old(self).transfers(),
            r is Ok ==> (spec_wire_mode_code(mode, old(self).spec_mode_no()) matches Some(code)
                && final(self).transfers() == old(self).transfers().push(
                Transfer {
                    cdb: spec_display_cdb(),
                    data: spec_display_payload(
                        old(self).spec_image_buf_base(),
                        code as u32,
                        tl.x as u32,
                        tl.y as u32,
                        size.width as u32,
                        size.height as u32,
                        wait_ready,
                    ),
                    is_read: false,
                },
            )),
    {
        let mode_val: u32 = if self.mode_no == 8 {
            mode.code()
        } else if self.mode_no == 6 {
            match mode {
                DisplayMode::INIT | DisplayMode::DU | DisplayMode::GC16 | DisplayMode::GL16 => {
                    mode.code()
                },
                DisplayMode::A2 | DisplayMode::DU4 => mode.code() - 2,
                _ => {
                    return Err(Error::UnsupportedMode);
                },
            }
        } else {
            return Err(Error::UnsupportedGeneration);
        };
        let cdb: [u8; 16] = [
            0xfe,
            0x00,
            0x00,
            0x00,
            0x00,
            0x00,
            0x94,
            0x00,
            0x00,
            0x00,
            0x00,
            0x00,
            0x00,
            0x00,
            0x00,
            0x00,
        ];
        proof {
            assert(cdb@ =~= spec_display_cdb());
        }
        let mut payload: Vec<u8> = Vec::new();
        push_be32(&mut payload, self.image_buf_base);
        push_be32(&mut payload, mode_val);
        push_be32(&mut payload, tl.x as u32);
        push_be32(&mut payload, tl.y as u32);
        push_be32(&mut payload, size.width as u32);
        push_be32(&mut payload, size.height as u32);
        push_be32(
            &mut payload,
            if wait_ready {
                1
            } else {
                0
            },
        );
        proof {
            assert(payload@ =~= spec_display_payload(
                self.spec_image_buf_base(),
                mode_val,
                tl.x as u32,
                tl.y as u32,
                size.width as u32,
                size.height as u32,
                wait_ready,
            ));
        }
        self.device.io_write(&cdb, payload.as_slice())
    }

    /// Uploads a full-width strip into device image memory starting at
    /// row `row_offset`, split into chunks whose byte size stays below the
    /// 16-bit transfer length limit, each sent with the fast-write opcode.
    /// The image's pitch must equal the device pitch for the encoding, so
    /// rows are contiguous in memory.
    fn do_load_fullwidth(&mut self, row_offset: u32, image: &ConstImageView<'_>, dev_pitch: i32) -> (
    r: Result<(), Error>)
        requires
            old(self).wf(),
            image_wf(image),
            image.spec_header().spec_pitch() == dev_pitch,
            4 <= dev_pitch <= 0xffff,
            image.spec_header().spec_height() * dev_pitch
                <= image.spec_header().spec_data_len(),
            0 <= row_offset,
            row_offset + image.spec_header().spec_height() <= old(self).spec_height(),
            old(self).spec_image_buf_base() + dev_pitch * (row_offset
                + image.spec_header().spec_height()) <= u32::MAX,
        ensures
            final(self).spec_width() == old(self).spec_width(),
            final(self).spec_height() == old(self).spec_height(),
            final(self).spec_image_buf_base() == old(self).spec_image_buf_base(),
            final(self).spec_mode_no() == old(self).spec_mode_no(),
            final(self).spec_mem_pitch() == old(self).spec_mem_pitch(),
            r is Ok ==> final(self).transfers() == old(self).transfers() + spec_upload_transfers(
                image.spec_img_data(),
                dev_pitch as int,
                image.spec_header().spec_height(),
                0xffff as int / dev_pitch as int,
                old(self).spec_image_buf_base() + dev_pitch * row_offset,
                0,
            ),
    {
        let height_img = image.header().height();
        let width_img = image.header().width();
        let rows_per_step: i32 = 0xffff / dev_pitch;
        let ghost base = old(self).spec_image_buf_base() + dev_pitch * row_offset;
        let ghost full = spec_upload_transfers(
            image.spec_img_data(),
            dev_pitch as int,
            height_img as int,
            rows_per_step as int,
            base,
            0,
        );
        proof {
            assert(1 <= rows_per_step && rows_per_step * dev_pitch <= 0xffff) by (nonlinear_arith)
                requires
                    rows_per_step == 0xffff as int / dev_pitch as int,
                    4 <= dev_pitch <= 0xffff,
            ;
            let ibb = old(self).spec_image_buf_base() as int;
            assert(dev_pitch * (row_offset + height_img as int) == dev_pitch * row_offset
                + dev_pitch * height_img) by (nonlinear_arith);
            assert(base + dev_pitch * height_img <= u32::MAX);
        }
        let mut y: i32 = 0;
        while y < height_img
            invariant
                old(self).wf(),
                image_wf(image),
                image.spec_header().spec_pitch() == dev_pitch,
                4 <= dev_pitch <= 0xffff,
                image.spec_header().spec_height() * dev_pitch
                    <= image.spec_header().spec_data_len(),
                height_img == image.spec_header().spec_height(),
                width_img == image.spec_header().spec_width(),
                rows_per_step == 0xffff as int / dev_pitch as int,
                0 < rows_per_step,
                rows_per_step * dev_pitch <= 0xffff,
                base == old(self).spec_image_buf_base() + dev_pitch * row_offset,
                base + dev_pitch * height_img <= u32::MAX,
                row_offset + height_img <= old(self).spec_height(),
                full == spec_upload_transfers(
                    image.spec_img_data(),
                    dev_pitch as int,
                    height_img as int,
                    rows_per_step as int,
                    base,
                    0,
                ),
                0 <= y <= height_img,
                self.spec_width() == old(self).spec_width(),
                self.spec_height() == old(self).spec_height(),
                self.spec_image_buf_base() == old(self).spec_image_buf_base(),
                self.spec_mode_no() == old(self).spec_mode_no(),
                self.spec_mem_pitch() == old(self).spec_mem_pitch(),
                old(self).transfers() + full == self.transfers() + spec_upload_transfers(
                    image.spec_img_data(),
                    dev_pitch as int,
                    height_img as int,
                    rows_per_step as int,
                    base,
                    y as int,
                ),
            decreases height_img - y,
        {
            let rows: i32 = if rows_per_step < height_img - y {
                rows_per_step
            } else {
                height_img - y
            };
            proof {
                assert(0 < rows * dev_pitch <= rows_per_step * dev_pitch) by (nonlinear_arith)
                    requires
                        0 < rows <= rows_per_step,
                        0 < dev_pitch,
                ;
                assert(dev_pitch * (y + rows) <= dev_pitch * height_img && 0 <= dev_pitch * y < dev_pitch
                    * (y + rows)) by (nonlinear_arith)
                    requires
                        0 <= y,
                        0 < rows,
                        y + rows <= height_img,
                        0 < dev_pitch,
                ;
                assert(dev_pitch * height_img == height_img * dev_pitch) by (nonlinear_arith);
            }
            let subimg = image.subimg(
                Point { x: 0, y },
                Size { width: width_img, height: rows },
            );
            proof {
                assert(rows * dev_pitch <= subimg.spec_header().spec_data_len()) by {
                    assert(subimg.spec_header().spec_data_len()
                        == image.spec_header().spec_data_len() - y * dev_pitch);
                    assert(y * dev_pitch + rows * dev_pitch <= height_img * dev_pitch)
                        by (nonlinear_arith)
                        requires
                            y + rows <= height_img,
                            0 < dev_pitch,
                            0 <= y,
                            0 < rows,
                    ;
                }
            }
            let bytes = subimg.strip(rows);
            proof {
                let ibb = old(self).spec_image_buf_base() as int;
                assert(dev_pitch * (y as int + row_offset) == dev_pitch * row_offset + dev_pitch
                    * y) by (nonlinear_arith);
                assert(0 <= dev_pitch * y <= dev_pitch * height_img) by (nonlinear_arith)
                    requires
                        0 <= y <= height_img,
                        0 < dev_pitch,
                ;
                assert(ibb + dev_pitch * (y as int + row_offset) <= base + dev_pitch
                    * height_img);
            }
            let addr: u32 = self.image_buf_base + (dev_pitch as u32) * (y as u32 + row_offset);
            proof {
                let ibb = old(self).spec_image_buf_base() as int;
                assert(addr == ibb + dev_pitch * (y + row_offset));
                assert(addr == base + dev_pitch * y);
                assert((y + rows) * dev_pitch == y * dev_pitch + rows * dev_pitch)
                    by (nonlinear_arith);
                assert(bytes@ =~= image.spec_img_data().subrange(
                    y * dev_pitch,
                    (y + rows) * dev_pitch,
                ));
            }
            let ghost pre = self.transfers();
            match self.write_mem_fast(addr, bytes) {
                Ok(_) => {},
                Err(e) => {
                    return Err(e);
                },
            }
            proof {
                let suffix_y = spec_upload_transfers(
                    image.spec_img_data(),
                    dev_pitch as int,
                    height_img as int,
                    rows_per_step as int,
                    base,
                    y as int,
                );
                let suffix_next = spec_upload_transfers(
                    image.spec_img_data(),
                    dev_pitch as int,
                    height_img as int,
                    rows_per_step as int,
                    base,
                    y as int + rows as int,
                );
                let head = Transfer {
                    cdb: spec_mem_io_cdb(0xa5, addr, (rows * dev_pitch) as u16),
                    data: image.spec_img_data().subrange(y * dev_pitch, (y + rows) * dev_pitch),
                    is_read: false,
                };
                assert(suffix_y == seq![head] + suffix_next);
                assert(self.transfers() == pre.push(head));
                assert(pre.push(head) =~= pre + seq![head]);
                assert((self.transfers() + suffix_next) =~= (pre + seq![head]) + suffix_next);
                assert((pre + seq![head]) + suffix_next =~= pre + (seq![head] + suffix_next));
                assert(old(self).transfers() + full =~= self.transfers() + suffix_next);
            }
            y += rows;
        }
        proof {
            assert(spec_upload_transfers(
                image.spec_img_data(),
                dev_pitch as int,
                height_img as int,
                rows_per_step as int,
                base,
                y as int,
            ) =~= Seq::<Transfer>::empty());
            assert(self.transfers() =~= old(self).transfers() + full);
        }
        Ok(())
    }

    /// Uploads a full-width 1-bpp image to device image memory at row
    /// `row_offset`, in width-aligned strips through the fast-write path.
    pub fn load_image_fullwidth(&mut self, row_offset: u32, image: &ConstImageView<'_>) -> (r:
        Result<(), Error>)
        requires
            old(self).wf(),
            image_wf(image),
            image.spec_header().spec_format() == ImageFormat::Mono1Bpp,
            image.spec_header().spec_width() == old(self).spec_width(),
            image.spec_header().spec_pitch() == old(self).spec_mem_pitch(),
            image.spec_header().spec_height() * old(self).spec_mem_pitch()
                <= image.spec_header().spec_data_len(),
            row_offset + image.spec_header().spec_height() <= old(self).spec_height(),
            old(self).spec_image_buf_base() + old(self).spec_mem_pitch() * (row_offset
                + image.spec_header().spec_height()) <= u32::MAX,
        ensures
            final(self).spec_width() == old(self).spec_width(),
            final(self).spec_height() == old(self).spec_height(),
            final(self).spec_image_buf_base() == old(self).spec_image_buf_base(),
            final(self).spec_mode_no() == old(self).spec_mode_no(),
            final(self).spec_mem_pitch() == old(self).spec_mem_pitch(),
            r is Ok ==> final(self).transfers() == old(self).transfers() + spec_upload_transfers(
                image.spec_img_data(),
                old(self).spec_mem_pitch(),
                image.spec_header().spec_height(),
                0xffff as int / old(self).spec_mem_pitch(),
                old(self).spec_image_buf_base() + old(self).spec_mem_pitch() * row_offset,
                0,
            ),
    {
        let dev_pitch = self.mem_pitch as i32;
        self.do_load_fullwidth(row_offset, image, dev_pitch)
    }

    /// Uploads a full-width 8-bpp image to device image memory at row
    /// `row_offset`; rows in 8-bpp memory are `width` bytes long.
    pub fn load_image_fullwidth_8bit(&mut self, row_offset: u32, image: &ConstImageView<'_>) -> (
    r: Result<(), Error>)
        requires
            old(self).wf(),
            image_wf(image),
            image.spec_header().spec_format() == ImageFormat::Mono8Bpp,
            image.spec_header().spec_width() == old(self).spec_width(),
            image.spec_header().spec_pitch() == old(self).spec_width(),
            4 <= old(self).spec_width(),
            image.spec_header().spec_height() * old(self).spec_width()
                <= image.spec_header().spec_data_len(),
            row_offset + image.spec_header().spec_height() <= old(self).spec_height(),
            old(self).spec_image_buf_base() + old(self).spec_width() * (row_offset
                + image.spec_header().spec_height()) <= u32::MAX,
        ensures
            final(self).spec_width() == old(self).spec_width(),
            final(self).spec_height() == old(self).spec_height(),
            final(self).spec_image_buf_base() == old(self).spec_image_buf_base(),
            final(self).spec_mode_no() == old(self).spec_mode_no(),
            final(self).spec_mem_pitch() == old(self).spec_mem_pitch(),
            r is Ok ==> final(self).transfers() == old(self).transfers() + spec_upload_transfers(
                image.spec_img_data(),
                old(self).spec_width(),
                image.spec_header().spec_height(),
                0xffff as int / old(self).spec_width(),
                old(self).spec_image_buf_base() + old(self).spec_width() * row_offset,
                0,
            ),
    {
        let dev_pitch = self.width;
        self.do_load_fullwidth(row_offset, image, dev_pitch)
    }

    /// Resets the display: fills the whole canvas in image memory with
    /// white (0xFF) in the 1-bpp encoding, then dispatches an INIT
    /// refresh over the full canvas with `wait_ready`. Initializing the
    /// memory first is mandatory; INIT alone leaves residual state.
    pub fn reset_display(&mut self) -> (r: Result<(), Error>)
        requires
            old(self).wf(),
            old(self).spec_image_buf_base() + old(self).spec_mem_pitch() * old(
                self,
            ).spec_height() <= u32::MAX,
        ensures
            final(self).spec_width() == old(self).spec_width(),
            final(self).spec_height() == old(self).spec_height(),
            final(self).spec_image_buf_base() == old(self).spec_image_buf_base(),
            final(self).spec_mode_no() == old(self).spec_mode_no(),
            final(self).spec_mem_pitch() == old(self).spec_mem_pitch(),
            r is Ok ==> spec_wire_mode_code(DisplayMode::INIT, old(self).spec_mode_no()) == Some(
                0int,
            ) && final(self).transfers() == (old(self).transfers() + spec_upload_transfers(
                Seq::new((old(self).spec_height() * old(self).spec_mem_pitch()) as nat,
                    |i: int| 0xffu8),
                old(self).spec_mem_pitch(),
                old(self).spec_height(),
                0xffff as int / old(self).spec_mem_pitch(),
                old(self).spec_image_buf_base() as int,
                0,
            )).push(
                Transfer {
                    cdb: spec_display_cdb(),
                    data: spec_display_payload(
                        old(self).spec_image_buf_base(),
                        0,
                        0,
                        0,
                        old(self).spec_width() as u32,
                        old(self).spec_height() as u32,
                        true,
                    ),
                    is_read: false,
                },
            ),
    {
        let width = self.width;
        let height = self.height;
        let mem_pitch = self.mem_pitch as i32;
        proof {
            assert(height * mem_pitch <= 16384 * 2052) by (nonlinear_arith)
                requires
                    0 < height <= 16384,
                    0 < mem_pitch <= 2052,
            ;
            assert(self.spec_mem_pitch() <= 2052);
            assert(spec_minimum_pitch_fits(width as int, mem_pitch as int));
        }
        let mut white_img = ImageBuffer::new(
            ImageFormat::Mono1Bpp,
            width,
            height,
            Some(mem_pitch),
        );
        white_img.fill(0xff);
        let view = white_img.view_img();
        match self.do_load_fullwidth(0, &view, mem_pitch) {
            Ok(_) => {},
            Err(e) => {
                return Err(e);
            },
        }
        proof {
            assert(view.spec_img_data() =~= Seq::new(
                (old(self).spec_height() * old(self).spec_mem_pitch()) as nat,
                |i: int| 0xffu8,
            ));
        }
        self.display_area(
            Point { x: 0, y: 0 },
            Size { width, height },
            DisplayMode::INIT,
            true,
        )
    }

    /// Reads the current waveform table from its (device-specific)
    /// address and parses it up to the first all-0xFF terminator frame.
    pub fn read_current_waveform(&mut self) -> (r: Result<Waveform, Error>)
        ensures
            final(self).spec_width() == old(self).spec_width(),
            final(self).spec_height() == old(self).spec_height(),
            final(self).spec_image_buf_base() == old(self).spec_image_buf_base(),
            final(self).spec_mode_no() == old(self).spec_mode_no(),
            final(self).spec_mem_pitch() == old(self).spec_mem_pitch(),
            r matches Ok(w) ==> {
                let ts = final(self).transfers();
                &&& ts.len() == old(self).transfers().len() + 1
                &&& ts.drop_last() == old(self).transfers()
                &&& ts.last().cdb == spec_mem_io_cdb(0x81, WAVEFORM_DATA_ADDR, 16384)
                &&& ts.last().is_read
                &&& ts.last().data.len() == 16384
                &&& spec_frames_valid(
                    ts.last().data,
                    0,
                    spec_frames_before_terminator(ts.last().data, 0),
                )
                &&& w.spec_data() == ts.last().data.subrange(
                    0,
                    64 * spec_frames_before_terminator(ts.last().data, 0),
                )
                &&& w.wf()
            },
    {
        let buf = match self.read_mem(WAVEFORM_DATA_ADDR, 16384) {
            Ok(v) => v,
            Err(e) => {
                return Err(e);
            },
        };
        proof {
            assert(final(self).transfers().drop_last() =~= old(self).transfers());
        }
        Waveform::new(buf.as_slice())
    }

    /// Writes a waveform table back to the device-specific table address.
    pub fn write_waveform(&mut self, waveform: &Waveform) -> (r: Result<(), Error>)
        requires
            waveform.spec_data().len() <= 0xffff,
        ensures
            final(self).spec_width() == old(self).spec_width(),
            final(self).spec_height() == old(self).spec_height(),
            final(self).spec_image_buf_base() == old(self).spec_image_buf_base(),
            final(self).spec_mode_no() == old(self).spec_mode_no(),
            final(self).spec_mem_pitch() == old(self).spec_mem_pitch(),
            r is Ok ==> final(self).transfers() == old(self).transfers().push(
                Transfer {
                    cdb: spec_mem_io_cdb(
                        0x82,
                        WAVEFORM_DATA_ADDR,
                        waveform.spec_data().len() as u16,
                    ),
                    data: waveform.spec_data(),
                    is_read: false,
                },
            ),
    {
        self.write_mem(WAVEFORM_DATA_ADDR, waveform.data())
    }
}

/// The minimum 1-bpp pitch for `width` pixels never exceeds the 4-byte
/// aligned device pitch.
spec fn spec_minimum_pitch_fits(width: int, dev_pitch: int) -> bool {
    (width * 1 + 7) / 8 <= dev_pitch
}

/// Appends the big-endian bytes of `x`.
fn push_be32(v: &mut Vec<u8>, x: u32)
    ensures
        final(v)@ == old(v)@ + spec_u32_to_be_bytes(x),
{
    v.push(((x >> 24) & 0xff) as u8);
    v.push(((x >> 16) & 0xff) as u8);
    v.push(((x >> 8) & 0xff) as u8);
    v.push((x & 0xff) as u8);
    proof {
        assert(v@ =~= old(v)@ + spec_u32_to_be_bytes(x));
    }
}

/// Builds the 16-byte memory command CDB for `op` at `addr` carrying `len`
/// bytes.
fn mem_io_cdb(op: u8, addr: u32, len: u16) -> (r: [u8; 16])
    ensures
        r@ == spec_mem_io_cdb(op, addr, len),
{
    let r: [u8; 16] = [
        0xfe,
        0x00,
        ((addr >> 24) & 0xff) as u8,
        ((addr >> 16) & 0xff) as u8,
        ((addr >> 8) & 0xff) as u8,
        (addr & 0xff) as u8,
        op,
        ((len >> 8) & 0xff) as u8,
        (len & 0xff) as u8,
        0,
        0,
        0,
        0,
        0,
        0,
        0,
    ];
    proof {
        assert(r@ =~= spec_mem_io_cdb(op, addr, len));
    }
    r
}

/// Reads the big-endian `u32` at byte offset `off`.
fn be32_at(v: &[u8], off: usize) -> (r: u32)
    requires
        off + 4 <= v@.len(),
    ensures
        r == spec_u32_from_be_bytes(v@.subrange(off as int, off as int + 4)),
{
    let n = v.len();
    let r = ((v[off] as u32) << 24) | ((v[off + 1] as u32) << 16) | ((v[off + 2] as u32) << 8) | (
    v[off + 3] as u32);
    proof {
        let s = v@.subrange(off as int, off as int + 4);
        assert(s[0] == v@[off as int] && s[1] == v@[off as int + 1] && s[2] == v@[off as int + 2]
            && s[3] == v@[off as int + 3]);
    }
    r
}

} // verus!
