use std::cell::RefCell;
use std::collections::VecDeque;
use std::rc::Rc;

use rabbitink::driver::it8915::{check_and_decode_sysinfo, DisplayMode, MemMode, IT8915};
use rabbitink::driver::scsi::{CbwFramer, Device, DeviceIO};
use rabbitink::driver::serde::{BigEndianU16, BigEndianU32};
use rabbitink::driver::waveform::{index, is_invalid_byte, Action, Waveform};
use rabbitink::error::Error;
use rabbitink::image::{ConstImage, HasImageHeader, ImageBuffer, ImageFormat, Point, Size};

/// A recording transport: every transfer is logged, and reads are answered
/// from a queue (or zero-filled when the queue is empty). The log and the
/// queue are shared handles so tests can inspect and refill them while the
/// driver owns the transport.
#[derive(Clone)]
pub struct MockIo {
    pub log: Rc<RefCell<Vec<(Vec<u8>, Vec<u8>, bool)>>>,
    pub read_queue: Rc<RefCell<VecDeque<Vec<u8>>>>,
    pub fail_next: Rc<RefCell<bool>>,
}

impl MockIo {
    pub fn new() -> MockIo {
        MockIo {
            log: Rc::new(RefCell::new(Vec::new())),
            read_queue: Rc::new(RefCell::new(VecDeque::new())),
            fail_next: Rc::new(RefCell::new(false)),
        }
    }

    pub fn log_len(&self) -> usize {
        self.log.borrow().len()
    }

    pub fn log_at(&self, i: usize) -> (Vec<u8>, Vec<u8>, bool) {
        self.log.borrow()[i].clone()
    }

    pub fn log_last(&self) -> (Vec<u8>, Vec<u8>, bool) {
        self.log.borrow().last().unwrap().clone()
    }

    pub fn push_read(&self, v: Vec<u8>) {
        self.read_queue.borrow_mut().push_back(v);
    }
}

impl DeviceIO for MockIo {
    fn io_write(&mut self, cdb: &[u8; 16], data: &[u8]) -> Result<(), Error> {
        if *self.fail_next.borrow() {
            *self.fail_next.borrow_mut() = false;
            return Err(Error::Transport);
        }
        self.log.borrow_mut().push((cdb.to_vec(), data.to_vec(), false));
        Ok(())
    }

    fn io_read(&mut self, cdb: &[u8; 16], data: &mut Vec<u8>) -> Result<(), Error> {
        if *self.fail_next.borrow() {
            *self.fail_next.borrow_mut() = false;
            return Err(Error::Transport);
        }
        let n = data.len();
        let answer = match self.read_queue.borrow_mut().pop_front() {
            Some(mut a) => {
                a.resize(n, 0);
                a
            },
            None => vec![0u8; n],
        };
        data.clear();
        data.extend_from_slice(&answer);
        self.log.borrow_mut().push((cdb.to_vec(), answer, true));
        Ok(())
    }
}

pub fn inquiry_answer() -> Vec<u8> {
    let mut v = vec![0u8; 40];
    v[8..36].copy_from_slice(b"Generic Storage RamDisc 1.00");
    v
}

pub fn sysinfo_answer(width: u32, height: u32, base: u32, mode_no: u32) -> Vec<u8> {
    let mut v = vec![0u8; 112];
    v[16..20].copy_from_slice(&width.to_be_bytes());
    v[20..24].copy_from_slice(&height.to_be_bytes());
    v[28..32].copy_from_slice(&base.to_be_bytes());
    v[36..40].copy_from_slice(&mode_no.to_be_bytes());
    v
}

pub fn open_device(width: u32, height: u32, base: u32, mode_no: u32) -> (IT8915<MockIo>, MockIo) {
    let io = MockIo::new();
    io.push_read(inquiry_answer());
    io.push_read(sysinfo_answer(width, height, base, mode_no));
    io.push_read(vec![0, 0, 0, 0]);
    (IT8915::open(Device::new(io.clone())).unwrap(), io)
}

#[test]
fn test_open_and_setup() {
    let (dev, _io) = open_device(400, 300, 0x0011_2233, 8);
    let size = dev.get_screen_size();
    assert_eq!(size, Size::new(400, 300));
    assert_eq!(dev.get_mem_pitch(MemMode::Mem1bpp), 52);
    assert_eq!(dev.get_mem_pitch(MemMode::Mem8bpp), 400);
    assert_eq!(dev.get_mode_no(), 8);
    assert_eq!(dev.get_image_buf_base(), 0x0011_2233);
}

#[test]
fn test_open_rejects_wrong_vendor() {
    let io = MockIo::new();
    io.push_read(vec![0u8; 40]);
    assert_eq!(IT8915::open(Device::new(io)).err(), Some(Error::UnexpectedDevice));
}

#[test]
fn test_display_area_gen8() {
    let (mut dev, io) = open_device(400, 300, 0x1000, 8);
    dev.display_area(Point::new(0, 10), Size::new(400, 5), DisplayMode::A2, false).unwrap();
    // The display write is a 16-byte CDB with opcode 0x94 and a 28-byte
    // big-endian payload: base, code, x, y, w, h, wait.
    let (cdb, data, is_read) = io.log_last();
    assert!(!is_read);
    assert_eq!(cdb[6], 0x94);
    assert_eq!(data.len(), 28);
    assert_eq!(&data[0..4], &0x1000u32.to_be_bytes());
    assert_eq!(&data[4..8], &6u32.to_be_bytes()); // A2 on generation 8
    assert_eq!(&data[8..12], &0u32.to_be_bytes());
    assert_eq!(&data[12..16], &10u32.to_be_bytes());
    assert_eq!(&data[16..20], &400u32.to_be_bytes());
    assert_eq!(&data[20..24], &5u32.to_be_bytes());
    assert_eq!(&data[24..28], &0u32.to_be_bytes());
}

#[test]
fn test_display_area_gen6_translation() {
    let (mut dev, io) = open_device(400, 300, 0x1000, 6);
    dev.display_area(Point::new(0, 0), Size::new(400, 300), DisplayMode::A2, true).unwrap();
    let (_, data, _) = io.log_last();
    assert_eq!(&data[4..8], &4u32.to_be_bytes()); // A2 is emitted as 6 - 2
    assert_eq!(&data[24..28], &1u32.to_be_bytes());

    let before = io.log_len();
    let r = dev.display_area(Point::new(0, 0), Size::new(400, 300), DisplayMode::GLR16, false);
    assert_eq!(r.err(), Some(Error::UnsupportedMode));
    assert_eq!(io.log_len(), before);
}

#[test]
fn test_open_rejects_unknown_generation() {
    // Protocol errors surface at startup: a matching device of a mode
    // generation other than 6 or 8 is refused before any state is set up.
    let io = MockIo::new();
    io.push_read(inquiry_answer());
    io.push_read(sysinfo_answer(400, 300, 0x1000, 7));
    assert_eq!(IT8915::open(Device::new(io)).err(), Some(Error::UnsupportedGeneration));
}

#[test]
fn test_check_and_decode_sysinfo() {
    let inq = inquiry_answer();
    let si = sysinfo_answer(400, 300, 0x1234, 8);
    assert_eq!(check_and_decode_sysinfo(&inq, &si), Ok((400, 300, 0x1234, 8)));
    assert_eq!(check_and_decode_sysinfo(&vec![0u8; 40], &si), Err(Error::UnexpectedDevice));
    assert_eq!(
        check_and_decode_sysinfo(&inq, &sysinfo_answer(0, 300, 0, 8)),
        Err(Error::UnexpectedDevice)
    );
    assert_eq!(
        check_and_decode_sysinfo(&inq, &sysinfo_answer(400, 20000, 0, 8)),
        Err(Error::UnexpectedDevice)
    );
    assert_eq!(
        check_and_decode_sysinfo(&inq, &sysinfo_answer(400, 300, 0, 7)),
        Err(Error::UnsupportedGeneration)
    );
    assert_eq!(check_and_decode_sysinfo(&inq, &sysinfo_answer(400, 300, 0, 6)), Ok((400, 300, 0, 6)));
}

#[test]
fn test_load_image_fullwidth_upload_bound() {
    let (mut dev, io) = open_device(400, 300, 0x2000, 8);
    let img = ImageBuffer::new(ImageFormat::Mono1Bpp, 400, 300, Some(52));
    let before = io.log_len();
    dev.load_image_fullwidth(7, &img.view_img()).unwrap();
    // 52 * 300 = 15600 bytes fit one fast-write chunk below 65535.
    assert_eq!(io.log_len(), before + 1);
    let (cdb, data, is_read) = io.log_last();
    assert!(!is_read);
    assert_eq!(cdb[6], 0xa5);
    assert_eq!(data.len(), 52 * 300);
    // Address: base + mem_pitch * row_offset.
    assert_eq!(&cdb[2..6], &(0x2000u32 + 52 * 7).to_be_bytes());
    // Transfer length field.
    assert_eq!(&cdb[7..9], &(15600u16).to_be_bytes());
}

#[test]
fn test_load_image_fullwidth_chunking() {
    // A canvas wide enough that one strip exceeds the 16-bit limit:
    // mem_pitch 260 at width 2080; 65535 / 260 = 252 rows per chunk.
    let (mut dev, io) = open_device(2080, 600, 0x2000, 8);
    let img = ImageBuffer::new(ImageFormat::Mono1Bpp, 2080, 600, Some(260));
    let before = io.log_len();
    dev.load_image_fullwidth(0, &img.view_img()).unwrap();
    assert_eq!(io.log_len(), before + 3); // 252 + 252 + 96 rows
    let mut total = 0;
    for i in before..io.log_len() {
        total += io.log_at(i).1.len();
    }
    assert_eq!(total, 260 * 600);
    assert_eq!(io.log_at(before).1.len(), 260 * 252);
    assert_eq!(io.log_at(before + 2).1.len(), 260 * 96);
    assert_eq!(&io.log_at(before + 1).0[2..6], &(0x2000u32 + 260 * 252).to_be_bytes());
}

#[test]
fn test_read_busy_state() {
    let (mut dev, io) = open_device(400, 300, 0x1000, 8);
    io.push_read(vec![0, 0]);
    assert_eq!(dev.read_busy_state().unwrap(), false);
    io.push_read(vec![1, 0]);
    assert_eq!(dev.read_busy_state().unwrap(), true);
    io.push_read(vec![0, 3]);
    assert_eq!(dev.read_busy_state().unwrap(), true);
}

#[test]
fn test_pmic_control() {
    let (mut dev, io) = open_device(400, 300, 0x1000, 8);
    dev.pmic_control(Some(0x1234), Some(true)).unwrap();
    let (cdb, data, _) = io.log_last();
    assert_eq!(cdb[6], 0xa3);
    assert_eq!(cdb[7], 0x12);
    assert_eq!(cdb[8], 0x34);
    assert_eq!(cdb[9], 1); // vcom set
    assert_eq!(cdb[10], 1); // power set
    assert_eq!(cdb[11], 1); // power on
    assert_eq!(data.len(), 0);

    dev.pmic_control(None, None).unwrap();
    let (cdb, _, _) = io.log_last();
    assert_eq!(&cdb[7..12], &[0, 0, 0, 0, 0]);
}

#[test]
fn test_big_endian_fields() {
    let v = BigEndianU32::from_u32(0xdead_beef);
    assert_eq!(v.val(), 0xdead_beef);
    let b = BigEndianU32::from_bytes([0x12, 0x34, 0x56, 0x78]);
    assert_eq!(b.val(), 0x1234_5678);
    let s = BigEndianU16::from_u16(0xabcd);
    assert_eq!(s.val(), 0xabcd);
    let t = BigEndianU16::from_bytes([0x03, 0xe8]);
    assert_eq!(t.val(), 1000);
}

#[test]
fn test_waveform_parse_and_edit() {
    // Two valid frames, then an all-0xFF terminator, then junk.
    let mut data = vec![0u8; 64 * 4];
    for b in data[128..192].iter_mut() {
        *b = 0xff;
    }
    data[192] = 0x55;
    let mut wf = Waveform::new(&data).unwrap();
    assert_eq!(wf.frame_count(), 2);
    assert_eq!(wf.data().len(), 128);
    assert_eq!(wf.get(3, 7), vec![Action::Keep, Action::Keep]);

    wf.set(3, 7, &[Action::Up, Action::Down]);
    assert_eq!(wf.get(3, 7), vec![Action::Up, Action::Down]);
    // A neighbouring entry stays untouched.
    assert_eq!(wf.get(3, 6), vec![Action::Keep, Action::Keep]);

    assert_eq!(index(0, 15), 0);
    assert_eq!(index(1, 15), 16);
    assert_eq!(index(3, 7), 3 * 16 + 8);
}

#[test]
fn test_waveform_rejects_reserved_lanes() {
    // A 2-bit lane of 3 in the first frame is rejected.
    let mut data = vec![0u8; 64 * 2];
    data[10] = 0b0000_0011;
    for b in data[64..128].iter_mut() {
        *b = 0xff;
    }
    assert_eq!(Waveform::new(&data).err(), Some(Error::InvalidWaveform));
    assert!(is_invalid_byte(0b1100_0000));
    assert!(is_invalid_byte(0b0011_0000));
    assert!(!is_invalid_byte(0b1001_0110));
}

#[test]
fn test_cbw_tag_monotonicity() {
    let mut framer = CbwFramer::new();
    let cdb = [0x12u8; 16];
    let cbw0 = framer.pack_cbw_and_cdb(&cdb, 512, true);
    assert_eq!(cbw0.len(), 31);
    assert_eq!(&cbw0[0..4], b"USBC");
    assert_eq!(&cbw0[4..8], &0u32.to_le_bytes());
    assert_eq!(&cbw0[8..12], &512u32.to_le_bytes());
    assert_eq!(cbw0[12], 0x80);
    assert_eq!(cbw0[13], 0);
    assert_eq!(cbw0[14], 16);
    assert_eq!(&cbw0[15..31], &cdb);

    // Status with the matching tag advances the tag by exactly one.
    let mut csw = vec![0u8; 13];
    csw[4..8].copy_from_slice(&0u32.to_le_bytes());
    framer.check_status(&csw).unwrap();
    let cbw1 = framer.pack_cbw_and_cdb(&cdb, 0, false);
    assert_eq!(&cbw1[4..8], &1u32.to_le_bytes());
    assert_eq!(cbw1[12], 0x00);

    // A mismatched status is refused and leaves the tag alone.
    let mut bad = vec![0u8; 13];
    bad[4..8].copy_from_slice(&7u32.to_le_bytes());
    assert_eq!(framer.check_status(&bad).err(), Some(Error::Transport));
    let cbw2 = framer.pack_cbw_and_cdb(&cdb, 0, false);
    assert_eq!(&cbw2[4..8], &1u32.to_le_bytes());
}

#[test]
fn test_transport_error_propagates() {
    let (mut dev, io) = open_device(400, 300, 0x1000, 8);
    *io.fail_next.borrow_mut() = true;
    assert_eq!(dev.read_busy_state().err(), Some(Error::Transport));
    assert!(Error::FrameNotReady.is_transient());
    assert!(!Error::Transport.is_transient());
}

#[test]
fn test_temperature_commands() {
    let (mut dev, io) = open_device(400, 300, 0x1000, 8);
    io.push_read(vec![27, 0, 0, 0]);
    assert_eq!(dev.read_temperature().unwrap(), 27);
    let (cdb, _, is_read) = io.log_last();
    assert!(is_read);
    assert_eq!(cdb[6], 0xa4);
    assert_eq!(cdb[7], 0x00);

    dev.set_force_temperature(31).unwrap();
    let (cdb, _, _) = io.log_last();
    assert_eq!(cdb[6], 0xa4);
    assert_eq!(cdb[7], 0x01);
    assert_eq!(cdb[8], 31);
}

#[test]
fn test_waveform_over_device() {
    let (mut dev, io) = open_device(400, 300, 0x1000, 8);
    // One zero frame (all lanes Keep), then the all-0xFF terminator.
    let mut table = vec![0u8; 16384];
    for b in table[64..128].iter_mut() {
        *b = 0xff;
    }
    io.push_read(table);
    let wf = dev.read_current_waveform().unwrap();
    assert_eq!(wf.frame_count(), 1);
    let (cdb, _, is_read) = io.log_last();
    assert!(is_read);
    assert_eq!(cdb[6], 0x81);
    assert_eq!(&cdb[2..6], &0x0009_c3e8u32.to_be_bytes());

    dev.write_waveform(&wf).unwrap();
    let (cdb, data, is_read) = io.log_last();
    assert!(!is_read);
    assert_eq!(cdb[6], 0x82);
    assert_eq!(data.len(), 64);
}

#[test]
fn test_reset_display_sequence() {
    let (mut dev, io) = open_device(400, 300, 0x3000, 8);
    let before = io.log_len();
    dev.reset_display().unwrap();
    // A white fill of the whole canvas, then a blocking INIT dispatch.
    let (cdb, data, _) = io.log_at(before);
    assert_eq!(cdb[6], 0xa5);
    assert_eq!(data.len(), 52 * 300);
    assert!(data.iter().all(|b| *b == 0xff));
    let (cdb, data, _) = io.log_last();
    assert_eq!(cdb[6], 0x94);
    assert_eq!(&data[4..8], &0u32.to_be_bytes()); // INIT
    assert_eq!(&data[24..28], &1u32.to_be_bytes()); // wait_ready
}
