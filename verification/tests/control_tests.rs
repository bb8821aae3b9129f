use std::cell::RefCell;
use std::collections::VecDeque;
use std::rc::Rc;

use rabbitink::control::{
    ControlOptions, Controller, RowSet, FULL_REFRESH_IDLE_DELAY_MS, FULL_REFRESH_MIN_INTERVAL_MS,
};
use rabbitink::driver::it8915::{DisplayMode, IT8915};
use rabbitink::driver::scsi::{Device, DeviceIO};
use rabbitink::error::Error;
use rabbitink::image::{Image, Size};
use rabbitink::imgproc::Rotation;
use rabbitink::run_mode::RunMode;
use rabbitink::source::Source;

/// A recording transport shared with the test through handles.
#[derive(Clone)]
struct MockIo {
    log: Rc<RefCell<Vec<(Vec<u8>, Vec<u8>, bool)>>>,
    read_queue: Rc<RefCell<VecDeque<Vec<u8>>>>,
}

impl MockIo {
    fn new() -> MockIo {
        MockIo {
            log: Rc::new(RefCell::new(Vec::new())),
            read_queue: Rc::new(RefCell::new(VecDeque::new())),
        }
    }

    fn log_len(&self) -> usize {
        self.log.borrow().len()
    }

    fn log_at(&self, i: usize) -> (Vec<u8>, Vec<u8>, bool) {
        self.log.borrow()[i].clone()
    }

    fn push_read(&self, v: Vec<u8>) {
        self.read_queue.borrow_mut().push_back(v);
    }
}

impl DeviceIO for MockIo {
    fn io_write(&mut self, cdb: &[u8; 16], data: &[u8]) -> Result<(), Error> {
        self.log.borrow_mut().push((cdb.to_vec(), data.to_vec(), false));
        Ok(())
    }

    fn io_read(&mut self, cdb: &[u8; 16], data: &mut Vec<u8>) -> Result<(), Error> {
        let n = data.len();
        let answer = match self.read_queue.borrow_mut().pop_front() {
            Some(mut a) => {
                a.resize(n, 0);
                a
            },
            None => vec![0u8; n],
        };
        data.clear();
        data.extend_from_slice(&answer);
        self.log.borrow_mut().push((cdb.to_vec(), answer, true));
        Ok(())
    }
}

/// A capture source that hands out queued gray frames (one byte per pixel,
/// expanded to BGRA), and reports "frame not ready" when the queue runs
/// dry.
#[derive(Clone)]
struct QueueSource {
    width: i32,
    height: i32,
    frames: Rc<RefCell<VecDeque<Vec<u8>>>>,
}

impl QueueSource {
    fn new(width: i32, height: i32) -> QueueSource {
        QueueSource { width, height, frames: Rc::new(RefCell::new(VecDeque::new())) }
    }

    fn push_gray_frame(&self, gray: &[u8]) {
        assert_eq!(gray.len(), (self.width * self.height) as usize);
        self.frames.borrow_mut().push_back(gray.to_vec());
    }
}

impl Source for QueueSource {
    fn frame_size(&self) -> Size {
        Size::new(self.width, self.height)
    }

    fn get_frame(&mut self) -> Result<rabbitink::image::ImageBuffer, Error> {
        let gray = match self.frames.borrow_mut().pop_front() {
            Some(f) => f,
            None => {
                return Err(Error::FrameNotReady);
            },
        };
        let mut img = rabbitink::image::ImageBuffer::new(
            rabbitink::image::ImageFormat::BGRA,
            self.width,
            self.height,
            None,
        );
        for (i, g) in gray.iter().enumerate() {
            img.set_byte(4 * i, *g);
            img.set_byte(4 * i + 1, *g);
            img.set_byte(4 * i + 2, *g);
            img.set_byte(4 * i + 3, 0xff);
        }
        Ok(img)
    }
}

const WIDTH: i32 = 64;
const HEIGHT: i32 = 128;
const MEM_PITCH: usize = 8;

fn make_controller(mode: RunMode) -> (Controller<MockIo, QueueSource>, MockIo, QueueSource) {
    let io = MockIo::new();
    let mut inquiry = vec![0u8; 40];
    inquiry[8..36].copy_from_slice(b"Generic Storage RamDisc 1.00");
    io.push_read(inquiry);
    let mut sysinfo = vec![0u8; 112];
    sysinfo[16..20].copy_from_slice(&(WIDTH as u32).to_be_bytes());
    sysinfo[20..24].copy_from_slice(&(HEIGHT as u32).to_be_bytes());
    sysinfo[28..32].copy_from_slice(&0x4000u32.to_be_bytes());
    sysinfo[36..40].copy_from_slice(&8u32.to_be_bytes());
    io.push_read(sysinfo);
    io.push_read(vec![0, 0, 0, 0]);
    let dev = IT8915::open(Device::new(io.clone())).unwrap();
    let source = QueueSource::new(WIDTH, HEIGHT);
    let ctrl = Controller::new(
        dev,
        source.clone(),
        ControlOptions { driver_poll_ready_interval_ms: 1, source_poll_interval_ms: 10 },
        Rotation::NoRotation,
        mode,
    )
    .unwrap();
    (ctrl, io, source)
}

fn display_entries(io: &MockIo, from: usize) -> Vec<Vec<u8>> {
    let mut out = Vec::new();
    for i in from..io.log_len() {
        let (cdb, data, is_read) = io.log_at(i);
        if !is_read && cdb[6] == 0x94 {
            out.push(data);
        }
    }
    out
}

fn upload_bytes(io: &MockIo, from: usize) -> usize {
    let mut total = 0;
    for i in from..io.log_len() {
        let (cdb, data, is_read) = io.log_at(i);
        if !is_read && cdb[6] == 0xa5 {
            total += data.len();
        }
    }
    total
}

#[test]
fn test_tiny_edit_partial_refresh() {
    // An all-white canvas, then one changed row: the upload is exactly one
    // row of device memory, and the dispatch is a fast A2 refresh of that
    // single row.
    let (mut ctrl, io, source) = make_controller(RunMode::Mono(
        rabbitink::imgproc::DitheringMethod::Bayers4,
    ));
    source.push_gray_frame(&vec![0xffu8; (WIDTH * HEIGHT) as usize]);
    ctrl.load_frame().unwrap();
    assert!(ctrl.need_display());
    ctrl.do_display_nonblock().unwrap();
    assert!(!ctrl.need_display());

    // Frame two differs only in row 100.
    let mut frame = vec![0xffu8; (WIDTH * HEIGHT) as usize];
    for x in 0..8 {
        frame[(100 * WIDTH + x) as usize] = 0x00;
    }
    source.push_gray_frame(&frame);
    let mark = io.log_len();
    ctrl.load_frame().unwrap();
    assert_eq!(upload_bytes(&io, mark), MEM_PITCH); // one row times mem pitch

    io.push_read(vec![0, 0]); // panel idle
    assert!(ctrl.poll_display_ready().unwrap());
    let mark2 = io.log_len();
    let mode = ctrl.do_display_nonblock().unwrap();
    assert_eq!(mode, DisplayMode::A2);
    let displays = display_entries(&io, mark2);
    assert_eq!(displays.len(), 1);
    let d = &displays[0];
    assert_eq!(&d[8..12], &0u32.to_be_bytes()); // x
    assert_eq!(&d[12..16], &100u32.to_be_bytes()); // y
    assert_eq!(&d[16..20], &(WIDTH as u32).to_be_bytes()); // w
    assert_eq!(&d[20..24], &1u32.to_be_bytes()); // h
}

#[test]
fn test_large_change_uses_slow_mode() {
    // Changing the top half of the canvas crosses the bucketized
    // threshold, so the slow waveform is chosen.
    let (mut ctrl, io, source) = make_controller(RunMode::Mono(
        rabbitink::imgproc::DitheringMethod::Bayers4,
    ));
    source.push_gray_frame(&vec![0xffu8; (WIDTH * HEIGHT) as usize]);
    ctrl.load_frame().unwrap();
    ctrl.do_display_nonblock().unwrap();

    let mut frame = vec![0xffu8; (WIDTH * HEIGHT) as usize];
    for i in 0..(WIDTH * 64) as usize {
        frame[i] = 0x00;
    }
    source.push_gray_frame(&frame);
    ctrl.load_frame().unwrap();
    io.push_read(vec![0, 0]);
    ctrl.poll_display_ready().unwrap();
    // Rows 0..64 cover two 40-row buckets: 80 >= 128 / 2.
    assert_eq!(ctrl.do_display_nonblock().unwrap(), DisplayMode::DU);
}

#[test]
fn test_identical_frame_is_not_uploaded() {
    let (mut ctrl, io, source) = make_controller(RunMode::Mono(
        rabbitink::imgproc::DitheringMethod::Bayers4,
    ));
    let frame = vec![0x80u8; (WIDTH * HEIGHT) as usize];
    source.push_gray_frame(&frame);
    ctrl.load_frame().unwrap();
    ctrl.do_display_nonblock().unwrap();

    source.push_gray_frame(&frame);
    let mark = io.log_len();
    ctrl.load_frame().unwrap();
    assert_eq!(io.log_len(), mark); // no transfer at all
    assert!(!ctrl.need_display());
}

#[test]
fn test_frame_not_ready_is_transient() {
    let (mut ctrl, _io, _source) = make_controller(RunMode::Mono(
        rabbitink::imgproc::DitheringMethod::Bayers4,
    ));
    let e = ctrl.load_frame().err().unwrap();
    assert_eq!(e, Error::FrameNotReady);
    assert!(e.is_transient());
}

#[test]
fn test_overlap_detection() {
    let (mut ctrl, io, source) = make_controller(RunMode::Mono(
        rabbitink::imgproc::DitheringMethod::Bayers4,
    ));
    source.push_gray_frame(&vec![0xffu8; (WIDTH * HEIGHT) as usize]);
    ctrl.load_frame().unwrap();
    // Dispatch rows 0..128; they are now displaying.
    ctrl.do_display_nonblock().unwrap();

    // A new dirty band inside the displaying range must not be dispatched.
    let mut frame = vec![0xffu8; (WIDTH * HEIGHT) as usize];
    frame[(100 * WIDTH) as usize] = 0;
    source.push_gray_frame(&frame);
    ctrl.load_frame().unwrap();
    io.push_read(vec![1, 0]); // still busy
    assert!(!ctrl.poll_display_ready().unwrap());
    assert!(!ctrl.can_display_nonoverlapping());

    // Once the panel reports idle the displaying set clears and the band
    // can go out.
    io.push_read(vec![0, 0]);
    assert!(ctrl.poll_display_ready().unwrap());
    ctrl.do_display_nonblock().unwrap();
}

#[test]
fn test_full_refresh_policy() {
    // Idle full refresh fires exactly once (and only when no full refresh
    // happened since the last change), and a reload within the minimum
    // interval of a fresh full refresh stays quiet.
    let (mut ctrl, io, source) = make_controller(RunMode::Mono(
        rabbitink::imgproc::DitheringMethod::Bayers4,
    ));
    source.push_gray_frame(&vec![0xffu8; (WIDTH * HEIGHT) as usize]);
    ctrl.load_frame().unwrap();
    ctrl.do_display_nonblock().unwrap();

    // Below the idle delay: no refresh. Above it: refresh once.
    assert!(!ctrl.should_full_refresh(false, FULL_REFRESH_IDLE_DELAY_MS));
    assert!(ctrl.should_full_refresh(false, FULL_REFRESH_IDLE_DELAY_MS + 1));
    let mark = io.log_len();
    ctrl.do_display_full_refresh_block().unwrap();
    let displays = display_entries(&io, mark);
    assert_eq!(displays.len(), 1);
    assert_eq!(&displays[0][4..8], &2u32.to_be_bytes()); // GC16
    assert_eq!(&displays[0][24..28], &1u32.to_be_bytes()); // wait_ready

    // Now fully refreshed: a later idle tick does not fire again.
    assert!(!ctrl.should_full_refresh(false, FULL_REFRESH_IDLE_DELAY_MS + 1));
    // A reload right after the refresh is deferred...
    assert!(!ctrl.should_full_refresh(true, FULL_REFRESH_MIN_INTERVAL_MS));
    // ...but honoured once the minimum interval has passed.
    assert!(ctrl.should_full_refresh(true, FULL_REFRESH_MIN_INTERVAL_MS + 1));
}

#[test]
fn test_switch_run_mode_reloads_canvas() {
    let (mut ctrl, _io, source) = make_controller(RunMode::Mono(
        rabbitink::imgproc::DitheringMethod::Bayers4,
    ));
    source.push_gray_frame(&vec![0x30u8; (WIDTH * HEIGHT) as usize]);
    ctrl.load_frame().unwrap();
    ctrl.do_display_nonblock().unwrap();

    ctrl.switch_run_mode(RunMode::Gray).unwrap();
    assert_eq!(ctrl.current_run_mode(), RunMode::Gray);

    // The first gray frame after the switch reloads every row.
    source.push_gray_frame(&vec![0x30u8; (WIDTH * HEIGHT) as usize]);
    ctrl.load_frame().unwrap();
    assert!(ctrl.need_display());
}

#[test]
fn test_gray_mode_uploads_full_width_rows() {
    let (mut ctrl, io, source) = make_controller(RunMode::Gray);
    source.push_gray_frame(&vec![0x80u8; (WIDTH * HEIGHT) as usize]);
    let mark = io.log_len();
    ctrl.load_frame().unwrap();
    // The whole canvas is new: height * width bytes of 8-bpp memory.
    assert_eq!(upload_bytes(&io, mark), (WIDTH * HEIGHT) as usize);
    assert_eq!(ctrl.do_display_nonblock().unwrap(), DisplayMode::GL16);
}

#[test]
fn test_mono_force_8bpp_uploads_unpacked_rows() {
    let (mut ctrl, io, source) = make_controller(RunMode::MonoForce8bpp(
        rabbitink::imgproc::DitheringMethod::NoDithering,
    ));
    source.push_gray_frame(&vec![0xffu8; (WIDTH * HEIGHT) as usize]);
    ctrl.load_frame().unwrap();
    ctrl.do_display_nonblock().unwrap();

    let mut frame = vec![0xffu8; (WIDTH * HEIGHT) as usize];
    frame[(50 * WIDTH) as usize] = 0;
    frame[(52 * WIDTH + 5) as usize] = 0;
    source.push_gray_frame(&frame);
    let mark = io.log_len();
    ctrl.load_frame().unwrap();
    // Rows 50..=52 as unpacked 8-bpp: 3 rows of `width` bytes each.
    assert_eq!(upload_bytes(&io, mark), (3 * WIDTH) as usize);
}

#[test]
fn test_row_set_basics() {
    let mut s = RowSet::new(10);
    assert!(s.is_empty());
    s.insert(7);
    s.insert(3);
    assert!(!s.is_empty());
    assert_eq!(s.first(), 3);
    assert_eq!(s.last(), 7);
    assert!(s.contains(3) && s.contains(7) && !s.contains(5));
    assert!(s.all_outside(4, 7));
    assert!(!s.all_outside(3, 7));
    s.insert_range(2, 5);
    assert_eq!(s.first(), 2);
    let other = {
        let mut o = RowSet::new(10);
        o.insert(9);
        o
    };
    let merged = RowSet::union_of(&s, &other);
    assert_eq!(merged.last(), 9);
    s.clear();
    assert!(s.is_empty());
}

#[test]
fn test_expanded_count_buckets() {
    let mut s = RowSet::new(128);
    s.insert(0);
    s.insert(1);
    s.insert(100);
    // Rows 0 and 1 share one 40-row bucket; row 100 sits in another.
    assert_eq!(s.expanded_count(40), 80);
}
