//! The refresh scheduler: row-level dirty tracking against the frame last
//! committed to the device, minimal strip uploads, overlap-safe partial
//! refreshes with waveform selection, and the full-refresh policy.

use crate::driver::it8915::{spec_wire_mode_code, DisplayMode, MemMode, IT8915};
use crate::driver::scsi::DeviceIO;
use crate::error::Error;
use crate::image::{bytes_equal, image_wf, ConstImage, HasImageHeader, ImageBuffer, ImageFormat,
    Point, Size};
use crate::imgproc::{DitheringMethod, MonoImgproc, MonoImgprocOptions, Rotation};
use crate::run_mode::RunMode;
use crate::source::Source;
use vstd::prelude::*;

verus! {

/// Number of true entries of a boolean sequence.
pub open spec fn spec_count_true(s: Seq<bool>) -> int
    decreases s.len(),
{
    if s.len() == 0 {
        0
    } else {
        spec_count_true(s.drop_last()) + (if s.last() {
            1int
        } else {
            0int
        })
    }
}

/// An ordered set of row indices below a fixed capacity, stored as a
/// bitmap.
pub struct RowSet {
    bits: Vec<bool>,
}

impl RowSet {
    pub closed spec fn spec_bits(&self) -> Seq<bool> {
        self.bits@
    }

    /// Number of row slots (the canvas height).
    pub open spec fn spec_capacity(&self) -> int {
        self.spec_bits().len() as int
    }

    /// Whether row `i` is in the set.
    pub open spec fn spec_contains(&self, i: int) -> bool {
        0 <= i < self.spec_capacity() && self.spec_bits()[i]
    }

    /// The set of rows held.
    pub open spec fn spec_set(&self) -> Set<int> {
        Set::new(|i: int| self.spec_contains(i))
    }

    /// An empty set over `capacity` row slots.
    pub fn new(capacity: usize) -> (r: RowSet)
        ensures
            r.spec_capacity() == capacity,
            forall|i: int| !r.spec_contains(i),
    {
        RowSet { bits: vec![false; capacity] }
    }

    pub fn capacity(&self) -> (r: usize)
        ensures
            r == self.spec_capacity(),
    {
        self.bits.len()
    }

    pub fn contains(&self, i: i32) -> (r: bool)
        requires
            0 <= i < self.spec_capacity(),
        ensures
            r == self.spec_contains(i as int),
    {
        self.bits[i as usize]
    }

    pub fn is_empty(&self) -> (r: bool)
        ensures
            r == (forall|i: int| !self.spec_contains(i)),
    {
        let n = self.bits.len();
        let mut i: usize = 0;
        while i < n
            invariant
                n == self.spec_bits().len(),
                0 <= i <= n,
                forall|j: int| 0 <= j < i ==> !self.spec_bits()[j],
            decreases n - i,
        {
            if self.bits[i] {
                proof {
                    assert(self.spec_contains(i as int));
                }
                return false;
            }
            i += 1;
        }
        true
    }

    /// Adds row `i`.
    pub fn insert(&mut self, i: i32)
        requires
            0 <= i < old(self).spec_capacity(),
        ensures
            final(self).spec_bits() == old(self).spec_bits().update(i as int, true),
            final(self).spec_capacity() == old(self).spec_capacity(),
            forall|j: int| final(self).spec_contains(j) <==> (old(self).spec_contains(j) || j
                == i),
    {
        self.bits[i as usize] = true;
    }

    /// The union of two row sets of equal capacity.
    pub fn union_of(a: &RowSet, b: &RowSet) -> (r: RowSet)
        requires
            a.spec_capacity() == b.spec_capacity(),
        ensures
            r.spec_capacity() == a.spec_capacity(),
            forall|j: int| r.spec_contains(j) <==> (a.spec_contains(j) || b.spec_contains(j)),
    {
        let n = a.bits.len();
        let mut out: Vec<bool> = Vec::new();
        let mut i: usize = 0;
        while i < n
            invariant
                n == a.spec_bits().len(),
                b.spec_capacity() == n,
                0 <= i <= n,
                out@.len() == i,
                forall|j: int| 0 <= j < i ==> out@[j] == (a.spec_bits()[j] || b.spec_bits()[j]),
            decreases n - i,
        {
            out.push(a.bits[i] || b.bits[i]);
            i += 1;
        }
        RowSet { bits: out }
    }

    /// Adds every row of `lo .. hi`.
    pub fn insert_range(&mut self, lo: i32, hi: i32)
        requires
            0 <= lo <= hi <= old(self).spec_capacity(),
        ensures
            final(self).spec_capacity() == old(self).spec_capacity(),
            forall|j: int| final(self).spec_contains(j) <==> (old(self).spec_contains(j) || (lo
                <= j < hi)),
    {
        let mut i: i32 = lo;
        while i < hi
            invariant
                0 <= lo <= i <= hi <= self.spec_capacity(),
                self.spec_capacity() == old(self).spec_capacity(),
                forall|j: int| self.spec_contains(j) <==> (old(self).spec_contains(j) || (lo <= j
                    < i)),
            decreases hi - i,
        {
            self.insert(i);
            i += 1;
        }
    }

    /// Removes every row.
    pub fn clear(&mut self)
        ensures
            final(self).spec_capacity() == old(self).spec_capacity(),
            forall|j: int| !final(self).spec_contains(j),
    {
        let n = self.bits.len();
        let mut i: usize = 0;
        while i < n
            invariant
                n == self.spec_bits().len(),
                self.spec_bits().len() == old(self).spec_bits().len(),
                0 <= i <= n,
                forall|j: int| 0 <= j < i ==> !self.spec_bits()[j],
            decreases n - i,
        {
            self.bits[i] = false;
            i += 1;
        }
    }

    /// The smallest row in the set.
    pub fn first(&self) -> (r: i32)
        requires
            exists|i: int| self.spec_contains(i),
            self.spec_capacity() <= i32::MAX,
        ensures
            self.spec_contains(r as int),
            forall|j: int| self.spec_contains(j) ==> r <= j,
    {
        let n = self.bits.len();
        let mut i: usize = 0;
        while i < n
            invariant
                n == self.spec_bits().len(),
                n <= i32::MAX,
                0 <= i <= n,
                forall|j: int| 0 <= j < i ==> !self.spec_bits()[j],
            decreases n - i,
        {
            if self.bits[i] {
                return i as i32;
            }
            i += 1;
        }
        proof {
            let w = choose|i: int| self.spec_contains(i);
            assert(!self.spec_bits()[w]);
            assert(false);
        }
        0
    }

    /// The largest row in the set.
    pub fn last(&self) -> (r: i32)
        requires
            exists|i: int| self.spec_contains(i),
            self.spec_capacity() <= i32::MAX,
        ensures
            self.spec_contains(r as int),
            forall|j: int| self.spec_contains(j) ==> j <= r,
    {
        let n = self.bits.len();
        let mut i: usize = n;
        while i > 0
            invariant
                n == self.spec_bits().len(),
                n <= i32::MAX,
                0 <= i <= n,
                forall|j: int| i <= j < n ==> !self.spec_bits()[j],
            decreases i,
        {
            i = i - 1;
            if self.bits[i] {
                return i as i32;
            }
        }
        proof {
            let w = choose|i: int| self.spec_contains(i);
            assert(!self.spec_bits()[w]);
            assert(false);
        }
        0
    }

    /// Whether every row of the set lies outside `lo .. hi`.
    pub fn all_outside(&self, lo: i32, hi: i32) -> (r: bool)
        requires
            0 <= lo,
            hi <= self.spec_capacity(),
        ensures
            r == (forall|j: int| lo <= j < hi ==> !self.spec_contains(j)),
    {
        let mut i: i32 = lo;
        while i < hi
            invariant
                0 <= lo <= i,
                lo <= hi ==> i <= hi,
                hi <= self.spec_capacity(),
                forall|j: int| lo <= j < i ==> !self.spec_contains(j),
            decreases hi - i,
        {
            if self.bits[i as usize] {
                proof {
                    assert(self.spec_contains(i as int));
                }
                return false;
            }
            i += 1;
        }
        true
    }

    /// The bucketized row count: the number of distinct
    /// `bucket`-row-high bands that contain at least one set row, times
    /// the band height.
    pub fn expanded_count(&self, bucket: i32) -> (r: i32)
        requires
            0 < bucket <= 16384,
            self.spec_capacity() <= 16384,
        ensures
            r == spec_count_true(spec_bucket_bits(self.spec_bits(), bucket as int)) * bucket,
    {
        let n = self.bits.len() as i32;
        let n_buckets = (n + bucket - 1) / bucket;
        let mut buckets: Vec<bool> = Vec::new();
        let mut b: i32 = 0;
        while b < n_buckets
            invariant
                n == self.spec_bits().len(),
                0 < bucket <= 16384,
                n <= 16384,
                n_buckets as int == (n as int + bucket as int - 1) / (bucket as int),
                0 <= b <= n_buckets,
                buckets@.len() == b,
                forall|k: int| 0 <= k < b ==> buckets@[k] == spec_bucket_bits(
                    self.spec_bits(),
                    bucket as int,
                )[k],
            decreases n_buckets - b,
        {
            proof {
                assert(0 <= b * bucket && b * bucket <= (n_buckets - 1) * bucket)
                    by (nonlinear_arith)
                    requires
                        0 <= b <= n_buckets - 1,
                        0 < bucket,
                ;
                assert((n_buckets - 1) * bucket <= n) by (nonlinear_arith)
                    requires
                        n_buckets as int == (n as int + bucket as int - 1) / (bucket as int),
                        0 < bucket,
                        0 <= n,
                ;
            }
            let lo = b * bucket;
            let hi = if lo + bucket < n {
                lo + bucket
            } else {
                n
            };
            let mut any = false;
            let mut r: i32 = lo;
            while r < hi
                invariant
                    n == self.spec_bits().len(),
                    0 <= lo <= r,
                    lo <= hi ==> r <= hi,
                    hi <= n,
                    any == exists|j: int| lo <= j < r && self.spec_bits()[j],
                decreases hi - r,
            {
                if self.bits[r as usize] {
                    any = true;
                }
                r += 1;
            }
            proof {
                let bi = b as int;
                let bu = bucket as int;
                let ni = n as int;
                assert((bi + 1) * bu == bi * bu + bu) by (nonlinear_arith);
                let cap = if (bi + 1) * bu < ni {
                    (bi + 1) * bu
                } else {
                    ni
                };
                assert(hi as int == cap);
                assert(any == spec_bucket_bits(self.spec_bits(), bucket as int)[b as int]);
            }
            buckets.push(any);
            b += 1;
        }
        proof {
            assert(buckets@ =~= spec_bucket_bits(self.spec_bits(), bucket as int));
        }
        let cnt = count_true(buckets.as_slice());
        proof {
            lemma_count_true_bound(buckets@);
            assert((n_buckets as int) * (bucket as int) <= n as int + bucket as int - 1)
                by (nonlinear_arith)
                requires
                    n_buckets as int == (n as int + bucket as int - 1) / (bucket as int),
                    0 < bucket,
                    0 <= n,
            ;
            assert((cnt as int) * (bucket as int) <= (n_buckets as int) * (bucket as int))
                by (nonlinear_arith)
                requires
                    cnt <= n_buckets,
                    0 < bucket,
            ;
        }
        (cnt as i32) * bucket
    }
}

/// Band `b` of the bucketization holds a set row: some row in
/// `b * bucket .. min((b + 1) * bucket, len)` is set.
pub open spec fn spec_bucket_bits(bits: Seq<bool>, bucket: int) -> Seq<bool>
    recommends
        0 < bucket,
{
    Seq::new(((bits.len() + bucket - 1) / bucket) as nat,
        |b: int|
            exists|r: int|
                b * bucket <= r < (if (b + 1) * bucket < bits.len() {
                    (b + 1) * bucket
                } else {
                    bits.len() as int
                }) && bits[r],
    )
}

/// The count of true entries is at most the length.
proof fn lemma_count_true_bound(s: Seq<bool>)
    ensures
        0 <= spec_count_true(s) <= s.len(),
    decreases s.len(),
{
    if s.len() > 0 {
        lemma_count_true_bound(s.drop_last());
    }
}

/// Counts the true entries of a slice.
fn count_true(s: &[bool]) -> (r: usize)
    requires
        s@.len() <= usize::MAX,
    ensures
        r == spec_count_true(s@),
{
    let n = s.len();
    let mut cnt: usize = 0;
    let mut i: usize = 0;
    while i < n
        invariant
            n == s@.len(),
            0 <= i <= n,
            cnt == spec_count_true(s@.subrange(0, i as int)),
            cnt <= i,
        decreases n - i,
    {
        proof {
            assert(s@.subrange(0, i as int + 1).drop_last() =~= s@.subrange(0, i as int));
            assert(s@.subrange(0, i as int + 1).last() == s@[i as int]);
            lemma_count_true_bound(s@.subrange(0, i as int));
        }
        if s[i] {
            cnt += 1;
        }
        i += 1;
    }
    proof {
        assert(s@.subrange(0, n as int) =~= s@);
    }
    cnt
}

/// A valid row band: ordered, nonnegative bounds.
pub open spec fn spec_row_band(rmin: int, rmax: int) -> bool {
    0 <= rmin <= rmax
}

/// Whether two frames of identical geometry are bit-identical: no row's
/// pitch span differs.
pub open spec fn spec_frames_identical(a: Seq<u8>, b: Seq<u8>, pitch: int, height: int) -> bool {
    forall|y: int| 0 <= y < height ==> !spec_rows_differ(a, b, pitch, y)
}

/// Whether the `pitch`-byte spans of row `y` differ between two frames.
pub open spec fn spec_rows_differ(a: Seq<u8>, b: Seq<u8>, pitch: int, y: int) -> bool {
    a.subrange(y * pitch, (y + 1) * pitch) != b.subrange(y * pitch, (y + 1) * pitch)
}

/// Row-diff completeness at the pixel level, 1-bpp frames: when the ink
/// bit of any pixel of row `y` differs between two frames of identical
/// geometry, the row's byte spans differ, so the row lands in the result
/// of `compute_modified_row_range`.
pub proof fn lemma_row_diff_completeness_mono1(
    a: Seq<u8>,
    b: Seq<u8>,
    h: crate::image::ImageHeader,
    x: int,
    y: int,
)
    requires
        h.valid(),
        h.spec_format() == ImageFormat::Mono1Bpp,
        0 <= x < h.spec_width(),
        0 <= y < h.spec_height(),
        h.spec_height() * h.spec_pitch() <= a.len(),
        a.len() == b.len(),
        crate::image::convert::spec_mono_ink(a, h, x, y) != crate::image::convert::spec_mono_ink(
            b,
            h,
            x,
            y,
        ),
    ensures
        spec_rows_differ(a, b, h.spec_pitch(), y),
{
    let p = h.spec_pitch();
    let idx = y * p + x / 8;
    assert(a[idx] != b[idx]);
    assert(x / 8 < (h.spec_width() + 7) / 8);
    crate::image::lemma_row_bounds(h, y);
    assert((y + 1) * p == y * p + p) by (nonlinear_arith);
    if spec_rows_differ(a, b, p, y) {
    } else {
        assert(a.subrange(y * p, (y + 1) * p) == b.subrange(y * p, (y + 1) * p));
        assert(a.subrange(y * p, (y + 1) * p)[x / 8] == b.subrange(y * p, (y + 1) * p)[x / 8]);
        assert(false);
    }
}

/// Row-diff completeness at the pixel level, 8-bpp frames: when any pixel
/// byte of row `y` differs between two frames of identical geometry, the
/// row's byte spans differ.
pub proof fn lemma_row_diff_completeness_mono8(
    a: Seq<u8>,
    b: Seq<u8>,
    h: crate::image::ImageHeader,
    x: int,
    y: int,
)
    requires
        h.valid(),
        h.spec_format() == ImageFormat::Mono8Bpp,
        0 <= x < h.spec_width(),
        0 <= y < h.spec_height(),
        h.spec_height() * h.spec_pitch() <= a.len(),
        a.len() == b.len(),
        a[y * h.spec_pitch() + x] != b[y * h.spec_pitch() + x],
    ensures
        spec_rows_differ(a, b, h.spec_pitch(), y),
{
    let p = h.spec_pitch();
    crate::image::lemma_row_bounds(h, y);
    assert((y + 1) * p == y * p + p) by (nonlinear_arith);
    assert(x < p);
    if spec_rows_differ(a, b, p, y) {
    } else {
        assert(a.subrange(y * p, (y + 1) * p) == b.subrange(y * p, (y + 1) * p));
        assert(a.subrange(y * p, (y + 1) * p)[x] == b.subrange(y * p, (y + 1) * p)[x]);
        assert(false);
    }
}

/// The rows on which two frames of identical geometry differ, comparing
/// each row's full pitch span byte for byte. Sound and complete: a row is
/// in the result exactly when some byte of its span differs.
pub fn compute_modified_row_range(m_a: &ImageBuffer, m_b: &ImageBuffer) -> (r: RowSet)
    requires
        image_wf(m_a),
        image_wf(m_b),
        m_a.spec_header().spec_height() == m_b.spec_header().spec_height(),
        m_a.spec_header().spec_pitch() == m_b.spec_header().spec_pitch(),
        m_a.spec_header().spec_height() * m_a.spec_header().spec_pitch()
            <= m_a.spec_header().spec_data_len(),
        m_b.spec_header().spec_height() * m_b.spec_header().spec_pitch()
            <= m_b.spec_header().spec_data_len(),
    ensures
        r.spec_capacity() == m_a.spec_header().spec_height(),
        forall|y: int| #[trigger] r.spec_contains(y) <==> (0 <= y
            < m_a.spec_header().spec_height() && spec_rows_differ(
            m_a.spec_img_data(),
            m_b.spec_img_data(),
            m_a.spec_header().spec_pitch(),
            y,
        )),
{
    let height = m_a.header().height();
    let pitch = m_a.header().pitch();
    let mut r = RowSet::new(height as usize);
    let va = m_a.view_img();
    let vb = m_b.view_img();
    let mut y: i32 = 0;
    while y < height
        invariant
            image_wf(m_a),
            image_wf(m_b),
            image_wf(&va),
            image_wf(&vb),
            va.spec_header() == m_a.spec_header(),
            vb.spec_header() == m_b.spec_header(),
            va.spec_img_data() == m_a.spec_img_data(),
            vb.spec_img_data() == m_b.spec_img_data(),
            height == m_a.spec_header().spec_height(),
            height == m_b.spec_header().spec_height(),
            pitch == m_a.spec_header().spec_pitch(),
            pitch == m_b.spec_header().spec_pitch(),
            m_a.spec_header().spec_height() * pitch <= m_a.spec_header().spec_data_len(),
            m_b.spec_header().spec_height() * pitch <= m_b.spec_header().spec_data_len(),
            0 <= y <= height,
            r.spec_capacity() == height,
            forall|yy: int| #[trigger] r.spec_contains(yy) <==> (0 <= yy < y && spec_rows_differ(
                m_a.spec_img_data(),
                m_b.spec_img_data(),
                pitch as int,
                yy,
            )),
        decreases height - y,
    {
        proof {
            assert((y + 1) * pitch <= height * pitch) by (nonlinear_arith)
                requires
                    y + 1 <= height,
                    0 < pitch,
            ;
        }
        let row_a = va.row_padded(y);
        let row_b = vb.row_padded(y);
        if !bytes_equal(row_a, row_b) {
            r.insert(y);
        }
        y += 1;
    }
    r
}


/// Compile-time scheduler tunables, in milliseconds and pixels.
pub const FULL_REFRESH_IDLE_DELAY_MS: u64 = 120000;

pub const FULL_REFRESH_MIN_INTERVAL_MS: u64 = 3000;

pub const TEXT_ROW_TYPICAL_HEIGHT: i32 = 40;

/// Poll intervals the embedding loop sleeps for, in milliseconds.
pub struct ControlOptions {
    pub driver_poll_ready_interval_ms: u64,
    pub source_poll_interval_ms: u64,
}

/// The full-refresh decision of one scheduler tick: an explicit reload
/// refreshes now unless one just happened and the minimum interval has not
/// passed; an idle canvas refreshes once after the idle delay.
pub open spec fn spec_should_full_refresh(
    reload_requested: bool,
    full_refreshed: bool,
    need_display: bool,
    elapsed_since_update_ms: u64,
) -> bool {
    (reload_requested && (!full_refreshed || elapsed_since_update_ms
        > FULL_REFRESH_MIN_INTERVAL_MS)) || (!need_display && elapsed_since_update_ms
        > FULL_REFRESH_IDLE_DELAY_MS && !full_refreshed)
}

/// Idle full refresh happens exactly once: an idle tick past the delay
/// refreshes when no full refresh has happened since the last change, and
/// right after a full refresh (which sets `full_refreshed`) a further idle
/// tick without a reload request never refreshes again.
pub proof fn lemma_idle_full_refresh_once(elapsed1: u64, elapsed2: u64)
    requires
        elapsed1 > FULL_REFRESH_IDLE_DELAY_MS,
    ensures
        spec_should_full_refresh(false, false, false, elapsed1),
        !spec_should_full_refresh(false, true, false, elapsed2),
{
}

/// Reload minimum interval: of two reload requests, the second within
/// `FULL_REFRESH_MIN_INTERVAL_MS` of the first (with nothing else changing
/// the canvas in between), only the first refreshes.
pub proof fn lemma_reload_min_interval(elapsed2: u64)
    requires
        elapsed2 <= FULL_REFRESH_MIN_INTERVAL_MS,
    ensures
        // A reload refreshes whenever no full refresh is pending credit.
        forall|e: u64| spec_should_full_refresh(true, false, false, e),
        // The follow-up reload right after that refresh stays quiet.
        !spec_should_full_refresh(true, true, false, elapsed2),
{
}

/// The refresh scheduler: owns the panel controller and the capture
/// source, tracks which rows differ from the frame last committed to
/// device memory and which rows the panel is still refreshing, and
/// dispatches partial and full refreshes.
pub struct Controller<D: DeviceIO, S: Source> {
    driver: IT8915<D>,
    source: S,
    options: ControlOptions,
    rotation: Rotation,
    current_run_mode: RunMode,
    mono_imgproc: MonoImgproc,
    mono_loaded_frame: Option<ImageBuffer>,
    gray_loaded_frame: Option<ImageBuffer>,
    dirty_rows: RowSet,
    displaying_rows: RowSet,
    full_refreshed: bool,
}

impl<D: DeviceIO, S: Source> Controller<D, S> {
    pub closed spec fn transfers(&self) -> Seq<crate::driver::scsi::Transfer> {
        self.driver.transfers()
    }

    pub closed spec fn spec_width(&self) -> int {
        self.driver.spec_width()
    }

    pub closed spec fn spec_height(&self) -> int {
        self.driver.spec_height()
    }

    pub closed spec fn spec_mem_pitch(&self) -> int {
        self.driver.spec_mem_pitch()
    }

    pub closed spec fn spec_run_mode(&self) -> RunMode {
        self.current_run_mode
    }

    pub closed spec fn spec_full_refreshed(&self) -> bool {
        self.full_refreshed
    }

    pub closed spec fn spec_dirty(&self) -> Set<int> {
        self.dirty_rows.spec_set()
    }

    pub closed spec fn spec_displaying(&self) -> Set<int> {
        self.displaying_rows.spec_set()
    }

    pub closed spec fn spec_dirty_contains(&self, y: int) -> bool {
        self.dirty_rows.spec_contains(y)
    }

    pub closed spec fn spec_displaying_contains(&self, y: int) -> bool {
        self.displaying_rows.spec_contains(y)
    }

    /// The frame last committed to device memory for the mono modes.
    pub closed spec fn spec_mono_loaded(&self) -> Option<ImageBuffer> {
        self.mono_loaded_frame
    }

    /// The frame last committed to device memory for the gray mode.
    pub closed spec fn spec_gray_loaded(&self) -> Option<ImageBuffer> {
        self.gray_loaded_frame
    }

    /// Geometry, loaded-frame and row-set invariants the scheduler keeps.
    pub open spec fn wf(&self) -> bool {
        &&& self.driver_wf()
        &&& self.dirty_rows_wf()
    }

    pub closed spec fn driver_wf(&self) -> bool {
        &&& self.driver.wf()
        &&& 4 <= self.driver.spec_width()
        &&& self.driver.spec_image_buf_base() + self.driver.spec_mem_pitch()
            * self.driver.spec_height() <= u32::MAX
        &&& self.driver.spec_image_buf_base() + self.driver.spec_width()
            * self.driver.spec_height() <= u32::MAX
        &&& self.source.spec_frame_size() == self.rotation.spec_rotated_size(
            Size {
                width: self.driver.spec_width() as i32,
                height: self.driver.spec_height() as i32,
            },
        )
        &&& self.mono_imgproc.spec_opts() == (MonoImgprocOptions {
            input_size: self.source.spec_frame_size(),
            output_size: Size {
                width: self.driver.spec_width() as i32,
                height: self.driver.spec_height() as i32,
            },
            rotation: self.rotation,
        })
    }

    pub closed spec fn dirty_rows_wf(&self) -> bool {
        &&& self.dirty_rows.spec_capacity() == self.driver.spec_height()
        &&& self.displaying_rows.spec_capacity() == self.driver.spec_height()
        &&& (self.mono_loaded_frame matches Some(f) ==> image_wf(&f)
            && f.spec_header().spec_format() == ImageFormat::Mono1Bpp
            && f.spec_header().spec_width() == self.driver.spec_width()
            && f.spec_header().spec_height() == self.driver.spec_height()
            && f.spec_header().spec_pitch() == self.driver.spec_mem_pitch()
            && f.spec_header().spec_height() * f.spec_header().spec_pitch()
            <= f.spec_header().spec_data_len())
        &&& (self.gray_loaded_frame matches Some(f) ==> image_wf(&f)
            && f.spec_header().spec_format() == ImageFormat::Mono8Bpp
            && f.spec_header().spec_width() == self.driver.spec_width()
            && f.spec_header().spec_height() == self.driver.spec_height()
            && f.spec_header().spec_pitch() == self.driver.spec_width()
            && f.spec_header().spec_height() * f.spec_header().spec_pitch()
            <= f.spec_header().spec_data_len())
    }

    /// Builds a scheduler over an opened controller and a capture source.
    /// The source's frame size must be the panel canvas as seen through
    /// the configured rotation, and the device's image memory window must
    /// fit 32-bit addressing.
    pub fn new(
        driver: IT8915<D>,
        source: S,
        options: ControlOptions,
        rotation: Rotation,
        run_mode: RunMode,
    ) -> (r: Result<Controller<D, S>, Error>)
        requires
            driver.wf(),
        ensures
            // Accepted exactly when the canvas is wide enough, the source
            // produces frames of the rotated canvas size, and the whole
            // image memory window is 32-bit addressable.
            r is Ok <==> (4 <= driver.spec_width() && source.spec_frame_size()
                == rotation.spec_rotated_size(
                Size {
                    width: driver.spec_width() as i32,
                    height: driver.spec_height() as i32,
                },
            ) && driver.spec_image_buf_base() + driver.spec_mem_pitch() * driver.spec_height()
                <= u32::MAX && driver.spec_image_buf_base() + driver.spec_width()
                * driver.spec_height() <= u32::MAX),
            driver.spec_width() < 4 ==> r == Err::<Controller<D, S>, Error>(
                Error::UnexpectedDevice,
            ),
            4 <= driver.spec_width() && source.spec_frame_size() != rotation.spec_rotated_size(
                Size {
                    width: driver.spec_width() as i32,
                    height: driver.spec_height() as i32,
                },
            ) ==> r == Err::<Controller<D, S>, Error>(Error::SourceSizeMismatch),
            r is Err ==> r == Err::<Controller<D, S>, Error>(Error::UnexpectedDevice) || r
                == Err::<Controller<D, S>, Error>(Error::SourceSizeMismatch),
            r matches Ok(c) ==> {
                &&& c.wf()
                &&& c.spec_run_mode() == run_mode
                &&& !c.spec_full_refreshed()
                &&& forall|j: int| !c.spec_dirty_contains(j)
                &&& forall|j: int| !c.spec_displaying_contains(j)
                &&& c.spec_mono_loaded() is None
                &&& c.spec_gray_loaded() is None
                &&& c.transfers() == driver.transfers()
            },
    {
        let size = driver.get_screen_size();
        if size.width < 4 {
            return Err(Error::UnexpectedDevice);
        }
        let src_size = source.frame_size();
        let want = rotation.rotated_size(size);
        if src_size.width != want.width || src_size.height != want.height {
            return Err(Error::SourceSizeMismatch);
        }
        // The whole image memory window must be addressable.
        let base = driver_base_u64(&driver);
        let mp = driver.get_mem_pitch(MemMode::Mem1bpp) as u64;
        let w8 = driver.get_mem_pitch(MemMode::Mem8bpp) as u64;
        let h = size.height as u64;
        proof {
            assert(driver.spec_mem_pitch() <= 2052);
            assert(mp * h <= 2052 * 16384 && w8 * h <= 16384 * 16384) by (nonlinear_arith)
                requires
                    0 <= mp <= 2052,
                    0 <= w8 <= 16384,
                    0 <= h <= 16384,
            ;
        }
        if base + mp * h > 0xffff_ffff || base + w8 * h > 0xffff_ffff {
            return Err(Error::UnexpectedDevice);
        }
        let height_us = size.height as usize;
        let mono_imgproc = MonoImgproc::new(
            MonoImgprocOptions { input_size: src_size, output_size: size, rotation },
        );
        Ok(
            Controller {
                driver,
                source,
                options,
                rotation,
                current_run_mode: run_mode,
                mono_imgproc,
                mono_loaded_frame: None,
                gray_loaded_frame: None,
                dirty_rows: RowSet::new(height_us),
                displaying_rows: RowSet::new(height_us),
                full_refreshed: false,
            },
        )
    }

    pub fn source_poll_interval_ms(&self) -> u64 {
        self.options.source_poll_interval_ms
    }

    pub fn driver_poll_ready_interval_ms(&self) -> u64 {
        self.options.driver_poll_ready_interval_ms
    }

    pub fn current_run_mode(&self) -> (r: RunMode)
        ensures
            r == self.spec_run_mode(),
    {
        self.current_run_mode
    }

    /// Whether any row is dirty, i.e. a partial refresh is owed.
    pub fn need_display(&self) -> (r: bool)
        ensures
            r == !(forall|j: int| !self.spec_dirty_contains(j)),
    {
        proof {
            assert(forall|j: int| self.spec_dirty_contains(j)
                == self.dirty_rows.spec_contains(j));
        }
        !self.dirty_rows.is_empty()
    }

    /// The full-refresh decision for this tick; see
    /// `spec_should_full_refresh`.
    pub fn should_full_refresh(&self, reload_requested: bool, elapsed_since_update_ms: u64) -> (
    r: bool)
        ensures
            r == spec_should_full_refresh(
                reload_requested,
                self.spec_full_refreshed(),
                !(forall|j: int| !self.spec_dirty_contains(j)),
                elapsed_since_update_ms,
            ),
    {
        let need_display = self.need_display();
        (reload_requested && (!self.full_refreshed || elapsed_since_update_ms
            > FULL_REFRESH_MIN_INTERVAL_MS)) || (!need_display && elapsed_since_update_ms
            > FULL_REFRESH_IDLE_DELAY_MS && !self.full_refreshed)
    }

    /// Whether the pending dirty band can be displayed without touching a
    /// row the panel is still refreshing: both sets nonempty, and no
    /// displaying row lies between two dirty rows (inclusive).
    pub fn can_display_nonoverlapping(&self) -> (r: bool)
        requires
            self.wf(),
        ensures
            r == (!(forall|j: int| !self.spec_dirty_contains(j)) && !(forall|j: int|
                !self.spec_displaying_contains(j)) && (forall|d: int, y1: int, y2: int|
                self.spec_displaying_contains(d) && self.spec_dirty_contains(y1)
                    && self.spec_dirty_contains(y2) ==> !(y1 <= d <= y2))),
    {
        proof {
            assert(forall|j: int| self.spec_dirty_contains(j)
                == self.dirty_rows.spec_contains(j));
            assert(forall|j: int| self.spec_displaying_contains(j)
                == self.displaying_rows.spec_contains(j));
        }
        if self.dirty_rows.is_empty() || self.displaying_rows.is_empty() {
            return false;
        }
        let dirty_start = self.dirty_rows.first();
        let dirty_end = self.dirty_rows.last() + 1;
        let r = self.displaying_rows.all_outside(dirty_start, dirty_end);
        proof {
            if r {
                assert forall|d: int, y1: int, y2: int|
                    self.spec_displaying_contains(d) && self.spec_dirty_contains(y1)
                        && self.spec_dirty_contains(y2) implies !(y1 <= d <= y2) by {
                    assert(d < dirty_start || d >= dirty_end);
                    assert(dirty_start <= y1 && y2 <= dirty_end - 1);
                }
            } else {
                let w = choose|j: int|
                    dirty_start <= j < dirty_end && self.spec_displaying_contains(j);
                assert(self.spec_displaying_contains(w) && self.spec_dirty_contains(
                    dirty_start as int,
                ) && self.spec_dirty_contains(dirty_end as int - 1) && dirty_start as int <= w
                    <= dirty_end as int - 1);
            }
        }
        r
    }

    /// The dirty-row bitmap, for stating the waveform-selection rule.
    pub closed spec fn spec_dirty_bits(&self) -> Seq<bool> {
        self.dirty_rows.spec_bits()
    }

    /// The device's waveform mode generation.
    pub closed spec fn spec_generation(&self) -> int {
        self.driver.spec_mode_no()
    }

    /// Polls the panel's busy register once, without blocking. When the
    /// panel reports idle, the displaying-row set is cleared.
    pub fn poll_display_ready(&mut self) -> (r: Result<bool, Error>)
        requires
            old(self).wf(),
        ensures
            final(self).wf(),
            final(self).spec_width() == old(self).spec_width(),
            final(self).spec_height() == old(self).spec_height(),
            final(self).spec_mem_pitch() == old(self).spec_mem_pitch(),
            final(self).spec_generation() == old(self).spec_generation(),
            final(self).spec_run_mode() == old(self).spec_run_mode(),
            final(self).spec_full_refreshed() == old(self).spec_full_refreshed(),
            final(self).spec_mono_loaded() == old(self).spec_mono_loaded(),
            final(self).spec_gray_loaded() == old(self).spec_gray_loaded(),
            forall|j: int| final(self).spec_dirty_contains(j) == old(self).spec_dirty_contains(
                j,
            ),
            r matches Ok(ready) ==> {
                let ts = final(self).transfers();
                &&& ts.len() == old(self).transfers().len() + 1
                &&& ts.drop_last() == old(self).transfers()
                &&& ts.last().cdb == crate::driver::it8915::spec_mem_io_cdb(
                    0x81,
                    crate::driver::it8915::LUTAFSR_ADDR,
                    2,
                )
                &&& ts.last().is_read && ts.last().data.len() == 2
                &&& ready == (ts.last().data[0] == 0 && ts.last().data[1] == 0)
                &&& (ready ==> forall|j: int| !final(self).spec_displaying_contains(j))
                &&& (!ready ==> forall|j: int| final(self).spec_displaying_contains(j) == old(
                    self,
                ).spec_displaying_contains(j))
            },
            r is Err ==> forall|j: int| final(self).spec_displaying_contains(j) == old(
                self,
            ).spec_displaying_contains(j),
    {
        let busy = match self.driver.read_busy_state() {
            Ok(b) => b,
            Err(e) => {
                return Err(e);
            },
        };
        if busy {
            return Ok(false);
        }
        self.displaying_rows.clear();
        Ok(true)
    }

    /// Dispatches the pending dirty band as one partial refresh without
    /// waiting: the waveform is the run mode's fast one when the
    /// bucketized dirty-row count is strictly below half the canvas
    /// height, else the slow one; the refreshed band is recorded as
    /// displaying, the dirty set cleared, and the full-refreshed mark
    /// dropped. The caller must have established that no displaying row
    /// lies inside the dirty band.
    #[verifier::rlimit(100)]
    pub fn do_display_nonblock(&mut self) -> (r: Result<DisplayMode, Error>)
        requires
            old(self).wf(),
            exists|j: int| old(self).spec_dirty_contains(j),
            // Overlap avoidance: no row still being refreshed lies within
            // the band about to be dispatched.
            forall|d: int, y1: int, y2: int|
                old(self).spec_displaying_contains(d) && old(self).spec_dirty_contains(y1) && old(
                    self,
                ).spec_dirty_contains(y2) ==> !(y1 <= d <= y2),
        ensures
            final(self).wf(),
            final(self).spec_width() == old(self).spec_width(),
            final(self).spec_height() == old(self).spec_height(),
            final(self).spec_mem_pitch() == old(self).spec_mem_pitch(),
            final(self).spec_generation() == old(self).spec_generation(),
            final(self).spec_run_mode() == old(self).spec_run_mode(),
            final(self).spec_mono_loaded() == old(self).spec_mono_loaded(),
            final(self).spec_gray_loaded() == old(self).spec_gray_loaded(),
            // A failed dispatch leaves the scheduler state as it was.
            r is Err ==> final(self).spec_full_refreshed() == old(self).spec_full_refreshed() && (
            forall|j: int|
                final(self).spec_dirty_contains(j) == old(self).spec_dirty_contains(j)) && (forall|
                j: int,
            |
                final(self).spec_displaying_contains(j) == old(self).spec_displaying_contains(j)),
            r matches Ok(mode) ==> {
                // Waveform choice by the bucketized dirty-row count.
                &&& mode == (if spec_count_true(
                    spec_bucket_bits(old(self).spec_dirty_bits(), TEXT_ROW_TYPICAL_HEIGHT as int),
                ) * TEXT_ROW_TYPICAL_HEIGHT < old(self).spec_height() / 2 {
                    old(self).spec_run_mode().spec_display_mode_fast()
                } else {
                    old(self).spec_run_mode().spec_display_mode_slow()
                })
                &&& exists|rmin: int, rmax: int|
                    {
                        &&& 0 <= rmin <= rmax < old(self).spec_height()
                        &&& #[trigger] old(self).spec_dirty_contains(rmin) && #[trigger] old(
                            self,
                        ).spec_dirty_contains(rmax)
                        &&& (forall|y: int| old(self).spec_dirty_contains(y) ==> rmin <= y <= rmax)
                        // No dispatched row was still displaying.
                        &&& (forall|d: int| old(self).spec_displaying_contains(d) ==> !(rmin <= d
                            <= rmax))
                        &&& (spec_wire_mode_code(mode, old(self).spec_generation()) matches Some(
                            code,
                        ) && final(self).transfers() == old(self).transfers().push(
                            crate::driver::scsi::Transfer {
                                cdb: crate::driver::it8915::spec_display_cdb(),
                                data: crate::driver::it8915::spec_display_payload(
                                    old(self).spec_image_buf_base(),
                                    code as u32,
                                    0,
                                    rmin as u32,
                                    old(self).spec_width() as u32,
                                    (rmax - rmin + 1) as u32,
                                    false,
                                ),
                                is_read: false,
                            },
                        ))
                        &&& (forall|j: int| final(self).spec_displaying_contains(j) <==> (old(
                            self,
                        ).spec_displaying_contains(j) || (rmin <= j <= rmax)))
                    }
                &&& (forall|j: int| !final(self).spec_dirty_contains(j))
                &&& !final(self).spec_full_refreshed()
            },
    {
        proof {
            assert(forall|j: int| self.spec_dirty_contains(j)
                == self.dirty_rows.spec_contains(j));
            assert(forall|j: int| self.spec_displaying_contains(j)
                == self.displaying_rows.spec_contains(j));
        }
        let screen_size = self.driver.get_screen_size();
        let num_dirty_rows_expanded = self.dirty_rows.expanded_count(TEXT_ROW_TYPICAL_HEIGHT);
        let mode = if num_dirty_rows_expanded < screen_size.height / 2 {
            self.current_run_mode.display_mode_fast()
        } else {
            self.current_run_mode.display_mode_slow()
        };
        let dirty_start = self.dirty_rows.first();
        let dirty_end = self.dirty_rows.last() + 1;
        match self.driver.display_area(
            Point { x: 0, y: dirty_start },
            Size { width: screen_size.width, height: dirty_end - dirty_start },
            mode,
            false,
        ) {
            Ok(_) => {},
            Err(e) => {
                return Err(e);
            },
        }
        self.displaying_rows.insert_range(dirty_start, dirty_end);
        self.dirty_rows.clear();
        self.full_refreshed = false;
        proof {
            assert(old(self).spec_dirty_contains(dirty_start as int) && old(
                self,
            ).spec_dirty_contains(dirty_end - 1 as int));
        }
        Ok(mode)
    }

    /// Dispatches a blocking full-canvas GC16 refresh, clears both row
    /// sets, and marks the canvas fully refreshed.
    pub fn do_display_full_refresh_block(&mut self) -> (r: Result<(), Error>)
        requires
            old(self).wf(),
        ensures
            final(self).wf(),
            final(self).spec_width() == old(self).spec_width(),
            final(self).spec_height() == old(self).spec_height(),
            final(self).spec_mem_pitch() == old(self).spec_mem_pitch(),
            final(self).spec_generation() == old(self).spec_generation(),
            final(self).spec_run_mode() == old(self).spec_run_mode(),
            final(self).spec_mono_loaded() == old(self).spec_mono_loaded(),
            final(self).spec_gray_loaded() == old(self).spec_gray_loaded(),
            // A failed dispatch leaves the scheduler state as it was.
            r is Err ==> final(self).spec_full_refreshed() == old(self).spec_full_refreshed() && (
            forall|j: int|
                final(self).spec_dirty_contains(j) == old(self).spec_dirty_contains(j)) && (forall|
                j: int,
            |
                final(self).spec_displaying_contains(j) == old(self).spec_displaying_contains(j)),
            r is Ok ==> {
                &&& (spec_wire_mode_code(DisplayMode::GC16, old(self).spec_generation())
                    matches Some(code) && final(self).transfers() == old(self).transfers().push(
                    crate::driver::scsi::Transfer {
                        cdb: crate::driver::it8915::spec_display_cdb(),
                        data: crate::driver::it8915::spec_display_payload(
                            old(self).spec_image_buf_base(),
                            code as u32,
                            0,
                            0,
                            old(self).spec_width() as u32,
                            old(self).spec_height() as u32,
                            true,
                        ),
                        is_read: false,
                    },
                ))
                &&& (forall|j: int| !final(self).spec_dirty_contains(j))
                &&& (forall|j: int| !final(self).spec_displaying_contains(j))
                &&& final(self).spec_full_refreshed()
            },
    {
        let screen_size = self.driver.get_screen_size();
        match self.driver.display_area(
            Point { x: 0, y: 0 },
            screen_size,
            DisplayMode::GC16,
            true,
        ) {
            Ok(_) => {},
            Err(e) => {
                return Err(e);
            },
        }
        self.dirty_rows.clear();
        self.displaying_rows.clear();
        self.full_refreshed = true;
        proof {
            assert(forall|j: int| self.spec_dirty_contains(j)
                == self.dirty_rows.spec_contains(j));
            assert(forall|j: int| self.spec_displaying_contains(j)
                == self.displaying_rows.spec_contains(j));
        }
        Ok(())
    }

    pub closed spec fn spec_image_buf_base(&self) -> u32 {
        self.driver.spec_image_buf_base()
    }

    /// Switches to a new run mode: resets the display (white fill plus a
    /// blocking INIT refresh) and forgets the loaded frames, so the next
    /// frame reloads the whole canvas. The caller switches only after the
    /// panel reported idle.
    pub fn switch_run_mode(&mut self, new_mode: RunMode) -> (r: Result<(), Error>)
        requires
            old(self).wf(),
        ensures
            final(self).wf(),
            final(self).spec_width() == old(self).spec_width(),
            final(self).spec_height() == old(self).spec_height(),
            final(self).spec_mem_pitch() == old(self).spec_mem_pitch(),
            final(self).spec_generation() == old(self).spec_generation(),
            r is Ok ==> {
                &&& final(self).spec_run_mode() == new_mode
                &&& final(self).spec_mono_loaded() is None
                &&& final(self).spec_gray_loaded() is None
                &&& final(self).transfers().len() >= old(self).transfers().len()
                &&& final(self).transfers().subrange(0, old(self).transfers().len() as int)
                    == old(self).transfers()
            },
    {
        match self.driver.reset_display() {
            Ok(_) => {},
            Err(e) => {
                return Err(e);
            },
        }
        self.mono_loaded_frame = None;
        self.gray_loaded_frame = None;
        self.current_run_mode = new_mode;
        proof {
            assert(self.transfers().subrange(0, old(self).transfers().len() as int) =~= old(
                self,
            ).transfers());
        }
        Ok(())
    }

    /// Resets the display on the way out: white fill plus a blocking INIT
    /// refresh over the whole canvas.
    pub fn reset_display(&mut self) -> (r: Result<(), Error>)
        requires
            old(self).wf(),
        ensures
            final(self).wf(),
            r is Ok ==> final(self).transfers().len() >= old(self).transfers().len()
                && final(self).transfers().subrange(0, old(self).transfers().len() as int)
                == old(self).transfers(),
    {
        let r = self.driver.reset_display();
        proof {
            if r is Ok {
                assert(self.transfers().subrange(0, old(self).transfers().len() as int) =~= old(
                    self,
                ).transfers());
            }
        }
        r
    }

    /// Commits a freshly converted 1-bpp mono frame: rows that differ
    /// from the frame last loaded (all rows, if none was) are uploaded to
    /// the device as one bounding strip in the run mode's memory encoding
    /// and accumulated into the dirty set; an unchanged frame touches
    /// neither the device nor the state.
    #[verifier::rlimit(100)]
    pub fn load_frame_mono_image(&mut self, new_frame: ImageBuffer) -> (r: Result<(), Error>)
        requires
            old(self).wf(),
            old(self).spec_run_mode() is Mono || old(self).spec_run_mode() is MonoForce8bpp,
            image_wf(&new_frame),
            new_frame.spec_header().spec_format() == ImageFormat::Mono1Bpp,
            new_frame.spec_header().spec_width() == old(self).spec_width(),
            new_frame.spec_header().spec_height() == old(self).spec_height(),
            new_frame.spec_header().spec_pitch() == old(self).spec_mem_pitch(),
            new_frame.spec_header().spec_height() * new_frame.spec_header().spec_pitch()
                <= new_frame.spec_header().spec_data_len(),
        ensures
            final(self).wf(),
            final(self).spec_width() == old(self).spec_width(),
            final(self).spec_height() == old(self).spec_height(),
            final(self).spec_mem_pitch() == old(self).spec_mem_pitch(),
            final(self).spec_generation() == old(self).spec_generation(),
            final(self).spec_run_mode() == old(self).spec_run_mode(),
            final(self).spec_full_refreshed() == old(self).spec_full_refreshed(),
            final(self).spec_gray_loaded() == old(self).spec_gray_loaded(),
            forall|j: int| final(self).spec_displaying_contains(j) == old(
                self,
            ).spec_displaying_contains(j),
            forall|j: int| old(self).spec_dirty_contains(j) ==> final(self).spec_dirty_contains(
                j,
            ),
            // A bit-identical frame succeeds without touching the device
            // or the state: no call is made, so success is owed.
            (old(self).spec_mono_loaded() matches Some(f) && spec_frames_identical(
                new_frame.spec_img_data(),
                f.spec_img_data(),
                old(self).spec_mem_pitch(),
                old(self).spec_height(),
            )) ==> r is Ok && final(self).transfers() == old(self).transfers()
                && final(self).spec_mono_loaded() == old(self).spec_mono_loaded() && (forall|
                j: int,
            |
                final(self).spec_dirty_contains(j) == old(self).spec_dirty_contains(j)),
            // A failed transfer leaves the scheduler state as it was.
            r is Err ==> final(self).spec_mono_loaded() == old(self).spec_mono_loaded() && (forall|
                j: int,
            |
                final(self).spec_dirty_contains(j) == old(self).spec_dirty_contains(j)),
            r is Ok ==> {
                // Row-diff soundness and completeness: a row becomes dirty
                // exactly when some byte of its pitch span changed (or no
                // frame was ever loaded).
                &&& (old(self).spec_mono_loaded() is None ==> forall|j: int|
                    final(self).spec_dirty_contains(j) <==> (old(self).spec_dirty_contains(j) || 0
                        <= j < old(self).spec_height()))
                &&& (old(self).spec_mono_loaded() matches Some(f) ==> forall|j: int|
                    final(self).spec_dirty_contains(j) <==> (old(self).spec_dirty_contains(j) || (0
                        <= j < old(self).spec_height() && spec_rows_differ(
                        new_frame.spec_img_data(),
                        f.spec_img_data(),
                        old(self).spec_mem_pitch(),
                        j,
                    ))))
                // A changed frame is uploaded as exactly the bounding
                // strip of the differing rows: the band's ends are
                // differing rows (the full canvas when nothing was ever
                // loaded), every differing row lies inside it, and the
                // bytes written to the device are one row-length per row
                // of the band -- no more.
                &&& ((old(self).spec_mono_loaded() is None || (old(self).spec_mono_loaded()
                    matches Some(f) && exists|y: int|
                    0 <= y < old(self).spec_height() && #[trigger] spec_rows_differ(
                        new_frame.spec_img_data(),
                        f.spec_img_data(),
                        old(self).spec_mem_pitch(),
                        y,
                    ))) ==> final(self).spec_mono_loaded() == Some(new_frame) && exists|
                    rmin: int,
                    rmax: int,
                |
                    {
                        &&& #[trigger] spec_row_band(rmin, rmax)
                        &&& rmax < old(self).spec_height()
                        &&& (old(self).spec_mono_loaded() is None ==> rmin == 0 && rmax == old(
                            self,
                        ).spec_height() - 1)
                        &&& (old(self).spec_mono_loaded() matches Some(f) ==> spec_rows_differ(
                            new_frame.spec_img_data(),
                            f.spec_img_data(),
                            old(self).spec_mem_pitch(),
                            rmin,
                        ) && spec_rows_differ(
                            new_frame.spec_img_data(),
                            f.spec_img_data(),
                            old(self).spec_mem_pitch(),
                            rmax,
                        ) && (forall|y: int|
                            0 <= y < old(self).spec_height() && #[trigger] spec_rows_differ(
                                new_frame.spec_img_data(),
                                f.spec_img_data(),
                                old(self).spec_mem_pitch(),
                                y,
                            ) ==> rmin <= y <= rmax))
                        &&& final(self).transfers().len() > old(self).transfers().len()
                        &&& final(self).transfers().subrange(
                            0,
                            old(self).transfers().len() as int,
                        ) == old(self).transfers()
                        &&& crate::driver::scsi::spec_transfers_data_len(
                            final(self).transfers().skip(old(self).transfers().len() as int),
                        ) == (match old(self).spec_run_mode().spec_mem_mode() {
                            MemMode::Mem1bpp => old(self).spec_mem_pitch(),
                            MemMode::Mem8bpp => old(self).spec_width(),
                        }) * (rmax - rmin + 1)
                    })
            },
    {
        let height = self.driver.get_screen_size().height;
        let width = self.driver.get_screen_size().width;
        let mem_pitch = self.driver.get_mem_pitch(MemMode::Mem1bpp);
        let modified = match &self.mono_loaded_frame {
            None => {
                let mut m = RowSet::new(height as usize);
                m.insert_range(0, height);
                proof {
                    assert(m.spec_contains(0));
                }
                m
            },
            Some(loaded_frame) => compute_modified_row_range(&new_frame, loaded_frame),
        };
        proof {
            assert(forall|j: int| self.spec_dirty_contains(j)
                == self.dirty_rows.spec_contains(j));
        }
        if modified.is_empty() {
            proof {
                assert(old(self).spec_mono_loaded() is Some);
                let f = old(self).spec_mono_loaded()->0;
                assert forall|y: int|
                    0 <= y < old(self).spec_height() implies !spec_rows_differ(
                    new_frame.spec_img_data(),
                    f.spec_img_data(),
                    old(self).spec_mem_pitch(),
                    y,
                ) by {
                    assert(!modified.spec_contains(y));
                }
            }
            return Ok(());
        }
        let rmin = modified.first();
        let rmax = modified.last();
        let rows = rmax - rmin + 1;
        proof {
            if old(self).spec_mono_loaded() is Some {
                // The band's ends are really differing rows, so the frame
                // is not bit-identical on any path from here.
                let f0 = old(self).spec_mono_loaded()->0;
                assert(spec_rows_differ(
                    new_frame.spec_img_data(),
                    f0.spec_img_data(),
                    mem_pitch as int,
                    rmin as int,
                ));
                assert(spec_rows_differ(
                    new_frame.spec_img_data(),
                    f0.spec_img_data(),
                    mem_pitch as int,
                    rmax as int,
                ));
            }
            assert((rmin + rows) * mem_pitch <= height * mem_pitch && rows * mem_pitch <= (height
                - rmin) * mem_pitch) by (nonlinear_arith)
                requires
                    0 <= rmin,
                    rmin + rows <= height,
                    0 < mem_pitch,
            ;
            assert((height - rmin) * mem_pitch == height * mem_pitch - rmin * mem_pitch)
                by (nonlinear_arith);
            assert(mem_pitch * rows == rows * mem_pitch && width * rows == rows * width)
                by (nonlinear_arith);
            assert(self.driver.spec_image_buf_base() + mem_pitch * (rmin + rows)
                <= self.driver.spec_image_buf_base() + mem_pitch * height) by (nonlinear_arith)
                requires
                    rmin + rows <= height,
                    0 < mem_pitch,
            ;
            assert(4 <= mem_pitch) by (nonlinear_arith)
                requires
                    mem_pitch == ((width + 31) / 32) * 4,
                    4 <= width,
            ;
            assert(0 < 0xffff as int / mem_pitch as int) by (nonlinear_arith)
                requires
                    4 <= mem_pitch <= 0xffff,
            ;
        }
        let subimg = new_frame.subimg(
            Point { x: 0, y: rmin },
            Size { width, height: rows },
        );
        let ghost pre_transfers = self.transfers();
        let row_len: i32 = match self.current_run_mode.mem_mode() {
            MemMode::Mem1bpp => {
                match self.driver.load_image_fullwidth(rmin as u32, &subimg) {
                    Ok(_) => {},
                    Err(e) => {
                        return Err(e);
                    },
                }
                proof {
                    let upload = crate::driver::it8915::spec_upload_transfers(
                        subimg.spec_img_data(),
                        mem_pitch as int,
                        rows as int,
                        0xffff as int / mem_pitch as int,
                        self.driver.spec_image_buf_base() + mem_pitch * rmin,
                        0,
                    );
                    crate::driver::it8915::lemma_upload_data_len(
                        subimg.spec_img_data(),
                        mem_pitch as int,
                        rows as int,
                        0xffff as int / mem_pitch as int,
                        self.driver.spec_image_buf_base() + mem_pitch * rmin,
                        0,
                    );
                    assert(self.transfers() == pre_transfers + upload);
                    assert(self.transfers().subrange(0, pre_transfers.len() as int)
                        =~= pre_transfers);
                    assert(self.transfers().skip(pre_transfers.len() as int) =~= upload);
                    assert(crate::driver::scsi::spec_transfers_data_len(
                        self.transfers().skip(pre_transfers.len() as int),
                    ) == mem_pitch * rows);
                    assert(upload.len() >= 1);
                }
                mem_pitch
            },
            MemMode::Mem8bpp => {
                proof {
                    assert(width * 8 + 7 <= i32::MAX);
                    assert(rows * width <= height * width && height * width <= 16384 * 16384)
                        by (nonlinear_arith)
                        requires
                            0 < rows <= height <= 16384,
                            0 < width <= 16384,
                    ;
                    assert(self.driver.spec_image_buf_base() + width * (rmin + rows)
                        <= self.driver.spec_image_buf_base() + width * height)
                        by (nonlinear_arith)
                        requires
                            rmin + rows <= height,
                            0 < width,
                    ;
                    assert(0 < 0xffff as int / width as int) by (nonlinear_arith)
                        requires
                            4 <= width <= 0xffff,
                    ;
                }
                let unpacked = crate::image::convert::repack_mono(
                    &subimg,
                    ImageFormat::Mono8Bpp,
                    width,
                );
                match self.driver.load_image_fullwidth_8bit(rmin as u32, &unpacked.view_img()) {
                    Ok(_) => {},
                    Err(e) => {
                        return Err(e);
                    },
                }
                proof {
                    let upload = crate::driver::it8915::spec_upload_transfers(
                        unpacked.spec_img_data(),
                        width as int,
                        rows as int,
                        0xffff as int / width as int,
                        self.driver.spec_image_buf_base() + width * rmin,
                        0,
                    );
                    crate::driver::it8915::lemma_upload_data_len(
                        unpacked.spec_img_data(),
                        width as int,
                        rows as int,
                        0xffff as int / width as int,
                        self.driver.spec_image_buf_base() + width * rmin,
                        0,
                    );
                    assert(self.transfers() == pre_transfers + upload);
                    assert(self.transfers().subrange(0, pre_transfers.len() as int)
                        =~= pre_transfers);
                    assert(self.transfers().skip(pre_transfers.len() as int) =~= upload);
                    assert(crate::driver::scsi::spec_transfers_data_len(
                        self.transfers().skip(pre_transfers.len() as int),
                    ) == width * rows);
                    assert(upload.len() >= 1);
                }
                width
            },
        };
        proof {
            assert(forall|j: int| old(self).spec_dirty_contains(j)
                == self.dirty_rows.spec_contains(j));
        }
        let merged = RowSet::union_of(&self.dirty_rows, &modified);
        self.dirty_rows = merged;
        self.mono_loaded_frame = Some(new_frame);
        proof {
            assert(forall|j: int| self.spec_dirty_contains(j)
                == self.dirty_rows.spec_contains(j));
            assert(spec_row_band(rmin as int, rmax as int));
            assert(rows == rmax - rmin + 1);
            let ml = old(self).spec_mono_loaded();
            if ml is None {
                assert forall|j: int| self.spec_dirty_contains(j) <==> (old(
                    self,
                ).spec_dirty_contains(j) || 0 <= j < old(self).spec_height()) by {
                    assert(self.dirty_rows.spec_contains(j) <==> (old(
                        self,
                    ).spec_dirty_contains(j) || modified.spec_contains(j)));
                }
            } else {
                let f0 = ml->0;
                assert forall|j: int| self.spec_dirty_contains(j) <==> (old(
                    self,
                ).spec_dirty_contains(j) || (0 <= j < old(self).spec_height() && spec_rows_differ(
                    new_frame.spec_img_data(),
                    f0.spec_img_data(),
                    old(self).spec_mem_pitch(),
                    j,
                ))) by {
                    assert(self.dirty_rows.spec_contains(j) <==> (old(
                        self,
                    ).spec_dirty_contains(j) || modified.spec_contains(j)));
                }
            }
            if ml is None {
                // All rows were dirty, so the band is the full canvas.
                assert(modified.spec_contains(0) && modified.spec_contains(
                    old(self).spec_height() - 1,
                ));
                assert(rmin == 0 && rmax == old(self).spec_height() - 1);
            } else {
                // Every differing row lies inside the dispatched band.
                let f0 = ml->0;
                assert forall|y: int|
                    0 <= y < old(self).spec_height() && #[trigger] spec_rows_differ(
                        new_frame.spec_img_data(),
                        f0.spec_img_data(),
                        old(self).spec_mem_pitch(),
                        y,
                    ) implies rmin <= y <= rmax by {
                    assert(modified.spec_contains(y));
                }
            }
        }
        Ok(())
    }

    /// Commits a freshly dithered 8-bpp gray frame: the gray-mode
    /// counterpart of `load_frame_mono_image`, uploading into 8-bpp device
    /// memory with width-byte rows.
    #[verifier::rlimit(100)]
    pub fn load_frame_gray_image(&mut self, new_frame: ImageBuffer) -> (r: Result<(), Error>)
        requires
            old(self).wf(),
            old(self).spec_run_mode() is Gray,
            image_wf(&new_frame),
            new_frame.spec_header().spec_format() == ImageFormat::Mono8Bpp,
            new_frame.spec_header().spec_width() == old(self).spec_width(),
            new_frame.spec_header().spec_height() == old(self).spec_height(),
            new_frame.spec_header().spec_pitch() == old(self).spec_width(),
            new_frame.spec_header().spec_height() * new_frame.spec_header().spec_pitch()
                <= new_frame.spec_header().spec_data_len(),
        ensures
            final(self).wf(),
            final(self).spec_width() == old(self).spec_width(),
            final(self).spec_height() == old(self).spec_height(),
            final(self).spec_mem_pitch() == old(self).spec_mem_pitch(),
            final(self).spec_generation() == old(self).spec_generation(),
            final(self).spec_run_mode() == old(self).spec_run_mode(),
            final(self).spec_full_refreshed() == old(self).spec_full_refreshed(),
            final(self).spec_mono_loaded() == old(self).spec_mono_loaded(),
            forall|j: int| final(self).spec_displaying_contains(j) == old(
                self,
            ).spec_displaying_contains(j),
            forall|j: int| old(self).spec_dirty_contains(j) ==> final(self).spec_dirty_contains(
                j,
            ),
            // A bit-identical frame succeeds without touching the device
            // or the state: no call is made, so success is owed.
            (old(self).spec_gray_loaded() matches Some(f) && spec_frames_identical(
                new_frame.spec_img_data(),
                f.spec_img_data(),
                old(self).spec_width(),
                old(self).spec_height(),
            )) ==> r is Ok && final(self).transfers() == old(self).transfers()
                && final(self).spec_gray_loaded() == old(self).spec_gray_loaded() && (forall|
                j: int,
            |
                final(self).spec_dirty_contains(j) == old(self).spec_dirty_contains(j)),
            // A failed transfer leaves the scheduler state as it was.
            r is Err ==> final(self).spec_gray_loaded() == old(self).spec_gray_loaded() && (forall|
                j: int,
            |
                final(self).spec_dirty_contains(j) == old(self).spec_dirty_contains(j)),
            r is Ok ==> {
                // Row-diff soundness and completeness, as in the mono path.
                &&& (old(self).spec_gray_loaded() is None ==> forall|j: int|
                    final(self).spec_dirty_contains(j) <==> (old(self).spec_dirty_contains(j) || 0
                        <= j < old(self).spec_height()))
                &&& (old(self).spec_gray_loaded() matches Some(f) ==> forall|j: int|
                    final(self).spec_dirty_contains(j) <==> (old(self).spec_dirty_contains(j) || (0
                        <= j < old(self).spec_height() && spec_rows_differ(
                        new_frame.spec_img_data(),
                        f.spec_img_data(),
                        old(self).spec_width(),
                        j,
                    ))))
                // A changed frame is uploaded as exactly the bounding
                // strip of the differing rows, as in the mono path.
                &&& ((old(self).spec_gray_loaded() is None || (old(self).spec_gray_loaded()
                    matches Some(f) && exists|y: int|
                    0 <= y < old(self).spec_height() && #[trigger] spec_rows_differ(
                        new_frame.spec_img_data(),
                        f.spec_img_data(),
                        old(self).spec_width(),
                        y,
                    ))) ==> final(self).spec_gray_loaded() == Some(new_frame) && exists|
                    rmin: int,
                    rmax: int,
                |
                    {
                        &&& #[trigger] spec_row_band(rmin, rmax)
                        &&& rmax < old(self).spec_height()
                        &&& (old(self).spec_gray_loaded() is None ==> rmin == 0 && rmax == old(
                            self,
                        ).spec_height() - 1)
                        &&& (old(self).spec_gray_loaded() matches Some(f) ==> spec_rows_differ(
                            new_frame.spec_img_data(),
                            f.spec_img_data(),
                            old(self).spec_width(),
                            rmin,
                        ) && spec_rows_differ(
                            new_frame.spec_img_data(),
                            f.spec_img_data(),
                            old(self).spec_width(),
                            rmax,
                        ) && (forall|y: int|
                            0 <= y < old(self).spec_height() && #[trigger] spec_rows_differ(
                                new_frame.spec_img_data(),
                                f.spec_img_data(),
                                old(self).spec_width(),
                                y,
                            ) ==> rmin <= y <= rmax))
                        &&& final(self).transfers().len() > old(self).transfers().len()
                        &&& final(self).transfers().subrange(
                            0,
                            old(self).transfers().len() as int,
                        ) == old(self).transfers()
                        &&& crate::driver::scsi::spec_transfers_data_len(
                            final(self).transfers().skip(old(self).transfers().len() as int),
                        ) == old(self).spec_width() * (rmax - rmin + 1)
                    })
            },
    {
        let height = self.driver.get_screen_size().height;
        let width = self.driver.get_screen_size().width;
        let modified = match &self.gray_loaded_frame {
            None => {
                let mut m = RowSet::new(height as usize);
                m.insert_range(0, height);
                proof {
                    assert(m.spec_contains(0));
                }
                m
            },
            Some(loaded_frame) => compute_modified_row_range(&new_frame, loaded_frame),
        };
        proof {
            assert(forall|j: int| self.spec_dirty_contains(j)
                == self.dirty_rows.spec_contains(j));
        }
        if modified.is_empty() {
            proof {
                assert(old(self).spec_gray_loaded() is Some);
                let f = old(self).spec_gray_loaded()->0;
                assert forall|y: int|
                    0 <= y < old(self).spec_height() implies !spec_rows_differ(
                    new_frame.spec_img_data(),
                    f.spec_img_data(),
                    old(self).spec_width(),
                    y,
                ) by {
                    assert(!modified.spec_contains(y));
                }
            }
            return Ok(());
        }
        let rmin = modified.first();
        let rmax = modified.last();
        let rows = rmax - rmin + 1;
        proof {
            if old(self).spec_gray_loaded() is Some {
                // The band's ends are really differing rows, so the frame
                // is not bit-identical on any path from here.
                let f0 = old(self).spec_gray_loaded()->0;
                assert(spec_rows_differ(
                    new_frame.spec_img_data(),
                    f0.spec_img_data(),
                    width as int,
                    rmin as int,
                ));
                assert(spec_rows_differ(
                    new_frame.spec_img_data(),
                    f0.spec_img_data(),
                    width as int,
                    rmax as int,
                ));
            }
            assert((rmin + rows) * width <= height * width && rows * width <= (height - rmin)
                * width) by (nonlinear_arith)
                requires
                    0 <= rmin,
                    rmin + rows <= height,
                    0 < width,
            ;
            assert((height - rmin) * width == height * width - rmin * width)
                by (nonlinear_arith);
            assert(width * rows == rows * width) by (nonlinear_arith);
            assert(self.driver.spec_image_buf_base() + width * (rmin + rows)
                <= self.driver.spec_image_buf_base() + width * height) by (nonlinear_arith)
                requires
                    rmin + rows <= height,
                    0 < width,
            ;
            assert(0 < 0xffff as int / width as int) by (nonlinear_arith)
                requires
                    4 <= width <= 0xffff,
            ;
        }
        let subimg = new_frame.subimg(
            Point { x: 0, y: rmin },
            Size { width, height: rows },
        );
        let ghost pre_transfers = self.transfers();
        match self.driver.load_image_fullwidth_8bit(rmin as u32, &subimg) {
            Ok(_) => {},
            Err(e) => {
                return Err(e);
            },
        }
        proof {
            let upload = crate::driver::it8915::spec_upload_transfers(
                subimg.spec_img_data(),
                width as int,
                rows as int,
                0xffff as int / width as int,
                self.driver.spec_image_buf_base() + width * rmin,
                0,
            );
            crate::driver::it8915::lemma_upload_data_len(
                subimg.spec_img_data(),
                width as int,
                rows as int,
                0xffff as int / width as int,
                self.driver.spec_image_buf_base() + width * rmin,
                0,
            );
            assert(self.transfers() == pre_transfers + upload);
            assert(self.transfers().subrange(0, pre_transfers.len() as int) =~= pre_transfers);
            assert(self.transfers().skip(pre_transfers.len() as int) =~= upload);
            assert(crate::driver::scsi::spec_transfers_data_len(
                self.transfers().skip(pre_transfers.len() as int),
            ) == width * rows);
            assert(upload.len() >= 1);
        }
        let merged = RowSet::union_of(&self.dirty_rows, &modified);
        self.dirty_rows = merged;
        self.gray_loaded_frame = Some(new_frame);
        proof {
            assert(forall|j: int| self.spec_dirty_contains(j)
                == self.dirty_rows.spec_contains(j));
            assert(spec_row_band(rmin as int, rmax as int));
            assert(rows == rmax - rmin + 1);
            let ml = old(self).spec_gray_loaded();
            if ml is None {
                assert forall|j: int| self.spec_dirty_contains(j) <==> (old(
                    self,
                ).spec_dirty_contains(j) || 0 <= j < old(self).spec_height()) by {
                    assert(self.dirty_rows.spec_contains(j) <==> (old(
                        self,
                    ).spec_dirty_contains(j) || modified.spec_contains(j)));
                }
                // All rows were dirty, so the band is the full canvas.
                assert(modified.spec_contains(0) && modified.spec_contains(
                    old(self).spec_height() - 1,
                ));
                assert(rmin == 0 && rmax == old(self).spec_height() - 1);
            } else {
                let f0 = ml->0;
                assert forall|j: int| self.spec_dirty_contains(j) <==> (old(
                    self,
                ).spec_dirty_contains(j) || (0 <= j < old(self).spec_height() && spec_rows_differ(
                    new_frame.spec_img_data(),
                    f0.spec_img_data(),
                    old(self).spec_width(),
                    j,
                ))) by {
                    assert(self.dirty_rows.spec_contains(j) <==> (old(
                        self,
                    ).spec_dirty_contains(j) || modified.spec_contains(j)));
                }
                assert forall|y: int|
                    0 <= y < old(self).spec_height() && #[trigger] spec_rows_differ(
                        new_frame.spec_img_data(),
                        f0.spec_img_data(),
                        old(self).spec_width(),
                        y,
                    ) implies rmin <= y <= rmax by {
                    assert(modified.spec_contains(y));
                }
            }
        }
        Ok(())
    }

    /// One mono-mode load step: grabs a frame, converts it through the
    /// ordered-dither mono pipeline, and commits it.
    pub fn load_frame_mono(&mut self) -> (r: Result<(), Error>)
        requires
            old(self).wf(),
            old(self).spec_run_mode() is Mono || old(self).spec_run_mode() is MonoForce8bpp,
        ensures
            final(self).wf(),
            final(self).spec_width() == old(self).spec_width(),
            final(self).spec_height() == old(self).spec_height(),
            final(self).spec_mem_pitch() == old(self).spec_mem_pitch(),
            final(self).spec_generation() == old(self).spec_generation(),
            final(self).spec_run_mode() == old(self).spec_run_mode(),
            final(self).spec_full_refreshed() == old(self).spec_full_refreshed(),
            forall|j: int| final(self).spec_displaying_contains(j) == old(
                self,
            ).spec_displaying_contains(j),
            // Dirty rows only accumulate until a display clears them.
            forall|j: int| old(self).spec_dirty_contains(j) ==> final(self).spec_dirty_contains(
                j,
            ),
    {
        let dithering_method = match self.current_run_mode.dithering_method() {
            Some(d) => d,
            None => DitheringMethod::Bayers4,
        };
        let bgra_img = match self.source.get_frame() {
            Ok(f) => f,
            Err(e) => {
                return Err(e);
            },
        };
        let width = self.driver.get_screen_size().width;
        let height = self.driver.get_screen_size().height;
        let mem_pitch = self.driver.get_mem_pitch(MemMode::Mem1bpp);
        proof {
            assert(0 < height * mem_pitch <= 16384 * 2052) by (nonlinear_arith)
                requires
                    0 < height <= 16384,
                    0 < mem_pitch <= 2052,
            ;
            assert(mem_pitch >= (width + 7) / 8) by (nonlinear_arith)
                requires
                    mem_pitch == ((width + 31) / 32) * 4,
                    0 < width,
            ;
        }
        let mut new_frame = ImageBuffer::new(
            ImageFormat::Mono1Bpp,
            width,
            height,
            Some(mem_pitch),
        );
        self.mono_imgproc.process(&bgra_img.view_img(), &mut new_frame, dithering_method);
        self.load_frame_mono_image(new_frame)
    }

    /// One gray-mode load step: grabs a frame, rotates it to the panel's
    /// orientation, error-diffuses it to 16 gray levels, and commits it.
    pub fn load_frame_gray(&mut self) -> (r: Result<(), Error>)
        requires
            old(self).wf(),
            old(self).spec_run_mode() is Gray,
        ensures
            final(self).wf(),
            final(self).spec_width() == old(self).spec_width(),
            final(self).spec_height() == old(self).spec_height(),
            final(self).spec_mem_pitch() == old(self).spec_mem_pitch(),
            final(self).spec_generation() == old(self).spec_generation(),
            final(self).spec_run_mode() == old(self).spec_run_mode(),
            final(self).spec_full_refreshed() == old(self).spec_full_refreshed(),
            forall|j: int| final(self).spec_displaying_contains(j) == old(
                self,
            ).spec_displaying_contains(j),
            // Dirty rows only accumulate until a display clears them.
            forall|j: int| old(self).spec_dirty_contains(j) ==> final(self).spec_dirty_contains(
                j,
            ),
    {
        let bgra_img = match self.source.get_frame() {
            Ok(f) => f,
            Err(e) => {
                return Err(e);
            },
        };
        let width = self.driver.get_screen_size().width;
        let height = self.driver.get_screen_size().height;
        proof {
            assert(width * 32 + 7 <= i32::MAX);
            assert(height * (width * 4) <= 16384 * 65536) by (nonlinear_arith)
                requires
                    0 < height <= 16384,
                    0 < width <= 16384,
            ;
        }
        let rotated = crate::imgproc::rotate::rotate(
            &bgra_img.view_img(),
            self.rotation,
            Size { width, height },
        );
        let gray = crate::imgproc::dithering::floyd_steinberg(
            &rotated.view_img(),
            crate::imgproc::dithering::grey16_target(),
        );
        proof {
            assert(gray.spec_header().spec_row_bytes() == gray.spec_header().spec_pitch());
            assert(gray.spec_header().spec_height() * gray.spec_header().spec_pitch() <= (
            gray.spec_header().spec_height() - 1) * gray.spec_header().spec_pitch()
                + gray.spec_header().spec_pitch()) by (nonlinear_arith);
        }
        self.load_frame_gray_image(gray)
    }

    /// One load step in the current run mode.
    pub fn load_frame(&mut self) -> (r: Result<(), Error>)
        requires
            old(self).wf(),
        ensures
            final(self).wf(),
            final(self).spec_width() == old(self).spec_width(),
            final(self).spec_height() == old(self).spec_height(),
            final(self).spec_mem_pitch() == old(self).spec_mem_pitch(),
            final(self).spec_generation() == old(self).spec_generation(),
            final(self).spec_run_mode() == old(self).spec_run_mode(),
            final(self).spec_full_refreshed() == old(self).spec_full_refreshed(),
            forall|j: int| final(self).spec_displaying_contains(j) == old(
                self,
            ).spec_displaying_contains(j),
            // Dirty rows only accumulate until a display clears them.
            forall|j: int| old(self).spec_dirty_contains(j) ==> final(self).spec_dirty_contains(
                j,
            ),
    {
        match self.current_run_mode {
            RunMode::Mono(_) | RunMode::MonoForce8bpp(_) => self.load_frame_mono(),
            RunMode::Gray => self.load_frame_gray(),
        }
    }
}

/// The image memory base of the driver, widened for overflow-free checks./// The image memory base of the driver, widened for overflow-free checks.
fn driver_base_u64<D: DeviceIO>(driver: &IT8915<D>) -> (r: u64)
    ensures
        r == driver.spec_image_buf_base(),
{
    driver.get_image_buf_base() as u64
}

} // verus!
