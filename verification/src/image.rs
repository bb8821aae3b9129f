//! Image model: pixel formats, pitch-aware headers, read-only views over
//! borrowed bytes, and owning buffers. Rows are addressed through the pitch;
//! only the first `ceil(width * bpp / 8)` bytes of a row are live pixel data,
//! later bytes are padding.

use vstd::prelude::*;

verus! {

/// A pixel position, in pixels from the top-left corner.
#[derive(Clone, Copy, Debug, Default, PartialEq, Eq, Structural)]
pub struct Point {
    pub x: i32,
    pub y: i32,
}

impl Point {
    pub fn new(x: i32, y: i32) -> (r: Point)
        ensures
            r == (Point { x, y }),
    {
        Point { x, y }
    }
}

/// A width and height, in pixels.
#[derive(Clone, Copy, Debug, Default, PartialEq, Eq, Structural)]
pub struct Size {
    pub width: i32,
    pub height: i32,
}

impl Size {
    pub fn new(width: i32, height: i32) -> (r: Size)
        ensures
            r == (Size { width, height }),
    {
        Size { width, height }
    }
}

/// The pixel encodings the pipeline works with.
#[derive(Clone, Copy, Debug, PartialEq, Eq, Structural)]
pub enum ImageFormat {
    /// Monochrome, 1 bit per pixel, bit `x % 8` of byte `x / 8`.
    Mono1Bpp,
    /// Monochrome, 8 bits per pixel.
    Mono8Bpp,
    /// 32 bits per pixel, byte order B, G, R, A.
    BGRA,
    /// 16 bits per pixel; used by tests and diagnostics.
    DoubleByte,
}

impl ImageFormat {
    /// Bits per pixel of the format.
    pub open spec fn spec_bpp(self) -> int {
        match self {
            ImageFormat::Mono1Bpp => 1,
            ImageFormat::Mono8Bpp => 8,
            ImageFormat::BGRA => 32,
            ImageFormat::DoubleByte => 16,
        }
    }

    pub fn bpp(&self) -> (r: i32)
        ensures
            r == self.spec_bpp(),
    {
        match self {
            ImageFormat::Mono1Bpp => 1,
            ImageFormat::Mono8Bpp => 8,
            ImageFormat::BGRA => 32,
            ImageFormat::DoubleByte => 16,
        }
    }
}

/// Number of bytes a row of `width` pixels at `bpp` bits per pixel occupies,
/// rounded up to whole bytes.
pub open spec fn spec_minimum_pitch(bpp: int, width: int) -> int {
    (width * bpp + 7) / 8
}

/// Minimum row pitch for `width` pixels at `bpp` bits per pixel.
pub fn minimum_pitch(bpp: i32, width: i32) -> (r: i32)
    requires
        0 <= bpp,
        0 <= width,
        width * bpp + 7 <= i32::MAX,
    ensures
        r == spec_minimum_pitch(bpp as int, width as int),
{
    (width * bpp + 7) / 8
}

/// Format, geometry and backing length of an image. `data_len` is the length
/// of the byte span the header describes; the live bytes of row `y` are
/// `data[y * pitch .. y * pitch + minimum_pitch]`.
#[derive(Clone, Copy, Debug)]
pub struct ImageHeader {
    data_len: usize,
    format: ImageFormat,
    width: i32,
    pitch: i32,
    height: i32,
}

impl ImageHeader {
    pub closed spec fn spec_format(&self) -> ImageFormat {
        self.format
    }

    pub closed spec fn spec_width(&self) -> int {
        self.width as int
    }

    pub closed spec fn spec_height(&self) -> int {
        self.height as int
    }

    pub closed spec fn spec_pitch(&self) -> int {
        self.pitch as int
    }

    pub closed spec fn spec_data_len(&self) -> int {
        self.data_len as int
    }

    /// Bytes of one row that hold live pixel data.
    pub open spec fn spec_row_bytes(&self) -> int {
        spec_minimum_pitch(self.spec_format().spec_bpp(), self.spec_width())
    }

    /// Geometric well-formedness: positive size, pitch at least the live row
    /// length, no index computation overflowing `i32`, and the backing span
    /// covering the live part of every row.
    pub open spec fn valid(&self) -> bool {
        &&& 0 < self.spec_width()
        &&& 0 < self.spec_height()
        &&& self.spec_width() * self.spec_format().spec_bpp() + 7 <= i32::MAX
        &&& 0 < self.spec_row_bytes() <= self.spec_pitch()
        &&& self.spec_height() * self.spec_pitch() <= i32::MAX
        &&& (self.spec_height() - 1) * self.spec_pitch() + self.spec_row_bytes()
            <= self.spec_data_len()
    }

    pub fn format(&self) -> (r: ImageFormat)
        ensures
            r == self.spec_format(),
    {
        self.format
    }

    pub fn width(&self) -> (r: i32)
        ensures
            r == self.spec_width(),
    {
        self.width
    }

    pub fn height(&self) -> (r: i32)
        ensures
            r == self.spec_height(),
    {
        self.height
    }

    pub fn pitch(&self) -> (r: i32)
        ensures
            r == self.spec_pitch(),
    {
        self.pitch
    }

    pub fn data_len(&self) -> (r: usize)
        ensures
            r == self.spec_data_len(),
    {
        self.data_len
    }

    /// Builds a header after checking the invariants the model relies on:
    /// positive size, a pitch of at least the minimum, and a backing span of
    /// at least `height * pitch` bytes.
    pub fn new(format: ImageFormat, data_len: usize, width: i32, height: i32, pitch: Option<
        i32,
    >) -> (r: ImageHeader)
        requires
            0 < width,
            0 < height,
            width * format.spec_bpp() + 7 <= i32::MAX,
            pitch matches Some(p) ==> spec_minimum_pitch(format.spec_bpp(), width as int) <= p,
            height * (match pitch {
                Some(p) => p as int,
                None => spec_minimum_pitch(format.spec_bpp(), width as int),
            }) <= i32::MAX,
            height * (match pitch {
                Some(p) => p as int,
                None => spec_minimum_pitch(format.spec_bpp(), width as int),
            }) <= data_len,
        ensures
            r.valid(),
            r.spec_format() == format,
            r.spec_width() == width,
            r.spec_height() == height,
            r.spec_pitch() == (match pitch {
                Some(p) => p as int,
                None => spec_minimum_pitch(format.spec_bpp(), width as int),
            }),
            r.spec_data_len() == data_len,
            r.spec_height() * r.spec_pitch() <= r.spec_data_len(),
    {
        let min_pitch = minimum_pitch(format.bpp(), width);
        let pitch = match pitch {
            Some(p) => p,
            None => min_pitch,
        };
        proof {
            lemma_div_bound(width as int, format.spec_bpp());
            assert((height - 1) * pitch + min_pitch <= height * pitch) by (nonlinear_arith)
                requires
                    1 <= height,
                    0 <= min_pitch <= pitch,
            ;
        }
        ImageHeader { data_len, format, width, pitch, height }
    }

    /// Header and byte offset of the sub-image of size `size` whose top-left
    /// corner is at `pt`. The sub-image keeps the parent's pitch; its offset
    /// must fall on a byte boundary.
    pub fn subimg(&self, pt: Point, size: Size) -> (r: (ImageHeader, usize))
        requires
            self.valid(),
            (pt.x * self.spec_format().spec_bpp()) % 8 == 0,
            0 <= pt.x < self.spec_width(),
            pt.x + size.width <= self.spec_width(),
            0 <= pt.y < self.spec_height(),
            pt.y + size.height <= self.spec_height(),
            0 < size.width,
            0 < size.height,
        ensures
            r.1 == pt.y * self.spec_pitch() + pt.x * self.spec_format().spec_bpp() / 8,
            r.0.valid(),
            r.0.spec_format() == self.spec_format(),
            r.0.spec_width() == size.width,
            r.0.spec_height() == size.height,
            r.0.spec_pitch() == self.spec_pitch(),
            r.0.spec_data_len() == self.spec_data_len() - r.1,
    {
        proof {
            lemma_subimg_bounds(*self, pt.x as int, pt.y as int, size.width as int,
                size.height as int);
        }
        let offset = (pt.y * self.pitch + pt.x * self.format.bpp() / 8) as usize;
        let hdr = ImageHeader {
            data_len: self.data_len - offset,
            format: self.format,
            width: size.width,
            pitch: self.pitch,
            height: size.height,
        };
        (hdr, offset)
    }
}

/// The minimum pitch never exceeds the byte span `width * bpp / 8 + 1` and is
/// positive for positive width and bpp.
proof fn lemma_div_bound(width: int, bpp: int)
    by (nonlinear_arith)
    requires
        0 < width,
        0 < bpp,
    ensures
        0 < (width * bpp + 7) / 8,
        (width * bpp + 7) / 8 <= width * bpp / 8 + 1,
{
}

/// Bounds needed to carve a sub-image: the offset is nonnegative, fits in the
/// parent, and the sub-image's last live row still lies inside the remaining
/// span; all sub-image index arithmetic stays within `i32`.
proof fn lemma_subimg_bounds(h: ImageHeader, x: int, y: int, w: int, hh: int)
    requires
        h.valid(),
        (x * h.spec_format().spec_bpp()) % 8 == 0,
        0 <= x < h.spec_width(),
        x + w <= h.spec_width(),
        0 <= y < h.spec_height(),
        y + hh <= h.spec_height(),
        0 < w,
        0 < hh,
    ensures
        0 <= y * h.spec_pitch() + x * h.spec_format().spec_bpp() / 8,
        y * h.spec_pitch() + x * h.spec_format().spec_bpp() / 8 + (hh - 1) * h.spec_pitch()
            + spec_minimum_pitch(h.spec_format().spec_bpp(), w) <= h.spec_data_len(),
        y * h.spec_pitch() + x * h.spec_format().spec_bpp() / 8 <= i32::MAX,
        0 <= x * h.spec_format().spec_bpp() <= i32::MAX,
        w * h.spec_format().spec_bpp() + 7 <= i32::MAX,
        hh * h.spec_pitch() <= i32::MAX,
        0 < spec_minimum_pitch(h.spec_format().spec_bpp(), w) <= h.spec_pitch(),
{
    let b = h.spec_format().spec_bpp();
    let p = h.spec_pitch();
    let m = h.spec_data_len();
    assert(0 < b) by {
        assert(b == 1 || b == 8 || b == 16 || b == 32);
    }
    assert(0 <= x * b / 8 && 8 * (x * b / 8) <= x * b) by (nonlinear_arith)
        requires
            0 <= x,
            0 < b,
    ;
    assert(0 <= y * p) by (nonlinear_arith)
        requires
            0 <= y,
            0 < p,
    ;
    // The live span of the sub-image's last row ends at or before the live
    // span of the parent's row y + hh - 1, which valid() bounds by data_len.
    assert((x + w) * b <= h.spec_width() * b) by (nonlinear_arith)
        requires
            x + w <= h.spec_width(),
            0 < b,
    ;
    assert(x * b / 8 + (w * b + 7) / 8 <= (x * b + w * b + 7) / 8) by (nonlinear_arith)
        requires
            0 <= x * b,
            0 <= w * b,
            (x * b) % 8 == 0,
    ;
    assert((x + w) * b == x * b + w * b) by (nonlinear_arith);
    assert((x * b + w * b + 7) / 8 <= (h.spec_width() * b + 7) / 8) by (nonlinear_arith)
        requires
            x * b + w * b <= h.spec_width() * b,
    ;
    assert((y + hh - 1) * p == y * p + (hh - 1) * p) by (nonlinear_arith);
    assert((y + hh - 1) * p <= (h.spec_height() - 1) * p) by (nonlinear_arith)
        requires
            y + hh - 1 <= h.spec_height() - 1,
            0 < p,
    ;
    assert(y * p + (hh - 1) * p + (x * b / 8 + spec_minimum_pitch(b, w)) <= (y + hh - 1) * p
        + h.spec_row_bytes());
    assert(y * p + x * b / 8 + (hh - 1) * p + spec_minimum_pitch(b, w) <= h.spec_data_len());
    assert(y * p + x * b / 8 <= (h.spec_height() - 1) * p + h.spec_row_bytes());
    assert((h.spec_height() - 1) * p + h.spec_row_bytes() <= h.spec_height() * p)
        by (nonlinear_arith)
        requires
            1 <= h.spec_height(),
            0 < h.spec_row_bytes() <= p,
    ;
    assert(hh * p <= h.spec_height() * p) by (nonlinear_arith)
        requires
            hh <= h.spec_height(),
            0 < p,
    ;
    assert(w * b <= h.spec_width() * b) by (nonlinear_arith)
        requires
            w <= h.spec_width(),
            0 < b,
    ;
}

/// Access to an image's header.
pub trait HasImageHeader {
    spec fn spec_header(&self) -> ImageHeader;

    fn header(&self) -> (h: ImageHeader)
        ensures
            h == self.spec_header(),
    ;
}

/// Read access to an image's bytes, plus the derived geometry getters.
pub trait ConstImage: HasImageHeader {
    spec fn spec_img_data(&self) -> Seq<u8>;

    /// The backing bytes; well-formed images have exactly
    /// `spec_header().spec_data_len()` of them.
    fn data(&self) -> (d: &[u8])
        ensures
            d@ == self.spec_img_data(),
    ;

    fn bpp(&self) -> (r: i32)
        ensures
            r == self.spec_header().spec_format().spec_bpp(),
    {
        self.header().format().bpp()
    }

    fn format(&self) -> (r: ImageFormat)
        ensures
            r == self.spec_header().spec_format(),
    {
        self.header().format()
    }

    fn width(&self) -> (r: i32)
        ensures
            r == self.spec_header().spec_width(),
    {
        self.header().width()
    }

    fn height(&self) -> (r: i32)
        ensures
            r == self.spec_header().spec_height(),
    {
        self.header().height()
    }

    fn pitch(&self) -> (r: i32)
        ensures
            r == self.spec_header().spec_pitch(),
    {
        self.header().pitch()
    }

    fn size(&self) -> (r: Size)
        ensures
            r.width == self.spec_header().spec_width(),
            r.height == self.spec_header().spec_height(),
    {
        Size { width: self.header().width(), height: self.header().height() }
    }

    fn is_continuous(&self) -> (r: bool)
        requires
            self.spec_header().valid(),
        ensures
            r == (self.spec_header().spec_pitch() == self.spec_header().spec_row_bytes()),
    {
        let h = self.header();
        h.pitch() == minimum_pitch(h.format().bpp(), h.width())
    }
}

/// A well-formed image: a valid header over exactly the described bytes.
pub open spec fn image_wf<T: ConstImage>(img: &T) -> bool {
    &&& img.spec_header().valid()
    &&& img.spec_img_data().len() == img.spec_header().spec_data_len()
}

/// Write access to an image's bytes.
pub trait Image: ConstImage + Sized {
    /// Overwrites the byte at flat index `idx`.
    fn set_byte(&mut self, idx: usize, val: u8)
        requires
            idx < old(self).spec_img_data().len(),
        ensures
            final(self).spec_header() == old(self).spec_header(),
            final(self).spec_img_data() == old(self).spec_img_data().update(idx as int, val),
    ;

    /// Overwrites every byte of the image, padding included.
    fn fill(&mut self, val: u8)
        requires
            image_wf(old(self)),
        ensures
            image_wf(final(self)),
            final(self).spec_header() == old(self).spec_header(),
            final(self).spec_img_data() == Seq::new(old(self).spec_img_data().len(),
                |i: int| val),
    ;
}

/// A read-only view of externally owned bytes.
pub struct ConstImageView<'a> {
    header: ImageHeader,
    data: &'a [u8],
}

impl<'a> HasImageHeader for ConstImageView<'a> {
    closed spec fn spec_header(&self) -> ImageHeader {
        self.header
    }

    fn header(&self) -> (h: ImageHeader) {
        self.header
    }
}

impl<'a> ConstImage for ConstImageView<'a> {
    closed spec fn spec_img_data(&self) -> Seq<u8> {
        self.data@
    }

    fn data(&self) -> (d: &[u8]) {
        self.data
    }
}

impl<'a> ConstImageView<'a> {
    pub fn new(format: ImageFormat, data: &'a [u8], width: i32, height: i32, pitch: Option<
        i32,
    >) -> (r: ConstImageView<'a>)
        requires
            0 < width,
            0 < height,
            width * format.spec_bpp() + 7 <= i32::MAX,
            pitch matches Some(p) ==> spec_minimum_pitch(format.spec_bpp(), width as int) <= p,
            height * (match pitch {
                Some(p) => p as int,
                None => spec_minimum_pitch(format.spec_bpp(), width as int),
            }) <= i32::MAX,
            height * (match pitch {
                Some(p) => p as int,
                None => spec_minimum_pitch(format.spec_bpp(), width as int),
            }) <= data@.len(),
        ensures
            image_wf(&r),
            r.spec_img_data() == data@,
            r.spec_header().spec_format() == format,
            r.spec_header().spec_width() == width,
            r.spec_header().spec_height() == height,
            r.spec_header().spec_pitch() == (match pitch {
                Some(p) => p as int,
                None => spec_minimum_pitch(format.spec_bpp(), width as int),
            }),
            r.spec_header().spec_height() * r.spec_header().spec_pitch()
                <= r.spec_header().spec_data_len(),
    {
        let header = ImageHeader::new(format, data.len(), width, height, pitch);
        ConstImageView { header, data }
    }

    /// The read-only sub-image of size `size` with top-left corner `pt`,
    /// borrowing the same bytes from its offset on.
    pub fn subimg(&self, pt: Point, size: Size) -> (r: ConstImageView<'a>)
        requires
            image_wf(self),
            (pt.x * self.spec_header().spec_format().spec_bpp()) % 8 == 0,
            0 <= pt.x < self.spec_header().spec_width(),
            pt.x + size.width <= self.spec_header().spec_width(),
            0 <= pt.y < self.spec_header().spec_height(),
            pt.y + size.height <= self.spec_header().spec_height(),
            0 < size.width,
            0 < size.height,
        ensures
            image_wf(&r),
            r.spec_header().spec_format() == self.spec_header().spec_format(),
            r.spec_header().spec_width() == size.width,
            r.spec_header().spec_height() == size.height,
            r.spec_header().spec_pitch() == self.spec_header().spec_pitch(),
            r.spec_img_data() == self.spec_img_data().subrange(
                pt.y * self.spec_header().spec_pitch() + pt.x
                    * self.spec_header().spec_format().spec_bpp() / 8,
                self.spec_img_data().len() as int,
            ),
    {
        let (hdr, offset) = self.header.subimg(pt, size);
        let sub = vstd::slice::slice_subrange(self.data, offset, self.data.len());
        ConstImageView { header: hdr, data: sub }
    }

    /// The bytes of the live part of row `y`.
    pub fn row(&self, y: i32) -> (r: &'a [u8])
        requires
            image_wf(self),
            0 <= y < self.spec_header().spec_height(),
        ensures
            r@ == self.spec_img_data().subrange(
                y * self.spec_header().spec_pitch(),
                y * self.spec_header().spec_pitch() + self.spec_header().spec_row_bytes(),
            ),
    {
        proof {
            lemma_row_bounds(self.spec_header(), y as int);
        }
        let start = (y as usize) * (self.header.pitch() as usize);
        let end = start + (minimum_pitch(self.header.format().bpp(), self.header.width())
            as usize);
        vstd::slice::slice_subrange(self.data, start, end)
    }

    /// The full `pitch` bytes of row `y`, padding included.
    pub fn row_padded(&self, y: i32) -> (r: &'a [u8])
        requires
            image_wf(self),
            0 <= y < self.spec_header().spec_height(),
            (y + 1) * self.spec_header().spec_pitch() <= self.spec_header().spec_data_len(),
        ensures
            r@ == self.spec_img_data().subrange(
                y * self.spec_header().spec_pitch(),
                (y + 1) * self.spec_header().spec_pitch(),
            ),
    {
        proof {
            lemma_row_bounds(self.spec_header(), y as int);
            assert((y + 1) * self.spec_header().spec_pitch() == y * self.spec_header().spec_pitch()
                + self.spec_header().spec_pitch()) by (nonlinear_arith);
        }
        let start = (y as usize) * (self.header.pitch() as usize);
        let end = start + (self.header.pitch() as usize);
        vstd::slice::slice_subrange(self.data, start, end)
    }

    /// The first `rows * pitch` bytes: the contiguous strip of the first
    /// `rows` rows, padding included.
    pub fn strip(&self, rows: i32) -> (r: &'a [u8])
        requires
            image_wf(self),
            0 < rows <= self.spec_header().spec_height(),
            rows * self.spec_header().spec_pitch() <= self.spec_header().spec_data_len(),
        ensures
            r@ == self.spec_img_data().subrange(0, rows * self.spec_header().spec_pitch()),
    {
        proof {
            assert(0 <= rows * self.spec_header().spec_pitch()) by (nonlinear_arith)
                requires
                    0 < rows,
                    0 < self.spec_header().spec_pitch(),
            ;
        }
        let len = (rows as usize) * (self.header.pitch() as usize);
        vstd::slice::slice_subrange(self.data, 0, len)
    }
}

/// Row `y`'s live span lies inside the data and all its index arithmetic
/// fits the machine types.
pub proof fn lemma_row_bounds(h: ImageHeader, y: int)
    requires
        h.valid(),
        0 <= y < h.spec_height(),
    ensures
        0 <= y * h.spec_pitch(),
        y * h.spec_pitch() + h.spec_row_bytes() <= h.spec_data_len(),
        y * h.spec_pitch() + h.spec_pitch() <= h.spec_height() * h.spec_pitch(),
{
    let p = h.spec_pitch();
    assert(0 <= y * p && y * p <= (h.spec_height() - 1) * p && y * p + p <= h.spec_height() * p)
        by (nonlinear_arith)
        requires
            0 <= y <= h.spec_height() - 1,
            0 < p,
    ;
}

/// An owning image buffer: a byte vector of exactly `pitch * height` bytes
/// plus its header. Created zero-initialized.
pub struct ImageBuffer {
    data: Vec<u8>,
    header: ImageHeader,
}

impl HasImageHeader for ImageBuffer {
    closed spec fn spec_header(&self) -> ImageHeader {
        self.header
    }

    fn header(&self) -> (h: ImageHeader) {
        self.header
    }
}

impl ConstImage for ImageBuffer {
    closed spec fn spec_img_data(&self) -> Seq<u8> {
        self.data@
    }

    fn data(&self) -> (d: &[u8]) {
        self.data.as_slice()
    }
}

impl Image for ImageBuffer {
    fn set_byte(&mut self, idx: usize, val: u8) {
        self.data[idx] = val;
    }

    fn fill(&mut self, val: u8) {
        let len = self.data.len();
        let data: Vec<u8> = vec![val; len];
        proof {
            assert(data@ =~= Seq::new(old(self).spec_img_data().len(), |i: int| val));
        }
        self.data = data;
    }
}

impl ImageBuffer {
    /// A zero-initialized buffer of `pitch * height` bytes (minimum pitch if
    /// none is given).
    pub fn new(format: ImageFormat, width: i32, height: i32, pitch: Option<i32>) -> (r:
        ImageBuffer)
        requires
            0 < width,
            0 < height,
            width * format.spec_bpp() + 7 <= i32::MAX,
            pitch matches Some(p) ==> spec_minimum_pitch(format.spec_bpp(), width as int) <= p,
            height * (match pitch {
                Some(p) => p as int,
                None => spec_minimum_pitch(format.spec_bpp(), width as int),
            }) <= i32::MAX,
        ensures
            image_wf(&r),
            r.spec_header().spec_format() == format,
            r.spec_header().spec_width() == width,
            r.spec_header().spec_height() == height,
            r.spec_header().spec_pitch() == (match pitch {
                Some(p) => p as int,
                None => spec_minimum_pitch(format.spec_bpp(), width as int),
            }),
            r.spec_header().spec_data_len() == height * r.spec_header().spec_pitch(),
            r.spec_img_data() == Seq::new((height * r.spec_header().spec_pitch()) as nat,
                |i: int| 0u8),
    {
        let min_pitch = minimum_pitch(format.bpp(), width);
        let pitch = match pitch {
            Some(p) => p,
            None => min_pitch,
        };
        proof {
            lemma_div_bound(width as int, format.spec_bpp());
            assert(0 < height * pitch) by (nonlinear_arith)
                requires
                    0 < height,
                    0 < pitch,
            ;
            assert(pitch * height == height * pitch) by (nonlinear_arith);
        }
        let len = (pitch as usize) * (height as usize);
        let data = vec![0u8; len];
        let header = ImageHeader::new(format, len, width, height, Some(pitch));
        proof {
            assert(data@ =~= Seq::new((height * pitch) as nat, |i: int| 0u8));
        }
        ImageBuffer { data, header }
    }

    /// A read-only view of the whole buffer.
    pub fn view_img(&self) -> (r: ConstImageView<'_>)
        requires
            image_wf(self),
        ensures
            image_wf(&r),
            r.spec_header() == self.spec_header(),
            r.spec_img_data() == self.spec_img_data(),
    {
        ConstImageView { header: self.header, data: self.data.as_slice() }
    }

    /// The read-only sub-image of size `size` with top-left corner `pt`.
    pub fn subimg(&self, pt: Point, size: Size) -> (r: ConstImageView<'_>)
        requires
            image_wf(self),
            (pt.x * self.spec_header().spec_format().spec_bpp()) % 8 == 0,
            0 <= pt.x < self.spec_header().spec_width(),
            pt.x + size.width <= self.spec_header().spec_width(),
            0 <= pt.y < self.spec_header().spec_height(),
            pt.y + size.height <= self.spec_header().spec_height(),
            0 < size.width,
            0 < size.height,
        ensures
            image_wf(&r),
            r.spec_header().spec_format() == self.spec_header().spec_format(),
            r.spec_header().spec_width() == size.width,
            r.spec_header().spec_height() == size.height,
            r.spec_header().spec_pitch() == self.spec_header().spec_pitch(),
            r.spec_img_data() == self.spec_img_data().subrange(
                pt.y * self.spec_header().spec_pitch() + pt.x
                    * self.spec_header().spec_format().spec_bpp() / 8,
                self.spec_img_data().len() as int,
            ),
    {
        self.view_img().subimg(pt, size)
    }

    /// The byte at flat index `idx`.
    pub fn byte_at(&self, idx: usize) -> (r: u8)
        requires
            idx < self.spec_img_data().len(),
        ensures
            r == self.spec_img_data()[idx as int],
    {
        self.data[idx]
    }

    /// Copies the live part of every row from `src`, which must have the
    /// same size and format. Padding bytes keep their old values.
    pub fn copy_from(&mut self, src: &ConstImageView<'_>)
        requires
            image_wf(old(self)),
            image_wf(src),
            src.spec_header().spec_format() == old(self).spec_header().spec_format(),
            src.spec_header().spec_width() == old(self).spec_header().spec_width(),
            src.spec_header().spec_height() == old(self).spec_header().spec_height(),
        ensures
            image_wf(final(self)),
            final(self).spec_header() == old(self).spec_header(),
            forall|y: int, i: int|
                0 <= y < old(self).spec_header().spec_height() && 0 <= i < old(
                    self,
                ).spec_header().spec_row_bytes() ==> #[trigger] final(self).spec_img_data()[y * old(
                    self,
                ).spec_header().spec_pitch() + i] == src.spec_img_data()[y
                    * src.spec_header().spec_pitch() + i],
            forall|k: int|
                0 <= k < old(self).spec_img_data().len() && !spec_in_live_rows(
                    old(self).spec_header(),
                    k,
                    old(self).spec_header().spec_height(),
                ) ==> final(self).spec_img_data()[k] == old(self).spec_img_data()[k],
    {
        let h = self.header;
        let height = h.height();
        let row_bytes = minimum_pitch(h.format().bpp(), h.width()) as usize;
        let dlen = h.data_len();
        let mut y: i32 = 0;
        while y < height
            invariant
                image_wf(self),
                image_wf(src),
                h == self.spec_header(),
                self.spec_header() == old(self).spec_header(),
                self.spec_img_data().len() == old(self).spec_img_data().len(),
                src.spec_header().spec_format() == h.spec_format(),
                src.spec_header().spec_width() == h.spec_width(),
                src.spec_header().spec_height() == h.spec_height(),
                height == h.spec_height(),
                row_bytes == h.spec_row_bytes(),
                dlen == h.spec_data_len(),
                0 <= y <= height,
                forall|yy: int, i: int|
                    0 <= yy < y && 0 <= i < h.spec_row_bytes() ==> #[trigger] self.spec_img_data()[yy
                        * h.spec_pitch() + i] == src.spec_img_data()[yy
                        * src.spec_header().spec_pitch() + i],
                forall|k: int|
                    0 <= k < self.spec_img_data().len() && !spec_in_live_rows(h, k, y as int)
                        ==> self.spec_img_data()[k] == old(self).spec_img_data()[k],
            decreases height - y,
        {
            proof {
                lemma_row_bounds(h, y as int);
                lemma_row_bounds(src.spec_header(), y as int);
            }
            let src_row = src.row(y);
            let dst_start = (y as usize) * (h.pitch() as usize);
            let ghost snap = self.spec_img_data();
            proof {
                assert(forall|yy: int, i: int|
                    0 <= yy < y && 0 <= i < h.spec_row_bytes() ==> #[trigger] snap[yy
                        * h.spec_pitch() + i] == src.spec_img_data()[yy
                        * src.spec_header().spec_pitch() + i]);
                assert(forall|k: int|
                    0 <= k < snap.len() && !spec_in_live_rows(h, k, y as int) ==> snap[k] == old(
                        self,
                    ).spec_img_data()[k]);
            }
            let mut i: usize = 0;
            while i < row_bytes
                invariant
                    image_wf(self),
                    h == self.spec_header(),
                    self.spec_header() == old(self).spec_header(),
                    self.spec_img_data().len() == snap.len(),
                    0 <= y < h.spec_height(),
                    row_bytes == h.spec_row_bytes(),
                    dlen == h.spec_data_len(),
                    dst_start == y * h.spec_pitch(),
                    y * h.spec_pitch() + h.spec_row_bytes() <= h.spec_data_len(),
                    src_row@.len() == row_bytes,
                    src_row@ == src.spec_img_data().subrange(
                        y * src.spec_header().spec_pitch(),
                        y * src.spec_header().spec_pitch() + row_bytes,
                    ),
                    0 <= i <= row_bytes,
                    forall|j: int| 0 <= j < i ==> #[trigger] self.spec_img_data()[dst_start + j]
                        == src_row@[j],
                    forall|k: int|
                        0 <= k < snap.len() && !(dst_start <= k < dst_start + i)
                            ==> self.spec_img_data()[k] == snap[k],
                decreases row_bytes - i,
            {
                self.data[dst_start + i] = src_row[i];
                i += 1;
            }
            proof {
                lemma_live_rows_step(h, y as int);
                let cur = self.spec_img_data();
                assert forall|yy: int, ii: int|
                    0 <= yy < y + 1 && 0 <= ii < h.spec_row_bytes() implies #[trigger] cur[yy
                    * h.spec_pitch() + ii] == src.spec_img_data()[yy
                    * src.spec_header().spec_pitch() + ii] by {
                    lemma_row_bounds(h, yy);
                    lemma_row_bounds(src.spec_header(), yy);
                    if yy < y {
                        assert(yy * h.spec_pitch() + ii < y * h.spec_pitch()) by (nonlinear_arith)
                            requires
                                yy + 1 <= y,
                                0 <= ii < h.spec_row_bytes(),
                                h.spec_row_bytes() <= h.spec_pitch(),
                        ;
                        assert(cur[yy * h.spec_pitch() + ii] == snap[yy * h.spec_pitch() + ii]);
                    } else {
                        assert(cur[y * h.spec_pitch() + ii] == src_row@[ii]);
                    }
                }
                assert forall|k: int|
                    0 <= k < cur.len() && !spec_in_live_rows(h, k, y as int + 1) implies cur[k]
                    == old(self).spec_img_data()[k] by {
                    assert(!(spec_in_live_rows(h, k, y as int) || (y * h.spec_pitch() <= k < y
                        * h.spec_pitch() + h.spec_row_bytes())));
                }
            }
            y += 1;
        }
    }
}

/// Byte-for-byte equality of two spans.
pub fn bytes_equal(a: &[u8], b: &[u8]) -> (r: bool)
    ensures
        r == (a@ == b@),
{
    if a.len() != b.len() {
        proof {
            assert(a@.len() != b@.len());
        }
        return false;
    }
    let n = a.len();
    let mut i: usize = 0;
    while i < n
        invariant
            n == a@.len(),
            n == b@.len(),
            0 <= i <= n,
            forall|j: int| 0 <= j < i ==> a@[j] == b@[j],
        decreases n - i,
    {
        if a[i] != b[i] {
            return false;
        }
        i += 1;
    }
    proof {
        assert(a@ =~= b@);
    }
    true
}

/// Flat byte index of offset `i` in row `y`.
pub open spec fn spec_live_index(h: ImageHeader, y: int, i: int) -> int {
    y * h.spec_pitch() + i
}

/// Whether byte index `k` lies in the live span of one of the first `rows`
/// rows of `h`.
pub open spec fn spec_in_live_rows(h: ImageHeader, k: int, rows: int) -> bool {
    exists|y: int, i: int|
        0 <= y < rows && 0 <= i < h.spec_row_bytes() && k == #[trigger] spec_live_index(h, y, i)
}

/// Byte `y * pitch + i` of row `y`'s live span lies in no earlier row's
/// live span.
pub proof fn lemma_live_rows_disjoint(h: ImageHeader, y: int, i: int)
    requires
        h.valid(),
        0 <= y < h.spec_height(),
        0 <= i < h.spec_row_bytes(),
    ensures
        !spec_in_live_rows(h, y * h.spec_pitch() + i, y),
{
    let p = h.spec_pitch();
    assert forall|yy: int, ii: int|
        0 <= yy < y && 0 <= ii < h.spec_row_bytes() implies #[trigger] spec_live_index(h, yy, ii)
        != y * p + i by {
        assert(yy * p + p <= y * p) by (nonlinear_arith)
            requires
                yy + 1 <= y,
                0 < p,
        ;
    }
}

/// Extending the live-row region by one row adds exactly row `y`'s span.
pub proof fn lemma_live_rows_step(h: ImageHeader, y: int)
    requires
        h.valid(),
        0 <= y < h.spec_height(),
    ensures
        forall|k: int|
            #![trigger spec_in_live_rows(h, k, y + 1)]
            #![trigger spec_in_live_rows(h, k, y)]
            spec_in_live_rows(h, k, y + 1) <==> (spec_in_live_rows(h, k, y) || (y * h.spec_pitch()
                <= k < y * h.spec_pitch() + h.spec_row_bytes())),
{
    assert forall|k: int|
        spec_in_live_rows(h, k, y + 1) <==> (spec_in_live_rows(h, k, y) || (y * h.spec_pitch()
            <= k < y * h.spec_pitch() + h.spec_row_bytes())) by {
        if spec_in_live_rows(h, k, y + 1) {
            let (yy, ii): (int, int) = choose|yy: int, ii: int|
                0 <= yy < y + 1 && 0 <= ii < h.spec_row_bytes() && k == #[trigger] spec_live_index(
                    h,
                    yy,
                    ii,
                );
            if yy < y {
                assert(spec_in_live_rows(h, k, y));
            } else {
                assert(k == y * h.spec_pitch() + ii);
            }
        }
        if y * h.spec_pitch() <= k < y * h.spec_pitch() + h.spec_row_bytes() {
            assert(0 <= y < y + 1 && 0 <= k - y * h.spec_pitch() < h.spec_row_bytes() && k
                == spec_live_index(h, y, k - y * h.spec_pitch()));
            assert(spec_in_live_rows(h, k, y + 1));
        }
        if spec_in_live_rows(h, k, y) {
            let (yy, ii): (int, int) = choose|yy: int, ii: int|
                0 <= yy < y && 0 <= ii < h.spec_row_bytes() && k == #[trigger] spec_live_index(
                    h,
                    yy,
                    ii,
                );
            assert(0 <= yy < y + 1 && 0 <= ii < h.spec_row_bytes() && k == spec_live_index(
                h,
                yy,
                ii,
            ));
            assert(spec_in_live_rows(h, k, y + 1));
        }
    }
}

} // verus!

pub mod convert;
