//! The pull-style capture interface the refresh scheduler consumes. The
//! concrete screen grabbers (X11, generic capture, raw-frame streams) live
//! outside the library and implement this trait.

use crate::error::Error;
use crate::image::{image_wf, ConstImage, HasImageHeader, ImageBuffer, ImageFormat, Size};
use vstd::prelude::*;

verus! {

/// A source of BGRA frames of a fixed, declared size. A failed grab means
/// "frame not ready"; the scheduler backs off and retries.
pub trait Source: Sized {
    /// The size every produced frame has. Outside implementations are
    /// unverified and leave this at its default; `frame_size` reports it.
    open spec fn spec_frame_size(&self) -> Size {
        Size { width: 0, height: 0 }
    }

    fn frame_size(&self) -> (r: Size)
        ensures
            r == self.spec_frame_size(),
    ;

    /// Grabs the most recent frame. A well-formed BGRA image of the
    /// declared size comes back, or a transient error.
    fn get_frame(&mut self) -> (r: Result<ImageBuffer, Error>)
        ensures
            final(self).spec_frame_size() == old(self).spec_frame_size(),
            r matches Ok(f) ==> image_wf(&f) && f.spec_header().spec_format() == ImageFormat::BGRA
                && f.spec_header().spec_width() == old(self).spec_frame_size().width
                && f.spec_header().spec_height() == old(self).spec_frame_size().height,
    ;
}

} // verus!
