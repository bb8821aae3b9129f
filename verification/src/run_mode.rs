//! The user-selected run mode: which pixel pipeline feeds the panel and
//! which waveforms the scheduler uses, plus the parser for the one-line
//! configuration token that selects it.

use crate::driver::it8915::{DisplayMode, MemMode};
use crate::image::bytes_equal;
use crate::imgproc::DitheringMethod;
use vstd::prelude::*;

verus! {

#[derive(Clone, Copy, Debug, PartialEq, Eq, Structural)]
pub enum RunMode {
    /// Ordered-dithered monochrome in 1-bpp device memory.
    Mono(DitheringMethod),
    /// The same mono pipeline, stored unpacked in 8-bpp device memory.
    MonoForce8bpp(DitheringMethod),
    /// 16-level gray via error diffusion, in 8-bpp device memory.
    Gray,
}

impl Default for RunMode {
    fn default() -> (r: Self)
        ensures
            r == RunMode::Mono(DitheringMethod::Bayers4),
    {
        RunMode::Mono(DitheringMethod::Bayers4)
    }
}

impl RunMode {
    /// The waveform for small edits: A2 for mono modes, GL16 for gray.
    pub open spec fn spec_display_mode_fast(self) -> DisplayMode {
        match self {
            RunMode::Mono(_) | RunMode::MonoForce8bpp(_) => DisplayMode::A2,
            RunMode::Gray => DisplayMode::GL16,
        }
    }

    pub fn display_mode_fast(&self) -> (r: DisplayMode)
        ensures
            r == self.spec_display_mode_fast(),
    {
        match self {
            RunMode::Mono(_) | RunMode::MonoForce8bpp(_) => DisplayMode::A2,
            RunMode::Gray => DisplayMode::GL16,
        }
    }

    /// The waveform for large changes: DU for mono modes, GL16 for gray.
    pub open spec fn spec_display_mode_slow(self) -> DisplayMode {
        match self {
            RunMode::Mono(_) | RunMode::MonoForce8bpp(_) => DisplayMode::DU,
            RunMode::Gray => DisplayMode::GL16,
        }
    }

    pub fn display_mode_slow(&self) -> (r: DisplayMode)
        ensures
            r == self.spec_display_mode_slow(),
    {
        match self {
            RunMode::Mono(_) | RunMode::MonoForce8bpp(_) => DisplayMode::DU,
            RunMode::Gray => DisplayMode::GL16,
        }
    }

    /// The device memory encoding the mode stores frames in.
    pub open spec fn spec_mem_mode(self) -> MemMode {
        match self {
            RunMode::Mono(_) => MemMode::Mem1bpp,
            RunMode::MonoForce8bpp(_) => MemMode::Mem8bpp,
            RunMode::Gray => MemMode::Mem8bpp,
        }
    }

    pub fn mem_mode(&self) -> (r: MemMode)
        ensures
            r == self.spec_mem_mode(),
    {
        match self {
            RunMode::Mono(_) => MemMode::Mem1bpp,
            RunMode::MonoForce8bpp(_) => MemMode::Mem8bpp,
            RunMode::Gray => MemMode::Mem8bpp,
        }
    }

    /// The ordered-dithering method of the mono modes; the gray mode has
    /// none.
    pub open spec fn spec_dithering_method(self) -> Option<DitheringMethod> {
        match self {
            RunMode::Mono(v) => Some(v),
            RunMode::MonoForce8bpp(v) => Some(v),
            RunMode::Gray => None,
        }
    }

    pub fn dithering_method(&self) -> (r: Option<DitheringMethod>)
        ensures
            r == self.spec_dithering_method(),
    {
        match self {
            RunMode::Mono(v) => Some(*v),
            RunMode::MonoForce8bpp(v) => Some(*v),
            RunMode::Gray => None,
        }
    }

    /// Parses a configuration file's content: the content with trailing
    /// ASCII whitespace removed must be one of the known tokens; anything
    /// else is rejected and the caller keeps its previous mode.
    pub fn parse_config(content: &[u8]) -> (r: Option<RunMode>)
        ensures
            r == spec_run_mode_of(spec_trim_end(content@)),
    {
        let mut end = content.len();
        proof {
            assert(content@.subrange(0, end as int) =~= content@);
        }
        while end > 0 && is_ascii_space(content[end - 1])
            invariant
                0 <= end <= content@.len(),
                spec_trim_end(content@) == spec_trim_end(content@.subrange(0, end as int)),
            decreases end,
        {
            proof {
                assert(content@.subrange(0, end as int).drop_last() =~= content@.subrange(
                    0,
                    end as int - 1,
                ));
            }
            end = end - 1;
        }
        proof {
            if end > 0 {
                assert(!spec_is_ascii_space(content@.subrange(0, end as int).last()));
            }
            assert(spec_trim_end(content@.subrange(0, end as int)) == content@.subrange(
                0,
                end as int,
            ));
        }
        let trimmed = vstd::slice::slice_subrange(content, 0, end);
        {
        let mut tok: Vec<u8> = Vec::new();
        tok.push(109);
        tok.push(111);
        tok.push(110);
        tok.push(111);
        tok.push(95);
        tok.push(98);
        tok.push(97);
        tok.push(121);
        tok.push(101);
        tok.push(114);
        tok.push(115);
        tok.push(52);
            proof {
                assert(tok@ =~= spec_token_mono_bayers4());
            }
            if bytes_equal(trimmed, tok.as_slice()) {
                return Some(RunMode::Mono(DitheringMethod::Bayers4));
            }
        }
        {
        let mut tok: Vec<u8> = Vec::new();
        tok.push(109);
        tok.push(111);
        tok.push(110);
        tok.push(111);
        tok.push(95);
        tok.push(98);
        tok.push(97);
        tok.push(121);
        tok.push(101);
        tok.push(114);
        tok.push(115);
        tok.push(50);
            proof {
                assert(tok@ =~= spec_token_mono_bayers2());
            }
            if bytes_equal(trimmed, tok.as_slice()) {
                return Some(RunMode::Mono(DitheringMethod::Bayers2));
            }
        }
        {
        let mut tok: Vec<u8> = Vec::new();
        tok.push(109);
        tok.push(111);
        tok.push(110);
        tok.push(111);
        tok.push(95);
        tok.push(110);
        tok.push(97);
        tok.push(105);
        tok.push(118);
        tok.push(101);
            proof {
                assert(tok@ =~= spec_token_mono_naive());
            }
            if bytes_equal(trimmed, tok.as_slice()) {
                return Some(RunMode::Mono(DitheringMethod::NoDithering));
            }
        }
        {
        let mut tok: Vec<u8> = Vec::new();
        tok.push(109);
        tok.push(111);
        tok.push(110);
        tok.push(111);
        tok.push(95);
        tok.push(56);
        tok.push(98);
        tok.push(112);
        tok.push(112);
        tok.push(95);
        tok.push(98);
        tok.push(97);
        tok.push(121);
        tok.push(101);
        tok.push(114);
        tok.push(115);
        tok.push(52);
            proof {
                assert(tok@ =~= spec_token_mono_8bpp_bayers4());
            }
            if bytes_equal(trimmed, tok.as_slice()) {
                return Some(RunMode::MonoForce8bpp(DitheringMethod::Bayers4));
            }
        }
        {
        let mut tok: Vec<u8> = Vec::new();
        tok.push(109);
        tok.push(111);
        tok.push(110);
        tok.push(111);
        tok.push(95);
        tok.push(56);
        tok.push(98);
        tok.push(112);
        tok.push(112);
        tok.push(95);
        tok.push(98);
        tok.push(97);
        tok.push(121);
        tok.push(101);
        tok.push(114);
        tok.push(115);
        tok.push(50);
            proof {
                assert(tok@ =~= spec_token_mono_8bpp_bayers2());
            }
            if bytes_equal(trimmed, tok.as_slice()) {
                return Some(RunMode::MonoForce8bpp(DitheringMethod::Bayers2));
            }
        }
        {
        let mut tok: Vec<u8> = Vec::new();
        tok.push(109);
        tok.push(111);
        tok.push(110);
        tok.push(111);
        tok.push(95);
        tok.push(56);
        tok.push(98);
        tok.push(112);
        tok.push(112);
        tok.push(95);
        tok.push(110);
        tok.push(97);
        tok.push(105);
        tok.push(118);
        tok.push(101);
            proof {
                assert(tok@ =~= spec_token_mono_8bpp_naive());
            }
            if bytes_equal(trimmed, tok.as_slice()) {
                return Some(RunMode::MonoForce8bpp(DitheringMethod::NoDithering));
            }
        }
        {
        let mut tok: Vec<u8> = Vec::new();
        tok.push(103);
        tok.push(114);
        tok.push(97);
        tok.push(121);
            proof {
                assert(tok@ =~= spec_token_gray());
            }
            if bytes_equal(trimmed, tok.as_slice()) {
                return Some(RunMode::Gray);
            }
        }
        None
    }
}

/// ASCII space, tab, carriage return or newline.
pub open spec fn spec_is_ascii_space(b: u8) -> bool {
    b == 32 || b == 9 || b == 13 || b == 10
}

fn is_ascii_space(b: u8) -> (r: bool)
    ensures
        r == spec_is_ascii_space(b),
{
    b == 32 || b == 9 || b == 13 || b == 10
}

/// `s` with trailing ASCII whitespace removed.
pub open spec fn spec_trim_end(s: Seq<u8>) -> Seq<u8>
    decreases s.len(),
{
    if s.len() > 0 && spec_is_ascii_space(s.last()) {
        spec_trim_end(s.drop_last())
    } else {
        s
    }
}

/// The configuration token "mono_bayers4".
pub open spec fn spec_token_mono_bayers4() -> Seq<u8> {
    seq![109u8, 111u8, 110u8, 111u8, 95u8, 98u8, 97u8, 121u8, 101u8, 114u8, 115u8, 52u8]
}

/// The configuration token "mono_bayers2".
pub open spec fn spec_token_mono_bayers2() -> Seq<u8> {
    seq![109u8, 111u8, 110u8, 111u8, 95u8, 98u8, 97u8, 121u8, 101u8, 114u8, 115u8, 50u8]
}

/// The configuration token "mono_naive".
pub open spec fn spec_token_mono_naive() -> Seq<u8> {
    seq![109u8, 111u8, 110u8, 111u8, 95u8, 110u8, 97u8, 105u8, 118u8, 101u8]
}

/// The configuration token "mono_8bpp_bayers4".
pub open spec fn spec_token_mono_8bpp_bayers4() -> Seq<u8> {
    seq![109u8, 111u8, 110u8, 111u8, 95u8, 56u8, 98u8, 112u8, 112u8, 95u8, 98u8, 97u8, 121u8, 101u8, 114u8, 115u8, 52u8]
}

/// The configuration token "mono_8bpp_bayers2".
pub open spec fn spec_token_mono_8bpp_bayers2() -> Seq<u8> {
    seq![109u8, 111u8, 110u8, 111u8, 95u8, 56u8, 98u8, 112u8, 112u8, 95u8, 98u8, 97u8, 121u8, 101u8, 114u8, 115u8, 50u8]
}

/// The configuration token "mono_8bpp_naive".
pub open spec fn spec_token_mono_8bpp_naive() -> Seq<u8> {
    seq![109u8, 111u8, 110u8, 111u8, 95u8, 56u8, 98u8, 112u8, 112u8, 95u8, 110u8, 97u8, 105u8, 118u8, 101u8]
}

/// The configuration token "gray".
pub open spec fn spec_token_gray() -> Seq<u8> {
    seq![103u8, 114u8, 97u8, 121u8]
}

/// The run mode a trimmed configuration token denotes, if any.
pub open spec fn spec_run_mode_of(t: Seq<u8>) -> Option<RunMode> {
    if t == spec_token_mono_bayers4() {
        Some(RunMode::Mono(DitheringMethod::Bayers4))
    } else
    if t == spec_token_mono_bayers2() {
        Some(RunMode::Mono(DitheringMethod::Bayers2))
    } else
    if t == spec_token_mono_naive() {
        Some(RunMode::Mono(DitheringMethod::NoDithering))
    } else
    if t == spec_token_mono_8bpp_bayers4() {
        Some(RunMode::MonoForce8bpp(DitheringMethod::Bayers4))
    } else
    if t == spec_token_mono_8bpp_bayers2() {
        Some(RunMode::MonoForce8bpp(DitheringMethod::Bayers2))
    } else
    if t == spec_token_mono_8bpp_naive() {
        Some(RunMode::MonoForce8bpp(DitheringMethod::NoDithering))
    } else
    if t == spec_token_gray() {
        Some(RunMode::Gray)
    } else {
        None
    }
}

} // verus!
