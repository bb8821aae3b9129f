//! Big-endian integer fields as they appear inside the controller's 16-byte
//! command blocks and in the sysinfo structure it returns.

use vstd::prelude::*;

verus! {

/// The `u32` denoted by four bytes in big-endian order.
pub open spec fn spec_u32_from_be_bytes(s: Seq<u8>) -> u32
    recommends
        s.len() == 4,
{
    ((s[0] as u32) << 24) | ((s[1] as u32) << 16) | ((s[2] as u32) << 8) | (s[3] as u32)
}

/// The big-endian four-byte encoding of a `u32`.
pub open spec fn spec_u32_to_be_bytes(x: u32) -> Seq<u8> {
    seq![
        ((x >> 24) & 0xff) as u8,
        ((x >> 16) & 0xff) as u8,
        ((x >> 8) & 0xff) as u8,
        (x & 0xff) as u8,
    ]
}

/// The `u16` denoted by two bytes in big-endian order.
pub open spec fn spec_u16_from_be_bytes(s: Seq<u8>) -> u16
    recommends
        s.len() == 2,
{
    ((s[0] as u16) << 8) | (s[1] as u16)
}

/// The big-endian two-byte encoding of a `u16`.
pub open spec fn spec_u16_to_be_bytes(x: u16) -> Seq<u8> {
    seq![((x >> 8) & 0xff) as u8, (x & 0xff) as u8]
}

/// Decoding the encoding of `x` gives back `x`.
pub proof fn lemma_u32_be_round_trip(x: u32)
    ensures
        spec_u32_from_be_bytes(spec_u32_to_be_bytes(x)) == x,
{
    assert(((((x >> 24) & 0xff) as u8 as u32) << 24) | ((((x >> 16) & 0xff) as u8 as u32) << 16)
        | ((((x >> 8) & 0xff) as u8 as u32) << 8) | ((x & 0xff) as u8 as u32) == x)
        by (bit_vector);
}

/// Decoding the encoding of `x` gives back `x`.
pub proof fn lemma_u16_be_round_trip(x: u16)
    ensures
        spec_u16_from_be_bytes(spec_u16_to_be_bytes(x)) == x,
{
    assert(((((x >> 8) & 0xff) as u8 as u16) << 8) | ((x & 0xff) as u8 as u16) == x)
        by (bit_vector);
}

/// A 32-bit integer stored as four big-endian bytes, as the device lays it
/// out on the wire.
#[derive(Clone, Copy, Debug)]
pub struct BigEndianU32([u8; 4]);

impl BigEndianU32 {
    /// The raw wire bytes.
    pub closed spec fn spec_bytes(&self) -> Seq<u8> {
        self.0@
    }

    /// The integer the wire bytes denote.
    pub closed spec fn spec_val(&self) -> u32 {
        spec_u32_from_be_bytes(self.0@)
    }

    pub fn from_bytes(b: [u8; 4]) -> (r: Self)
        ensures
            r.spec_bytes() == b@,
    {
        BigEndianU32(b)
    }

    pub fn from_u32(x: u32) -> (r: Self)
        ensures
            r.spec_bytes() == spec_u32_to_be_bytes(x),
            r.spec_val() == x,
    {
        let b0 = ((x >> 24) & 0xff) as u8;
        let b1 = ((x >> 16) & 0xff) as u8;
        let b2 = ((x >> 8) & 0xff) as u8;
        let b3 = (x & 0xff) as u8;
        let r = BigEndianU32([b0, b1, b2, b3]);
        proof {
            assert(r.0@ =~= spec_u32_to_be_bytes(x));
            lemma_u32_be_round_trip(x);
        }
        r
    }

    pub fn val(&self) -> (r: u32)
        ensures
            r == self.spec_val(),
            r == spec_u32_from_be_bytes(self.spec_bytes()),
    {
        ((self.0[0] as u32) << 24) | ((self.0[1] as u32) << 16) | ((self.0[2] as u32) << 8) | (
        self.0[3] as u32)
    }
}

/// A 16-bit integer stored as two big-endian bytes.
#[derive(Clone, Copy, Debug)]
pub struct BigEndianU16([u8; 2]);

impl BigEndianU16 {
    /// The raw wire bytes.
    pub closed spec fn spec_bytes(&self) -> Seq<u8> {
        self.0@
    }

    /// The integer the wire bytes denote.
    pub closed spec fn spec_val(&self) -> u16 {
        spec_u16_from_be_bytes(self.0@)
    }

    pub fn from_bytes(b: [u8; 2]) -> (r: Self)
        ensures
            r.spec_bytes() == b@,
    {
        BigEndianU16(b)
    }

    pub fn from_u16(x: u16) -> (r: Self)
        ensures
            r.spec_bytes() == spec_u16_to_be_bytes(x),
            r.spec_val() == x,
    {
        let b0 = ((x >> 8) & 0xff) as u8;
        let b1 = (x & 0xff) as u8;
        let r = BigEndianU16([b0, b1]);
        proof {
            assert(r.0@ =~= spec_u16_to_be_bytes(x));
            lemma_u16_be_round_trip(x);
        }
        r
    }

    pub fn val(&self) -> (r: u16)
        ensures
            r == self.spec_val(),
            r == spec_u16_from_be_bytes(self.spec_bytes()),
    {
        ((self.0[0] as u16) << 8) | (self.0[1] as u16)
    }
}

} // verus!
