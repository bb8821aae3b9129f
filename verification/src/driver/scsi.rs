//! Byte-level transport to the controller: every command is a 16-byte CDB,
//! optionally accompanied by a data transfer to or from the device. The
//! concrete channel (USB bulk-only or a kernel SCSI ioctl) implements
//! `DeviceIO` outside the library; its history of transfers is the model
//! every controller contract is stated over. The USB bulk-only command
//! framing itself (CBW tags and CSW checking) is implemented here.

use crate::error::Error;
use vstd::bytes::{spec_u32_from_le_bytes, spec_u32_to_le_bytes, u32_to_le_bytes};
use vstd::prelude::*;

verus! {

/// One transfer on the wire: a 16-byte command block, and the data that
/// accompanied it, in the direction the flag names.
pub ghost struct Transfer {
    pub cdb: Seq<u8>,
    pub data: Seq<u8>,
    pub is_read: bool,
}

/// The total number of data bytes carried by a sequence of transfers.
pub open spec fn spec_transfers_data_len(ts: Seq<Transfer>) -> int
    decreases ts.len(),
{
    if ts.len() == 0 {
        0
    } else {
        spec_transfers_data_len(ts.drop_last()) + ts.last().data.len()
    }
}

/// A byte-level request/response channel to the display controller. The
/// library never opens the channel itself; an implementation is handed in
/// from outside. Its specification is the transfer history: each successful
/// call appends exactly one transfer.
pub trait DeviceIO: Sized {
    /// All transfers performed so far, oldest first. Outside
    /// implementations are unverified and leave this at its default; the
    /// contracts below describe how each call extends it.
    open spec fn transfers(&self) -> Seq<Transfer> {
        Seq::empty()
    }

    /// Sends `cdb` with outgoing `data`.
    fn io_write(&mut self, cdb: &[u8; 16], data: &[u8]) -> (r: Result<(), Error>)
        ensures
            r is Ok ==> final(self).transfers() == old(self).transfers().push(
                Transfer { cdb: cdb@, data: data@, is_read: false },
            ),
    ;

    /// Sends `cdb` and fills `data` with as many bytes from the device as
    /// it has room for. What the device answers is not constrained; only
    /// the shape of the transfer is.
    fn io_read(&mut self, cdb: &[u8; 16], data: &mut Vec<u8>) -> (r: Result<(), Error>)
        ensures
            r is Ok ==> final(data)@.len() == old(data)@.len() && final(self).transfers() == old(
                self,
            ).transfers().push(Transfer { cdb: cdb@, data: final(data)@, is_read: true }),
    ;
}

/// The device handle the controller talks through: a thin, contract-
/// preserving wrapper around a `DeviceIO` channel.
pub struct Device<D: DeviceIO> {
    io: D,
}

impl<D: DeviceIO> Device<D> {
    /// All transfers performed so far, oldest first.
    pub closed spec fn transfers(&self) -> Seq<Transfer> {
        self.io.transfers()
    }

    pub fn new(io: D) -> (r: Device<D>)
        ensures
            r.transfers() == io.transfers(),
    {
        Device { io }
    }

    /// Sends `cdb` with outgoing `data`.
    pub fn io_write(&mut self, cdb: &[u8; 16], data: &[u8]) -> (r: Result<(), Error>)
        ensures
            r is Ok ==> final(self).transfers() == old(self).transfers().push(
                Transfer { cdb: cdb@, data: data@, is_read: false },
            ),
    {
        self.io.io_write(cdb, data)
    }

    /// Sends `cdb` and fills `data` from the device.
    pub fn io_read(&mut self, cdb: &[u8; 16], data: &mut Vec<u8>) -> (r: Result<(), Error>)
        ensures
            r is Ok ==> final(data)@.len() == old(data)@.len() && final(self).transfers() == old(
                self,
            ).transfers().push(Transfer { cdb: cdb@, data: final(data)@, is_read: true }),
    {
        self.io.io_read(cdb, data)
    }
}

/// The 31 bytes of a USB bulk-only Command Block Wrapper: the "USBC"
/// signature, the tag and the data length little-endian, the direction
/// flag (0x80 for device-to-host), LUN 0, the CDB length, and the CDB.
pub open spec fn spec_cbw_bytes(tag: u32, data_len: u32, direction_in: bool, cdb: Seq<u8>) -> Seq<
    u8,
> {
    seq![0x55u8, 0x53u8, 0x42u8, 0x43u8] + spec_u32_to_le_bytes(tag) + spec_u32_to_le_bytes(
        data_len,
    ) + seq![
        (if direction_in {
            0x80u8
        } else {
            0x00u8
        }),
        0x00u8,
        (cdb.len() as u8),
    ] + cdb
}

/// USB bulk-only command framing state: the tag the next command block
/// will carry. Tags count up by one, wrapping at 2^32, and advance only
/// when the matching command status has been checked.
pub struct CbwFramer {
    next_tag: u32,
}

impl CbwFramer {
    /// The tag the next command block will carry.
    pub closed spec fn spec_tag(&self) -> u32 {
        self.next_tag
    }

    pub fn new() -> (r: CbwFramer)
        ensures
            r.spec_tag() == 0,
    {
        CbwFramer { next_tag: 0 }
    }

    pub fn tag(&self) -> (r: u32)
        ensures
            r == self.spec_tag(),
    {
        self.next_tag
    }

    /// The command block wrapper followed by the command itself, carrying
    /// the current tag: what a bulk-only transport writes to its out
    /// endpoint before the data phase.
    pub fn pack_cbw_and_cdb(&self, cmd: &[u8; 16], data_len: u32, direction_in: bool) -> (r: Vec<
        u8,
    >)
        ensures
            r@ == spec_cbw_bytes(self.spec_tag(), data_len, direction_in, cmd@),
            r@.len() == 31,
    {
        let mut r: Vec<u8> = Vec::new();
        r.push(0x55);
        r.push(0x53);
        r.push(0x42);
        r.push(0x43);
        let mut tag_bytes = u32_to_le_bytes(self.next_tag);
        r.append(&mut tag_bytes);
        let mut len_bytes = u32_to_le_bytes(data_len);
        r.append(&mut len_bytes);
        r.push(if direction_in {
            0x80
        } else {
            0x00
        });
        r.push(0x00);
        r.push(16);
        let mut i: usize = 0;
        while i < 16
            invariant
                0 <= i <= 16,
                r@.len() == 15 + i,
                r@ == seq![0x55u8, 0x53u8, 0x42u8, 0x43u8] + spec_u32_to_le_bytes(self.spec_tag())
                    + spec_u32_to_le_bytes(data_len) + seq![
                    (if direction_in {
                        0x80u8
                    } else {
                        0x00u8
                    }),
                    0x00u8,
                    16u8,
                ] + cmd@.subrange(0, i as int),
            decreases 16 - i,
        {
            r.push(cmd[i]);
            proof {
                assert(r@ =~= seq![0x55u8, 0x53u8, 0x42u8, 0x43u8] + spec_u32_to_le_bytes(
                    self.spec_tag(),
                ) + spec_u32_to_le_bytes(data_len) + seq![
                    (if direction_in {
                        0x80u8
                    } else {
                        0x00u8
                    }),
                    0x00u8,
                    16u8,
                ] + cmd@.subrange(0, i + 1));
            }
            i += 1;
        }
        proof {
            assert(cmd@.subrange(0, 16) =~= cmd@);
            assert(r@ =~= spec_cbw_bytes(self.spec_tag(), data_len, direction_in, cmd@));
        }
        r
    }

    /// Checks a 13-byte Command Status Wrapper against the in-flight tag:
    /// accepted exactly when the status carries the tag of the command just
    /// sent, and only then does the tag advance by one, wrapping at 2^32.
    pub fn check_status(&mut self, csw: &[u8]) -> (r: Result<(), Error>)
        requires
            csw@.len() == 13,
        ensures
            r is Ok <==> spec_u32_from_le_bytes(csw@.subrange(4, 8)) == old(self).spec_tag(),
            r is Ok ==> final(self).spec_tag() == (old(self).spec_tag() + 1) % 0x1_0000_0000,
            r is Err ==> final(self).spec_tag() == old(self).spec_tag() && r == Err::<(), Error>(
                Error::Transport,
            ),
    {
        let csw_tag = vstd::bytes::u32_from_le_bytes(vstd::slice::slice_subrange(csw, 4, 8));
        if csw_tag != self.next_tag {
            return Err(Error::Transport);
        }
        if self.next_tag == u32::MAX {
            self.next_tag = 0;
            proof {
                assert((0xffff_ffffu32 + 1) % 0x1_0000_0000 == 0);
            }
        } else {
            self.next_tag = self.next_tag + 1;
        }
        Ok(())
    }
}

/// The tag of a command block is recoverable from its wire bytes: the
/// little-endian field at offsets 4 to 8 decodes to the tag the framer
/// carried. Together with `check_status`, this pins tag monotonicity:
/// consecutive accepted commands carry tags that differ by exactly one,
/// modulo 2^32.
pub proof fn lemma_cbw_tag_field(tag: u32, data_len: u32, direction_in: bool, cdb: Seq<u8>)
    ensures
        spec_u32_from_le_bytes(spec_cbw_bytes(tag, data_len, direction_in, cdb).subrange(4, 8))
            == tag,
{
    vstd::bytes::lemma_auto_spec_u32_to_from_le_bytes();
    assert(spec_cbw_bytes(tag, data_len, direction_in, cdb).subrange(4, 8) =~= spec_u32_to_le_bytes(
        tag,
    ));
}

} // verus!
