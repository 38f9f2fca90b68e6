//! The fixed-size headers of plugin records, groups and fields.
use vstd::prelude::*;
use crate::bytes::{read_u16_le, read_u32_le, sig_eq};

verus! {

/// Generic header of every record and group (8 bytes): signature and size.
#[derive(Clone, Copy, Debug)]
pub struct GenericHeader {
    pub name: [u8; 4],
    pub dsize: u32,
}

/// Signature `GRUP`.
pub open spec fn sig_grup() -> Seq<u8> { seq![0x47u8, 0x52, 0x55, 0x50] }
/// Signature `TES4`.
pub open spec fn sig_tes4() -> Seq<u8> { seq![0x54u8, 0x45, 0x53, 0x34] }
/// Signature `XXXX`.
pub open spec fn sig_xxxx() -> Seq<u8> { seq![0x58u8, 0x58, 0x58, 0x58] }

impl GenericHeader {
    /// Decodes the 8-byte generic header at the start of `b`; `None` when
    /// fewer than 8 bytes are given.
    pub fn from_bytes(b: &[u8]) -> (r: Option<GenericHeader>)
        ensures
            b@.len() < 8 ==> r is None,
            b@.len() >= 8 ==> (r matches Some(h) && h.name@ == b@.take(4)
                && h.dsize == crate::bytes::le_u32(b@, 4)),
    {
        if b.len() < 8 {
            return None;
        }
        let name = [b[0], b[1], b[2], b[3]];
        assert(name@ =~= b@.take(4));
        Some(GenericHeader { name, dsize: read_u32_le(b, 4) })
    }

    pub fn is_grup(&self) -> (r: bool)
        ensures
            r == (self.name@ == sig_grup()),
    {
        sig_eq(&self.name, &[0x47u8, 0x52, 0x55, 0x50])
    }

    pub fn is_tes4(&self) -> (r: bool)
        ensures
            r == (self.name@ == sig_tes4()),
    {
        sig_eq(&self.name, &[0x54u8, 0x45, 0x53, 0x34])
    }
}

/// Record header data after the generic header (16 bytes).
#[derive(Clone, Copy, Debug)]
pub struct RecordHeaderData {
    pub flags: u32,
    pub form_id: u32,
    pub version: u32,
    pub f_version: u16,
    pub v_info: u16,
}

/// The record flag that marks zlib-compressed record data.
pub const RECORD_FLAG_COMPRESSED: u32 = 0x0004_0000;

impl RecordHeaderData {
    /// Decodes the 16-byte record header data at offset `at` of `b`.
    pub fn from_bytes(b: &[u8], at: usize) -> (r: Option<RecordHeaderData>)
        ensures
            at + 16 > b@.len() ==> r is None,
            at + 16 <= b@.len() ==> (r matches Some(h)
                && h.flags == crate::bytes::le_u32(b@, at as int)
                && h.form_id == crate::bytes::le_u32(b@, at + 4)
                && h.version == crate::bytes::le_u32(b@, at + 8)
                && h.f_version == crate::bytes::le_u16(b@, at + 12)
                && h.v_info == crate::bytes::le_u16(b@, at + 14)),
    {
        if at > b.len() || b.len() - at < 16 {
            return None;
        }
        Some(RecordHeaderData {
            flags: read_u32_le(b, at),
            form_id: read_u32_le(b, at + 4),
            version: read_u32_le(b, at + 8),
            f_version: read_u16_le(b, at + 12),
            v_info: read_u16_le(b, at + 14),
        })
    }

    pub fn is_compressed(&self) -> (r: bool)
        ensures
            r == (self.flags & 0x0004_0000 != 0),
    {
        (self.flags & 0x0004_0000) != 0
    }
}

/// Group header data after the generic header (16 bytes).
#[derive(Clone, Copy, Debug)]
pub struct GrupHeader {
    pub s_ident: [u8; 4],
    pub s_type: u32,
    pub s_tstamp: u16,
    pub param1: u16,
    pub param2: u16,
    pub param3: u16,
}

/// Field header (6 bytes): signature and size.
#[derive(Clone, Copy, Debug)]
pub struct FieldHeader {
    pub name: [u8; 4],
    pub dsize: u16,
}

impl FieldHeader {
    pub fn is_xxxx(&self) -> (r: bool)
        ensures
            r == (self.name@ == sig_xxxx()),
    {
        sig_eq(&self.name, &[0x58u8, 0x58, 0x58, 0x58])
    }
}

} // verus!
