//! The BA2 archive header.
use vstd::prelude::*;
use crate::bytes::{read_u32_le, read_u64_le, sig_eq};

verus! {

/// Fallout 4 archives.
pub const BA2_VERSION_FO4: u32 = 0x01;
/// Starfield archives.
pub const BA2_VERSION_SF: u32 = 0x02;
/// Fallout 4 next-gen archives.
pub const BA2_VERSION_FO4B: u32 = 0x08;

/// The BA2 header fields the reader uses.
#[derive(Clone, Copy, Debug)]
pub struct Ba2Header {
    pub version: u32,
    pub archive_type: [u8; 4],
    pub file_count: u32,
    pub file_table_offset: i64,
}

/// Why a BA2 header could not be decoded.
#[derive(Clone, Copy, Debug, PartialEq, Eq)]
pub enum Ba2HeaderError {
    /// Too few bytes.
    Truncated,
    /// The file does not start with `BTDX`.
    BadMagic,
    /// A version other than 1, 2 or 8.
    UnsupportedVersion(u32),
}

/// Whether `v` is a BA2 version the reader knows.
pub open spec fn known_ba2_version(v: u32) -> bool {
    v == BA2_VERSION_FO4 || v == BA2_VERSION_SF || v == BA2_VERSION_FO4B
}

impl Ba2Header {
    /// Decodes the header at the start of `b`: magic `BTDX`, version, type,
    /// file count and file table offset; Starfield headers carry 8 more bytes.
    /// Returns the header and its length.
    pub fn from_bytes(b: &[u8]) -> (r: Result<(Ba2Header, usize), Ba2HeaderError>)
        ensures
            r matches Ok((h, n)) ==> {
                &&& b@.take(4) == seq![0x42u8, 0x54, 0x44, 0x58]
                &&& h.version == crate::bytes::le_u32(b@, 4)
                &&& known_ba2_version(h.version)
                &&& h.archive_type@ == b@.subrange(8, 12)
                &&& h.file_count == crate::bytes::le_u32(b@, 12)
                &&& h.file_table_offset as int == (crate::bytes::le_u64(b@, 16) as i64) as int
                &&& n == (if h.version == BA2_VERSION_SF { 32usize } else { 24usize })
                &&& n <= b@.len()
            },
            b@.len() >= 8 && b@.take(4) == seq![0x42u8, 0x54, 0x44, 0x58] && !known_ba2_version(crate::bytes::le_u32(b@, 4))
                ==> r == Err::<(Ba2Header, usize), Ba2HeaderError>(Ba2HeaderError::UnsupportedVersion(crate::bytes::le_u32(b@, 4))),
            b@.len() >= 4 && b@.take(4) != seq![0x42u8, 0x54, 0x44, 0x58]
                ==> r == Err::<(Ba2Header, usize), Ba2HeaderError>(Ba2HeaderError::BadMagic),
            r is Ok <==> (b@.len() >= 8 && b@.take(4) == seq![0x42u8, 0x54, 0x44, 0x58]
                && known_ba2_version(crate::bytes::le_u32(b@, 4))
                && b@.len() >= (if crate::bytes::le_u32(b@, 4) == BA2_VERSION_SF { 32int } else { 24int })),
            (b@.len() < 4 || (b@.take(4) == seq![0x42u8, 0x54, 0x44, 0x58] && (b@.len() < 8
                || (known_ba2_version(crate::bytes::le_u32(b@, 4))
                    && b@.len() < (if crate::bytes::le_u32(b@, 4) == BA2_VERSION_SF { 32int } else { 24int })))))
                ==> r == Err::<(Ba2Header, usize), Ba2HeaderError>(Ba2HeaderError::Truncated),
    {
        if b.len() < 4 {
            return Err(Ba2HeaderError::Truncated);
        }
        let magic = [b[0], b[1], b[2], b[3]];
        assert(magic@ =~= b@.take(4));
        if !sig_eq(&magic, &[0x42u8, 0x54, 0x44, 0x58]) {
            assert([0x42u8, 0x54, 0x44, 0x58]@ =~= seq![0x42u8, 0x54, 0x44, 0x58]);
            return Err(Ba2HeaderError::BadMagic);
        }
        assert([0x42u8, 0x54, 0x44, 0x58]@ =~= seq![0x42u8, 0x54, 0x44, 0x58]);
        if b.len() < 8 {
            return Err(Ba2HeaderError::Truncated);
        }
        let version = read_u32_le(b, 4);
        if !(version == BA2_VERSION_FO4 || version == BA2_VERSION_SF || version == BA2_VERSION_FO4B) {
            return Err(Ba2HeaderError::UnsupportedVersion(version));
        }
        if b.len() < 24 {
            return Err(Ba2HeaderError::Truncated);
        }
        let archive_type = [b[8], b[9], b[10], b[11]];
        assert(archive_type@ =~= b@.subrange(8, 12));
        let file_count = read_u32_le(b, 12);
        let file_table_offset = read_u64_le(b, 16) as i64;
        let n: usize = if version == BA2_VERSION_SF { 32 } else { 24 };
        if b.len() < n {
            return Err(Ba2HeaderError::Truncated);
        }
        Ok((Ba2Header { version, archive_type, file_count, file_table_offset }, n))
    }

    pub fn is_valid_version(&self) -> (r: bool)
        ensures
            r == known_ba2_version(self.version),
    {
        self.version == BA2_VERSION_FO4 || self.version == BA2_VERSION_SF || self.version == BA2_VERSION_FO4B
    }

    /// Whether the archive holds general files (type `GNRL`).
    pub fn is_general_type(&self) -> (r: bool)
        ensures
            r == (self.archive_type@ == seq![0x47u8, 0x4E, 0x52, 0x4C]),
    {
        let r = sig_eq(&self.archive_type, &[0x47u8, 0x4E, 0x52, 0x4C]);
        assert([0x47u8, 0x4E, 0x52, 0x4C]@ =~= seq![0x47u8, 0x4E, 0x52, 0x4C]);
        r
    }
}

} // verus!
