//! The BSA archive header and its flags.
use vstd::prelude::*;
use crate::bytes::read_u32_le;

verus! {

/// BSA file header (after the 4-byte magic).
#[derive(Clone, Copy, Debug)]
pub struct BsaHeader {
    pub version: u32,
    pub header_size: u32,
    pub archive_flags: u32,
    pub folder_count: u32,
    pub file_count: u32,
    pub total_folder_name_length: u32,
    pub total_file_name_length: u32,
    pub file_flags: u32,
}

/// Oblivion archives.
pub const BSAHEADER_VERSION_OB: u32 = 0x67;
/// Skyrim and Fallout 3 archives.
pub const BSAHEADER_VERSION_SK: u32 = 0x68;
/// Skyrim Special Edition archives.
pub const BSAHEADER_VERSION_SSE: u32 = 0x69;
/// Archive flag: files are compressed by default.
pub const BSAARCHIVE_COMPRESSFILES: u32 = 0x0004;
/// Archive flag: file data is prefixed by the full file name.
pub const BSAARCHIVE_PREFIXFULLFILENAMES: u32 = 0x0100;
/// File size bit that inverts the archive's default compression.
pub const BSAFILE_COMPRESS: u32 = 0x4000_0000;

/// Why a BSA header could not be decoded.
#[derive(Clone, Copy, Debug, PartialEq, Eq)]
pub enum BsaHeaderError {
    /// Fewer than the 36 header bytes.
    Truncated,
    /// The file does not start with `BSA\0`.
    BadMagic,
}

impl BsaHeader {
    /// Decodes the 36-byte header (magic `BSA\0` and eight little-endian
    /// words) at the start of `b`.
    pub fn from_bytes(b: &[u8]) -> (r: Result<BsaHeader, BsaHeaderError>)
        ensures
            b@.len() < 4 ==> r == Err::<BsaHeader, BsaHeaderError>(BsaHeaderError::Truncated),
            b@.len() >= 4 && b@.take(4) != seq![0x42u8, 0x53, 0x41, 0x00]
                ==> r == Err::<BsaHeader, BsaHeaderError>(BsaHeaderError::BadMagic),
            b@.len() >= 4 && b@.take(4) == seq![0x42u8, 0x53, 0x41, 0x00] && b@.len() < 36
                ==> r == Err::<BsaHeader, BsaHeaderError>(BsaHeaderError::Truncated),
            r is Ok <==> b@.len() >= 36 && b@.take(4) == seq![0x42u8, 0x53, 0x41, 0x00],
            r matches Ok(h) ==> {
                &&& h.version == crate::bytes::le_u32(b@, 4)
                &&& h.header_size == crate::bytes::le_u32(b@, 8)
                &&& h.archive_flags == crate::bytes::le_u32(b@, 12)
                &&& h.folder_count == crate::bytes::le_u32(b@, 16)
                &&& h.file_count == crate::bytes::le_u32(b@, 20)
                &&& h.total_folder_name_length == crate::bytes::le_u32(b@, 24)
                &&& h.total_file_name_length == crate::bytes::le_u32(b@, 28)
                &&& h.file_flags == crate::bytes::le_u32(b@, 32)
            },
    {
        if b.len() < 4 {
            return Err(BsaHeaderError::Truncated);
        }
        if !(b[0] == 0x42 && b[1] == 0x53 && b[2] == 0x41 && b[3] == 0x00) {
            proof {
                if b@.take(4) == seq![0x42u8, 0x53, 0x41, 0x00] {
                    assert(b@.take(4)[0] == b@[0]);
                    assert(b@.take(4)[1] == b@[1]);
                    assert(b@.take(4)[2] == b@[2]);
                    assert(b@.take(4)[3] == b@[3]);
                }
            }
            return Err(BsaHeaderError::BadMagic);
        }
        assert(b@.take(4) =~= seq![0x42u8, 0x53, 0x41, 0x00]);
        if b.len() < 36 {
            return Err(BsaHeaderError::Truncated);
        }
        Ok(BsaHeader {
            version: read_u32_le(b, 4),
            header_size: read_u32_le(b, 8),
            archive_flags: read_u32_le(b, 12),
            folder_count: read_u32_le(b, 16),
            file_count: read_u32_le(b, 20),
            total_folder_name_length: read_u32_le(b, 24),
            total_file_name_length: read_u32_le(b, 28),
            file_flags: read_u32_le(b, 32),
        })
    }

    /// Only Skyrim and Skyrim Special Edition archives are read.
    pub fn is_valid_version(&self) -> (r: bool)
        ensures
            r == (self.version == BSAHEADER_VERSION_SK || self.version == BSAHEADER_VERSION_SSE),
    {
        self.version == BSAHEADER_VERSION_SK || self.version == BSAHEADER_VERSION_SSE
    }

    /// Size of one folder record: 24 bytes in SSE archives, 16 otherwise.
    pub fn folder_offset_size(&self) -> (r: usize)
        ensures
            r == (if self.version == BSAHEADER_VERSION_SSE { 24usize } else { 16usize }),
    {
        if self.version == BSAHEADER_VERSION_SSE {
            24
        } else {
            16
        }
    }

    pub fn has_prefix_full_filenames(&self) -> (r: bool)
        ensures
            r == (self.archive_flags & BSAARCHIVE_PREFIXFULLFILENAMES != 0),
    {
        (self.archive_flags & BSAARCHIVE_PREFIXFULLFILENAMES) != 0
    }

    /// Whether a file with stored size `raw_size` is compressed, and its size
    /// without the compression bit: the bit inverts the archive default.
    pub fn is_file_compressed(&self, raw_size: u32) -> (r: (bool, u32))
        ensures
            r.1 == raw_size & !BSAFILE_COMPRESS,
            r.0 == ((raw_size & BSAFILE_COMPRESS != 0) != (self.archive_flags & BSAARCHIVE_COMPRESSFILES != 0)),
    {
        let mut size = raw_size;
        let mut compressed = (size & BSAFILE_COMPRESS) != 0;
        size = size & !BSAFILE_COMPRESS;
        if (self.archive_flags & BSAARCHIVE_COMPRESSFILES) != 0 {
            compressed = !compressed;
        }
        (compressed, size)
    }
}

} // verus!
