//! BA2 file records and the folder index built over them.
use vstd::prelude::*;
use crate::bytes::{read_u32_le, read_u64_le};

verus! {

/// A general file record (36 bytes) with its name.
#[derive(Clone, Debug)]
pub struct Ba2FileRecord {
    /// Full path of the file, with backslashes.
    pub name: String,
    pub name_hash: u32,
    pub ext_hash: u32,
    pub dir_hash: u32,
    pub unk_0c: u32,
    pub offset: i64,
    pub packed_size: u32,
    pub size: u32,
    pub flag: u32,
    /// Whether the data is zlib-compressed (a non-zero packed size).
    pub is_packed: bool,
}

impl Ba2FileRecord {
    /// Decodes the 36-byte record at `at` of `b`; the name is left empty.
    pub fn from_bytes(b: &[u8], at: usize) -> (r: Option<Ba2FileRecord>)
        ensures
            r is Some <==> at + 36 <= b@.len(),
            r matches Some(f) ==> {
                &&& f.name@.len() == 0
                &&& f.name_hash == crate::bytes::le_u32(b@, at as int)
                &&& f.ext_hash == crate::bytes::le_u32(b@, at + 4)
                &&& f.dir_hash == crate::bytes::le_u32(b@, at + 8)
                &&& f.unk_0c == crate::bytes::le_u32(b@, at + 12)
                &&& f.offset as int == (crate::bytes::le_u64(b@, at + 16) as i64) as int
                &&& f.packed_size == crate::bytes::le_u32(b@, at + 24)
                &&& f.size == crate::bytes::le_u32(b@, at + 28)
                &&& f.flag == crate::bytes::le_u32(b@, at + 32)
                &&& f.is_packed == (f.packed_size > 0)
            },
    {
        if at > b.len() || b.len() - at < 36 {
            return None;
        }
        let packed_size = read_u32_le(b, at + 24);
        Some(Ba2FileRecord {
            name: String::new(),
            name_hash: read_u32_le(b, at),
            ext_hash: read_u32_le(b, at + 4),
            dir_hash: read_u32_le(b, at + 8),
            unk_0c: read_u32_le(b, at + 12),
            offset: read_u64_le(b, at + 16) as i64,
            packed_size,
            size: read_u32_le(b, at + 28),
            flag: read_u32_le(b, at + 32),
            is_packed: packed_size > 0,
        })
    }
}

/// A folder and the indices of its files in the file table.
#[derive(Clone, Debug)]
pub struct Ba2FolderEntry {
    pub path: String,
    pub hash: u32,
    pub file_indices: Vec<usize>,
}

/// A file as listed to the user.
#[derive(Clone, Debug)]
pub struct Ba2FileEntryDto {
    pub path: String,
    pub size: u64,
    pub compressed: bool,
    pub folder: String,
}

} // verus!
