//! The folder and file tables of a BSA archive and its path hash.
use vstd::prelude::*;
use std::collections::HashMap;
use crate::text::{chars_of, replace_char_vec, rfind_char, slice_chars, string_from_chars, str_to_lowercase};

verus! {

/// Folder record as stored in the folder table.
#[derive(Clone, Copy, Debug)]
pub struct BsaFolderRecord {
    pub hash: u64,
    pub file_count: u32,
    pub offset: u64,
}

/// File record as stored in a folder's file table.
#[derive(Clone, Debug)]
pub struct BsaFileRecord {
    pub hash: u64,
    pub raw_size: u32,
    pub offset: u32,
    pub name: String,
}

/// A folder with its files and a hash index over them.
#[derive(Clone, Debug)]
pub struct BsaFolder {
    pub name: String,
    pub hash: u64,
    pub files: Vec<BsaFileRecord>,
    /// File hash to index in `files`.
    pub file_map: HashMap<u64, usize>,
    pub offset: u64,
}

/// The directory of an archive: folders and a hash index over them.
#[derive(Clone, Debug)]
pub struct BsaDirectory {
    pub folders: Vec<BsaFolder>,
    /// Folder hash to index in `folders`.
    pub folder_map: HashMap<u64, usize>,
}

impl BsaFolder {
    /// Every index in `file_map` points into `files`.
    pub open spec fn wf(&self) -> bool {
        forall|h: u64| #[trigger] self.file_map@.contains_key(h) ==> self.file_map@[h] < self.files@.len()
    }
}

impl BsaDirectory {
    /// Every index of the folder and file maps points into its table.
    pub open spec fn wf(&self) -> bool {
        &&& forall|h: u64| #[trigger] self.folder_map@.contains_key(h) ==> self.folder_map@[h] < self.folders@.len()
        &&& forall|i: int| 0 <= i < self.folders@.len() ==> (#[trigger] self.folders@[i]).wf()
    }

    /// The folder and file found through the two hash maps.
    pub open spec fn spec_find(&self, folder_hash: u64, file_hash: u64) -> Option<(BsaFolder, BsaFileRecord)> {
        if self.folder_map@.contains_key(folder_hash) {
            let folder = self.folders@[self.folder_map@[folder_hash] as int];
            if folder.file_map@.contains_key(file_hash) {
                Some((folder, folder.files@[folder.file_map@[file_hash] as int]))
            } else {
                None
            }
        } else {
            None
        }
    }

    /// Looks a file up by folder hash, then file hash.
    pub fn find_file(&self, folder_hash: u64, file_hash: u64) -> (r: Option<(&BsaFolder, &BsaFileRecord)>)
        requires
            self.wf(),
        ensures
            match r {
                Some((f, rec)) => self.spec_find(folder_hash, file_hash) == Some((*f, *rec)),
                None => self.spec_find(folder_hash, file_hash) is None,
            },
    {
        let folder_idx = match self.folder_map.get(&folder_hash) {
            Some(i) => *i,
            None => return None,
        };
        let folder = &self.folders[folder_idx];
        assert(folder.wf());
        let file_idx = match folder.file_map.get(&file_hash) {
            Some(i) => *i,
            None => return None,
        };
        Some((folder, &folder.files[file_idx]))
    }

    /// Looks a file up by its `folder/name.ext` path (either slash), compared
    /// after lower-casing.
    pub fn find_by_path(&self, path: &str) -> (r: Option<(&BsaFolder, &BsaFileRecord)>)
        requires
            self.wf(),
        ensures
            match spec_split_archive_path(path@) {
                None => r is None,
                Some((folder, name, ext)) => {
                    let found = self.spec_find(spec_bsa_hash64(vstd::utf8::encode_utf8(folder), Seq::empty()),
                        spec_bsa_hash64(vstd::utf8::encode_utf8(name), vstd::utf8::encode_utf8(ext)));
                    match r {
                        Some((f, rec)) => found == Some((*f, *rec)),
                        None => found is None,
                    }
                },
            },
    {
        let (folder_hash, file_hash) = match path_hashes(path) {
            Some(h) => h,
            None => return None,
        };
        self.find_file(folder_hash, file_hash)
    }
}

/// Splits an archive path into folder, file stem and extension (with its
/// dot): backslashes become slashes, the path is lower-cased, the folder is
/// what precedes the last slash, and the extension starts at the last dot of
/// the file name. `None` when there is no slash.
pub open spec fn spec_split_archive_path(path: Seq<char>) -> Option<(Seq<char>, Seq<char>, Seq<char>)> {
    let norm = crate::text::unicode_lower_str(crate::text::replace_char(path, '\\', '/'));
    match crate::text::last_index(norm, '/') {
        None => None,
        Some(s) => {
            let folder = norm.subrange(0, s);
            let file = norm.subrange(s + 1, norm.len() as int);
            match crate::text::last_index(file, '.') {
                Some(d) => Some((folder, file.subrange(0, d), file.subrange(d, file.len() as int))),
                None => Some((folder, file, Seq::empty())),
            }
        },
    }
}

/// `x * 0x1003F + b`, wrapping.
pub open spec fn spec_str_to_num(s: Seq<u8>) -> u64
    decreases s.len(),
{
    if s.len() == 0 {
        0
    } else {
        vstd::wrapping::u64_specs::wrapping_add(
            vstd::wrapping::u64_specs::wrapping_mul(spec_str_to_num(s.drop_last()), 0x1003F),
            s.last() as u64,
        )
    }
}

/// The 64-bit BSA hash of a name and an extension (both as bytes), with
/// wrapping arithmetic.
pub open spec fn spec_bsa_hash64(n: Seq<u8>, e: Seq<u8>) -> u64 {
    let base: u64 = if n.len() == 0 {
        0
    } else {
        let len = n.len();
        let a = n[len - 1] as u64;
        let b = if len > 2 { vstd::wrapping::u64_specs::wrapping_add(a, ((n[len - 2] as u64) << 8u64) as u64) } else { a };
        let c = vstd::wrapping::u64_specs::wrapping_add(b, ((len as u64) << 16u64) as u64);
        let d = vstd::wrapping::u64_specs::wrapping_add(c, ((n[0] as u64) << 24u64) as u64);
        if len > 3 {
            vstd::wrapping::u64_specs::wrapping_add(d, (spec_str_to_num(n.subrange(1, len - 2)) << 32u64) as u64)
        } else {
            d
        }
    };
    if e.len() == 0 {
        base
    } else {
        vstd::wrapping::u64_specs::wrapping_add(base, (spec_str_to_num(e) << 32u64) as u64)
    }
}

/// `StrToNum`: every byte folded in as `result * 0x1003F + byte`, wrapping.
pub fn str_to_num(s: &[u8]) -> (r: u64)
    ensures
        r == spec_str_to_num(s@),
{
    let mut result: u64 = 0;
    let mut i: usize = 0;
    while i < s.len()
        invariant
            i <= s@.len(),
            result == spec_str_to_num(s@.take(i as int)),
        decreases s@.len() - i,
    {
        assert(s@.take(i + 1).drop_last() =~= s@.take(i as int));
        result = result.wrapping_mul(0x1003F).wrapping_add(s[i] as u64);
        i = i + 1;
    }
    assert(s@.take(s@.len() as int) =~= s@);
    result
}

/// The BSA hash of a lower-case name and extension (the extension with its dot).
pub fn bsa_hash64(name: &str, ext: &str) -> (r: u64)
    ensures
        r == spec_bsa_hash64(vstd::utf8::encode_utf8(name@), vstd::utf8::encode_utf8(ext@)),
{
    let n = name.as_bytes();
    let e = ext.as_bytes();
    let mut result: u64 = 0;
    if n.len() > 0 {
        let len = n.len();
        result = n[len - 1] as u64;
        if len > 2 {
            result = result.wrapping_add((n[len - 2] as u64) << 8u64);
        }
        result = result.wrapping_add((len as u64) << 16u64);
        result = result.wrapping_add((n[0] as u64) << 24u64);
        if len > 3 {
            let middle = crate::bytes::copy_range(n, 1, len - 2);
            result = result.wrapping_add(str_to_num(middle.as_slice()) << 32u64);
        }
    }
    if e.len() > 0 {
        result = result.wrapping_add(str_to_num(e) << 32u64);
    }
    result
}


/// The folder hash and file hash of an archive path, as
/// [`BsaDirectory::find_by_path`] computes them.
#[verifier::rlimit(40)]
fn path_hashes(path: &str) -> (r: Option<(u64, u64)>)
    ensures
        match spec_split_archive_path(path@) {
            None => r is None,
            Some((folder, name, ext)) => r == Some((
                spec_bsa_hash64(vstd::utf8::encode_utf8(folder), Seq::empty()),
                spec_bsa_hash64(vstd::utf8::encode_utf8(name), vstd::utf8::encode_utf8(ext)))),
        },
{
    let replaced = replace_char_vec(&chars_of(path), '\\', '/');
    let replaced_s = string_from_chars(replaced.as_slice());
    let lowered = str_to_lowercase(replaced_s.as_str());
    let norm = chars_of(lowered.as_str());
    let ghost nspec = crate::text::unicode_lower_str(crate::text::replace_char(path@, '\\', '/'));
    assert(norm@ == nspec);
    let slash = match rfind_char(&norm, '/') {
        Some(i) => i,
        None => return None,
    };
    assert(norm@.len() == norm.len());
    let folder = slice_chars(&norm, 0, slash);
    let file = slice_chars(&norm, slash + 1, norm.len());
    let (name, ext) = match rfind_char(&file, '.') {
        Some(d) => (slice_chars(&file, 0, d), slice_chars(&file, d, file.len())),
        None => (file.clone(), Vec::new()),
    };
    let folder_s = string_from_chars(folder.as_slice());
    let name_s = string_from_chars(name.as_slice());
    let ext_s = string_from_chars(ext.as_slice());
    let empty = String::new();
    proof {
        assert(ext@.len() == 0 ==> ext@ =~= Seq::<char>::empty());
        assert(vstd::utf8::encode_utf8(Seq::<char>::empty()) =~= Seq::<u8>::empty());
    }
    let folder_hash = bsa_hash64(folder_s.as_str(), empty.as_str());
    let file_hash = bsa_hash64(name_s.as_str(), ext_s.as_str());
    Some((folder_hash, file_hash))
}

} // verus!
