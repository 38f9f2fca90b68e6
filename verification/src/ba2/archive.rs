//! An opened BA2 archive: its file table and a folder index over it.
use vstd::prelude::*;
use crate::ba2::header::Ba2Header;
use crate::ba2::directory::{Ba2FileEntryDto, Ba2FileRecord, Ba2FolderEntry};
use vstd::string::StrSliceExecFns;
use crate::text::{chars_of, chars_eq, rfind_char, slice_chars, string_from_chars, str_to_lowercase,
    replace_char_vec, sort_indices_by_keys};

verus! {

/// Folder and file name of a backslash path, each lower-cased: the folder is
/// what precedes the last backslash (empty when there is none).
pub open spec fn spec_split_path(path: Seq<char>) -> (Seq<char>, Seq<char>) {
    match crate::text::last_index(path, '\\') {
        Some(p) => (crate::text::unicode_lower_str(path.subrange(0, p)),
            crate::text::unicode_lower_str(path.subrange(p + 1, path.len() as int))),
        None => (Seq::empty(), crate::text::unicode_lower_str(path)),
    }
}

/// Why a file could not be extracted.
#[derive(Clone, Copy, Debug, PartialEq, Eq)]
pub enum Ba2ExtractError {
    /// No file of that path in the archive.
    NotFound,
    /// The file's data lies outside the archive bytes.
    OutOfRange,
    /// The zlib stream could not be decoded.
    Decompression,
}

/// Some folder entry lists file index `f`.
pub open spec fn indexed(folders: Seq<Ba2FolderEntry>, f: int) -> bool {
    exists|i: int, k: int| 0 <= i < folders.len() && 0 <= k < folders[i].file_indices@.len()
        && #[trigger] folders[i].file_indices@[k] == f
}

/// An opened BA2 archive.
pub struct Ba2Archive {
    header: Ba2Header,
    files: Vec<Ba2FileRecord>,
    folders: Vec<Ba2FolderEntry>,
    path: String,
}

impl Ba2Archive {
    pub closed spec fn spec_header(&self) -> Ba2Header {
        self.header
    }

    pub closed spec fn spec_files(&self) -> Seq<Ba2FileRecord> {
        self.files@
    }

    pub closed spec fn spec_path(&self) -> Seq<char> {
        self.path@
    }

    /// The folder index: one entry per distinct folder, in order of first
    /// appearance, each with the indices of its files in order.
    pub closed spec fn spec_folders(&self) -> Seq<Ba2FolderEntry> {
        self.folders@
    }

    /// The folder index is the one [`Ba2Archive::from_parts`] builds.
    pub closed spec fn wf(&self) -> bool {
        &&& forall|i: int, j: int| 0 <= i < j < self.folders@.len() ==> self.folders@[i].path@ != self.folders@[j].path@
        &&& forall|i: int, k: int| 0 <= i < self.folders@.len() && 0 <= k < self.folders@[i].file_indices@.len()
                ==> {
                    let idx = #[trigger] self.folders@[i].file_indices@[k];
                    &&& idx < self.files@.len()
                    &&& spec_split_path(self.files@[idx as int].name@).0 == self.folders@[i].path@
                }
        &&& forall|f: int| 0 <= f < self.files@.len() ==> #[trigger] indexed(self.folders@, f)
    }

    /// Splits a backslash path into lower-cased folder and file name.
    pub fn split_path(path: &str) -> (r: (String, String))
        ensures
            (r.0@, r.1@) == spec_split_path(path@),
    {
        let chars = chars_of(path);
        match rfind_char(&chars, '\\') {
            Some(pos) => {
                assert(chars@.len() == chars.len());
                let folder = string_from_chars(slice_chars(&chars, 0, pos).as_slice());
                let file = string_from_chars(slice_chars(&chars, pos + 1, chars.len()).as_slice());
                (str_to_lowercase(folder.as_str()), str_to_lowercase(file.as_str()))
            },
            None => (String::new(), str_to_lowercase(path)),
        }
    }

    /// Builds the archive from its header and file table, indexing files by
    /// folder.
    pub fn from_parts(header: Ba2Header, files: Vec<Ba2FileRecord>, path: String) -> (r: Ba2Archive)
        ensures
            r.wf(),
            r.spec_header() == header,
            r.spec_files() == files@,
            r.spec_path() == path@,
    {
        let mut folders: Vec<Ba2FolderEntry> = Vec::new();
        let mut idx: usize = 0;
        while idx < files.len()
            invariant
                idx <= files@.len(),
                forall|i: int, j: int| 0 <= i < j < folders@.len() ==> folders@[i].path@ != folders@[j].path@,
                forall|i: int, k: int| 0 <= i < folders@.len() && 0 <= k < folders@[i].file_indices@.len()
                    ==> {
                        let x = #[trigger] folders@[i].file_indices@[k];
                        &&& x < idx
                        &&& spec_split_path(files@[x as int].name@).0 == folders@[i].path@
                    },
                forall|f: int| 0 <= f < idx ==> #[trigger] indexed(folders@, f),
            decreases files@.len() - idx,
        {
            let (folder, _name) = Self::split_path(files[idx].name.as_str());
            let ghost old_folders = folders@;
            match find_folder(&folders, &folder) {
                Some(i) => {
                    folders[i].file_indices.push(idx);
                    proof {
                        assert forall|q: int| 0 <= q < folders@.len() && q != i implies folders@[q] == old_folders[q] by {}
                        assert(folders@[i as int].file_indices@ == old_folders[i as int].file_indices@.push(idx));
                        assert forall|f: int| 0 <= f < idx + 1 implies #[trigger] indexed(folders@, f) by {
                            if f == idx {
                                let k = old_folders[i as int].file_indices@.len() as int;
                                assert(folders@[i as int].file_indices@[k] == f);
                            } else {
                                assert(indexed(old_folders, f));
                                let (a, k) = choose|a: int, k: int|
                                    0 <= a < old_folders.len() && 0 <= k < old_folders[a].file_indices@.len()
                                    && #[trigger] old_folders[a].file_indices@[k] == f;
                                assert(folders@[a].file_indices@[k] == f);
                            }
                        }
                    }
                },
                None => {
                    let mut ind: Vec<usize> = Vec::new();
                    ind.push(idx);
                    let dir_hash = files[idx].dir_hash;
                    folders.push(Ba2FolderEntry { path: folder, hash: dir_hash, file_indices: ind });
                    proof {
                        let n = old_folders.len() as int;
                        assert forall|f: int| 0 <= f < idx + 1 implies #[trigger] indexed(folders@, f) by {
                            if f == idx {
                                assert(folders@[n].file_indices@[0] == f);
                            } else {
                                assert(indexed(old_folders, f));
                                let (a, k) = choose|a: int, k: int|
                                    0 <= a < old_folders.len() && 0 <= k < old_folders[a].file_indices@.len()
                                    && #[trigger] old_folders[a].file_indices@[k] == f;
                                assert(folders@[a] == old_folders[a]);
                                assert(folders@[a].file_indices@[k] == f);
                            }
                        }
                    }
                },
            }
            idx = idx + 1;
        }
        Ba2Archive { header, files, folders, path }
    }
}


/// The index of the folder entry whose path is `folder`, if any.
fn find_folder(folders: &Vec<Ba2FolderEntry>, folder: &String) -> (r: Option<usize>)
    ensures
        match r {
            Some(i) => i < folders@.len() && folders@[i as int].path@ == folder@,
            None => forall|q: int| 0 <= q < folders@.len() ==> folders@[q].path@ != folder@,
        },
{
    let fc = chars_of(folder.as_str());
    let mut i: usize = 0;
    while i < folders.len()
        invariant
            i <= folders@.len(),
            fc@ == folder@,
            forall|q: int| 0 <= q < i ==> folders@[q].path@ != folder@,
        decreases folders@.len() - i,
    {
        if chars_eq(&chars_of(folders[i].path.as_str()), &fc) {
            return Some(i);
        }
        i = i + 1;
    }
    None
}


/// The file name part of a path: what follows the last `/` or `\\`;
/// `None` when that is empty.
pub open spec fn spec_file_name(path: Seq<char>) -> Option<Seq<char>> {
    let a = crate::text::last_index(path, '/');
    let b = crate::text::last_index(path, '\\');
    let start: int = if a is None && b is None { 0 } else if a is None { b->0 + 1 }
        else if b is None { a->0 + 1 } else if a->0 > b->0 { a->0 + 1 } else { b->0 + 1 };
    if start >= path.len() { None } else { Some(path.subrange(start, path.len() as int)) }
}

/// The file name of a path (see [`spec_file_name`]).
pub fn file_name_of(path: &str) -> (r: Option<&str>)
    ensures
        match r {
            Some(s) => spec_file_name(path@) == Some(s@),
            None => spec_file_name(path@) is None,
        },
{
    let chars = chars_of(path);
    let a = rfind_char(&chars, '/');
    let b = rfind_char(&chars, '\\');
    assert(chars@.len() == chars.len());
    let start: usize = match (a, b) {
        (None, None) => 0,
        (None, Some(j)) => j + 1,
        (Some(i), None) => i + 1,
        (Some(i), Some(j)) => if i > j { i + 1 } else { j + 1 },
    };
    let n = path.unicode_len();
    if start >= n {
        None
    } else {
        Some(path.substring_char(start, n))
    }
}

impl Ba2Archive {
    /// Whether file `idx` lies in folder entry `i` and has file name `name`.
    pub open spec fn file_matches(&self, i: int, k: int, name: Seq<char>) -> bool {
        let idx = self.spec_folders()[i].file_indices@[k];
        spec_split_path(self.spec_files()[idx as int].name@).1 == name
    }

    /// The folder entry named `folder`, if any.
    pub open spec fn folder_at(&self, i: int, folder: Seq<char>) -> bool {
        0 <= i < self.spec_folders().len() && self.spec_folders()[i].path@ == folder
    }

    /// The first file, from position `k` on, of folder entry `i` whose file
    /// name is `name`.
    pub open spec fn first_match(&self, i: int, name: Seq<char>, k: int) -> Option<int>
        decreases self.spec_folders()[i].file_indices@.len() - k,
    {
        if k < 0 || k >= self.spec_folders()[i].file_indices@.len() {
            None
        } else if self.file_matches(i, k, name) {
            Some(self.spec_folders()[i].file_indices@[k] as int)
        } else {
            self.first_match(i, name, k + 1)
        }
    }

    /// The index of the file at `path` (either slash; compared lower-cased):
    /// the first file whose name matches in the folder entry of its folder.
    pub open spec fn located(&self, path: Seq<char>) -> Option<int> {
        let (folder, name) = spec_split_path(crate::text::replace_char(path, '/', '\\'));
        if exists|i: int| self.folder_at(i, folder) {
            self.first_match(choose|i: int| self.folder_at(i, folder), name, 0)
        } else {
            None
        }
    }

    /// The index of the file at `path` (see [`Ba2Archive::located`]).
    fn locate(&self, path: &str) -> (r: Option<usize>)
        requires
            self.wf(),
        ensures
            match r {
                Some(x) => self.located(path@) == Some(x as int),
                None => self.located(path@) is None,
            },
            ({
                let (folder, name) = spec_split_path(crate::text::replace_char(path@, '/', '\\'));
                match r {
                    Some(idx) => exists|i: int, k: int| self.folder_at(i, folder)
                        && 0 <= k < self.spec_folders()[i].file_indices@.len()
                        && self.spec_folders()[i].file_indices@[k] == idx
                        && #[trigger] self.file_matches(i, k, name)
                        && idx < self.spec_files().len(),
                    None => forall|i: int, k: int| self.folder_at(i, folder)
                        && 0 <= k < self.spec_folders()[i].file_indices@.len()
                        ==> !#[trigger] self.file_matches(i, k, name),
                }
            }),
    {
        let norm = string_from_chars(replace_char_vec(&chars_of(path), '/', '\\').as_slice());
        let (folder, name) = Self::split_path(norm.as_str());
        let i = match find_folder(&self.folders, &folder) {
            Some(i) => i,
            None => {
                proof {
                    assert(!exists|a: int| self.folder_at(a, folder@));
                }
                return None;
            },
        };
        let nc = chars_of(name.as_str());
        let mut k: usize = 0;
        let ghost nv = name@;
        proof {
            let c = choose|a: int| self.folder_at(a, folder@);
            assert(self.folder_at(i as int, folder@));
            assert(self.folder_at(c, folder@));
            if c != i as int {
                if c < i as int {
                    assert(self.folders@[c].path@ != self.folders@[i as int].path@);
                } else {
                    assert(self.folders@[i as int].path@ != self.folders@[c].path@);
                }
            }
            assert(self.located(path@) == self.first_match(i as int, nv, 0));
        }
        while k < self.folders[i].file_indices.len()
            invariant
                self.wf(),
                i < self.folders@.len(),
                self.folders@[i as int].path@ == folder@,
                self.located(path@) == self.first_match(i as int, nv, k as int),
                nc@ == nv,
                (folder@, nv) == spec_split_path(crate::text::replace_char(path@, '/', '\\')),
                k <= self.folders@[i as int].file_indices@.len(),
                forall|q: int| 0 <= q < k ==> !#[trigger] self.file_matches(i as int, q, nv),
            decreases self.folders@[i as int].file_indices@.len() - k,
        {
            let idx = self.folders[i].file_indices[k];
            assert(idx < self.files@.len());
            let (_f, fname) = Self::split_path(self.files[idx].name.as_str());
            if chars_eq(&chars_of(fname.as_str()), &nc) {
                assert(self.file_matches(i as int, k as int, nv));
                return Some(idx);
            }
            k = k + 1;
        }
        proof {
            assert forall|a: int, q: int| self.folder_at(a, folder@)
                && 0 <= q < self.spec_folders()[a].file_indices@.len()
                implies !#[trigger] self.file_matches(a, q, nv) by {
                assert(a == i);
            }
        }
        None
    }

    /// Whether the archive holds a file at `path`: with `\\` for `/`, some
    /// folder of its folder part holds a file of its file part.
    pub open spec fn has_file(&self, path: Seq<char>) -> bool {
        let (folder, name) = spec_split_path(crate::text::replace_char(path, '/', '\\'));
        exists|i: int, k: int| self.folder_at(i, folder)
            && 0 <= k < self.spec_folders()[i].file_indices@.len()
            && #[trigger] self.file_matches(i, k, name)
    }

    /// Whether the archive holds a file at `path`.
    pub fn contains_file(&self, path: &str) -> (r: bool)
        requires
            self.wf(),
        ensures
            r == self.has_file(path@),
    {
        self.locate(path).is_some()
    }

    /// The data of the file at `path` (see [`Ba2Archive::located`]), read
    /// from the archive bytes `archive`: its stored bytes, zlib-decoded when
    /// the file is packed; `OutOfRange` exactly when the stored bytes lie
    /// outside `archive`, `Decompression` exactly when they do not decode.
    pub fn extract_file(&self, path: &str, archive: &[u8]) -> (r: Result<Vec<u8>, Ba2ExtractError>)
        requires
            self.wf(),
        ensures
            ({
                let (folder, name) = spec_split_path(crate::text::replace_char(path@, '/', '\\'));
                let found = exists|i: int, k: int| self.folder_at(i, folder)
                        && 0 <= k < self.spec_folders()[i].file_indices@.len()
                        && #[trigger] self.file_matches(i, k, name);
                &&& (r == Err::<Vec<u8>, Ba2ExtractError>(Ba2ExtractError::NotFound) <==> !found)
                &&& r matches Ok(v) ==> exists|idx: int| 0 <= idx < self.spec_files().len() && {
                        let f = #[trigger] self.spec_files()[idx];
                        let len: int = if f.is_packed { f.packed_size as int } else { f.size as int };
                        &&& 0 <= f.offset
                        &&& f.offset + len <= archive@.len()
                        &&& (f.is_packed ==> zlib_inflate_of(archive@.subrange(f.offset as int, f.offset + len)) == Some(v@))
                        &&& (!f.is_packed ==> v@ == archive@.subrange(f.offset as int, f.offset + len))
                    }
            }),
            match self.located(path@) {
                None => r == Err::<Vec<u8>, Ba2ExtractError>(Ba2ExtractError::NotFound),
                Some(idx) => {
                    let f = self.spec_files()[idx];
                    let len: int = if f.is_packed { f.packed_size as int } else { f.size as int };
                    let bytes = archive@.subrange(f.offset as int, f.offset + len);
                    if !(0 <= f.offset && f.offset + len <= archive@.len()) {
                        r == Err::<Vec<u8>, Ba2ExtractError>(Ba2ExtractError::OutOfRange)
                    } else if f.is_packed {
                        match zlib_inflate_of(bytes) {
                            Some(d) => r matches Ok(v) && v@ == d,
                            None => r == Err::<Vec<u8>, Ba2ExtractError>(Ba2ExtractError::Decompression),
                        }
                    } else {
                        r matches Ok(v) && v@ == bytes
                    }
                },
            },
    {
        let idx = match self.locate(path) {
            Some(i) => i,
            None => return Err(Ba2ExtractError::NotFound),
        };
        let f = &self.files[idx];
        let len: u64 = if f.is_packed { f.packed_size as u64 } else { f.size as u64 };
        if f.offset < 0 || (f.offset as u64) > archive.len() as u64 || len > archive.len() as u64 - f.offset as u64 {
            return Err(Ba2ExtractError::OutOfRange);
        }
        let start = f.offset as usize;
        let end = start + len as usize;
        let data = crate::bytes::copy_range(archive, start, end);
        if f.is_packed {
            match crate::zlib::zlib_decompress(data.as_slice()) {
                Some(v) => Ok(v),
                None => Err(Ba2ExtractError::Decompression),
            }
        } else {
            Ok(data)
        }
    }

    pub fn version(&self) -> (r: u32)
        ensures
            r == self.spec_header().version,
    {
        self.header.version
    }

    pub fn file_count(&self) -> (r: u32)
        ensures
            r == self.spec_header().file_count,
    {
        self.header.file_count
    }

    /// The file names (full paths) listed under `folder_name`, compared
    /// lower-cased, in table order.
    pub fn list_files_in_folder(&self, folder_name: &str) -> (r: Vec<&str>)
        requires
            self.wf(),
        ensures
            ({
                let folder = crate::text::unicode_lower_str(folder_name@);
                match choose_folder(self.spec_folders(), folder) {
                    Some(i) => r@.len() == self.spec_folders()[i].file_indices@.len()
                        && forall|k: int| 0 <= k < r@.len() ==> #[trigger] r@[k]@
                            == self.spec_files()[self.spec_folders()[i].file_indices@[k] as int].name@,
                    None => r@.len() == 0,
                }
            }),
    {
        let lower = str_to_lowercase(folder_name);
        let mut out: Vec<&str> = Vec::new();
        match find_folder(&self.folders, &lower) {
            None => {
                proof { lemma_choose_folder_none(self.folders@, lower@); }
                out
            },
            Some(i) => {
                proof { lemma_choose_folder_some(self.folders@, lower@, i as int); }
                let mut k: usize = 0;
                while k < self.folders[i].file_indices.len()
                    invariant
                        self.wf(),
                        i < self.folders@.len(),
                        k <= self.folders@[i as int].file_indices@.len(),
                        out@.len() == k,
                        forall|q: int| 0 <= q < k ==> #[trigger] out@[q]@
                            == self.files@[self.folders@[i as int].file_indices@[q] as int].name@,
                    decreases self.folders@[i as int].file_indices@.len() - k,
                {
                    let idx = self.folders[i].file_indices[k];
                    out.push(self.files[idx].name.as_str());
                    k = k + 1;
                }
                out
            },
        }
    }

    /// The folder paths, in ascending order.
    pub fn folder_names(&self) -> (r: Vec<&str>)
        ensures
            exists|p: Seq<usize>| #[trigger] crate::text::stable_sorted(folder_paths(self.spec_folders()), p)
                && r@.len() == p.len()
                && forall|k: int| 0 <= k < r@.len() ==> #[trigger] r@[k]@ == self.spec_folders()[p[k] as int].path@,
    {
        let mut keys: Vec<Vec<char>> = Vec::new();
        let mut i: usize = 0;
        while i < self.folders.len()
            invariant
                i <= self.folders@.len(),
                keys@.len() == i,
                forall|q: int| 0 <= q < i ==> #[trigger] keys@[q]@ == self.folders@[q].path@,
            decreases self.folders@.len() - i,
        {
            keys.push(chars_of(self.folders[i].path.as_str()));
            i = i + 1;
        }
        let order = sort_indices_by_keys(&keys);
        assert(keys@.map_values(|k: Vec<char>| k@) =~= folder_paths(self.folders@));
        let mut out: Vec<&str> = Vec::new();
        let mut k: usize = 0;
        while k < order.len()
            invariant
                crate::text::stable_sorted(folder_paths(self.folders@), order@),
                k <= order@.len(),
                out@.len() == k,
                forall|q: int| 0 <= q < k ==> #[trigger] out@[q]@ == self.folders@[order@[q] as int].path@,
            decreases order@.len() - k,
        {
            let j = order[k];
            out.push(self.folders[j].path.as_str());
            k = k + 1;
        }
        assert(crate::text::stable_sorted(folder_paths(self.spec_folders()), order@));
        out
    }

    /// The file name of the archive's path.
    pub fn archive_name(&self) -> (r: Option<&str>)
        ensures
            match r {
                Some(s) => spec_file_name(self.spec_path()) == Some(s@),
                None => spec_file_name(self.spec_path()) is None,
            },
    {
        file_name_of(self.path.as_str())
    }

    /// Every file with slash-separated path, size, packing and lower-cased
    /// folder, in ascending path order (files of equal path in table order).
    pub fn list_all_files(&self) -> (r: Vec<Ba2FileEntryDto>)
        ensures
            exists|p: Seq<usize>| #[trigger] crate::text::stable_sorted(file_paths(self.spec_files()), p)
                && r@.len() == p.len()
                && forall|k: int| 0 <= k < r@.len() ==> {
                    let f = self.spec_files()[#[trigger] p[k] as int];
                    &&& r@[k].path@ == crate::text::replace_char(f.name@, '\\', '/')
                    &&& r@[k].size == f.size as u64
                    &&& r@[k].compressed == f.is_packed
                    &&& r@[k].folder@ == spec_split_path(f.name@).0
                },
    {
        let mut keys: Vec<Vec<char>> = Vec::new();
        let mut i: usize = 0;
        while i < self.files.len()
            invariant
                i <= self.files@.len(),
                keys@.len() == i,
                forall|q: int| 0 <= q < i ==> #[trigger] keys@[q]@ == crate::text::replace_char(self.files@[q].name@, '\\', '/'),
            decreases self.files@.len() - i,
        {
            keys.push(replace_char_vec(&chars_of(self.files[i].name.as_str()), '\\', '/'));
            i = i + 1;
        }
        let order = sort_indices_by_keys(&keys);
        assert(keys@.map_values(|k: Vec<char>| k@) =~= file_paths(self.files@));
        let mut out: Vec<Ba2FileEntryDto> = Vec::new();
        let mut k: usize = 0;
        while k < order.len()
            invariant
                crate::text::stable_sorted(file_paths(self.files@), order@),
                k <= order@.len(),
                keys@.len() == self.files@.len(),
                forall|q: int| 0 <= q < keys@.len() ==> #[trigger] keys@[q]@ == crate::text::replace_char(self.files@[q].name@, '\\', '/'),
                out@.len() == k,
                forall|q: int| 0 <= q < k ==> {
                    let f = self.files@[#[trigger] order@[q] as int];
                    &&& out@[q].path@ == crate::text::replace_char(f.name@, '\\', '/')
                    &&& out@[q].size == f.size as u64
                    &&& out@[q].compressed == f.is_packed
                    &&& out@[q].folder@ == spec_split_path(f.name@).0
                },
            decreases order@.len() - k,
        {
            let j = order[k];
            assert(j < self.files@.len());
            let f = &self.files[j];
            let (folder, _n) = Self::split_path(f.name.as_str());
            out.push(Ba2FileEntryDto {
                path: string_from_chars(keys[j].as_slice()),
                size: f.size as u64,
                compressed: f.is_packed,
                folder,
            });
            k = k + 1;
        }
        assert(crate::text::stable_sorted(file_paths(self.spec_files()), order@));
        out
    }
}

/// The inflated bytes of a zlib stream (see [`crate::zlib::zlib_inflate`]).
pub open spec fn zlib_inflate_of(data: Seq<u8>) -> Option<Seq<u8>> {
    crate::zlib::zlib_inflate(data)
}

/// The paths of the folder entries, in table order.
pub open spec fn folder_paths(folders: Seq<Ba2FolderEntry>) -> Seq<Seq<char>> {
    folders.map_values(|f: Ba2FolderEntry| f.path@)
}

/// The paths of the file records with `/` for `\\`, in table order.
pub open spec fn file_paths(files: Seq<Ba2FileRecord>) -> Seq<Seq<char>> {
    files.map_values(|f: Ba2FileRecord| crate::text::replace_char(f.name@, '\\', '/'))
}

/// The index of the folder entry whose path is `folder`, if there is one.
pub open spec fn choose_folder(folders: Seq<Ba2FolderEntry>, folder: Seq<char>) -> Option<int> {
    if exists|i: int| 0 <= i < folders.len() && #[trigger] folders[i].path@ == folder {
        Some(choose|i: int| 0 <= i < folders.len() && #[trigger] folders[i].path@ == folder)
    } else {
        None
    }
}

proof fn lemma_choose_folder_none(folders: Seq<Ba2FolderEntry>, folder: Seq<char>)
    requires
        forall|q: int| 0 <= q < folders.len() ==> folders[q].path@ != folder,
    ensures
        choose_folder(folders, folder) is None,
{
}

proof fn lemma_choose_folder_some(folders: Seq<Ba2FolderEntry>, folder: Seq<char>, i: int)
    requires
        0 <= i < folders.len(),
        folders[i].path@ == folder,
        forall|a: int, b: int| 0 <= a < b < folders.len() ==> folders[a].path@ != folders[b].path@,
    ensures
        choose_folder(folders, folder) == Some(i),
{
    let j = choose|j: int| 0 <= j < folders.len() && #[trigger] folders[j].path@ == folder;
    if j < i {
        assert(folders[j].path@ != folders[i].path@);
    } else if j > i {
        assert(folders[i].path@ != folders[j].path@);
    }
}

} // verus!
