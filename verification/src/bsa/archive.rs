//! An opened BSA archive: header and directory, file lookup, listings and
//! the extraction of a file's data from the archive bytes.
use vstd::prelude::*;
use crate::bsa::header::{BsaHeader, BSAHEADER_VERSION_SSE, BSAARCHIVE_PREFIXFULLFILENAMES, BSAFILE_COMPRESS,
    BSAARCHIVE_COMPRESSFILES};
use crate::bsa::directory::{BsaDirectory, BsaFolder, bsa_hash64};
use crate::text::{str_to_lowercase, string_from_chars, chars_of, sort_indices_by_keys};
use crate::bytes::{read_u32_le, copy_range};

verus! {

/// The bytes that `lz4::block::decompress` yields for `src` with the given
/// decompressed size; `None` when it reports an error.
pub uninterp spec fn lz4_block(src: Seq<u8>, size: u32) -> Option<Seq<u8>>;

/// `lz4::block::decompress(src, Some(size as i32))`. Claims that the outcome
/// is the crate's outcome for these arguments and that, as its source shows,
/// a success holds at most `size` bytes (a size above `i32::MAX` is a
/// negative size there, refused).
#[verifier::external_body]
fn lz4_decompress(src: &[u8], size: u32) -> (r: Option<Vec<u8>>)
    ensures
        match r {
            Some(v) => lz4_block(src@, size) == Some(v@) && v@.len() <= size,
            None => lz4_block(src@, size) is None,
        },
{
    lz4::block::decompress(src, Some(size as i32)).ok()
}

/// The first `size` bytes that `flate2`'s zlib decoder yields for `data`, or
/// `None` when it stops short of them or reports an error first.
pub uninterp spec fn zlib_prefix(data: Seq<u8>, size: u32) -> Option<Seq<u8>>;

/// `flate2::read::ZlibDecoder` over `data`, read with `read_exact` into a
/// buffer of `size` bytes. Claims that the outcome is the decoder's outcome
/// for these arguments, that a success holds exactly `size` bytes, and that
/// when the whole stream decodes to at least `size` bytes the result is its
/// first `size` bytes, and to fewer, a failure. What it gives for a stream
/// that breaks after its first `size` bytes is left unsaid.
#[verifier::external_body]
fn zlib_decompress_exact(data: &[u8], size: u32) -> (r: Option<Vec<u8>>)
    ensures
        match r {
            Some(v) => zlib_prefix(data@, size) == Some(v@) && v@.len() == size,
            None => zlib_prefix(data@, size) is None,
        },
        crate::zlib::zlib_inflate(data@) matches Some(full) ==> (
            if full.len() >= size { r matches Some(v) && v@ == full.take(size as int) } else { r is None }),
{
    let mut out = vec![0u8; size as usize];
    std::io::Read::read_exact(&mut flate2::read::ZlibDecoder::new(data), &mut out).ok()?;
    Some(out)
}

/// Why a file's data could not be had.
#[derive(Clone, Copy, Debug, PartialEq, Eq, Structural)]
pub enum BsaExtractError {
    /// No file of that path in the archive.
    NotFound,
    /// The file's data runs past the end of the archive bytes.
    Truncated,
    /// The compressed data could not be decoded.
    Decompression,
}

/// Where a file's stored data lies: whether it is compressed, the start and
/// length of the stored bytes (after an SSE name prefix and, when
/// compressed, after the decompressed size), and the decompressed size;
/// `None` when the prefix or size runs past the end of the bytes.
pub open spec fn data_layout(data: Seq<u8>, header: BsaHeader, offset: u32, raw_size: u32) -> Option<(bool, int, int, u32)> {
    let compressed = (raw_size & BSAFILE_COMPRESS != 0) != (header.archive_flags & BSAARCHIVE_COMPRESSFILES != 0);
    let size0 = (raw_size & !BSAFILE_COMPRESS) as int;
    let prefixed = header.version >= BSAHEADER_VERSION_SSE && header.archive_flags & BSAARCHIVE_PREFIXFULLFILENAMES != 0;
    if prefixed && offset as int >= data.len() {
        None
    } else {
        let name_len: int = if prefixed { data[offset as int] as int } else { 0 };
        let pos: int = if prefixed { offset + 1 + name_len + 1 } else { offset as int };
        let size1: int = if prefixed { if size0 >= name_len + 1 { size0 - (name_len + 1) } else { 0 } } else { size0 };
        if prefixed && pos > data.len() {
            None
        } else if compressed {
            if pos + 4 > data.len() {
                None
            } else {
                let size2: int = if size1 >= 4 { size1 - 4 } else { 0 };
                Some((true, pos + 4, size2, crate::bytes::le_u32(data, pos)))
            }
        } else {
            Some((false, pos, size1, 0u32))
        }
    }
}

/// Whether `r` is what extracting the file stored at `offset` with stored
/// size `raw_size` gives (see [`data_layout`]).
pub open spec fn extracted(data: Seq<u8>, header: BsaHeader, offset: u32, raw_size: u32, r: Result<Vec<u8>, BsaExtractError>) -> bool {
    match data_layout(data, header, offset, raw_size) {
        None => r == Err::<Vec<u8>, BsaExtractError>(BsaExtractError::Truncated),
        Some((compressed, start, len, dsize)) => {
            if start + len > data.len() {
                r == Err::<Vec<u8>, BsaExtractError>(BsaExtractError::Truncated)
            } else {
                let stored = data.subrange(start, start + len);
                if !compressed {
                    r matches Ok(v) && v@ == stored
                } else {
                    let decoded = if header.version == BSAHEADER_VERSION_SSE { lz4_block(stored, dsize) } else { zlib_prefix(stored, dsize) };
                    match decoded {
                        Some(d) => r matches Ok(v) && v@ == d,
                        None => r == Err::<Vec<u8>, BsaExtractError>(BsaExtractError::Decompression),
                    }
                }
            }
        },
    }
}

/// The data of a file stored at `offset` with stored size `raw_size`:
/// the stored bytes, decoded with LZ4 (SSE archives) or zlib (others) when
/// compressed (see [`data_layout`]).
pub fn extract_file_data(data: &[u8], header: &BsaHeader, offset: u32, raw_size: u32) -> (r: Result<Vec<u8>, BsaExtractError>)
    ensures
        extracted(data@, *header, offset, raw_size, r),
{
    let (compressed, size0) = header.is_file_compressed(raw_size);
    let mut size: u64 = size0 as u64;
    let mut pos: u64 = offset as u64;
    if header.version >= BSAHEADER_VERSION_SSE && header.has_prefix_full_filenames() {
        if pos >= data.len() as u64 {
            return Err(BsaExtractError::Truncated);
        }
        let name_len = data[pos as usize] as u64;
        pos = pos + 1 + name_len + 1;
        if pos > data.len() as u64 {
            return Err(BsaExtractError::Truncated);
        }
        size = if size >= name_len + 1 { size - (name_len + 1) } else { 0 };
    }
    if compressed {
        if pos + 4 > data.len() as u64 {
            return Err(BsaExtractError::Truncated);
        }
        let decompressed_size = read_u32_le(data, pos as usize);
        pos = pos + 4;
        size = if size >= 4 { size - 4 } else { 0 };
        if pos + size > data.len() as u64 {
            return Err(BsaExtractError::Truncated);
        }
        let stored = copy_range(data, pos as usize, (pos + size) as usize);
        let decoded = if header.version == BSAHEADER_VERSION_SSE {
            lz4_decompress(stored.as_slice(), decompressed_size)
        } else {
            zlib_decompress_exact(stored.as_slice(), decompressed_size)
        };
        match decoded {
            Some(v) => Ok(v),
            None => Err(BsaExtractError::Decompression),
        }
    } else {
        if pos + size > data.len() as u64 {
            return Err(BsaExtractError::Truncated);
        }
        Ok(copy_range(data, pos as usize, (pos + size) as usize))
    }
}

/// Why an archive could not be opened.
#[derive(Clone, Copy, Debug, PartialEq, Eq, Structural)]
pub enum BsaOpenError {
    /// Neither a Skyrim nor a Skyrim Special Edition archive.
    UnsupportedVersion(u32),
}

/// One file of an archive, as listings show it.
#[derive(Clone, Debug)]
pub struct BsaFileEntry {
    /// `folder/name`, or the name alone in the unnamed folder.
    pub path: String,
    pub size: u64,
    pub compressed: bool,
    pub folder: String,
}

/// An opened BSA archive.
pub struct BsaArchive {
    header: BsaHeader,
    directory: BsaDirectory,
    path: String,
}

/// The listed path of a file: `folder/name`, or the name in the unnamed folder.
pub open spec fn listed_path(folder: Seq<char>, name: Seq<char>) -> Seq<char> {
    if folder.len() == 0 { name } else { folder + seq!['/'] + name }
}

/// The files of the folders, folder by folder, each as (folder index, file index).
pub open spec fn file_slots(folders: Seq<BsaFolder>) -> Seq<(int, int)>
    decreases folders.len(),
{
    if folders.len() == 0 {
        Seq::empty()
    } else {
        let last = folders.len() - 1;
        file_slots(folders.drop_last()) + Seq::new(folders.last().files@.len(), |k: int| (last, k))
    }
}

impl BsaArchive {
    pub closed spec fn spec_header(&self) -> BsaHeader {
        self.header
    }

    pub closed spec fn spec_directory(&self) -> BsaDirectory {
        self.directory
    }

    pub closed spec fn spec_path(&self) -> Seq<char> {
        self.path@
    }

    /// The directory's indexes point into its tables.
    pub closed spec fn wf(&self) -> bool {
        self.directory.wf()
    }

    /// The archive of a header and directory read from `path`; refused
    /// unless the version is Skyrim's or Skyrim Special Edition's.
    pub fn from_parts(header: BsaHeader, directory: BsaDirectory, path: String) -> (r: Result<BsaArchive, BsaOpenError>)
        requires
            directory.wf(),
        ensures
            match r {
                Ok(a) => header.version == crate::bsa::header::BSAHEADER_VERSION_SK || header.version == BSAHEADER_VERSION_SSE,
                Err(e) => !(header.version == crate::bsa::header::BSAHEADER_VERSION_SK || header.version == BSAHEADER_VERSION_SSE)
                    && e == BsaOpenError::UnsupportedVersion(header.version),
            },
            r matches Ok(a) ==> a.wf() && a.spec_header() == header && a.spec_directory() == directory && a.spec_path() == path@,
    {
        if !header.is_valid_version() {
            return Err(BsaOpenError::UnsupportedVersion(header.version));
        }
        Ok(BsaArchive { header, directory, path })
    }

    /// Whether the directory has a file at `path`: the folder and file
    /// hashes of the split path find a record.
    pub open spec fn has_file(&self, path: Seq<char>) -> bool {
        match crate::bsa::directory::spec_split_archive_path(path) {
            None => false,
            Some((folder, name, ext)) => self.spec_directory().spec_find(
                crate::bsa::directory::spec_bsa_hash64(vstd::utf8::encode_utf8(folder), Seq::empty()),
                crate::bsa::directory::spec_bsa_hash64(vstd::utf8::encode_utf8(name), vstd::utf8::encode_utf8(ext))) is Some,
        }
    }

    /// Whether a file of that path is in the archive (see [`BsaDirectory::find_by_path`]).
    pub fn contains_file(&self, path: &str) -> (r: bool)
        requires
            self.wf(),
        ensures
            r == self.has_file(path@),
    {
        self.directory.find_by_path(path).is_some()
    }

    /// The data of the file at `path`, read from the archive bytes.
    pub fn extract_file(&self, path: &str, archive: &[u8]) -> (r: Result<Vec<u8>, BsaExtractError>)
        requires
            self.wf(),
        ensures
            match crate::bsa::directory::spec_split_archive_path(path@) {
                None => r == Err::<Vec<u8>, BsaExtractError>(BsaExtractError::NotFound),
                Some((folder, name, ext)) => match self.spec_directory().spec_find(
                    crate::bsa::directory::spec_bsa_hash64(vstd::utf8::encode_utf8(folder), Seq::empty()),
                    crate::bsa::directory::spec_bsa_hash64(vstd::utf8::encode_utf8(name), vstd::utf8::encode_utf8(ext))) {
                    None => r == Err::<Vec<u8>, BsaExtractError>(BsaExtractError::NotFound),
                    Some((_f, rec)) => extracted(archive@, self.spec_header(), rec.offset, rec.raw_size, r),
                },
            },
    {
        match self.directory.find_by_path(path) {
            None => Err(BsaExtractError::NotFound),
            Some((_folder, file)) => extract_file_data(archive, &self.header, file.offset, file.raw_size),
        }
    }

    /// The names of the files of a folder, named without regard to case;
    /// empty when there is no such folder.
    pub fn list_files_in_folder(&self, folder_name: &str) -> (r: Vec<&str>)
        requires
            self.wf(),
        ensures
            ({
                let h = crate::bsa::directory::spec_bsa_hash64(
                    vstd::utf8::encode_utf8(crate::text::unicode_lower_str(folder_name@)), Seq::empty());
                let d = self.spec_directory();
                if d.folder_map@.contains_key(h) {
                    let files = d.folders@[d.folder_map@[h] as int].files@;
                    r@.len() == files.len() && forall|k: int| 0 <= k < r@.len() ==> #[trigger] r@[k]@ == files[k].name@
                } else {
                    r@.len() == 0
                }
            }),
    {
        let lower = str_to_lowercase(folder_name);
        let folder_hash = bsa_hash64(lower.as_str(), "");
        proof {
            reveal_strlit("");
            assert(""@.len() == 0);
            assert(vstd::utf8::encode_utf8(""@) =~= Seq::<u8>::empty());
        }
        let mut out: Vec<&str> = Vec::new();
        match self.directory.folder_map.get(&folder_hash) {
            None => out,
            Some(idx) => {
                let folder = &self.directory.folders[*idx];
                let mut k: usize = 0;
                while k < folder.files.len()
                    invariant
                        k <= folder.files@.len(),
                        out@.len() == k,
                        forall|q: int| 0 <= q < k ==> #[trigger] out@[q]@ == folder.files@[q].name@,
                    decreases folder.files@.len() - k,
                {
                    out.push(folder.files[k].name.as_str());
                    k = k + 1;
                }
                out
            },
        }
    }

    pub fn version(&self) -> (r: u32)
        ensures
            r == self.spec_header().version,
    {
        self.header.version
    }

    pub fn folder_count(&self) -> (r: u32)
        ensures
            r == self.spec_header().folder_count,
    {
        self.header.folder_count
    }

    pub fn file_count(&self) -> (r: u32)
        ensures
            r == self.spec_header().file_count,
    {
        self.header.file_count
    }

    /// The names of the named folders, in table order.
    pub fn folder_names(&self) -> (r: Vec<&str>)
        ensures
            ({
                let named = self.spec_directory().folders@.filter(|f: BsaFolder| f.name@.len() > 0);
                r@.len() == named.len() && forall|k: int| 0 <= k < r@.len() ==> #[trigger] r@[k]@ == named[k].name@
            }),
    {
        let ghost folders = self.directory.folders@;
        let ghost p = |f: BsaFolder| f.name@.len() > 0;
        let mut out: Vec<&str> = Vec::new();
        let mut i: usize = 0;
        while i < self.directory.folders.len()
            invariant
                i <= folders.len(),
                folders == self.directory.folders@,
                p == (|f: BsaFolder| f.name@.len() > 0),
                ({
                    let named = folders.take(i as int).filter(p);
                    out@.len() == named.len() && forall|k: int| 0 <= k < out@.len() ==> #[trigger] out@[k]@ == named[k].name@
                }),
            decreases folders.len() - i,
        {
            let folder = &self.directory.folders[i];
            proof {
                reveal(Seq::filter);
                assert(folders.take(i + 1).drop_last() =~= folders.take(i as int));
            }
            if folder.name.as_str().unicode_len() > 0 {
                out.push(folder.name.as_str());
            }
            i = i + 1;
        }
        assert(folders.take(folders.len() as int) =~= folders);
        out
    }

    /// The file name of the archive's path.
    pub fn archive_name(&self) -> (r: Option<&str>)
        ensures
            match r {
                Some(s) => crate::ba2::archive::spec_file_name(self.spec_path()) == Some(s@),
                None => crate::ba2::archive::spec_file_name(self.spec_path()) is None,
            },
    {
        crate::ba2::archive::file_name_of(self.path.as_str())
    }

    /// Every file with its listed path, stored size, compression and
    /// folder, in ascending path order (files of equal path in table order).
    pub fn list_all_files(&self) -> (r: Vec<BsaFileEntry>)
        ensures
            ({
                let folders = self.spec_directory().folders@;
                let slots = file_slots(folders);
                exists|p: Seq<usize>| #[trigger] crate::text::stable_sorted(slot_paths(folders), p)
                    && r@.len() == p.len()
                    && forall|k: int| 0 <= k < r@.len() ==> #[trigger] entry_matches(r@[k], folders, slots[p[k] as int], self.spec_header())
            }),
    {
        let ghost folders = self.directory.folders@;
        let mut keys: Vec<Vec<char>> = Vec::new();
        let mut entries: Vec<BsaFileEntry> = Vec::new();
        let mut i: usize = 0;
        while i < self.directory.folders.len()
            invariant
                i <= folders.len(),
                folders == self.directory.folders@,
                keys@.len() == entries@.len(),
                keys@.len() == file_slots(folders.take(i as int)).len(),
                forall|q: int| 0 <= q < keys@.len() ==> {
                    let sl = #[trigger] file_slots(folders.take(i as int))[q];
                    &&& 0 <= sl.0 < i && 0 <= sl.1 < folders[sl.0].files@.len()
                    &&& keys@[q]@ == listed_path(folders[sl.0].name@, folders[sl.0].files@[sl.1].name@)
                    &&& entry_matches(entries@[q], folders, sl, self.header)
                },
            decreases folders.len() - i,
        {
            let folder = &self.directory.folders[i];
            let ghost prev = file_slots(folders.take(i as int));
            assert(folders.take(i + 1).drop_last() =~= folders.take(i as int));
            let fname = chars_of(folder.name.as_str());
            let ghost mut cur: Seq<(int, int)> = prev;
            let mut k: usize = 0;
            while k < folder.files.len()
                invariant
                    i < folders.len(),
                    folders == self.directory.folders@,
                    *folder == folders[i as int],
                    fname@ == folder.name@,
                    k <= folder.files@.len(),
                    prev == file_slots(folders.take(i as int)),
                    cur == prev + Seq::new(k as nat, |j: int| (i as int, j)),
                    keys@.len() == entries@.len(),
                    keys@.len() == cur.len(),
                    forall|q: int| 0 <= q < keys@.len() ==> {
                        let sl = #[trigger] cur[q];
                        &&& 0 <= sl.0 <= i && 0 <= sl.1 < folders[sl.0].files@.len()
                        &&& keys@[q]@ == listed_path(folders[sl.0].name@, folders[sl.0].files@[sl.1].name@)
                        &&& entry_matches(entries@[q], folders, sl, self.header)
                    },
                decreases folder.files@.len() - k,
            {
                let file = &folder.files[k];
                let mut key: Vec<char> = Vec::new();
                if fname.len() > 0 {
                    crate::text::extend_chars(&mut key, &fname);
                    key.push('/');
                }
                crate::text::extend_chars(&mut key, &chars_of(file.name.as_str()));
                proof {
                    if fname@.len() > 0 {
                        assert(key@ =~= folder.name@ + seq!['/'] + file.name@);
                    } else {
                        assert(key@ =~= file.name@);
                    }
                }
                let path = string_from_chars(key.as_slice());
                let compressed = (self.header.archive_flags & BSAARCHIVE_COMPRESSFILES) != 0 && file.raw_size > 0;
                let entry = BsaFileEntry {
                    path,
                    size: file.raw_size as u64,
                    compressed,
                    folder: folder.name.clone(),
                };
                let ghost old_cur = cur;
                let ghost old_entries = entries@;
                let ghost old_keys = keys@;
                entries.push(entry);
                keys.push(key);
                proof {
                    cur = cur.push((i as int, k as int));
                    assert(cur =~= prev + Seq::new((k + 1) as nat, |j: int| (i as int, j)));
                    assert forall|q: int| 0 <= q < keys@.len() implies {
                        let sl = #[trigger] cur[q];
                        &&& 0 <= sl.0 <= i && 0 <= sl.1 < folders[sl.0].files@.len()
                        &&& keys@[q]@ == listed_path(folders[sl.0].name@, folders[sl.0].files@[sl.1].name@)
                        &&& entry_matches(entries@[q], folders, sl, self.header)
                    } by {
                        if q < old_keys.len() {
                            assert(cur[q] == old_cur[q]);
                            assert(entries@[q] == old_entries[q] && keys@[q] == old_keys[q]);
                        }
                    }
                }
                k = k + 1;
            }
            proof {
                assert(file_slots(folders.take(i + 1)) =~= cur);
            }
            i = i + 1;
        }
        assert(folders.take(folders.len() as int) =~= folders);
        let ghost slots = file_slots(folders);
        assert(keys@.map_values(|k: Vec<char>| k@) =~= slot_paths(folders));
        let order = sort_indices_by_keys(&keys);
        let mut out: Vec<BsaFileEntry> = Vec::new();
        let mut k: usize = 0;
        while k < order.len()
            invariant
                crate::text::stable_sorted(slot_paths(folders), order@),
                folders == self.directory.folders@,
                slots == file_slots(folders),
                entries@.len() == slots.len(),
                forall|q: int| 0 <= q < entries@.len() ==> #[trigger] entry_matches(entries@[q], folders, slots[q], self.header),
                k <= order@.len(),
                out@.len() == k,
                forall|q: int| 0 <= q < k ==> #[trigger] entry_matches(out@[q], folders, slots[order@[q] as int], self.header),
            decreases order@.len() - k,
        {
            let j = order[k];
            assert(j < slots.len());
            let e = &entries[j];
            out.push(BsaFileEntry { path: e.path.clone(), size: e.size, compressed: e.compressed, folder: e.folder.clone() });
            k = k + 1;
        }
        assert(crate::text::stable_sorted(slot_paths(folders), order@));
        assert(self.spec_directory().folders@ == folders);
        assert(self.spec_header() == self.header);
        assert(forall|q: int| 0 <= q < out@.len() ==> #[trigger] entry_matches(out@[q], folders, slots[order@[q] as int], self.spec_header()));
        out
    }
}

/// The listed paths of the files, slot by slot (see [`file_slots`]).
pub open spec fn slot_paths(folders: Seq<BsaFolder>) -> Seq<Seq<char>> {
    file_slots(folders).map_values(|sl: (int, int)| listed_path(folders[sl.0].name@, folders[sl.0].files@[sl.1].name@))
}

/// The listing entry of a slot: its path, stored size, compression (the
/// archive compresses by default and the file is not empty) and folder.
pub open spec fn entry_matches(e: BsaFileEntry, folders: Seq<BsaFolder>, sl: (int, int), header: BsaHeader) -> bool {
    let folder = folders[sl.0];
    let file = folder.files@[sl.1];
    &&& e.path@ == listed_path(folder.name@, file.name@)
    &&& e.size == file.raw_size as u64
    &&& e.compressed == (header.archive_flags & BSAARCHIVE_COMPRESSFILES != 0 && file.raw_size > 0)
    &&& e.folder@ == folder.name@
}

} // verus!
