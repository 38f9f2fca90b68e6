//! Replacing files inside a BSA archive: where the data starts, the stored
//! size of new data, where a file's table entry lies, which requested paths
//! were not found, and the rebuilt archive itself.
use vstd::prelude::*;
use crate::bsa::header::{BsaHeader, BSAARCHIVE_COMPRESSFILES, BSAARCHIVE_PREFIXFULLFILENAMES, BSAFILE_COMPRESS, BSAHEADER_VERSION_SSE};
use crate::bytes::{u32_bytes, push_u32_le, push_bytes, copy_range};
use crate::bsa::directory::{BsaDirectory, BsaFolder, BsaFileRecord};
use crate::text::{chars_of, string_from_chars};

verus! {

/// What replacing files in a BSA archive did.
#[derive(Debug, Clone)]
pub struct BsaInjectionSummary {
    /// How many files were replaced.
    pub injected: usize,
    /// The requested paths that no file of the archive has.
    pub not_found: Vec<String>,
    /// The size of the rebuilt archive.
    pub output_size: u64,
}

/// The offsets of the files of the first `n` folders.
pub open spec fn folder_offsets(fs: Seq<BsaFolder>, n: int) -> Seq<u32>
    decreases n,
{
    if n <= 0 || n > fs.len() {
        Seq::empty()
    } else {
        folder_offsets(fs, n - 1) + fs[n - 1].files@.map_values(|f: BsaFileRecord| f.offset)
    }
}

/// The smallest of a non-empty list of numbers.
pub open spec fn min_of(s: Seq<u32>) -> u32
    decreases s.len(),
{
    if s.len() <= 1 {
        s[0]
    } else if s.last() < min_of(s.drop_last()) {
        s.last()
    } else {
        min_of(s.drop_last())
    }
}

/// Where the file data of an archive starts: the smallest file offset, or
/// 0 when there are no files.
pub open spec fn data_start(d: BsaDirectory) -> u64 {
    let offs = folder_offsets(d.folders@, d.folders@.len() as int);
    if offs.len() == 0 { 0 } else { min_of(offs) as u64 }
}

/// Where the file data of an archive starts (see [`data_start`]).
pub fn compute_data_start(directory: &BsaDirectory) -> (r: u64)
    ensures
        r == data_start(*directory),
{
    let ghost fs = directory.folders@;
    let mut found = false;
    let mut best: u32 = 0;
    let mut i: usize = 0;
    while i < directory.folders.len()
        invariant
            i <= fs.len(),
            fs == directory.folders@,
            found == (folder_offsets(fs, i as int).len() > 0),
            found ==> best == min_of(folder_offsets(fs, i as int)),
        decreases fs.len() - i,
    {
        let folder = &directory.folders[i];
        let ghost prev = folder_offsets(fs, i as int);
        let ghost part = folder.files@.map_values(|f: BsaFileRecord| f.offset);
        let mut j: usize = 0;
        while j < folder.files.len()
            invariant
                j <= folder.files@.len(),
                part == folder.files@.map_values(|f: BsaFileRecord| f.offset),
                found == ((prev + part.take(j as int)).len() > 0),
                found ==> best == min_of(prev + part.take(j as int)),
            decreases folder.files@.len() - j,
        {
            let off = folder.files[j].offset;
            let ghost cur = prev + part.take(j as int);
            assert(prev + part.take(j + 1) =~= cur.push(off));
            assert(cur.push(off).drop_last() =~= cur);
            if !found || off < best {
                best = off;
                found = true;
            }
            j = j + 1;
        }
        assert(part.take(part.len() as int) =~= part);
        assert(folder_offsets(fs, i + 1) == prev + part);
        i = i + 1;
    }
    if found { best as u64 } else { 0 }
}

/// The stored size of new file data: its length with the name prefix, and
/// the compression bit set when the file's compression differs from the
/// archive default.
pub open spec fn raw_size_of(h: BsaHeader, packed_len: u32, name_prefix_len: u32, is_compressed: bool) -> u32 {
    let len = (packed_len + name_prefix_len) as u32;
    if (h.archive_flags & BSAARCHIVE_COMPRESSFILES != 0) != is_compressed { len | BSAFILE_COMPRESS } else { len }
}

/// The stored size of new file data (see [`raw_size_of`]); the length
/// keeps its low 32 bits.
pub fn make_raw_size(header: &BsaHeader, packed_len: u32, name_prefix_len: u32, is_compressed: bool) -> (r: u32)
    ensures
        r == raw_size_of(*header, packed_len, name_prefix_len, is_compressed),
{
    let len_with_prefix: u32 = #[verifier::truncate] ((packed_len as u64 + name_prefix_len as u64) as u32);
    let compress_flag_set = (header.archive_flags & BSAARCHIVE_COMPRESSFILES) != 0;
    if compress_flag_set {
        if is_compressed { len_with_prefix } else { len_with_prefix | BSAFILE_COMPRESS }
    } else if is_compressed {
        len_with_prefix | BSAFILE_COMPRESS
    } else {
        len_with_prefix
    }
}

/// The bytes of the folders before folder `n` in the directory area: each
/// folder's name (a length byte, the name and a NUL) and its 16-byte file
/// records.
pub open spec fn folders_area(fs: Seq<BsaFolder>, n: int) -> int
    decreases n,
{
    if n <= 0 || n > fs.len() {
        0
    } else {
        folders_area(fs, n - 1) + vstd::utf8::encode_utf8(fs[n - 1].name@).len() + 2 + fs[n - 1].files@.len() * 16
    }
}

/// Where the table entry of file `file_idx` of folder `folder_idx` lies:
/// after the 36-byte header, the folder records, the earlier folders' names
/// and file records, and the folder's own name.
pub open spec fn table_position(h: BsaHeader, d: BsaDirectory, folder_idx: int, file_idx: int) -> int {
    36 + d.folders@.len() * (if h.version == BSAHEADER_VERSION_SSE { 24int } else { 16int })
        + folders_area(d.folders@, folder_idx)
        + vstd::utf8::encode_utf8(d.folders@[folder_idx].name@).len() + 2 + file_idx * 16
}

/// Where a file's table entry lies (see [`table_position`]).
pub fn file_table_position(header: &BsaHeader, directory: &BsaDirectory, target_folder_idx: usize, file_idx_in_folder: usize) -> (r: u64)
    requires
        target_folder_idx < directory.folders@.len(),
        table_position(*header, *directory, target_folder_idx as int, file_idx_in_folder as int) <= u64::MAX,
    ensures
        r == table_position(*header, *directory, target_folder_idx as int, file_idx_in_folder as int),
{
    let ghost fs = directory.folders@;
    let folder_record_bytes = header.folder_offset_size() as u64;
    let nf = directory.folders.len() as u64;
    proof {
        lemma_folders_area_mono(fs, target_folder_idx as int);
        assert(nf * folder_record_bytes <= table_position(*header, *directory, target_folder_idx as int, file_idx_in_folder as int)) by (nonlinear_arith)
            requires
                nf * folder_record_bytes + 36 + folders_area(fs, target_folder_idx as int) + vstd::utf8::encode_utf8(fs[target_folder_idx as int].name@).len() + 2 + file_idx_in_folder * 16
                    == table_position(*header, *directory, target_folder_idx as int, file_idx_in_folder as int),
                folders_area(fs, target_folder_idx as int) >= 0,
                file_idx_in_folder >= 0,
        {}
    }
    let mut pos: u64 = 36 + nf * folder_record_bytes;
    let mut i: usize = 0;
    while i < target_folder_idx
        invariant
            i <= target_folder_idx < fs.len(),
            fs == directory.folders@,
            pos == 36 + nf * folder_record_bytes + folders_area(fs, i as int),
            table_position(*header, *directory, target_folder_idx as int, file_idx_in_folder as int) <= u64::MAX,
            table_position(*header, *directory, target_folder_idx as int, file_idx_in_folder as int)
                == 36 + nf * folder_record_bytes + folders_area(fs, target_folder_idx as int)
                    + vstd::utf8::encode_utf8(fs[target_folder_idx as int].name@).len() + 2 + file_idx_in_folder * 16,
        decreases target_folder_idx - i,
    {
        let folder = &directory.folders[i];
        proof {
            lemma_folders_area_prefix(fs, i + 1, target_folder_idx as int);
        }
        let name_len = folder.name.as_str().as_bytes().len() as u64;
        pos = pos + name_len + 2;
        pos = pos + folder.files.len() as u64 * 16;
        i = i + 1;
    }
    let name_len = directory.folders[target_folder_idx].name.as_str().as_bytes().len() as u64;
    pos = pos + name_len + 2;
    pos = pos + file_idx_in_folder as u64 * 16;
    pos
}

proof fn lemma_folders_area_mono(fs: Seq<BsaFolder>, n: int)
    ensures
        folders_area(fs, n) >= 0,
    decreases n,
{
    if n > 0 && n <= fs.len() {
        lemma_folders_area_mono(fs, n - 1);
    }
}

proof fn lemma_folders_area_prefix(fs: Seq<BsaFolder>, a: int, b: int)
    requires
        0 <= a <= b <= fs.len(),
    ensures
        folders_area(fs, a) <= folders_area(fs, b),
    decreases b - a,
{
    if a < b {
        lemma_folders_area_prefix(fs, a, b - 1);
    }
}

/// The path under which a file of a folder is requested: the folder name,
/// `/` and the file name.
pub open spec fn rel_path(folder: Seq<char>, file: Seq<char>) -> Seq<char> {
    folder + "/"@ + file
}

/// The path under which a file of a folder is requested (see [`rel_path`]).
pub fn bsa_rel_path(folder_name: &str, file_name: &str) -> (r: String)
    ensures
        r@ == rel_path(folder_name@, file_name@),
{
    let mut out = chars_of(folder_name);
    crate::header_processor::push_lit(&mut out, "/");
    crate::header_processor::push_lit(&mut out, file_name);
    string_from_chars(out.as_slice())
}

/// The requested paths that were not replaced, in request order.
pub open spec fn not_found_of(requested: Seq<Seq<char>>, done: Seq<Seq<char>>) -> Seq<Seq<char>>
    decreases requested.len(),
{
    if requested.len() == 0 {
        Seq::empty()
    } else if done.contains(requested.last()) {
        not_found_of(requested.drop_last(), done)
    } else {
        not_found_of(requested.drop_last(), done).push(requested.last())
    }
}

/// The requested paths that were not replaced (see [`not_found_of`]).
pub fn remaining_requests(requested: &Vec<String>, done: &Vec<String>) -> (r: Vec<String>)
    ensures
        crate::header_processor::texts(r@) == not_found_of(crate::header_processor::texts(requested@), crate::header_processor::texts(done@)),
{
    let ghost rq = crate::header_processor::texts(requested@);
    let ghost dn = crate::header_processor::texts(done@);
    let mut out: Vec<String> = Vec::new();
    let mut i: usize = 0;
    while i < requested.len()
        invariant
            i <= requested@.len(),
            rq == crate::header_processor::texts(requested@),
            dn == crate::header_processor::texts(done@),
            crate::header_processor::texts(out@) == not_found_of(rq.take(i as int), dn),
        decreases requested@.len() - i,
    {
        let p = chars_of(requested[i].as_str());
        let mut hit = false;
        let mut j: usize = 0;
        while j < done.len()
            invariant
                j <= done@.len(),
                dn == crate::header_processor::texts(done@),
                hit == (exists|t: int| 0 <= t < j && dn[t] == p@),
            decreases done@.len() - j,
        {
            if crate::text::chars_eq(&chars_of(done[j].as_str()), &p) {
                hit = true;
            }
            proof {
                if dn[j as int] == p@ {
                    assert(dn[j as int] == p@);
                }
            }
            j = j + 1;
        }
        proof {
            assert(rq.take(i + 1).drop_last() =~= rq.take(i as int));
            assert(rq[i as int] == p@);
            assert(hit == dn.contains(p@));
        }
        let ghost before = out@;
        if !hit {
            out.push(string_from_chars(p.as_slice()));
            assert(crate::header_processor::texts(out@) =~= crate::header_processor::texts(before).push(p@));
        }
        i = i + 1;
    }
    assert(rq.take(rq.len() as int) =~= rq);
    out
}


/// The LZ4 block that `lz4::block::compress` returns for `data` in its
/// default mode with the input length prepended.
pub uninterp spec fn lz4_compressed(data: Seq<u8>) -> Seq<u8>;

/// `lz4::block::compress(data, None, true)`. Claims only that a successful
/// result is that function's output for `data`; it fails on inputs longer
/// than `i32::MAX` bytes and when the C library fails, which is left open.
#[verifier::external_body]
fn compress_lz4(data: &[u8]) -> (r: Option<Vec<u8>>)
    ensures
        r matches Some(c) ==> c@ == lz4_compressed(data@),
{
    lz4::block::compress(data, None, true).ok()
}

/// Why a BSA archive could not be rebuilt.
#[derive(Clone, Copy, Debug, PartialEq, Eq)]
pub enum BsaRebuildError {
    /// The directory, a name prefix or a kept file's data lies outside the bytes.
    OutOfRange,
    /// The compressor failed.
    CompressionFailed,
}

/// Whether some replaced file is stored compressed, so that its new data
/// is compressed.
pub open spec fn bsa_compresses_any(h: BsaHeader, fs: Seq<BsaFolder>, rs: Seq<(Seq<char>, Seq<u8>)>) -> bool {
    exists|i: int, k: int| 0 <= i < fs.len() && 0 <= k < fs[i].files@.len()
        && bsa_repl(rs, fs[i].name@, #[trigger] fs[i].files@[k]) is Some && file_compressed(h, fs[i].files@[k])
}

/// Whether file data carries a name prefix (archive flag 9).
pub open spec fn has_prefix(h: BsaHeader) -> bool {
    h.archive_flags & BSAARCHIVE_PREFIXFULLFILENAMES != 0
}

/// Whether a file is stored compressed: its size bit inverts the archive default.
pub open spec fn file_compressed(h: BsaHeader, f: BsaFileRecord) -> bool {
    (f.raw_size & BSAFILE_COMPRESS != 0) != (h.archive_flags & BSAARCHIVE_COMPRESSFILES != 0)
}

/// The stored size of a file, without the compression bit.
pub open spec fn stored_size(f: BsaFileRecord) -> u32 {
    f.raw_size & !BSAFILE_COMPRESS
}

/// The name prefix written before a file's data: the length byte and the
/// name read at the file's offset, and a NUL; nothing without flag 9.
pub open spec fn name_prefix(src: Seq<u8>, h: BsaHeader, f: BsaFileRecord) -> Seq<u8> {
    let off = f.offset as int;
    if has_prefix(h) { seq![src[off]] + src.subrange(off + 1, off + 1 + src[off]) + seq![0u8] } else { Seq::empty() }
}

/// The length of the name prefix.
pub open spec fn prefix_len(src: Seq<u8>, h: BsaHeader, f: BsaFileRecord) -> int {
    if has_prefix(h) { src[f.offset as int] + 2 } else { 0 }
}

/// The new data of a file of folder `folder`, when it is replaced.
pub open spec fn bsa_repl(rs: Seq<(Seq<char>, Seq<u8>)>, folder: Seq<char>, f: BsaFileRecord) -> Option<Seq<u8>> {
    crate::ba2::injection::find_repl(rs, rel_path(folder, f.name@), 0)
}

/// New data compressed as the archive compresses: LZ4 for Skyrim Special
/// Edition, zlib otherwise.
pub open spec fn packed_data(h: BsaHeader, d: Seq<u8>) -> Seq<u8> {
    if h.version == BSAHEADER_VERSION_SSE { lz4_compressed(d) } else { crate::ba2::injection::zlib_default(d) }
}

/// The data block written for a file: the name prefix, then the new data
/// (compressed files: its length and the compressed data) or the rest of
/// the file's stored bytes.
pub open spec fn bsa_block(src: Seq<u8>, h: BsaHeader, rs: Seq<(Seq<char>, Seq<u8>)>, folder: Seq<char>, f: BsaFileRecord) -> Seq<u8> {
    let off = f.offset as int;
    name_prefix(src, h, f) + match bsa_repl(rs, folder, f) {
        Some(d) => if file_compressed(h, f) { u32_bytes(d.len() as u32) + packed_data(h, d) } else { d },
        None => src.subrange(off + prefix_len(src, h, f), off + stored_size(f)),
    }
}

/// The stored size recorded for a file's block: for new data the length of
/// what is written after the name prefix (for compressed files, the 4-byte
/// data length and the compressed data; low 32 bits), with the name prefix
/// and compression bit; else the old stored size.
pub open spec fn bsa_raw(src: Seq<u8>, h: BsaHeader, rs: Seq<(Seq<char>, Seq<u8>)>, folder: Seq<char>, f: BsaFileRecord) -> u32 {
    match bsa_repl(rs, folder, f) {
        Some(d) => {
            let c = file_compressed(h, f);
            let packed = if c { (4 + packed_data(h, d).len()) as u32 } else { d.len() as u32 };
            raw_size_of(h, packed, prefix_len(src, h, f) as u32, c)
        },
        None => f.raw_size,
    }
}

/// Whether a file's name prefix and, when it is kept, its data lie in the bytes.
pub open spec fn bsa_file_ok(src: Seq<u8>, h: BsaHeader, rs: Seq<(Seq<char>, Seq<u8>)>, folder: Seq<char>, f: BsaFileRecord) -> bool {
    let off = f.offset as int;
    &&& has_prefix(h) ==> off < src.len() && off + 1 + src[off] <= src.len()
    &&& bsa_repl(rs, folder, f) is None ==> prefix_len(src, h, f) <= stored_size(f) && off + stored_size(f) <= src.len()
}

/// Where the directory ends: the header, the folder records, and each
/// folder's name and file records.
pub open spec fn directory_end(h: BsaHeader, d: BsaDirectory) -> int {
    36 + d.folders@.len() * (if h.version == BSAHEADER_VERSION_SSE { 24int } else { 16int })
        + folders_area(d.folders@, d.folders@.len() as int)
}

/// Whether the archive can be rebuilt: the data start lies in the bytes,
/// the directory ends before it, and every file is readable (see [`bsa_file_ok`]).
pub open spec fn bsa_rebuild_ok(src: Seq<u8>, h: BsaHeader, d: BsaDirectory, rs: Seq<(Seq<char>, Seq<u8>)>) -> bool {
    let fs = d.folders@;
    &&& data_start(d) <= src.len()
    &&& directory_end(h, d) <= data_start(d)
    &&& forall|i: int, k: int| 0 <= i < fs.len() && 0 <= k < fs[i].files@.len()
        ==> bsa_file_ok(src, h, rs, fs[i].name@, #[trigger] fs[i].files@[k])
}

/// The blocks of the first `k` files of a folder.
pub open spec fn folder_blocks(src: Seq<u8>, h: BsaHeader, rs: Seq<(Seq<char>, Seq<u8>)>, folder: Seq<char>, files: Seq<BsaFileRecord>, k: int) -> Seq<u8>
    decreases k,
{
    if k <= 0 || k > files.len() {
        Seq::empty()
    } else {
        folder_blocks(src, h, rs, folder, files, k - 1) + bsa_block(src, h, rs, folder, files[k - 1])
    }
}

/// The blocks of the files of the first `i` folders.
pub open spec fn dir_blocks(src: Seq<u8>, h: BsaHeader, rs: Seq<(Seq<char>, Seq<u8>)>, fs: Seq<BsaFolder>, i: int) -> Seq<u8>
    decreases i,
{
    if i <= 0 || i > fs.len() {
        Seq::empty()
    } else {
        dir_blocks(src, h, rs, fs, i - 1) + folder_blocks(src, h, rs, fs[i - 1].name@, fs[i - 1].files@, fs[i - 1].files@.len() as int)
    }
}

/// `s` with the eight bytes at `p` replaced by `b`.
pub open spec fn put8(s: Seq<u8>, p: int, b: Seq<u8>) -> Seq<u8> {
    s.take(p) + b + s.skip(p + 8)
}

/// The new stored size and offset of file `k` of folder `i`, as its table
/// entry holds them; the offset keeps its low 32 bits.
pub open spec fn entry_update(src: Seq<u8>, h: BsaHeader, d: BsaDirectory, rs: Seq<(Seq<char>, Seq<u8>)>, i: int, k: int) -> Seq<u8> {
    let fs = d.folders@;
    u32_bytes(bsa_raw(src, h, rs, fs[i].name@, fs[i].files@[k]))
        + u32_bytes((data_start(d) + dir_blocks(src, h, rs, fs, i).len()
            + folder_blocks(src, h, rs, fs[i].name@, fs[i].files@, k).len()) as u32)
}

/// `base` with the table entries of the first `k` files of folder `i` updated.
pub open spec fn folder_patched(base: Seq<u8>, src: Seq<u8>, h: BsaHeader, d: BsaDirectory, rs: Seq<(Seq<char>, Seq<u8>)>, i: int, k: int) -> Seq<u8>
    decreases k,
{
    if k <= 0 {
        base
    } else {
        put8(folder_patched(base, src, h, d, rs, i, k - 1), table_position(h, d, i, k - 1) + 8, entry_update(src, h, d, rs, i, k - 1))
    }
}

/// The kept directory bytes with the table entries of the files of the
/// first `i` folders updated.
pub open spec fn dir_patched(src: Seq<u8>, h: BsaHeader, d: BsaDirectory, rs: Seq<(Seq<char>, Seq<u8>)>, i: int) -> Seq<u8>
    decreases i,
{
    if i <= 0 || i > d.folders@.len() {
        src.take(data_start(d) as int)
    } else {
        folder_patched(dir_patched(src, h, d, rs, i - 1), src, h, d, rs, i - 1, d.folders@[i - 1].files@.len() as int)
    }
}

/// The rebuilt archive: the bytes before the data with every table entry
/// updated, then the blocks of all files, folder by folder.
pub open spec fn bsa_rebuilt(src: Seq<u8>, h: BsaHeader, d: BsaDirectory, rs: Seq<(Seq<char>, Seq<u8>)>) -> Seq<u8> {
    let n = d.folders@.len() as int;
    dir_patched(src, h, d, rs, n) + dir_blocks(src, h, rs, d.folders@, n)
}

/// The paths of the replaced files among the first `k` files of a folder.
pub open spec fn folder_found(rs: Seq<(Seq<char>, Seq<u8>)>, folder: Seq<char>, files: Seq<BsaFileRecord>, k: int) -> Seq<Seq<char>>
    decreases k,
{
    if k <= 0 || k > files.len() {
        Seq::empty()
    } else if bsa_repl(rs, folder, files[k - 1]) is Some {
        folder_found(rs, folder, files, k - 1).push(rel_path(folder, files[k - 1].name@))
    } else {
        folder_found(rs, folder, files, k - 1)
    }
}

/// The paths of the replaced files of the first `i` folders.
pub open spec fn dir_found(rs: Seq<(Seq<char>, Seq<u8>)>, fs: Seq<BsaFolder>, i: int) -> Seq<Seq<char>>
    decreases i,
{
    if i <= 0 || i > fs.len() {
        Seq::empty()
    } else {
        dir_found(rs, fs, i - 1) + folder_found(rs, fs[i - 1].name@, fs[i - 1].files@, fs[i - 1].files@.len() as int)
    }
}

/// Whether a file's name prefix and kept data lie in the bytes (see [`bsa_file_ok`]).
fn check_file(src: &[u8], h: &BsaHeader, rs: &Vec<(String, Vec<u8>)>, folder: &str, f: &BsaFileRecord) -> (r: bool)
    ensures
        r == bsa_file_ok(src@, *h, crate::ba2::injection::repl_view(rs@), folder@, *f),
{
    let slen = src.len();
    let off = f.offset as usize;
    let mut plen: usize = 0;
    if h.has_prefix_full_filenames() {
        if off >= slen || src[off] as usize > slen - off - 1 {
            return false;
        }
        plen = src[off] as usize + 2;
    }
    let key = chars_of(bsa_rel_path(folder, f.name.as_str()).as_str());
    let hit = crate::ba2::injection::find_replacement(rs, &key);
    if hit.is_none() {
        let (_c, stored) = h.is_file_compressed(f.raw_size);
        if plen > stored as usize || off > slen || stored as usize > slen - off {
            return false;
        }
    }
    true
}

/// Writes `a` and `b` over the eight bytes at `p`.
fn put8_at(v: &mut Vec<u8>, p: usize, a: u32, b: u32)
    requires
        p + 8 <= old(v)@.len(),
    ensures
        final(v)@ == put8(old(v)@, p as int, u32_bytes(a) + u32_bytes(b)),
{
    let n = v.len();
    assert(p + 8 <= n);
    v.set(p, (a % 0x100) as u8);
    v.set(p + 1, ((a / 0x100) % 0x100) as u8);
    v.set(p + 2, ((a / 0x1_0000) % 0x100) as u8);
    v.set(p + 3, (a / 0x100_0000) as u8);
    v.set(p + 4, (b % 0x100) as u8);
    v.set(p + 5, ((b / 0x100) % 0x100) as u8);
    v.set(p + 6, ((b / 0x1_0000) % 0x100) as u8);
    v.set(p + 7, (b / 0x100_0000) as u8);
    assert(final(v)@ =~= put8(old(v)@, p as int, u32_bytes(a) + u32_bytes(b)));
}

/// The block and stored size of one file (see [`bsa_block`], [`bsa_raw`]),
/// and its path when it is replaced.
fn file_block(src: &[u8], h: &BsaHeader, rs: &Vec<(String, Vec<u8>)>, folder: &str, f: &BsaFileRecord)
    -> (r: Result<(Vec<u8>, u32, Option<String>), BsaRebuildError>)
    requires
        bsa_file_ok(src@, *h, crate::ba2::injection::repl_view(rs@), folder@, *f),
    ensures
        match r {
            Ok((b, raw, k)) => {
                let rv = crate::ba2::injection::repl_view(rs@);
                &&& b@ == bsa_block(src@, *h, rv, folder@, *f)
                &&& raw == bsa_raw(src@, *h, rv, folder@, *f)
                &&& match k {
                    Some(p) => bsa_repl(rv, folder@, *f) is Some && p@ == rel_path(folder@, f.name@),
                    None => bsa_repl(rv, folder@, *f) is None,
                }
            },
            Err(e) => e == BsaRebuildError::CompressionFailed
                && bsa_repl(crate::ba2::injection::repl_view(rs@), folder@, *f) is Some && file_compressed(*h, *f),
        },
{
    let ghost rv = crate::ba2::injection::repl_view(rs@);
    let slen = src.len();
    let off = f.offset as usize;
    let mut out: Vec<u8> = Vec::new();
    let mut plen: u32 = 0;
    if h.has_prefix_full_filenames() {
        let l = src[off];
        out.push(l);
        let name = copy_range(src, off + 1, off + 1 + l as usize);
        push_bytes(&mut out, name.as_slice());
        out.push(0u8);
        plen = l as u32 + 2;
    }
    assert(out@ == name_prefix(src@, *h, *f));
    let (compressed, stored) = h.is_file_compressed(f.raw_size);
    let path = bsa_rel_path(folder, f.name.as_str());
    let key = chars_of(path.as_str());
    match crate::ba2::injection::find_replacement(rs, &key) {
        Some(k) => {
            let d = &rs[k].1;
            let dl: u32 = #[verifier::truncate] (d.len() as u32);
            let packed: u32 = if compressed {
                push_u32_le(&mut out, dl);
                let c = if h.version == BSAHEADER_VERSION_SSE {
                    compress_lz4(d.as_slice())
                } else {
                    crate::ba2::injection::compress_zlib_default(d.as_slice())
                };
                match c {
                    Some(c) => {
                        push_bytes(&mut out, c.as_slice());
                        #[verifier::truncate] ((4 + c.len() as u128) as u32)
                    },
                    None => {
                        return Err(BsaRebuildError::CompressionFailed);
                    },
                }
            } else {
                push_bytes(&mut out, d.as_slice());
                dl
            };
            let raw = make_raw_size(h, packed, plen, compressed);
            Ok((out, raw, Some(path)))
        },
        None => {
            let v = copy_range(src, off + plen as usize, off + stored as usize);
            push_bytes(&mut out, v.as_slice());
            Ok((out, f.raw_size, None))
        },
    }
}


/// Rebuilds a BSA archive from its bytes with the files of `replacements`
/// (keys `folder/name` as [`rel_path`] gives them, each at most once)
/// replaced, each keeping its compression and name prefix (see
/// [`bsa_rebuilt`]). Refused with `OutOfRange` exactly when
/// [`bsa_rebuild_ok`] fails; otherwise it succeeds unless a compressed file
/// is replaced (see [`bsa_compresses_any`]) and the compressor fails. The
/// summary counts the replaced files and lists the keys that matched none.
#[verifier::rlimit(80)]
pub fn rebuild_bsa(src: &[u8], header: &BsaHeader, directory: &BsaDirectory, replacements: &Vec<(String, Vec<u8>)>)
    -> (r: Result<(Vec<u8>, BsaInjectionSummary), BsaRebuildError>)
    ensures
        !bsa_rebuild_ok(src@, *header, *directory, crate::ba2::injection::repl_view(replacements@))
            ==> r == Err::<(Vec<u8>, BsaInjectionSummary), BsaRebuildError>(BsaRebuildError::OutOfRange),
        bsa_rebuild_ok(src@, *header, *directory, crate::ba2::injection::repl_view(replacements@))
            ==> (r is Ok || r == Err::<(Vec<u8>, BsaInjectionSummary), BsaRebuildError>(BsaRebuildError::CompressionFailed)),
        r == Err::<(Vec<u8>, BsaInjectionSummary), BsaRebuildError>(BsaRebuildError::CompressionFailed)
            ==> bsa_compresses_any(*header, directory.folders@, crate::ba2::injection::repl_view(replacements@)),
        bsa_rebuild_ok(src@, *header, *directory, crate::ba2::injection::repl_view(replacements@))
            && !bsa_compresses_any(*header, directory.folders@, crate::ba2::injection::repl_view(replacements@)) ==> r is Ok,
        r matches Ok((out, s)) ==> {
            let rv = crate::ba2::injection::repl_view(replacements@);
            let n = directory.folders@.len() as int;
            &&& out@ == bsa_rebuilt(src@, *header, *directory, rv)
            &&& s.injected == dir_found(rv, directory.folders@, n).len()
            &&& crate::header_processor::texts(s.not_found@)
                == not_found_of(rv.map_values(|p: (Seq<char>, Seq<u8>)| p.0), dir_found(rv, directory.folders@, n))
            &&& s.output_size == out@.len()
        },
{
    let ghost rv = crate::ba2::injection::repl_view(replacements@);
    let ghost fs = directory.folders@;
    let ghost h = *header;
    let ghost d = *directory;
    let ghost sv = src@;
    let srclen = src.len();
    let ds = compute_data_start(directory);
    proof { lemma_folders_area_mono(fs, fs.len() as int); }
    if ds > srclen as u64 {
        return Err(BsaRebuildError::OutOfRange);
    }
    let nf = directory.folders.len() as u64;
    let sse = header.version == BSAHEADER_VERSION_SSE;
    if ds < 36 || (sse && nf > (ds - 36) / 24) || (!sse && nf > (ds - 36) / 16) {
        return Err(BsaRebuildError::OutOfRange);
    }
    let head: u64 = if sse { 36 + nf * 24 } else { 36 + nf * 16 };
    assert(head == 36 + fs.len() * (if h.version == BSAHEADER_VERSION_SSE { 24int } else { 16int }));
    let mut pos: u64 = head;
    let mut i: usize = 0;
    while i < directory.folders.len()
        invariant
            i <= fs.len(),
            fs == directory.folders@,
            pos == head + folders_area(fs, i as int),
            pos <= ds,
            ds == data_start(d),
            d == *directory,
            h == *header,
            head == 36 + fs.len() * (if h.version == BSAHEADER_VERSION_SSE { 24int } else { 16int }),
        decreases fs.len() - i,
    {
        let folder = &directory.folders[i];
        let nl = folder.name.as_str().as_bytes().len() as u64;
        let cnt = folder.files.len() as u64;
        let room = ds - pos;
        proof {
            lemma_folders_area_prefix(fs, i + 1, fs.len() as int);
        }
        assert(nl == vstd::utf8::encode_utf8(fs[i as int].name@).len());
        assert(folders_area(fs, i + 1) == folders_area(fs, i as int) + nl + 2 + cnt * 16);
        if nl > room || room - nl < 2 {
            return Err(BsaRebuildError::OutOfRange);
        }
        let left = room - nl - 2;
        if cnt > left / 16 {
            assert(cnt * 16 > left) by (nonlinear_arith)
                requires
                    cnt > left / 16,
            {}
            return Err(BsaRebuildError::OutOfRange);
        }
        assert(cnt * 16 <= left) by (nonlinear_arith)
            requires
                cnt <= left / 16,
        {}
        pos = pos + nl + 2 + cnt * 16;
        i = i + 1;
    }
    assert(directory_end(h, d) <= ds);
    // Every file's prefix and kept data must lie in the bytes.
    let mut i: usize = 0;
    while i < directory.folders.len()
        invariant
            i <= fs.len(),
            fs == directory.folders@,
            sv == src@,
            rv == crate::ba2::injection::repl_view(replacements@),
            h == *header,
            forall|a: int, k: int| 0 <= a < i && 0 <= k < fs[a].files@.len()
                ==> bsa_file_ok(sv, h, rv, fs[a].name@, #[trigger] fs[a].files@[k]),
        decreases fs.len() - i,
    {
        let folder = &directory.folders[i];
        let mut k: usize = 0;
        while k < folder.files.len()
            invariant
                i < fs.len(),
                k <= fs[i as int].files@.len(),
                fs == directory.folders@,
                folder == &fs[i as int],
                sv == src@,
                rv == crate::ba2::injection::repl_view(replacements@),
                h == *header,
                forall|a: int, k: int| 0 <= a < i && 0 <= k < fs[a].files@.len()
                    ==> bsa_file_ok(sv, h, rv, fs[a].name@, #[trigger] fs[a].files@[k]),
                forall|j: int| 0 <= j < k ==> bsa_file_ok(sv, h, rv, fs[i as int].name@, #[trigger] fs[i as int].files@[j]),
            decreases fs[i as int].files@.len() - k,
        {
            if !check_file(src, header, replacements, folder.name.as_str(), &folder.files[k]) {
                return Err(BsaRebuildError::OutOfRange);
            }
            k = k + 1;
        }
        i = i + 1;
    }
    assert(bsa_rebuild_ok(sv, h, d, rv));
    rebuild_bsa_checked(src, header, directory, replacements, ds, head)
}

/// The rebuilding itself, once the archive is known to be readable.
#[verifier::rlimit(80)]
fn rebuild_bsa_checked(src: &[u8], header: &BsaHeader, directory: &BsaDirectory, replacements: &Vec<(String, Vec<u8>)>,
    ds: u64, head: u64) -> (r: Result<(Vec<u8>, BsaInjectionSummary), BsaRebuildError>)
    requires
        bsa_rebuild_ok(src@, *header, *directory, crate::ba2::injection::repl_view(replacements@)),
        ds == data_start(*directory),
        head == 36 + directory.folders@.len() * (if header.version == BSAHEADER_VERSION_SSE { 24int } else { 16int }),
    ensures
        r is Ok || r == Err::<(Vec<u8>, BsaInjectionSummary), BsaRebuildError>(BsaRebuildError::CompressionFailed),
        r is Err ==> bsa_compresses_any(*header, directory.folders@, crate::ba2::injection::repl_view(replacements@)),
        r matches Ok((out, s)) ==> {
            let rv = crate::ba2::injection::repl_view(replacements@);
            let n = directory.folders@.len() as int;
            &&& out@ == bsa_rebuilt(src@, *header, *directory, rv)
            &&& s.injected == dir_found(rv, directory.folders@, n).len()
            &&& crate::header_processor::texts(s.not_found@)
                == not_found_of(rv.map_values(|p: (Seq<char>, Seq<u8>)| p.0), dir_found(rv, directory.folders@, n))
            &&& s.output_size == out@.len()
        },
{
    let ghost rv = crate::ba2::injection::repl_view(replacements@);
    let ghost fs = directory.folders@;
    let ghost h = *header;
    let ghost d = *directory;
    let ghost sv = src@;
    let ghost n = fs.len() as int;
    let slen = src.len();
    proof { lemma_folders_area_mono(fs, n); }
    let mut prefix = copy_range(src, 0, ds as usize);
    assert(prefix@ == dir_patched(sv, h, d, rv, 0));
    let mut data: Vec<u8> = Vec::new();
    let mut found: Vec<String> = Vec::new();
    let mut base: u64 = head;
    let mut i: usize = 0;
    while i < directory.folders.len()
        invariant
            i <= n,
            n == fs.len(),
            fs == directory.folders@,
            sv == src@,
            rv == crate::ba2::injection::repl_view(replacements@),
            h == *header,
            d == *directory,
            ds == data_start(d),
            bsa_rebuild_ok(sv, h, d, rv),
            head == 36 + fs.len() * (if h.version == BSAHEADER_VERSION_SSE { 24int } else { 16int }),
            base == head + folders_area(fs, i as int),
            prefix@ == dir_patched(sv, h, d, rv, i as int),
            prefix@.len() == ds,
            data@ == dir_blocks(sv, h, rv, fs, i as int),
            crate::header_processor::texts(found@) == dir_found(rv, fs, i as int),
        decreases n - i,
    {
        let folder = &directory.folders[i];
        let nl = folder.name.as_str().as_bytes().len() as u64;
        proof {
            lemma_folders_area_prefix(fs, i + 1, n);
        }
        let tbase = base + nl + 2;
        let ghost pre = prefix@;
        let ghost dpre = data@;
        let ghost fpre = crate::header_processor::texts(found@);
        let mut k: usize = 0;
        while k < folder.files.len()
            invariant
                i < n,
                n == fs.len(),
                fs == directory.folders@,
                folder == &fs[i as int],
                k <= fs[i as int].files@.len(),
                sv == src@,
                rv == crate::ba2::injection::repl_view(replacements@),
                h == *header,
                d == *directory,
                ds == data_start(d),
                bsa_rebuild_ok(sv, h, d, rv),
                tbase + fs[i as int].files@.len() * 16 <= ds,
                tbase == table_position(h, d, i as int, 0),
                pre == dir_patched(sv, h, d, rv, i as int),
                dpre == dir_blocks(sv, h, rv, fs, i as int),
                fpre == dir_found(rv, fs, i as int),
                prefix@ == folder_patched(pre, sv, h, d, rv, i as int, k as int),
                prefix@.len() == ds,
                data@ == dpre + folder_blocks(sv, h, rv, fs[i as int].name@, fs[i as int].files@, k as int),
                crate::header_processor::texts(found@) == fpre + folder_found(rv, fs[i as int].name@, fs[i as int].files@, k as int),
            decreases fs[i as int].files@.len() - k,
        {
            let f = &folder.files[k];
            assert(bsa_file_ok(sv, h, rv, fs[i as int].name@, fs[i as int].files@[k as int]));
            let (b, raw, key) = match file_block(src, header, replacements, folder.name.as_str(), f) {
                Ok(x) => x,
                Err(e) => {
                    assert(bsa_repl(rv, fs[i as int].name@, fs[i as int].files@[k as int]) is Some
                        && file_compressed(h, fs[i as int].files@[k as int]));
                    return Err(e);
                },
            };
            let off: u32 = #[verifier::truncate] ((ds as u128 + data.len() as u128) as u32);
            let tp = tbase + 16 * (k as u64);
            assert(tp == table_position(h, d, i as int, k as int));
            put8_at(&mut prefix, (tp + 8) as usize, raw, off);
            push_bytes(&mut data, b.as_slice());
            let ghost fbefore = found@;
            assert(fs[i as int].files@[k as int] == *f);
            match key {
                Some(p) => {
                    found.push(p);
                    proof {
                        assert(crate::header_processor::texts(found@) =~= crate::header_processor::texts(fbefore).push(p@));
                    }
                },
                None => {},
            }
            proof {
                assert(u32_bytes(raw) + u32_bytes(off) == entry_update(sv, h, d, rv, i as int, k as int));
                assert(data@ =~= dpre + folder_blocks(sv, h, rv, fs[i as int].name@, fs[i as int].files@, k + 1));
                assert(crate::header_processor::texts(found@) =~= fpre + folder_found(rv, fs[i as int].name@, fs[i as int].files@, k + 1));
            }
            k = k + 1;
        }
        proof {
            assert(dir_blocks(sv, h, rv, fs, i + 1) =~= dpre + folder_blocks(sv, h, rv, fs[i as int].name@, fs[i as int].files@, fs[i as int].files@.len() as int));
            assert(dir_found(rv, fs, i + 1) =~= fpre + folder_found(rv, fs[i as int].name@, fs[i as int].files@, fs[i as int].files@.len() as int));
        }
        base = tbase + (folder.files.len() as u64) * 16;
        i = i + 1;
    }
    let mut out = prefix;
    push_bytes(&mut out, data.as_slice());
    let keys = crate::ba2::injection::replacement_keys(replacements);
    let not_found = remaining_requests(&keys, &found);
    let output_size = out.len() as u64;
    Ok((out, BsaInjectionSummary { injected: found.len(), not_found, output_size }))
}


proof fn lemma_folder_blocks_prefix(src: Seq<u8>, h: BsaHeader, rs: Seq<(Seq<char>, Seq<u8>)>, folder: Seq<char>, files: Seq<BsaFileRecord>, k: int, m: int)
    requires
        0 <= k <= m <= files.len(),
    ensures
        folder_blocks(src, h, rs, folder, files, k).len() <= folder_blocks(src, h, rs, folder, files, m).len(),
        folder_blocks(src, h, rs, folder, files, m).subrange(0, folder_blocks(src, h, rs, folder, files, k).len() as int)
            == folder_blocks(src, h, rs, folder, files, k),
    decreases m - k,
{
    let x = folder_blocks(src, h, rs, folder, files, k);
    if k < m {
        lemma_folder_blocks_prefix(src, h, rs, folder, files, k, m - 1);
        let a = folder_blocks(src, h, rs, folder, files, m - 1);
        let b = bsa_block(src, h, rs, folder, files[m - 1]);
        assert(folder_blocks(src, h, rs, folder, files, m) == a + b);
        assert((a + b).subrange(0, x.len() as int) =~= a.subrange(0, x.len() as int));
    } else {
        assert(x.subrange(0, x.len() as int) =~= x);
    }
}

proof fn lemma_dir_blocks_prefix(src: Seq<u8>, h: BsaHeader, rs: Seq<(Seq<char>, Seq<u8>)>, fs: Seq<BsaFolder>, i: int, n: int)
    requires
        0 <= i <= n <= fs.len(),
    ensures
        dir_blocks(src, h, rs, fs, i).len() <= dir_blocks(src, h, rs, fs, n).len(),
        dir_blocks(src, h, rs, fs, n).subrange(0, dir_blocks(src, h, rs, fs, i).len() as int) == dir_blocks(src, h, rs, fs, i),
    decreases n - i,
{
    let x = dir_blocks(src, h, rs, fs, i);
    if i < n {
        lemma_dir_blocks_prefix(src, h, rs, fs, i, n - 1);
        let a = dir_blocks(src, h, rs, fs, n - 1);
        let b = folder_blocks(src, h, rs, fs[n - 1].name@, fs[n - 1].files@, fs[n - 1].files@.len() as int);
        assert(dir_blocks(src, h, rs, fs, n) == a + b);
        assert((a + b).subrange(0, x.len() as int) =~= a.subrange(0, x.len() as int));
    } else {
        assert(x.subrange(0, x.len() as int) =~= x);
    }
}

proof fn lemma_folder_patched_len(base: Seq<u8>, src: Seq<u8>, h: BsaHeader, d: BsaDirectory, rs: Seq<(Seq<char>, Seq<u8>)>, i: int, k: int)
    requires
        0 <= i < d.folders@.len(),
        0 <= k <= d.folders@[i].files@.len(),
        table_position(h, d, i, 0) + d.folders@[i].files@.len() * 16 <= base.len(),
    ensures
        folder_patched(base, src, h, d, rs, i, k).len() == base.len(),
    decreases k,
{
    if k > 0 {
        lemma_folder_patched_len(base, src, h, d, rs, i, k - 1);
        lemma_folders_area_mono(d.folders@, i);
        let prev = folder_patched(base, src, h, d, rs, i, k - 1);
        let p = table_position(h, d, i, k - 1) + 8;
        let e = entry_update(src, h, d, rs, i, k - 1);
        assert(table_position(h, d, i, k - 1) == table_position(h, d, i, 0) + (k - 1) * 16);
        assert(e.len() == 8);
        assert(0 <= p && p + 8 <= prev.len());
        assert(put8(prev, p, e).len() == prev.len());
    }
}

proof fn lemma_dir_patched_len(src: Seq<u8>, h: BsaHeader, d: BsaDirectory, rs: Seq<(Seq<char>, Seq<u8>)>, i: int)
    requires
        0 <= i <= d.folders@.len(),
        data_start(d) <= src.len(),
        directory_end(h, d) <= data_start(d),
    ensures
        dir_patched(src, h, d, rs, i).len() == data_start(d),
    decreases i,
{
    let fs = d.folders@;
    if i > 0 {
        lemma_dir_patched_len(src, h, d, rs, i - 1);
        lemma_folders_area_prefix(fs, i, fs.len() as int);
        lemma_folders_area_mono(fs, i - 1);
        lemma_folder_patched_len(dir_patched(src, h, d, rs, i - 1), src, h, d, rs, i - 1, fs[i - 1].files@.len() as int);
    }
}

/// In a rebuilt BSA archive, the bytes at the offset written into a file's
/// table entry (see [`entry_update`]) are the block written for that file:
/// its name prefix, then its new data (compressed as the archive compresses
/// when the file is compressed) or its old stored bytes.
pub proof fn law_bsa_block_at_offset(src: Seq<u8>, h: BsaHeader, d: BsaDirectory, rs: Seq<(Seq<char>, Seq<u8>)>, i: int, k: int)
    requires
        bsa_rebuild_ok(src, h, d, rs),
        0 <= i < d.folders@.len(),
        0 <= k < d.folders@[i].files@.len(),
    ensures
        ({
            let fs = d.folders@;
            let off = data_start(d) + dir_blocks(src, h, rs, fs, i).len() + folder_blocks(src, h, rs, fs[i].name@, fs[i].files@, k).len();
            let b = bsa_block(src, h, rs, fs[i].name@, fs[i].files@[k]);
            bsa_rebuilt(src, h, d, rs).subrange(off, off + b.len()) == b
        }),
{
    let fs = d.folders@;
    let n = fs.len() as int;
    let ds = data_start(d) as int;
    let name = fs[i].name@;
    let files = fs[i].files@;
    let m = files.len() as int;
    lemma_dir_patched_len(src, h, d, rs, n);
    lemma_dir_blocks_prefix(src, h, rs, fs, i + 1, n);
    lemma_folder_blocks_prefix(src, h, rs, name, files, k + 1, m);
    let all = dir_blocks(src, h, rs, fs, n);
    let before = dir_blocks(src, h, rs, fs, i);
    let fb = folder_blocks(src, h, rs, name, files, m);
    let x = folder_blocks(src, h, rs, name, files, k);
    let b = bsa_block(src, h, rs, name, files[k]);
    assert(dir_blocks(src, h, rs, fs, i + 1) == before + fb);
    assert(folder_blocks(src, h, rs, name, files, k + 1) == x + b);
    let o = (before.len() + x.len()) as int;
    let bl = b.len() as int;
    assert(all.subrange(0, (before + fb).len() as int) == before + fb);
    assert(fb.subrange(0, (x + b).len() as int) == x + b);
    assert(all.subrange(o, o + bl) =~= (before + fb).subrange(o, o + bl));
    assert((before + fb).subrange(o, o + bl) =~= fb.subrange(x.len() as int, x.len() + bl));
    assert(fb.subrange(x.len() as int, x.len() + bl) =~= (x + b).subrange(x.len() as int, x.len() + bl));
    assert((x + b).subrange(x.len() as int, x.len() + bl) =~= b);
    let p = dir_patched(src, h, d, rs, n);
    assert(bsa_rebuilt(src, h, d, rs) == p + all);
    assert((p + all).subrange(ds + o, ds + o + bl) =~= all.subrange(o, o + bl));
}

} // verus!
