//! Reading the directory of a BSA archive from its bytes: the folder
//! records, each folder's name and file records, then the file names.
use vstd::prelude::*;
use std::collections::HashMap;
use crate::bsa::header::{BsaHeader, BSAHEADER_VERSION_SSE};
use crate::bsa::directory::{BsaDirectory, BsaFolder, BsaFileRecord, BsaFolderRecord};
use crate::bytes::{le_u32, le_u64, read_u32_le, read_u64_le, copy_range};
use crate::text::{lossy_string, str_to_lowercase, utf8_lossy, unicode_lower_str};

verus! {

/// Bytes of a folder record: 24 in Skyrim Special Edition archives, else 16.
pub open spec fn rec_size(h: BsaHeader) -> int {
    if h.version == BSAHEADER_VERSION_SSE { 24 } else { 16 }
}

/// The folder record at position `p`: hash, file count, and the offset of
/// its block (64-bit after four unused bytes in SSE archives).
pub open spec fn folder_rec(data: Seq<u8>, h: BsaHeader, p: int) -> BsaFolderRecord {
    BsaFolderRecord {
        hash: le_u64(data, p),
        file_count: le_u32(data, p + 8),
        offset: if h.version == BSAHEADER_VERSION_SSE { le_u64(data, p + 16) } else { le_u32(data, p + 12) as u64 },
    }
}

/// The record of folder `i`, the records starting at `start`.
pub open spec fn rec_at(data: Seq<u8>, h: BsaHeader, start: int, i: int) -> BsaFolderRecord {
    folder_rec(data, h, start + i * rec_size(h))
}

/// Where folder `i`'s block (name and file records) starts: its offset less
/// the total length of the file names.
pub open spec fn block_pos(data: Seq<u8>, h: BsaHeader, start: int, i: int) -> int {
    rec_at(data, h, start, i).offset - h.total_file_name_length
}

/// Where folder `i`'s file records start: after the name's length byte and
/// the name.
pub open spec fn files_pos(data: Seq<u8>, h: BsaHeader, start: int, i: int) -> int {
    block_pos(data, h, start, i) + 1 + data[block_pos(data, h, start, i)]
}

/// Folder `i`'s block lies in the data: its offset is not below the name
/// length, and its name and file records fit.
pub open spec fn block_ok(data: Seq<u8>, h: BsaHeader, start: int, i: int) -> bool {
    let q = block_pos(data, h, start, i);
    &&& rec_at(data, h, start, i).offset >= h.total_file_name_length
    &&& 0 <= q < data.len()
    &&& files_pos(data, h, start, i) + 16 * rec_at(data, h, start, i).file_count <= data.len()
}

/// Bytes without their trailing NULs.
pub open spec fn strip_nul_bytes(b: Seq<u8>) -> Seq<u8>
    decreases b.len(),
{
    if b.len() > 0 && b.last() == 0 { strip_nul_bytes(b.drop_last()) } else { b }
}

/// The name of folder `i`: its name bytes without trailing NULs, decoded
/// lossily and lower-cased.
pub open spec fn folder_name(data: Seq<u8>, h: BsaHeader, start: int, i: int) -> Seq<char> {
    let q = block_pos(data, h, start, i);
    unicode_lower_str(utf8_lossy(strip_nul_bytes(data.subrange(q + 1, files_pos(data, h, start, i)))))
}

/// Where the file names start: after the last folder's block, or after the
/// folder records when there are no folders.
pub open spec fn names_start(data: Seq<u8>, h: BsaHeader, start: int) -> int {
    let n = h.folder_count as int;
    if n == 0 {
        start
    } else {
        files_pos(data, h, start, n - 1) + 16 * rec_at(data, h, start, n - 1).file_count
    }
}

/// How many files the first `i` folders have.
pub open spec fn files_before(data: Seq<u8>, h: BsaHeader, start: int, i: int) -> int
    decreases i,
{
    if i <= 0 { 0 } else { files_before(data, h, start, i - 1) + rec_at(data, h, start, i - 1).file_count }
}

/// The position of the first NUL from `p` on.
pub open spec fn nul_from(data: Seq<u8>, p: int) -> Option<int>
    decreases data.len() - p,
{
    if p < 0 || p >= data.len() {
        None
    } else if data[p] == 0 {
        Some(p)
    } else {
        nul_from(data, p + 1)
    }
}

/// `k` NUL-terminated strings read one after another from `p`, with the
/// position after the last.
pub open spec fn nul_strings(data: Seq<u8>, p: int, k: nat) -> Option<(Seq<Seq<u8>>, int)>
    decreases k,
{
    if k == 0 {
        Some((Seq::empty(), p))
    } else {
        match nul_strings(data, p, (k - 1) as nat) {
            Some((ss, q)) => match nul_from(data, q) {
                Some(e) => Some((ss.push(data.subrange(q, e)), e + 1)),
                None => None,
            },
            None => None,
        }
    }
}

/// The directory can be read: the folder records and every folder block
/// fit, and every file name is terminated.
pub open spec fn dir_readable(data: Seq<u8>, h: BsaHeader, start: int) -> bool {
    &&& start + (h.folder_count as int) * rec_size(h) <= data.len()
    &&& forall|i: int| 0 <= i < h.folder_count ==> #[trigger] block_ok(data, h, start, i)
    &&& nul_strings(data, names_start(data, h, start), files_before(data, h, start, h.folder_count as int) as nat) is Some
}

/// The file names of every folder, in folder order.
pub open spec fn all_names(data: Seq<u8>, h: BsaHeader, start: int) -> Seq<Seq<u8>> {
    match nul_strings(data, names_start(data, h, start), files_before(data, h, start, h.folder_count as int) as nat) {
        Some(r) => r.0,
        None => Seq::empty(),
    }
}

/// The last of the first `n` hashes equal to `x`.
pub open spec fn last_index(hs: Seq<u64>, x: u64, n: int) -> Option<int>
    decreases n,
{
    if n <= 0 || n > hs.len() { None } else if hs[n - 1] == x { Some(n - 1) } else { last_index(hs, x, n - 1) }
}

/// `m` maps each hash to the position of its last occurrence in `hs`.
pub open spec fn index_of_last(m: Map<u64, usize>, hs: Seq<u64>) -> bool {
    &&& forall|x: u64| #[trigger] m.contains_key(x) == (last_index(hs, x, hs.len() as int) is Some)
    &&& forall|x: u64| m.contains_key(x) ==> Some(#[trigger] m[x] as int) == last_index(hs, x, hs.len() as int)
}

/// The hashes of a folder's files.
pub open spec fn file_hashes(fs: Seq<BsaFileRecord>) -> Seq<u64> {
    fs.map_values(|f: BsaFileRecord| f.hash)
}

/// The hashes of the folders.
pub open spec fn folder_hashes(fs: Seq<BsaFolder>) -> Seq<u64> {
    fs.map_values(|f: BsaFolder| f.hash)
}

/// `d` is the directory read from `data` with the folder records at
/// `start`: each folder's hash, offset, name and files, the file names from
/// the names area in folder order, and the hash indexes of the last
/// occurrences.
pub open spec fn dir_is(d: BsaDirectory, data: Seq<u8>, h: BsaHeader, start: int) -> bool {
    let n = h.folder_count as int;
    let names = all_names(data, h, start);
    &&& d.folders@.len() == n
    &&& forall|i: int| 0 <= i < n ==> {
        let f = #[trigger] d.folders@[i];
        let r = rec_at(data, h, start, i);
        &&& f.hash == r.hash
        &&& f.offset == r.offset
        &&& f.name@ == folder_name(data, h, start, i)
        &&& f.files@.len() == r.file_count
        &&& index_of_last(f.file_map@, file_hashes(f.files@))
        &&& forall|j: int| 0 <= j < r.file_count ==> {
            let fr = #[trigger] f.files@[j];
            let p = files_pos(data, h, start, i) + 16 * j;
            &&& fr.hash == le_u64(data, p)
            &&& fr.raw_size == le_u32(data, p + 8)
            &&& fr.offset == le_u32(data, p + 12)
            &&& fr.name@ == unicode_lower_str(utf8_lossy(names[files_before(data, h, start, i) + j]))
        }
    }
    &&& index_of_last(d.folder_map@, folder_hashes(d.folders@))
}

/// Maps each hash to the position of its last occurrence.
fn index_last(hs: &Vec<u64>) -> (r: HashMap<u64, usize>)
    ensures
        index_of_last(r@, hs@),
{
    let mut m: HashMap<u64, usize> = HashMap::new();
    let mut i: usize = 0;
    while i < hs.len()
        invariant
            i <= hs@.len(),
            forall|x: u64| #[trigger] m@.contains_key(x) == (last_index(hs@, x, i as int) is Some),
            forall|x: u64| m@.contains_key(x) ==> Some(#[trigger] m@[x] as int) == last_index(hs@, x, i as int),
        decreases hs@.len() - i,
    {
        m.insert(hs[i], i);
        i = i + 1;
    }
    m
}

/// The position of the first NUL from `p` on (see [`nul_from`]).
fn find_nul(data: &[u8], p: usize) -> (r: Option<usize>)
    ensures
        match r {
            Some(e) => nul_from(data@, p as int) == Some(e as int),
            None => nul_from(data@, p as int) is None,
        },
{
    let mut k: usize = p;
    while k < data.len()
        invariant
            p <= k,
            nul_from(data@, p as int) == nul_from(data@, k as int),
        decreases data@.len() - k,
    {
        if data[k] == 0 {
            return Some(k);
        }
        k = k + 1;
    }
    None
}

/// Reads the folder records at `start` (see [`rec_at`]).
fn read_folder_records(data: &[u8], start: usize, h: &BsaHeader) -> (r: Option<Vec<BsaFolderRecord>>)
    ensures
        match r {
            Some(v) => start + (h.folder_count as int) * rec_size(*h) <= data@.len()
                && v@.len() == h.folder_count
                && forall|i: int| 0 <= i < h.folder_count ==> #[trigger] v@[i] == rec_at(data@, *h, start as int, i),
            None => start + (h.folder_count as int) * rec_size(*h) > data@.len(),
        },
{
    let n = h.folder_count as usize;
    let rs: usize = if h.version == BSAHEADER_VERSION_SSE { 24 } else { 16 };
    let len = data.len();
    let mut out: Vec<BsaFolderRecord> = Vec::new();
    let mut p: usize = start;
    let mut i: usize = 0;
    while i < n
        invariant
            i <= n,
            n == h.folder_count,
            rs == rec_size(*h),
            len == data@.len(),
            p == start + i * rs,
            p <= len || i == 0,
            out@.len() == i,
            forall|t: int| 0 <= t < i ==> #[trigger] out@[t] == rec_at(data@, *h, start as int, t),
        decreases n - i,
    {
        if p > len || len - p < rs {
            proof {
                assert(start + (h.folder_count as int) * rs >= start + (i + 1) * rs) by (nonlinear_arith)
                    requires i + 1 <= h.folder_count, rs >= 0;
            }
            return None;
        }
        let hash = read_u64_le(data, p);
        let file_count = read_u32_le(data, p + 8);
        let offset: u64 = if h.version == BSAHEADER_VERSION_SSE { read_u64_le(data, p + 16) } else { read_u32_le(data, p + 12) as u64 };
        out.push(BsaFolderRecord { hash, file_count, offset });
        proof {
            assert((i + 1) * rs == i * rs + rs) by (nonlinear_arith);
        }
        p = p + rs;
        i = i + 1;
    }
    if p > len {
        return None;
    }
    Some(out)
}

/// Reads folder `i`'s block: its name and its file records without names,
/// and where its records end.
fn read_block(data: &[u8], h: &BsaHeader, rec: &BsaFolderRecord, Ghost(start): Ghost<int>, Ghost(i): Ghost<int>)
    -> (r: Option<(String, Vec<BsaFileRecord>, usize)>)
    requires
        *rec == rec_at(data@, *h, start, i),
    ensures
        match r {
            Some((name, files, end)) => block_ok(data@, *h, start, i)
                && name@ == folder_name(data@, *h, start, i)
                && end == files_pos(data@, *h, start, i) + 16 * rec.file_count
                && files@.len() == rec.file_count
                && forall|j: int| 0 <= j < rec.file_count ==> {
                    let fr = #[trigger] files@[j];
                    let p = files_pos(data@, *h, start, i) + 16 * j;
                    &&& fr.hash == le_u64(data@, p)
                    &&& fr.raw_size == le_u32(data@, p + 8)
                    &&& fr.offset == le_u32(data@, p + 12)
                },
            None => !block_ok(data@, *h, start, i),
        },
{
    let tfnl = h.total_file_name_length as u64;
    let len = data.len();
    if rec.offset < tfnl {
        return None;
    }
    let q64 = rec.offset - tfnl;
    if q64 >= len as u64 {
        return None;
    }
    let q = q64 as usize;
    let nl = data[q] as usize;
    if len - q - 1 < nl {
        return None;
    }
    let r0 = q + 1 + nl;
    let count = rec.file_count as usize;
    if (len - r0) / 16 < count {
        proof {
            assert(16 * count > len - r0) by (nonlinear_arith)
                requires (len - r0) / 16 < count, len >= r0;
        }
        return None;
    }
    proof {
        assert(16 * count <= len - r0) by (nonlinear_arith)
            requires (len - r0) / 16 >= count, len >= r0;
    }
    let raw = copy_range(data, q + 1, r0);
    let mut nb = raw;
    let ghost full = nb@;
    while nb.len() > 0 && nb[nb.len() - 1] == 0
        invariant
            strip_nul_bytes(nb@) == strip_nul_bytes(full),
        decreases nb@.len(),
    {
        nb.pop();
    }
    let name = str_to_lowercase(lossy_string(nb.as_slice()).as_str());
    let mut files: Vec<BsaFileRecord> = Vec::new();
    let mut j: usize = 0;
    let mut p: usize = r0;
    while j < count
        invariant
            j <= count,
            count == rec.file_count,
            p == r0 + 16 * j,
            r0 + 16 * count <= len,
            len == data@.len(),
            r0 == files_pos(data@, *h, start, i),
            files@.len() == j,
            forall|t: int| 0 <= t < j ==> {
                let fr = #[trigger] files@[t];
                let pp = files_pos(data@, *h, start, i) + 16 * t;
                &&& fr.hash == le_u64(data@, pp)
                &&& fr.raw_size == le_u32(data@, pp + 8)
                &&& fr.offset == le_u32(data@, pp + 12)
            },
        decreases count - j,
    {
        let hash = read_u64_le(data, p);
        let raw_size = read_u32_le(data, p + 8);
        let offset = read_u32_le(data, p + 12);
        files.push(BsaFileRecord { hash, raw_size, offset, name: String::new() });
        p = p + 16;
        j = j + 1;
    }
    Some((name, files, p))
}

proof fn lemma_nul_strings_fail(data: Seq<u8>, p: int, k: nat, m: nat)
    requires
        nul_strings(data, p, k) is None,
        k <= m,
    ensures
        nul_strings(data, p, m) is None,
    decreases m - k,
{
    if k < m {
        lemma_nul_strings_fail(data, p, k, (m - 1) as nat);
    }
}

proof fn lemma_nul_from_range(data: Seq<u8>, p: int)
    ensures
        nul_from(data, p) matches Some(e) ==> p <= e < data.len() && data[e] == 0,
    decreases data.len() - p,
{
    if p >= 0 && p < data.len() && data[p] != 0 {
        lemma_nul_from_range(data, p + 1);
    }
}

proof fn lemma_files_before_mono(data: Seq<u8>, h: BsaHeader, start: int, a: int, b: int)
    requires
        0 <= a <= b,
    ensures
        files_before(data, h, start, a) <= files_before(data, h, start, b),
    decreases b - a,
{
    if a < b {
        lemma_files_before_mono(data, h, start, a, b - 1);
    }
}

impl BsaDirectory {
    /// Reads the directory of an archive from its bytes, the folder records
    /// starting at `start` (right after the header): `None` exactly when it
    /// cannot be read (see [`dir_readable`]), else the directory described
    /// by [`dir_is`].
    pub fn read_from(data: &[u8], start: usize, header: &BsaHeader) -> (r: Option<BsaDirectory>)
        ensures
            match r {
                Some(d) => dir_readable(data@, *header, start as int) && dir_is(d, data@, *header, start as int) && d.wf(),
                None => !dir_readable(data@, *header, start as int),
            },
    {
        let ghost st = start as int;
        let ghost hh = *header;
        let n = header.folder_count as usize;
        let recs = match read_folder_records(data, start, header) {
            Some(v) => v,
            None => return None,
        };
        let mut names: Vec<String> = Vec::new();
        let mut blocks: Vec<Vec<BsaFileRecord>> = Vec::new();
        let mut total: u64 = 0;
        let mut ns: usize = start;
        let mut i: usize = 0;
        while i < n
            invariant
                i <= n,
                n == header.folder_count,
                hh == *header,
                st == start as int,
                start + (n as int) * rec_size(hh) <= data@.len(),
                recs@.len() == n,
                forall|t: int| 0 <= t < n ==> #[trigger] recs@[t] == rec_at(data@, hh, st, t),
                names@.len() == i,
                blocks@.len() == i,
                total as int == files_before(data@, hh, st, i as int),
                total <= i * 0xFFFF_FFFFu64,
                forall|t: int| 0 <= t < i ==> #[trigger] block_ok(data@, hh, st, t),
                forall|t: int| 0 <= t < i ==> (#[trigger] names@[t])@ == folder_name(data@, hh, st, t),
                forall|t: int| 0 <= t < i ==> (#[trigger] blocks@[t])@.len() == rec_at(data@, hh, st, t).file_count,
                forall|t: int, j: int| 0 <= t < i && 0 <= j < rec_at(data@, hh, st, t).file_count ==> {
                    let fr = #[trigger] blocks@[t]@[j];
                    let p = files_pos(data@, hh, st, t) + 16 * j;
                    &&& fr.hash == le_u64(data@, p)
                    &&& fr.raw_size == le_u32(data@, p + 8)
                    &&& fr.offset == le_u32(data@, p + 12)
                },
                i == 0 ==> ns == start,
                i > 0 ==> ns as int == files_pos(data@, hh, st, i - 1) + 16 * rec_at(data@, hh, st, i - 1).file_count,
            decreases n - i,
        {
            let rec = recs[i];
            let (name, files, end) = match read_block(data, header, &rec, Ghost(st), Ghost(i as int)) {
                Some(b) => b,
                None => return None,
            };
            names.push(name);
            blocks.push(files);
            total = total + rec.file_count as u64;
            ns = end;
            i = i + 1;
        }
        assert(ns as int == names_start(data@, hh, st));
        proof {
            if n > 0 {
                assert(block_ok(data@, hh, st, n - 1));
            }
        }
        let dlen = data.len();
        let mut all: Vec<Vec<u8>> = Vec::new();
        let mut pos: usize = ns;
        let mut g: u64 = 0;
        while g < total
            invariant
                g <= total,
                total as int == files_before(data@, hh, st, n as int),
                n == header.folder_count,
                hh == *header,
                st == start as int,
                ns as int == names_start(data@, hh, st),
                all@.len() == g,
                ns as int + g <= pos as int,
                pos <= data@.len(),
                dlen == data@.len(),
                nul_strings(data@, ns as int, g as nat) matches Some((ss, q))
                    && q == pos as int
                    && ss.len() == g
                    && forall|t: int| 0 <= t < g ==> (#[trigger] all@[t])@ == ss[t],
            decreases total - g,
        {
            let e = match find_nul(data, pos) {
                Some(e) => e,
                None => {
                    proof {
                        lemma_nul_strings_fail(data@, ns as int, (g + 1) as nat, total as nat);
                    }
                    return None;
                },
            };
            proof {
                lemma_nul_from_range(data@, pos as int);
            }
            let ghost prev = match nul_strings(data@, ns as int, g as nat) { Some(r) => r.0, None => Seq::empty() };
            let ghost old_pos = pos as int;
            let ghost before = all@;
            all.push(copy_range(data, pos, e));
            pos = e + 1;
            g = g + 1;
            proof {
                assert(nul_strings(data@, ns as int, g as nat) == Some((prev.push(data@.subrange(old_pos, e as int)), pos as int)));
                assert forall|t: int| 0 <= t < g implies (#[trigger] all@[t])@ == prev.push(data@.subrange(old_pos, e as int))[t] by {
                    if t < g - 1 {
                        assert(all@[t] == before[t]);
                    }
                }
            }
        }
        assert(dir_readable(data@, hh, st));
        let alen = all.len();
        let mut folders: Vec<BsaFolder> = Vec::new();
        let mut hashes: Vec<u64> = Vec::new();
        let mut base: usize = 0;
        let mut k: usize = 0;
        while k < n
            invariant
                k <= n,
                n == header.folder_count,
                hh == *header,
                st == start as int,
                dir_readable(data@, hh, st),
                recs@.len() == n,
                forall|t: int| 0 <= t < n ==> #[trigger] recs@[t] == rec_at(data@, hh, st, t),
                names@.len() == n,
                blocks@.len() == n,
                forall|t: int| 0 <= t < n ==> (#[trigger] names@[t])@ == folder_name(data@, hh, st, t),
                forall|t: int| 0 <= t < n ==> (#[trigger] blocks@[t])@.len() == rec_at(data@, hh, st, t).file_count,
                forall|t: int, j: int| 0 <= t < n && 0 <= j < rec_at(data@, hh, st, t).file_count ==> {
                    let fr = #[trigger] blocks@[t]@[j];
                    let p = files_pos(data@, hh, st, t) + 16 * j;
                    &&& fr.hash == le_u64(data@, p)
                    &&& fr.raw_size == le_u32(data@, p + 8)
                    &&& fr.offset == le_u32(data@, p + 12)
                },
                all@.len() == files_before(data@, hh, st, n as int),
                alen == all@.len(),
                forall|t: int| 0 <= t < all@.len() ==> (#[trigger] all@[t])@ == all_names(data@, hh, st)[t],
                base as int == files_before(data@, hh, st, k as int),
                folders@.len() == k,
                hashes@ == folder_hashes(folders@),
                forall|i: int| 0 <= i < k ==> {
                    let f = #[trigger] folders@[i];
                    let r = rec_at(data@, hh, st, i);
                    &&& f.hash == r.hash
                    &&& f.offset == r.offset
                    &&& f.name@ == folder_name(data@, hh, st, i)
                    &&& f.files@.len() == r.file_count
                    &&& f.wf()
                    &&& index_of_last(f.file_map@, file_hashes(f.files@))
                    &&& forall|j: int| 0 <= j < r.file_count ==> {
                        let fr = #[trigger] f.files@[j];
                        let p = files_pos(data@, hh, st, i) + 16 * j;
                        &&& fr.hash == le_u64(data@, p)
                        &&& fr.raw_size == le_u32(data@, p + 8)
                        &&& fr.offset == le_u32(data@, p + 12)
                        &&& fr.name@ == unicode_lower_str(utf8_lossy(all_names(data@, hh, st)[files_before(data@, hh, st, i) + j]))
                    }
                },
            decreases n - k,
        {
            proof {
                lemma_files_before_mono(data@, hh, st, k + 1, n as int);
            }
            let blk = &blocks[k];
            let count = blk.len();
            assert(base + count <= all@.len());
            let mut files: Vec<BsaFileRecord> = Vec::new();
            let mut fh: Vec<u64> = Vec::new();
            let mut j: usize = 0;
            while j < count
                invariant
                    j <= count,
                    count == blk@.len(),
                    blk == &blocks@[k as int],
                    base + count <= all@.len(),
                    alen == all@.len(),
                    files@.len() == j,
                    fh@ == file_hashes(files@),
                    forall|t: int| 0 <= t < j ==> {
                        let fr = #[trigger] files@[t];
                        &&& fr.hash == blk@[t].hash
                        &&& fr.raw_size == blk@[t].raw_size
                        &&& fr.offset == blk@[t].offset
                        &&& fr.name@ == unicode_lower_str(utf8_lossy(all@[base + t]@))
                    },
                decreases count - j,
            {
                let b = &blk[j];
                let nm = str_to_lowercase(lossy_string(all[base + j].as_slice()).as_str());
                files.push(BsaFileRecord { hash: b.hash, raw_size: b.raw_size, offset: b.offset, name: nm });
                fh.push(b.hash);
                assert(fh@ =~= file_hashes(files@));
                j = j + 1;
            }
            let file_map = index_last(&fh);
            let rec = recs[k];
            let folder = BsaFolder {
                name: crate::text::string_from_chars(crate::text::chars_of(names[k].as_str()).as_slice()),
                hash: rec.hash,
                files,
                file_map,
                offset: rec.offset,
            };
            proof {
                assert forall|x: u64| #[trigger] folder.file_map@.contains_key(x) implies folder.file_map@[x] < folder.files@.len() by {
                    lemma_last_index_range(fh@, x, fh@.len() as int);
                }
            }
            folders.push(folder);
            hashes.push(rec.hash);
            assert(hashes@ =~= folder_hashes(folders@));
            base = base + count;
            k = k + 1;
        }
        let folder_map = index_last(&hashes);
        let d = BsaDirectory { folders, folder_map };
        proof {
            assert forall|x: u64| #[trigger] d.folder_map@.contains_key(x) implies d.folder_map@[x] < d.folders@.len() by {
                lemma_last_index_range(hashes@, x, hashes@.len() as int);
            }
        }
        Some(d)
    }
}

proof fn lemma_last_index_range(hs: Seq<u64>, x: u64, n: int)
    ensures
        last_index(hs, x, n) matches Some(i) ==> 0 <= i < n && i < hs.len(),
    decreases n,
{
    if n > 0 && n <= hs.len() {
        lemma_last_index_range(hs, x, n - 1);
    }
}

} // verus!
