//! Replacing files inside a general BA2 archive: the size of a file-table
//! entry, the key under which a file is requested, the size of the header
//! that is kept, and the rebuilt archive itself.
use vstd::prelude::*;
use crate::ba2::header::{Ba2Header, BA2_VERSION_SF};
use crate::ba2::directory::Ba2FileRecord;
use crate::bytes::{u32_bytes, u64_bytes, push_u32_le, push_u64_le, push_bytes, copy_range};
use crate::bsa::injection::{not_found_of, remaining_requests};
use crate::header_processor::texts;
use crate::text::{chars_of, chars_eq, string_from_chars, replace_char};

verus! {

/// What replacing files in a BA2 archive did.
#[derive(Debug, Clone)]
pub struct Ba2InjectionSummary {
    /// How many files were replaced.
    pub injected: usize,
    /// The requested paths that no file of the archive has.
    pub not_found: Vec<String>,
    /// The size of the rebuilt archive.
    pub output_size: u64,
}

/// The bytes of a file-table entry: a length byte, the name in UTF-16, a
/// terminating NUL unit and the 36-byte record.
pub open spec fn table_len(name: Seq<char>) -> int {
    1 + 2 * (crate::mcm::parser::utf16_units(name).len() as int) + 2 + 36
}

/// The bytes of a file-table entry (see [`table_len`]).
pub fn table_record_len(name: &str) -> (r: u64)
    requires
        table_len(name@) <= u64::MAX,
    ensures
        r == table_len(name@),
{
    let bytes = crate::mcm::parser::encode_utf16le(name);
    proof {
        lemma_unit_bytes_len(crate::mcm::parser::utf16_units(name@));
    }
    let n = bytes.len() as u64;
    1 + n + 2 + 36
}

proof fn lemma_unit_bytes_len(us: Seq<u16>)
    ensures
        crate::mcm::parser::unit_bytes(us, false).len() == 2 * us.len(),
    decreases us.len(),
{
    if us.len() > 0 {
        lemma_unit_bytes_len(us.drop_first());
    }
}

/// The key under which a file is requested: its path with `/` for `\`,
/// lower-cased.
pub open spec fn rel_key(name: Seq<char>) -> Seq<char> {
    crate::text::unicode_lower_str(replace_char(name, '\\', '/'))
}

/// The key under which a file is requested (see [`rel_key`]).
pub fn ba2_rel_key(name: &str) -> (r: String)
    ensures
        r@ == rel_key(name@),
{
    let v = crate::text::replace_char_vec(&chars_of(name), '\\', '/');
    crate::text::str_to_lowercase(string_from_chars(v.as_slice()).as_str())
}

/// The bytes of the header that is kept: 32 for Starfield, else 24.
pub fn kept_header_size(version: u32) -> (r: u64)
    ensures
        r == (if version == BA2_VERSION_SF { 32u64 } else { 24u64 }),
{
    if version == BA2_VERSION_SF { 32 } else { 24 }
}


/// The zlib stream (RFC 1950) that `flate2`'s encoder writes for `data` at
/// its default compression level.
pub uninterp spec fn zlib_default(data: Seq<u8>) -> Seq<u8>;

/// `flate2::write::ZlibEncoder` at `Compression::default()`, fed `data` and
/// finished. Claims only that a successful result is the encoder's stream
/// for `data`; whether it succeeds is left to the encoder.
#[verifier::external_body]
pub(crate) fn compress_zlib_default(data: &[u8]) -> (r: Option<Vec<u8>>)
    ensures
        r matches Some(c) ==> c@ == zlib_default(data@),
{
    let mut encoder = flate2::write::ZlibEncoder::new(Vec::new(), flate2::Compression::default());
    std::io::Write::write_all(&mut encoder, data).ok()?;
    encoder.finish().ok()
}

/// Why an archive could not be rebuilt.
#[derive(Clone, Copy, Debug, PartialEq, Eq)]
pub enum Ba2RebuildError {
    /// The header, a kept file's data or the file table lies outside the bytes.
    OutOfRange,
    /// The zlib encoder failed.
    CompressionFailed,
}

/// The replacements as (key, data) pairs.
pub open spec fn repl_view(rs: Seq<(String, Vec<u8>)>) -> Seq<(Seq<char>, Seq<u8>)> {
    rs.map_values(|p: (String, Vec<u8>)| (p.0@, p.1@))
}

/// The data of the first replacement from position `k` on whose key is `key`.
pub open spec fn find_repl(rs: Seq<(Seq<char>, Seq<u8>)>, key: Seq<char>, k: int) -> Option<Seq<u8>>
    decreases rs.len() - k,
{
    if k < 0 || k >= rs.len() {
        None
    } else if rs[k].0 == key {
        Some(rs[k].1)
    } else {
        find_repl(rs, key, k + 1)
    }
}

/// The new data of a file, when it is replaced.
pub open spec fn repl_for(rs: Seq<(Seq<char>, Seq<u8>)>, f: Ba2FileRecord) -> Option<Seq<u8>> {
    find_repl(rs, rel_key(f.name@), 0)
}

/// The stored length of a file's data: its packed size when packed.
pub open spec fn stored_len(f: Ba2FileRecord) -> int {
    if f.is_packed { f.packed_size as int } else { f.size as int }
}

/// The data block written for a file: the new data (zlib-compressed when
/// the file is packed), or the file's stored bytes.
pub open spec fn block_bytes(src: Seq<u8>, rs: Seq<(Seq<char>, Seq<u8>)>, f: Ba2FileRecord) -> Seq<u8> {
    match repl_for(rs, f) {
        Some(d) => if f.is_packed { zlib_default(d) } else { d },
        None => src.subrange(f.offset as int, f.offset as int + stored_len(f)),
    }
}

/// The packed size and size recorded for a file's block; lengths are kept
/// to their low 32 bits.
pub open spec fn block_sizes(rs: Seq<(Seq<char>, Seq<u8>)>, f: Ba2FileRecord) -> (u32, u32) {
    match repl_for(rs, f) {
        Some(d) => if f.is_packed {
            (zlib_default(d).len() as u32, d.len() as u32)
        } else {
            (d.len() as u32, d.len() as u32)
        },
        None => (f.packed_size, f.size),
    }
}

/// The blocks of the first `n` files, one after the other.
pub open spec fn data_upto(src: Seq<u8>, rs: Seq<(Seq<char>, Seq<u8>)>, fs: Seq<Ba2FileRecord>, n: int) -> Seq<u8>
    decreases n,
{
    if n <= 0 || n > fs.len() {
        Seq::empty()
    } else {
        data_upto(src, rs, fs, n - 1) + block_bytes(src, rs, fs[n - 1])
    }
}

/// Whether some replaced file is packed, so that its new data is compressed.
pub open spec fn compresses_any(fs: Seq<Ba2FileRecord>, rs: Seq<(Seq<char>, Seq<u8>)>) -> bool {
    exists|i: int| 0 <= i < fs.len() && repl_for(rs, #[trigger] fs[i]) is Some && fs[i].is_packed
}

/// Where the table entry of file `i` starts, the table starting at `t0`.
pub open spec fn record_pos(t0: int, fs: Seq<Ba2FileRecord>, i: int) -> int
    decreases i,
{
    if i <= 0 || i > fs.len() {
        t0
    } else {
        record_pos(t0, fs, i - 1) + table_len(fs[i - 1].name@)
    }
}

/// A table entry of `l` bytes at `p`, with its offset, packed size and size
/// (the 16 bytes that end 4 bytes before the entry's end) rewritten.
pub open spec fn new_entry(src: Seq<u8>, p: int, l: int, off: int, sizes: (u32, u32)) -> Seq<u8> {
    src.subrange(p, p + l - 20) + u64_bytes(off as u64) + u32_bytes(sizes.0) + u32_bytes(sizes.1)
        + src.subrange(p + l - 4, p + l)
}

/// The rewritten table entries of the first `n` files, the data starting at `hs`.
pub open spec fn table_upto(src: Seq<u8>, rs: Seq<(Seq<char>, Seq<u8>)>, fs: Seq<Ba2FileRecord>, t0: int, hs: int, n: int) -> Seq<u8>
    decreases n,
{
    if n <= 0 || n > fs.len() {
        Seq::empty()
    } else {
        table_upto(src, rs, fs, t0, hs, n - 1) + new_entry(src, record_pos(t0, fs, n - 1), table_len(fs[n - 1].name@),
            hs + data_upto(src, rs, fs, n - 1).len(), block_sizes(rs, fs[n - 1]))
    }
}

/// The header bytes that are kept: 32 for Starfield, else 24.
pub open spec fn kept_len(version: u32) -> int {
    if version == BA2_VERSION_SF { 32 } else { 24 }
}

/// Whether the archive can be rebuilt: the table offset is not negative,
/// the kept header and the whole file table lie in the bytes, and so does
/// the data of every file that is not replaced.
pub open spec fn rebuild_ok(src: Seq<u8>, h: Ba2Header, fs: Seq<Ba2FileRecord>, rs: Seq<(Seq<char>, Seq<u8>)>) -> bool {
    &&& h.file_table_offset >= 0
    &&& kept_len(h.version) <= src.len()
    &&& record_pos(h.file_table_offset as int, fs, fs.len() as int) <= src.len()
    &&& forall|i: int| 0 <= i < fs.len() && repl_for(rs, #[trigger] fs[i]) is None
        ==> 0 <= fs[i].offset && fs[i].offset + stored_len(fs[i]) <= src.len()
}

/// The rebuilt archive: the kept header with the new table offset, the
/// blocks, the rewritten table entries, and the rest of the bytes after the
/// old table.
pub open spec fn rebuilt(src: Seq<u8>, h: Ba2Header, fs: Seq<Ba2FileRecord>, rs: Seq<(Seq<char>, Seq<u8>)>) -> Seq<u8> {
    let hs = kept_len(h.version);
    let t0 = h.file_table_offset as int;
    let data = data_upto(src, rs, fs, fs.len() as int);
    src.subrange(0, 16) + u64_bytes((hs + data.len()) as u64) + src.subrange(24, hs) + data
        + table_upto(src, rs, fs, t0, hs, fs.len() as int)
        + src.subrange(record_pos(t0, fs, fs.len() as int), src.len() as int)
}

/// The keys of the replaced files, in file order.
pub open spec fn found_upto(rs: Seq<(Seq<char>, Seq<u8>)>, fs: Seq<Ba2FileRecord>, n: int) -> Seq<Seq<char>>
    decreases n,
{
    if n <= 0 || n > fs.len() {
        Seq::empty()
    } else if repl_for(rs, fs[n - 1]) is Some {
        found_upto(rs, fs, n - 1).push(rel_key(fs[n - 1].name@))
    } else {
        found_upto(rs, fs, n - 1)
    }
}

/// The index of the first replacement whose key is `key`.
pub(crate) fn find_replacement(rs: &Vec<(String, Vec<u8>)>, key: &Vec<char>) -> (r: Option<usize>)
    ensures
        match r {
            Some(k) => k < rs@.len() && find_repl(repl_view(rs@), key@, 0) == Some(rs@[k as int].1@),
            None => find_repl(repl_view(rs@), key@, 0) is None,
        },
{
    let ghost v = repl_view(rs@);
    let mut i: usize = 0;
    while i < rs.len()
        invariant
            i <= rs@.len(),
            v == repl_view(rs@),
            find_repl(v, key@, 0) == find_repl(v, key@, i as int),
        decreases rs@.len() - i,
    {
        let k = chars_of(rs[i].0.as_str());
        if chars_eq(&k, key) {
            return Some(i);
        }
        i = i + 1;
    }
    None
}

/// Appends the table entry of `l` bytes at `p` with the offset and sizes
/// rewritten (see [`new_entry`]).
fn push_entry(out: &mut Vec<u8>, src: &[u8], p: u64, l: u64, off: u64, sizes: (u32, u32))
    requires
        l >= 39,
        p + l <= src@.len(),
    ensures
        final(out)@ == old(out)@ + new_entry(src@, p as int, l as int, off as int, sizes),
{
    let slen = src.len();
    assert(p + l <= slen);
    let pu = p as usize;
    let lu = l as usize;
    let v1 = copy_range(src, pu, pu + lu - 20);
    push_bytes(out, v1.as_slice());
    push_u64_le(out, off);
    push_u32_le(out, sizes.0);
    push_u32_le(out, sizes.1);
    let v2 = copy_range(src, pu + lu - 4, pu + lu);
    push_bytes(out, v2.as_slice());
    assert(final(out)@ =~= old(out)@ + new_entry(src@, p as int, l as int, off as int, sizes));
}

/// The keys of the replacements, in order.
pub(crate) fn replacement_keys(replacements: &Vec<(String, Vec<u8>)>) -> (r: Vec<String>)
    ensures
        texts(r@) == repl_view(replacements@).map_values(|p: (Seq<char>, Seq<u8>)| p.0),
{
    let ghost rv = repl_view(replacements@);
    let mut keys: Vec<String> = Vec::new();
    let mut k: usize = 0;
    while k < replacements.len()
        invariant
            k <= replacements@.len(),
            rv == repl_view(replacements@),
            texts(keys@) == rv.map_values(|p: (Seq<char>, Seq<u8>)| p.0).take(k as int),
        decreases replacements@.len() - k,
    {
        let key = string_from_chars(chars_of(replacements[k].0.as_str()).as_slice());
        let ghost prev = keys@;
        keys.push(key);
        proof {
            let ks = rv.map_values(|p: (Seq<char>, Seq<u8>)| p.0);
            assert(rv[k as int] == (replacements@[k as int].0@, replacements@[k as int].1@));
            assert(ks[k as int] == key@);
            assert(texts(keys@) =~= texts(prev).push(key@));
            assert(ks.take(k + 1) =~= ks.take(k as int).push(ks[k as int]));
            assert(texts(keys@) =~= rv.map_values(|p: (Seq<char>, Seq<u8>)| p.0).take(k + 1));
        }
        k = k + 1;
    }
    proof {
        assert(rv.map_values(|p: (Seq<char>, Seq<u8>)| p.0).take(k as int) =~= rv.map_values(|p: (Seq<char>, Seq<u8>)| p.0));
    }
    keys
}

proof fn lemma_record_pos_mono(t0: int, fs: Seq<Ba2FileRecord>, i: int, j: int)
    requires
        0 <= i <= j <= fs.len(),
    ensures
        record_pos(t0, fs, i) <= record_pos(t0, fs, j),
    decreases j - i,
{
    if i < j {
        lemma_record_pos_mono(t0, fs, i, j - 1);
    }
}

/// Rebuilds a general BA2 archive from its bytes with the files of
/// `replacements` (keys as [`rel_key`] gives them, each at most once)
/// replaced, each keeping its compression (see [`rebuilt`]). Refused with
/// `OutOfRange` exactly when [`rebuild_ok`] fails; otherwise it succeeds
/// unless a packed file is replaced (see [`compresses_any`]) and the zlib
/// encoder fails. The summary counts the replaced files and lists the keys
/// that matched none.
#[verifier::rlimit(60)]
pub fn rebuild_ba2(src: &[u8], header: &Ba2Header, files: &Vec<Ba2FileRecord>, replacements: &Vec<(String, Vec<u8>)>)
    -> (r: Result<(Vec<u8>, Ba2InjectionSummary), Ba2RebuildError>)
    ensures
        !rebuild_ok(src@, *header, files@, repl_view(replacements@)) ==> r == Err::<(Vec<u8>, Ba2InjectionSummary), Ba2RebuildError>(Ba2RebuildError::OutOfRange),
        rebuild_ok(src@, *header, files@, repl_view(replacements@)) ==> (r is Ok || r == Err::<(Vec<u8>, Ba2InjectionSummary), Ba2RebuildError>(Ba2RebuildError::CompressionFailed)),
        r == Err::<(Vec<u8>, Ba2InjectionSummary), Ba2RebuildError>(Ba2RebuildError::CompressionFailed)
            ==> compresses_any(files@, repl_view(replacements@)),
        rebuild_ok(src@, *header, files@, repl_view(replacements@)) && !compresses_any(files@, repl_view(replacements@)) ==> r is Ok,
        r matches Ok((out, s)) ==> {
            &&& out@ == rebuilt(src@, *header, files@, repl_view(replacements@))
            &&& s.injected == found_upto(repl_view(replacements@), files@, files@.len() as int).len()
            &&& texts(s.not_found@) == not_found_of(repl_view(replacements@).map_values(|p: (Seq<char>, Seq<u8>)| p.0),
                    found_upto(repl_view(replacements@), files@, files@.len() as int))
            &&& s.output_size == out@.len()
        },
{
    let ghost sv = src@;
    let ghost rv = repl_view(replacements@);
    let ghost fs = files@;
    let ghost h = *header;
    let srclen: u64 = src.len() as u64;
    if header.file_table_offset < 0 {
        return Err(Ba2RebuildError::OutOfRange);
    }
    let ghost t0 = header.file_table_offset as int;
    let hs = kept_header_size(header.version);
    if hs > srclen {
        return Err(Ba2RebuildError::OutOfRange);
    }
    let mut pos: u64 = header.file_table_offset as u64;
    if pos > srclen {
        proof { lemma_record_pos_mono(t0, fs, 0, fs.len() as int); }
        return Err(Ba2RebuildError::OutOfRange);
    }
    let mut poss: Vec<u64> = Vec::new();
    let mut lens: Vec<u64> = Vec::new();
    let mut hits: Vec<Option<usize>> = Vec::new();
    let mut i: usize = 0;
    while i < files.len()
        invariant
            i <= fs.len(),
            fs == files@,
            sv == src@,
            rv == repl_view(replacements@),
            srclen == sv.len(),
            t0 == header.file_table_offset,
            t0 >= 0,
            pos == record_pos(t0, fs, i as int),
            pos <= srclen,
            poss@.len() == i,
            lens@.len() == i,
            hits@.len() == i,
            forall|j: int| 0 <= j < i ==> poss@[j] == record_pos(t0, fs, j),
            forall|j: int| 0 <= j < i ==> lens@[j] == table_len(fs[j].name@),
            forall|j: int| 0 <= j < i ==> match #[trigger] hits@[j] {
                Some(k) => k < replacements@.len() && repl_for(rv, fs[j]) == Some(replacements@[k as int].1@),
                None => repl_for(rv, fs[j]) is None && 0 <= fs[j].offset && fs[j].offset + stored_len(fs[j]) <= sv.len(),
            },
        decreases fs.len() - i,
    {
        let f = &files[i];
        let n16 = crate::mcm::parser::encode_utf16le(f.name.as_str()).len() as u64;
        proof {
            lemma_unit_bytes_len(crate::mcm::parser::utf16_units(f.name@));
            lemma_record_pos_mono(t0, fs, i + 1, fs.len() as int);
        }
        let room = srclen - pos;
        if room < 39 || n16 > room - 39 {
            return Err(Ba2RebuildError::OutOfRange);
        }
        let l = n16 + 39;
        let key = chars_of(ba2_rel_key(f.name.as_str()).as_str());
        let hit = find_replacement(replacements, &key);
        if hit.is_none() {
            let cl: u32 = if f.is_packed { f.packed_size } else { f.size };
            if f.offset < 0 || (f.offset as u64) + (cl as u64) > srclen {
                return Err(Ba2RebuildError::OutOfRange);
            }
        }
        poss.push(pos);
        lens.push(l);
        hits.push(hit);
        pos = pos + l;
        i = i + 1;
    }
    assert(rebuild_ok(sv, h, fs, rv)) by {
        assert forall|j: int| 0 <= j < fs.len() && repl_for(rv, #[trigger] fs[j]) is None
            implies 0 <= fs[j].offset && fs[j].offset + stored_len(fs[j]) <= sv.len() by {
            assert(hits@[j] is None || hits@[j] is Some);
        }
    }
    let table_end = pos;
    // The kept header, then the blocks of the files in order.
    let mut out: Vec<u8> = copy_range(src, 0, hs as usize);
    let mut offs: Vec<u64> = Vec::new();
    let mut sizes: Vec<(u32, u32)> = Vec::new();
    let mut found: Vec<String> = Vec::new();
    let mut i: usize = 0;
    while i < files.len()
        invariant
            i <= fs.len(),
            fs == files@,
            sv == src@,
            rv == repl_view(replacements@),
            srclen == sv.len(),
            hits@.len() == fs.len(),
            hs == kept_len(h.version),
            hs <= sv.len(),
            h == *header,
            rebuild_ok(sv, h, fs, rv),
            forall|j: int| 0 <= j < fs.len() ==> match #[trigger] hits@[j] {
                Some(k) => k < replacements@.len() && repl_for(rv, fs[j]) == Some(replacements@[k as int].1@),
                None => repl_for(rv, fs[j]) is None && 0 <= fs[j].offset && fs[j].offset + stored_len(fs[j]) <= sv.len(),
            },
            out@ == sv.subrange(0, hs as int) + data_upto(sv, rv, fs, i as int),
            t0 == header.file_table_offset,
            table_end == record_pos(t0, fs, fs.len() as int),
            poss@.len() == fs.len(),
            lens@.len() == fs.len(),
            forall|j: int| 0 <= j < fs.len() ==> poss@[j] == record_pos(t0, fs, j),
            forall|j: int| 0 <= j < fs.len() ==> lens@[j] == table_len(fs[j].name@),
            offs@.len() == i,
            sizes@.len() == i,
            forall|j: int| 0 <= j < i ==> offs@[j] == hs + data_upto(sv, rv, fs, j).len(),
            forall|j: int| 0 <= j < i ==> sizes@[j] == block_sizes(rv, #[trigger] fs[j]),
            texts(found@) == found_upto(rv, fs, i as int),
        decreases fs.len() - i,
    {
        let f = &files[i];
        assert(hits@[i as int] is None || hits@[i as int] is Some);
        offs.push(out.len() as u64);
        let ghost before = out@;
        match hits[i] {
            Some(k) => {
                let d = &replacements[k].1;
                if f.is_packed {
                    match compress_zlib_default(d.as_slice()) {
                        Some(c) => {
                            assert(c@ == block_bytes(sv, rv, fs[i as int]));
                            push_bytes(&mut out, c.as_slice());
                            sizes.push((#[verifier::truncate] (c.len() as u32), #[verifier::truncate] (d.len() as u32)));
                        },
                        None => {
                            assert(repl_for(rv, fs[i as int]) is Some && fs[i as int].is_packed);
                            return Err(Ba2RebuildError::CompressionFailed);
                        },
                    }
                } else {
                    assert(d@ == block_bytes(sv, rv, fs[i as int]));
                    push_bytes(&mut out, d.as_slice());
                    sizes.push((#[verifier::truncate] (d.len() as u32), #[verifier::truncate] (d.len() as u32)));
                }
                found.push(ba2_rel_key(f.name.as_str()));
            },
            None => {
                assert(0 <= f.offset && f.offset + stored_len(*f) <= sv.len());
                let cl: u32 = if f.is_packed { f.packed_size } else { f.size };
                assert(cl == stored_len(*f));
                assert(f.offset + cl <= src@.len());
                let slen = src.len();
                assert(f.offset + cl <= slen);
                let a = f.offset as usize;
                assert(a as int == f.offset as int);
                let b = a + cl as usize;
                let v = copy_range(src, a, b);
                assert(v@ == block_bytes(sv, rv, fs[i as int]));
                push_bytes(&mut out, v.as_slice());
                sizes.push((f.packed_size, f.size));
            },
        }
        proof {
            assert(out@ =~= sv.subrange(0, hs as int) + data_upto(sv, rv, fs, i + 1));
            assert(texts(found@) =~= found_upto(rv, fs, i + 1));
        }
        i = i + 1;
    }
    let ghost data = data_upto(sv, rv, fs, fs.len() as int);
    let nto: u64 = out.len() as u64;
    // The file table, each entry with its new offset and sizes.
    let mut i: usize = 0;
    while i < files.len()
        invariant
            i <= fs.len(),
            fs == files@,
            sv == src@,
            rv == repl_view(replacements@),
            srclen == sv.len(),
            hs == kept_len(h.version),
            hs <= sv.len(),
            h == *header,
            rebuild_ok(sv, h, fs, rv),
            t0 == header.file_table_offset,
            data == data_upto(sv, rv, fs, fs.len() as int),
            nto == hs + data.len(),
            table_end == record_pos(t0, fs, fs.len() as int),
            poss@.len() == fs.len(),
            lens@.len() == fs.len(),
            offs@.len() == fs.len(),
            sizes@.len() == fs.len(),
            forall|j: int| 0 <= j < fs.len() ==> poss@[j] == record_pos(t0, fs, j),
            forall|j: int| 0 <= j < fs.len() ==> lens@[j] == table_len(fs[j].name@),
            forall|j: int| 0 <= j < fs.len() ==> offs@[j] == hs + data_upto(sv, rv, fs, j).len(),
            forall|j: int| 0 <= j < fs.len() ==> sizes@[j] == block_sizes(rv, #[trigger] fs[j]),
            out@ == sv.subrange(0, hs as int) + data + table_upto(sv, rv, fs, t0, hs as int, i as int),
        decreases fs.len() - i,
    {
        let p = poss[i];
        let l = lens[i];
        proof {
            lemma_record_pos_mono(t0, fs, i + 1, fs.len() as int);
        }
        assert(p + l <= srclen);
        assert(l >= 39);
        push_entry(&mut out, src, p, l, offs[i], sizes[i]);
        proof {
            assert(out@ =~= sv.subrange(0, hs as int) + data + table_upto(sv, rv, fs, t0, hs as int, i + 1));
        }
        i = i + 1;
    }
    // What follows the old table.
    let rest = copy_range(src, table_end as usize, src.len());
    push_bytes(&mut out, rest.as_slice());
    // The kept header with the new table offset.
    let mut fin = copy_range(out.as_slice(), 0, 16);
    push_u64_le(&mut fin, nto);
    let tail = copy_range(out.as_slice(), 24, out.len());
    push_bytes(&mut fin, tail.as_slice());
    proof {
        assert(fin@ =~= rebuilt(sv, h, fs, rv));
    }
    let keys = replacement_keys(replacements);
    let not_found = remaining_requests(&keys, &found);
    let output_size = fin.len() as u64;
    Ok((fin, Ba2InjectionSummary { injected: found.len(), not_found, output_size }))
}


proof fn lemma_data_prefix(src: Seq<u8>, rs: Seq<(Seq<char>, Seq<u8>)>, fs: Seq<Ba2FileRecord>, j: int, n: int)
    requires
        0 <= j <= n <= fs.len(),
    ensures
        data_upto(src, rs, fs, j).len() <= data_upto(src, rs, fs, n).len(),
        data_upto(src, rs, fs, n).subrange(0, data_upto(src, rs, fs, j).len() as int) == data_upto(src, rs, fs, j),
    decreases n - j,
{
    if j < n {
        lemma_data_prefix(src, rs, fs, j, n - 1);
        let a = data_upto(src, rs, fs, n - 1);
        let x = data_upto(src, rs, fs, j);
        assert(data_upto(src, rs, fs, n) == a + block_bytes(src, rs, fs[n - 1]));
        assert((a + block_bytes(src, rs, fs[n - 1])).subrange(0, x.len() as int) =~= a.subrange(0, x.len() as int));
    } else {
        assert(data_upto(src, rs, fs, n).subrange(0, data_upto(src, rs, fs, n).len() as int) =~= data_upto(src, rs, fs, n));
    }
}

/// In a rebuilt archive, the bytes at the data offset written into a
/// file's table entry are the block written for that file: for a replaced
/// file its new data (compressed when the file is packed), for the others
/// their old stored bytes.
pub proof fn law_ba2_block_at_offset(src: Seq<u8>, h: Ba2Header, fs: Seq<Ba2FileRecord>, rs: Seq<(Seq<char>, Seq<u8>)>, i: int)
    requires
        rebuild_ok(src, h, fs, rs),
        0 <= i < fs.len(),
    ensures
        ({
            let off = kept_len(h.version) + data_upto(src, rs, fs, i).len();
            let b = block_bytes(src, rs, fs[i]);
            rebuilt(src, h, fs, rs).subrange(off, off + b.len()) == b
        }),
{
    let hs = kept_len(h.version);
    let n = fs.len() as int;
    let data = data_upto(src, rs, fs, n);
    let x = data_upto(src, rs, fs, i);
    let b = block_bytes(src, rs, fs[i]);
    lemma_data_prefix(src, rs, fs, i + 1, n);
    assert(data_upto(src, rs, fs, i + 1) == x + b);
    let t0 = h.file_table_offset as int;
    let head = src.subrange(0, 16) + u64_bytes((hs + data.len()) as u64) + src.subrange(24, hs);
    let tail = table_upto(src, rs, fs, t0, hs, n) + src.subrange(record_pos(t0, fs, n), src.len() as int);
    assert(head.len() == hs);
    assert(rebuilt(src, h, fs, rs) =~= head + data + tail);
    let xl = x.len() as int;
    let bl = b.len() as int;
    assert(data.subrange(0, (x + b).len() as int) == x + b);
    assert((head + data + tail).subrange(hs + xl, hs + xl + bl) =~= data.subrange(xl, xl + bl));
    assert((x + b).subrange(xl, xl + bl) =~= b);
    assert(data.subrange(xl, xl + bl) =~= (x + b).subrange(xl, xl + bl));
}


proof fn lemma_entry_len(src: Seq<u8>, p: int, l: int, off: int, sizes: (u32, u32))
    requires
        0 <= p,
        l >= 20,
        p + l <= src.len(),
    ensures
        new_entry(src, p, l, off, sizes).len() == l,
{
}

proof fn lemma_table_len(src: Seq<u8>, rs: Seq<(Seq<char>, Seq<u8>)>, fs: Seq<Ba2FileRecord>, t0: int, hs: int, j: int)
    requires
        0 <= j <= fs.len(),
        0 <= t0,
        record_pos(t0, fs, fs.len() as int) <= src.len(),
    ensures
        table_upto(src, rs, fs, t0, hs, j).len() == record_pos(t0, fs, j) - t0,
    decreases j,
{
    if j > 0 {
        lemma_table_len(src, rs, fs, t0, hs, j - 1);
        lemma_record_pos_mono(t0, fs, j, fs.len() as int);
        lemma_record_pos_mono(t0, fs, 0, j - 1);
        lemma_entry_len(src, record_pos(t0, fs, j - 1), table_len(fs[j - 1].name@),
            hs + data_upto(src, rs, fs, j - 1).len(), block_sizes(rs, fs[j - 1]));
    }
}

proof fn lemma_table_prefix(src: Seq<u8>, rs: Seq<(Seq<char>, Seq<u8>)>, fs: Seq<Ba2FileRecord>, t0: int, hs: int, j: int, n: int)
    requires
        0 <= j <= n <= fs.len(),
    ensures
        table_upto(src, rs, fs, t0, hs, j).len() <= table_upto(src, rs, fs, t0, hs, n).len(),
        table_upto(src, rs, fs, t0, hs, n).subrange(0, table_upto(src, rs, fs, t0, hs, j).len() as int)
            == table_upto(src, rs, fs, t0, hs, j),
    decreases n - j,
{
    let x = table_upto(src, rs, fs, t0, hs, j);
    if j < n {
        lemma_table_prefix(src, rs, fs, t0, hs, j, n - 1);
        let a = table_upto(src, rs, fs, t0, hs, n - 1);
        let e = new_entry(src, record_pos(t0, fs, n - 1), table_len(fs[n - 1].name@),
            hs + data_upto(src, rs, fs, n - 1).len(), block_sizes(rs, fs[n - 1]));
        assert(table_upto(src, rs, fs, t0, hs, n) == a + e);
        assert((a + e).subrange(0, x.len() as int) =~= a.subrange(0, x.len() as int));
    } else {
        assert(x.subrange(0, x.len() as int) =~= x);
    }
}

/// In a rebuilt archive, the header's table offset (bytes 16 to 24) is
/// where the table now starts, right after the data, and the entry of each
/// file lies there at the same distance as before, with the offset of the
/// file's block (see [`law_ba2_block_at_offset`]) and its sizes written in.
pub proof fn law_ba2_entry_records_offset(src: Seq<u8>, h: Ba2Header, fs: Seq<Ba2FileRecord>, rs: Seq<(Seq<char>, Seq<u8>)>, i: int)
    requires
        rebuild_ok(src, h, fs, rs),
        0 <= i < fs.len(),
    ensures
        ({
            let hs = kept_len(h.version);
            let t0 = h.file_table_offset as int;
            let out = rebuilt(src, h, fs, rs);
            let table = hs + data_upto(src, rs, fs, fs.len() as int).len();
            let q = table + record_pos(t0, fs, i) - t0;
            let l = table_len(fs[i].name@);
            &&& out.subrange(16, 24) == u64_bytes(table as u64)
            &&& out.subrange(q, q + l) == new_entry(src, record_pos(t0, fs, i), l,
                    hs + data_upto(src, rs, fs, i).len(), block_sizes(rs, fs[i]))
        }),
{
    let hs = kept_len(h.version);
    let n = fs.len() as int;
    let t0 = h.file_table_offset as int;
    let data = data_upto(src, rs, fs, n);
    let tab = table_upto(src, rs, fs, t0, hs, n);
    lemma_table_prefix(src, rs, fs, t0, hs, i + 1, n);
    lemma_table_len(src, rs, fs, t0, hs, i);
    lemma_record_pos_mono(t0, fs, i + 1, n);
    lemma_record_pos_mono(t0, fs, 0, i);
    let x = table_upto(src, rs, fs, t0, hs, i);
    let l = table_len(fs[i].name@);
    let e = new_entry(src, record_pos(t0, fs, i), l, hs + data_upto(src, rs, fs, i).len(), block_sizes(rs, fs[i]));
    assert(table_upto(src, rs, fs, t0, hs, i + 1) == x + e);
    lemma_entry_len(src, record_pos(t0, fs, i), l, hs + data_upto(src, rs, fs, i).len(), block_sizes(rs, fs[i]));
    let head = src.subrange(0, 16) + u64_bytes((hs + data.len()) as u64) + src.subrange(24, hs);
    let rest = src.subrange(record_pos(t0, fs, n), src.len() as int);
    assert(head.len() == hs);
    let out = head + data + tab + rest;
    assert(rebuilt(src, h, fs, rs) =~= out);
    assert(out.subrange(16, 24) =~= u64_bytes((hs + data.len()) as u64));
    let xl = x.len() as int;
    let base = hs + data.len();
    assert(tab.subrange(0, xl + l) == x + e);
    assert(out.subrange(base + xl, base + xl + l) =~= tab.subrange(xl, xl + l));
    assert(tab.subrange(xl, xl + l) =~= (x + e).subrange(xl, xl + l));
    assert((x + e).subrange(xl, xl + l) =~= e);
}

} // verus!
