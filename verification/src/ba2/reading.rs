//! Reading the file table of a general BA2 archive from its bytes: for
//! every file, its UTF-16 name with a length prefix, then its 36-byte
//! record.
use vstd::prelude::*;
use crate::ba2::directory::Ba2FileRecord;
use crate::bytes::{le_u16, le_u32, le_u64, read_u16_le};
use crate::mcm::parser::utf16_units;

verus! {

/// Why a file table could not be read.
#[derive(Clone, Copy, Debug, PartialEq, Eq)]
pub enum Ba2TableError {
    /// The table runs past the end of the bytes.
    Truncated,
    /// A name is not valid UTF-16.
    InvalidName,
}

/// The code units of the name whose length byte is at `p`.
pub open spec fn name_units(b: Seq<u8>, p: int) -> Seq<u16> {
    Seq::new(b[p] as nat, |k: int| le_u16(b, p + 1 + 2 * k))
}

/// Where the name whose length byte is at `p` ends: right after the length
/// byte when it is 0, else after the units and a terminating unit.
pub open spec fn name_end(b: Seq<u8>, p: int) -> int {
    if b[p] == 0 { p + 1 } else { p + 1 + 2 * b[p] + 2 }
}

/// Whether a text is what some units encode in UTF-16.
pub open spec fn decodes_to(us: Seq<u16>, s: Seq<char>) -> bool {
    utf16_units(s) == us
}

/// Where entry `i` of the table starting at `start` begins.
pub open spec fn entry_pos(b: Seq<u8>, start: int, i: int) -> int
    decreases i,
{
    if i <= 0 { start } else { name_end(b, entry_pos(b, start, i - 1)) + 36 }
}

/// Entry `i` can be read: its name fits and decodes, and its record fits.
pub open spec fn entry_ok(b: Seq<u8>, start: int, i: int) -> bool {
    let p = entry_pos(b, start, i);
    &&& 0 <= p < b.len()
    &&& name_end(b, p) + 36 <= b.len()
    &&& exists|s: Seq<char>| decodes_to(name_units(b, p), s)
}

/// The error of the first entry that cannot be read: a name or record that
/// runs past the end is `Truncated`, a name that does not decode
/// `InvalidName`.
pub open spec fn entry_error(b: Seq<u8>, start: int, i: int) -> Ba2TableError {
    let p = entry_pos(b, start, i);
    if !(0 <= p < b.len()) || name_end(b, p) > b.len() {
        Ba2TableError::Truncated
    } else if !(exists|s: Seq<char>| decodes_to(name_units(b, p), s)) {
        Ba2TableError::InvalidName
    } else {
        Ba2TableError::Truncated
    }
}

/// `f` is entry `i`: the decoded name and the record after it.
pub open spec fn entry_is(f: Ba2FileRecord, b: Seq<u8>, start: int, i: int) -> bool {
    let p = entry_pos(b, start, i);
    let at = name_end(b, p);
    &&& decodes_to(name_units(b, p), f.name@)
    &&& f.name_hash == le_u32(b, at)
    &&& f.ext_hash == le_u32(b, at + 4)
    &&& f.dir_hash == le_u32(b, at + 8)
    &&& f.unk_0c == le_u32(b, at + 12)
    &&& f.offset as int == (le_u64(b, at + 16) as i64) as int
    &&& f.packed_size == le_u32(b, at + 24)
    &&& f.size == le_u32(b, at + 28)
    &&& f.flag == le_u32(b, at + 32)
    &&& f.is_packed == (f.packed_size > 0)
}

/// `String::from_utf16`. Claims what its documentation says: it succeeds
/// exactly when the units are valid UTF-16, that is when some text encodes
/// to them, and then gives that text.
#[verifier::external_body]
fn utf16_text(units: &[u16]) -> (r: Option<String>)
    ensures
        match r {
            Some(s) => decodes_to(units@, s@),
            None => !(exists|s: Seq<char>| decodes_to(units@, s)),
        },
{
    String::from_utf16(units).ok()
}

/// Reads the name whose length byte is at `p`.
fn read_name(b: &[u8], p: usize) -> (r: Result<String, Ba2TableError>)
    requires
        p < b@.len(),
        name_end(b@, p as int) <= b@.len(),
    ensures
        match r {
            Ok(s) => decodes_to(name_units(b@, p as int), s@),
            Err(e) => e == Ba2TableError::InvalidName && !(exists|s: Seq<char>| decodes_to(name_units(b@, p as int), s)),
        },
{
    let n = b[p] as usize;
    let blen = b.len();
    let mut units: Vec<u16> = Vec::new();
    let mut k: usize = 0;
    while k < n
        invariant
            k <= n,
            blen == b@.len(),
            n == b@[p as int],
            p < b@.len(),
            name_end(b@, p as int) <= b@.len(),
            units@ == name_units(b@, p as int).take(k as int),
        decreases n - k,
    {
        let u = read_u16_le(b, p + 1 + 2 * k);
        units.push(u);
        assert(units@ =~= name_units(b@, p as int).take(k + 1));
        k = k + 1;
    }
    assert(units@ =~= name_units(b@, p as int));
    match utf16_text(units.as_slice()) {
        Some(s) => Ok(s),
        None => Err(Ba2TableError::InvalidName),
    }
}

/// Reads `count` entries of the file table starting at `start`: every
/// entry when each can be read (see [`entry_is`]), else the error of the
/// first that cannot (see [`entry_error`]).
pub fn read_file_table(b: &[u8], start: usize, count: u32) -> (r: Result<Vec<Ba2FileRecord>, Ba2TableError>)
    ensures
        match r {
            Ok(v) => v@.len() == count
                && (forall|i: int| 0 <= i < count ==> #[trigger] entry_ok(b@, start as int, i))
                && (forall|i: int| 0 <= i < count ==> #[trigger] entry_is(v@[i], b@, start as int, i)),
            Err(e) => exists|i: int| #![trigger entry_error(b@, start as int, i)] 0 <= i < count && !entry_ok(b@, start as int, i)
                && e == entry_error(b@, start as int, i)
                && forall|t: int| 0 <= t < i ==> #[trigger] entry_ok(b@, start as int, t),
        },
{
    let len = b.len();
    let mut out: Vec<Ba2FileRecord> = Vec::new();
    let mut p: usize = start;
    let mut i: u32 = 0;
    while i < count
        invariant
            i <= count,
            len == b@.len(),
            p as int == entry_pos(b@, start as int, i as int),
            out@.len() == i,
            forall|t: int| 0 <= t < i ==> #[trigger] entry_ok(b@, start as int, t),
            forall|t: int| 0 <= t < i ==> #[trigger] entry_is(out@[t], b@, start as int, t),
        decreases count - i,
    {
        if p >= len {
            assert(!entry_ok(b@, start as int, i as int) && entry_error(b@, start as int, i as int) == Ba2TableError::Truncated);
            return Err(Ba2TableError::Truncated);
        }
        let n = b[p] as usize;
        let at: usize = if n == 0 {
            p + 1
        } else {
            if len - p - 1 < 2 * n + 2 {
                assert(!entry_ok(b@, start as int, i as int) && entry_error(b@, start as int, i as int) == Ba2TableError::Truncated);
                return Err(Ba2TableError::Truncated);
            }
            p + 1 + 2 * n + 2
        };
        assert(at as int == name_end(b@, p as int));
        let name = match read_name(b, p) {
            Ok(s) => s,
            Err(e) => {
                assert(!entry_ok(b@, start as int, i as int) && entry_error(b@, start as int, i as int) == e);
                return Err(e);
            },
        };
        assert(decodes_to(name_units(b@, p as int), name@));
        if len - at < 36 {
            assert(!entry_ok(b@, start as int, i as int) && entry_error(b@, start as int, i as int) == Ba2TableError::Truncated);
            return Err(Ba2TableError::Truncated);
        }
        let mut rec = match Ba2FileRecord::from_bytes(b, at) {
            Some(r) => r,
            None => return Err(Ba2TableError::Truncated),
        };
        rec.name = name;
        out.push(rec);
        p = at + 36;
        i = i + 1;
    }
    Ok(out)
}

} // verus!
