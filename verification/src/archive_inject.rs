//! The checks before replacing files inside an archive: which kind of
//! archive a file is, and whether every requested file is in it.
use vstd::prelude::*;
use crate::bsa::archive::BsaArchive;
use crate::ba2::archive::Ba2Archive;
use crate::text::{chars_of, string_from_chars, chars_eq};
use crate::header_processor::{push_lit, push_str, texts};

verus! {

/// What replacing files in an archive did.
#[derive(Debug, Clone)]
pub struct InjectResult {
    /// How many files were replaced.
    pub injected: usize,
    /// The requested paths that no file of the archive has.
    pub not_found: Vec<String>,
    /// Where the original archive was copied before it was replaced.
    pub backup_path: Option<String>,
    /// The size of the rebuilt archive.
    pub output_size: u64,
}

/// The two kinds of archive that files can be replaced in.
#[derive(Clone, Copy, Debug, PartialEq, Eq)]
pub enum ArchiveKind {
    Bsa,
    Ba2,
}

/// The kind of an archive by its file extension, compared lower-cased; any
/// other extension is refused with a message that names it.
pub open spec fn kind_of(ext: Seq<char>) -> Result<ArchiveKind, Seq<char>> {
    let l = crate::text::unicode_lower_str(ext);
    if l == "bsa"@ {
        Ok(ArchiveKind::Bsa)
    } else if l == "ba2"@ {
        Ok(ArchiveKind::Ba2)
    } else {
        Err("unsupported archive extension: "@ + l + "; expected .bsa or .ba2"@)
    }
}

/// The kind of an archive by its file extension (see [`kind_of`]).
pub fn archive_kind(extension: &str) -> (r: Result<ArchiveKind, String>)
    ensures
        match r {
            Ok(k) => kind_of(extension@) == Ok::<ArchiveKind, Seq<char>>(k),
            Err(m) => kind_of(extension@) == Err::<ArchiveKind, Seq<char>>(m@),
        },
{
    let lower = crate::text::str_to_lowercase(extension);
    let l = chars_of(lower.as_str());
    if chars_eq(&l, &chars_of("bsa")) {
        Ok(ArchiveKind::Bsa)
    } else if chars_eq(&l, &chars_of("ba2")) {
        Ok(ArchiveKind::Ba2)
    } else {
        let mut out = chars_of("unsupported archive extension: ");
        push_str(&mut out, &lower);
        push_lit(&mut out, "; expected .bsa or .ba2");
        Err(string_from_chars(out.as_slice()))
    }
}

/// The requested paths that `has` does not hold, in request order.
pub open spec fn missing_of(keys: Seq<Seq<char>>, has: spec_fn(Seq<char>) -> bool) -> Seq<Seq<char>>
    decreases keys.len(),
{
    if keys.len() == 0 {
        Seq::empty()
    } else if has(keys.last()) {
        missing_of(keys.drop_last(), has)
    } else {
        missing_of(keys.drop_last(), has).push(keys.last())
    }
}

/// The refusal when requested paths are missing: none when every path is
/// there, else a message listing them joined by `, `.
pub open spec fn missing_refusal(missing: Seq<Seq<char>>) -> Result<(), Seq<char>> {
    if missing.len() == 0 {
        Ok(())
    } else {
        Err("replacements reference files not in archive: "@ + crate::def_ui::joined(missing, ", "@))
    }
}

/// The refusal for a list of missing paths (see [`missing_refusal`]).
fn refusal_of(missing: &Vec<String>) -> (r: Result<(), String>)
    ensures
        match r {
            Ok(_) => missing_refusal(texts(missing@)) is Ok,
            Err(m) => missing_refusal(texts(missing@)) == Err::<(), Seq<char>>(m@),
        },
{
    if missing.len() == 0 {
        return Ok(());
    }
    let ghost ws = texts(missing@);
    let mut out = chars_of("replacements reference files not in archive: ");
    let ghost head = out@;
    let mut k: usize = 0;
    while k < missing.len()
        invariant
            k <= missing@.len(),
            ws == texts(missing@),
            out@ == head + crate::def_ui::joined(ws.take(k as int), ", "@),
        decreases missing@.len() - k,
    {
        assert(ws.take(k + 1).drop_last() =~= ws.take(k as int));
        let ghost before = out@;
        if k > 0 {
            push_lit(&mut out, ", ");
        }
        push_str(&mut out, &missing[k]);
        proof {
            if k > 0 {
                assert(out@ =~= head + (crate::def_ui::joined(ws.take(k as int), ", "@) + ", "@ + ws[k as int]));
            } else {
                assert(ws.take(1) =~= seq![ws[0]]);
                assert(out@ =~= head + ws[0]);
            }
        }
        k = k + 1;
    }
    assert(ws.take(ws.len() as int) =~= ws);
    Err(string_from_chars(out.as_slice()))
}

/// Refuses the requested paths unless the BSA archive holds every one (see
/// [`missing_refusal`]).
pub fn check_bsa_replacements(archive: &BsaArchive, keys: &Vec<String>) -> (r: Result<(), String>)
    requires
        archive.wf(),
    ensures
        match r {
            Ok(_) => missing_refusal(missing_of(texts(keys@), |p: Seq<char>| archive.has_file(p))) is Ok,
            Err(m) => missing_refusal(missing_of(texts(keys@), |p: Seq<char>| archive.has_file(p)))
                == Err::<(), Seq<char>>(m@),
        },
{
    let ghost has = |p: Seq<char>| archive.has_file(p);
    let ghost ks = texts(keys@);
    let mut missing: Vec<String> = Vec::new();
    let mut i: usize = 0;
    while i < keys.len()
        invariant
            i <= keys@.len(),
            archive.wf(),
            ks == texts(keys@),
            has == (|p: Seq<char>| archive.has_file(p)),
            texts(missing@) == missing_of(ks.take(i as int), has),
        decreases keys@.len() - i,
    {
        assert(ks.take(i + 1).drop_last() =~= ks.take(i as int));
        if !archive.contains_file(keys[i].as_str()) {
            let ghost before = missing@;
            missing.push(string_from_chars(chars_of(keys[i].as_str()).as_slice()));
            assert(texts(missing@) =~= texts(before).push(ks[i as int]));
        }
        i = i + 1;
    }
    assert(ks.take(ks.len() as int) =~= ks);
    refusal_of(&missing)
}

/// Refuses the requested paths unless the BA2 archive holds every one (see
/// [`missing_refusal`]).
pub fn check_ba2_replacements(archive: &Ba2Archive, keys: &Vec<String>) -> (r: Result<(), String>)
    requires
        archive.wf(),
    ensures
        match r {
            Ok(_) => missing_refusal(missing_of(texts(keys@), |p: Seq<char>| archive.has_file(p))) is Ok,
            Err(m) => missing_refusal(missing_of(texts(keys@), |p: Seq<char>| archive.has_file(p)))
                == Err::<(), Seq<char>>(m@),
        },
{
    let ghost has = |p: Seq<char>| archive.has_file(p);
    let ghost ks = texts(keys@);
    let mut missing: Vec<String> = Vec::new();
    let mut i: usize = 0;
    while i < keys.len()
        invariant
            i <= keys@.len(),
            archive.wf(),
            ks == texts(keys@),
            has == (|p: Seq<char>| archive.has_file(p)),
            texts(missing@) == missing_of(ks.take(i as int), has),
        decreases keys@.len() - i,
    {
        assert(ks.take(i + 1).drop_last() =~= ks.take(i as int));
        if !archive.contains_file(keys[i].as_str()) {
            let ghost before = missing@;
            missing.push(string_from_chars(chars_of(keys[i].as_str()).as_slice()));
            assert(texts(missing@) =~= texts(before).push(ks[i as int]));
        }
        i = i + 1;
    }
    assert(ks.take(ks.len() as int) =~= ks);
    refusal_of(&missing)
}

} // verus!
