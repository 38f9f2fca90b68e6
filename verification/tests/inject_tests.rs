use xt_core::archive_inject::{archive_kind, ArchiveKind};
use xt_core::ba2::injection::{ba2_rel_key, kept_header_size, rebuild_ba2, table_record_len, Ba2RebuildError};
use xt_core::ba2::header::Ba2Header;
use xt_core::ba2::reading::read_file_table;
use xt_core::bsa::directory::{BsaDirectory, BsaFileRecord, BsaFolder};
use xt_core::bsa::header::{BsaHeader, BSAARCHIVE_COMPRESSFILES, BSAFILE_COMPRESS, BSAHEADER_VERSION_SSE};
use xt_core::bsa::injection::{bsa_rel_path, compute_data_start, file_table_position, make_raw_size, rebuild_bsa, remaining_requests, BsaRebuildError};
use xt_core::bsa::header::BSAARCHIVE_PREFIXFULLFILENAMES;
use std::collections::HashMap;

fn header(version: u32, flags: u32) -> BsaHeader {
    BsaHeader {
        version,
        header_size: 36,
        archive_flags: flags,
        folder_count: 0,
        file_count: 0,
        total_folder_name_length: 0,
        total_file_name_length: 0,
        file_flags: 0,
    }
}

fn file(name: &str, offset: u32) -> BsaFileRecord {
    BsaFileRecord { hash: 0, raw_size: 0, offset, name: name.to_string() }
}

fn folder(name: &str, files: Vec<BsaFileRecord>) -> BsaFolder {
    BsaFolder { name: name.to_string(), hash: 0, files, file_map: HashMap::new(), offset: 0 }
}

#[test]
fn archive_kind_by_extension() {
    assert_eq!(archive_kind("BSA"), Ok(ArchiveKind::Bsa));
    assert_eq!(archive_kind("ba2"), Ok(ArchiveKind::Ba2));
    assert_eq!(
        archive_kind("Zip"),
        Err("unsupported archive extension: zip; expected .bsa or .ba2".to_string())
    );
    assert_eq!(archive_kind("").unwrap_err(), "unsupported archive extension: ; expected .bsa or .ba2");
}

#[test]
fn raw_size_compression_bit() {
    let plain = header(0x68, 0);
    let packed = header(0x68, BSAARCHIVE_COMPRESSFILES);
    assert_eq!(make_raw_size(&plain, 100, 0, false), 100);
    assert_eq!(make_raw_size(&plain, 100, 5, true), 105 | BSAFILE_COMPRESS);
    assert_eq!(make_raw_size(&packed, 100, 0, true), 100);
    assert_eq!(make_raw_size(&packed, 100, 2, false), 102 | BSAFILE_COMPRESS);
}

#[test]
fn data_start_is_smallest_offset() {
    let dir = BsaDirectory {
        folders: vec![folder("a", vec![file("x", 500), file("y", 300)]), folder("b", vec![file("z", 400)])],
        folder_map: HashMap::new(),
    };
    assert_eq!(compute_data_start(&dir), 300);
    let empty = BsaDirectory { folders: vec![folder("a", Vec::new())], folder_map: HashMap::new() };
    assert_eq!(compute_data_start(&empty), 0);
}

#[test]
fn table_position_counts_names_and_records() {
    let dir = BsaDirectory {
        folders: vec![folder("ab", vec![file("x", 0), file("y", 0)]), folder("cde", vec![file("z", 0)])],
        folder_map: HashMap::new(),
    };
    let sk = header(0x68, 0);
    // 36 + 2 folders * 16 + ("ab" 2+2 + 2 files * 16) + ("cde" 3+2) + 0
    assert_eq!(file_table_position(&sk, &dir, 1, 0), 36 + 32 + 36 + 5);
    let sse = header(BSAHEADER_VERSION_SSE, 0);
    assert_eq!(file_table_position(&sse, &dir, 0, 1), 36 + 48 + 4 + 16);
}

#[test]
fn requests_left_over() {
    let requested = vec!["a/x".to_string(), "b/y".to_string(), "c/z".to_string()];
    let done = vec!["b/y".to_string()];
    assert_eq!(remaining_requests(&requested, &done), vec!["a/x".to_string(), "c/z".to_string()]);
    assert_eq!(bsa_rel_path("textures", "a.dds"), "textures/a.dds");
}

#[test]
fn ba2_entry_sizes_and_keys() {
    assert_eq!(table_record_len("abc"), 1 + 6 + 2 + 36);
    assert_eq!(table_record_len("😀"), 1 + 4 + 2 + 36);
    assert_eq!(ba2_rel_key("Strings\\Skyrim_English.STRINGS"), "strings/skyrim_english.strings");
    assert_eq!(kept_header_size(2), 32);
    assert_eq!(kept_header_size(1), 24);
}

fn ba2_record_bytes(name: &str, offset: i64, packed: u32, size: u32) -> Vec<u8> {
    let units: Vec<u16> = name.encode_utf16().collect();
    let mut d = vec![units.len() as u8];
    for u in &units {
        d.extend_from_slice(&u.to_le_bytes());
    }
    d.extend_from_slice(&[0, 0]);
    for v in [11u32, 12, 13, 14] {
        d.extend_from_slice(&v.to_le_bytes());
    }
    d.extend_from_slice(&offset.to_le_bytes());
    d.extend_from_slice(&packed.to_le_bytes());
    d.extend_from_slice(&size.to_le_bytes());
    d.extend_from_slice(&0xBAADu32.to_le_bytes());
    d
}

fn small_ba2() -> Vec<u8> {
    let mut b = Vec::new();
    b.extend_from_slice(b"BTDX");
    b.extend_from_slice(&1u32.to_le_bytes());
    b.extend_from_slice(b"GNRL");
    b.extend_from_slice(&2u32.to_le_bytes());
    b.extend_from_slice(&29i64.to_le_bytes());
    b.extend_from_slice(b"abc");
    b.extend_from_slice(b"xy");
    b.extend(ba2_record_bytes("Dir\\A.txt", 24, 0, 3));
    b.extend(ba2_record_bytes("b.txt", 27, 0, 2));
    b.extend_from_slice(b"ST");
    b
}

#[test]
fn ba2_rebuild_replaces_one_file() {
    let src = small_ba2();
    let (h, _) = Ba2Header::from_bytes(&src).unwrap();
    let files = read_file_table(&src, 29, 2).unwrap();
    let repl = vec![("dir/a.txt".to_string(), b"HELLO".to_vec()), ("none.txt".to_string(), b"z".to_vec())];
    let (out, summary) = rebuild_ba2(&src, &h, &files, &repl).unwrap();
    assert_eq!(summary.injected, 1);
    assert_eq!(summary.not_found, vec!["none.txt".to_string()]);
    assert_eq!(summary.output_size, out.len() as u64);
    assert_eq!(&out[0..16], &src[0..16]);
    assert_eq!(i64::from_le_bytes(out[16..24].try_into().unwrap()), 31);
    assert_eq!(&out[24..31], b"HELLOxy");
    let table = read_file_table(&out, 31, 2).unwrap();
    assert_eq!(table[0].name, "Dir\\A.txt");
    assert_eq!((table[0].offset, table[0].packed_size, table[0].size), (24, 5, 5));
    assert_eq!((table[1].offset, table[1].packed_size, table[1].size), (29, 0, 2));
    assert_eq!(table[1].flag, 0xBAAD);
    assert_eq!(&out[out.len() - 2..], b"ST");
    assert_eq!(out.len(), src.len() + 2);
}

#[test]
fn ba2_rebuild_without_replacements_keeps_the_bytes() {
    let src = small_ba2();
    let (h, _) = Ba2Header::from_bytes(&src).unwrap();
    let files = read_file_table(&src, 29, 2).unwrap();
    let (out, summary) = rebuild_ba2(&src, &h, &files, &Vec::new()).unwrap();
    assert_eq!(out, src);
    assert_eq!(summary.injected, 0);
    assert!(summary.not_found.is_empty());
}

#[test]
fn ba2_rebuild_refuses_data_outside_the_bytes() {
    let src = small_ba2();
    let (h, _) = Ba2Header::from_bytes(&src).unwrap();
    let mut files = read_file_table(&src, 29, 2).unwrap();
    files[1].offset = 1000;
    assert_eq!(rebuild_ba2(&src, &h, &files, &Vec::new()).unwrap_err(), Ba2RebuildError::OutOfRange);
}

fn sized(name: &str, offset: u32, raw_size: u32) -> BsaFileRecord {
    BsaFileRecord { hash: 0, raw_size, offset, name: name.to_string() }
}

fn u32_at(b: &[u8], p: usize) -> u32 {
    u32::from_le_bytes(b[p..p + 4].try_into().unwrap())
}

#[test]
fn bsa_rebuild_replaces_one_file() {
    let mut src = vec![0u8; 100];
    src.extend_from_slice(b"abcxy");
    let dir = BsaDirectory {
        folders: vec![folder("f", vec![sized("a.txt", 100, 3), sized("b.txt", 103, 2)])],
        folder_map: HashMap::new(),
    };
    let h = header(0x68, 0);
    let repl = vec![("f/a.txt".to_string(), b"HELLO".to_vec()), ("g/none".to_string(), Vec::new())];
    let (out, summary) = rebuild_bsa(&src, &h, &dir, &repl).unwrap();
    assert_eq!(summary.injected, 1);
    assert_eq!(summary.not_found, vec!["g/none".to_string()]);
    assert_eq!(out.len(), 107);
    assert_eq!(summary.output_size, 107);
    assert_eq!(&out[100..], b"HELLOxy");
    // table entries at 36 + 16 + ("f" 1 + 2) = 55 and 71: hash, stored size, offset
    assert_eq!((u32_at(&out, 63), u32_at(&out, 67)), (5, 100));
    assert_eq!((u32_at(&out, 79), u32_at(&out, 83)), (2, 105));
    assert_eq!(&out[..55], &src[..55]);
}

#[test]
fn bsa_rebuild_keeps_name_prefix() {
    let mut src = vec![0u8; 100];
    src.extend_from_slice(&[3, b'n', b'a', b'm', 0]);
    src.extend_from_slice(b"abc");
    let dir = BsaDirectory { folders: vec![folder("f", vec![sized("a.txt", 100, 8)])], folder_map: HashMap::new() };
    let h = header(0x68, BSAARCHIVE_PREFIXFULLFILENAMES);
    let (out, _) = rebuild_bsa(&src, &h, &dir, &Vec::new()).unwrap();
    assert_eq!(&out[100..], &[3, b'n', b'a', b'm', 0, b'a', b'b', b'c']);
    let repl = vec![("f/a.txt".to_string(), b"HELLO".to_vec())];
    let (out, _) = rebuild_bsa(&src, &h, &dir, &repl).unwrap();
    assert_eq!(&out[100..], &[3, b'n', b'a', b'm', 0, b'H', b'E', b'L', b'L', b'O']);
    assert_eq!(u32_at(&out, 63), 10);
}

#[test]
fn bsa_rebuild_compresses_compressed_files() {
    let mut src = vec![0u8; 100];
    src.extend_from_slice(&[9, 9, 9, 9]);
    let dir = BsaDirectory { folders: vec![folder("f", vec![sized("a.txt", 100, 4)])], folder_map: HashMap::new() };
    let h = header(0x68, BSAARCHIVE_COMPRESSFILES);
    let data = vec![b'z'; 64];
    let (out, _) = rebuild_bsa(&src, &h, &dir, &vec![("f/a.txt".to_string(), data)]).unwrap();
    assert_eq!(u32_at(&out, 100), 64);
    assert_eq!(out[104], 0x78);
    let mut dec = Vec::new();
    std::io::Read::read_to_end(&mut flate2::read::ZlibDecoder::new(&out[104..]), &mut dec).unwrap();
    assert_eq!(dec, vec![b'z'; 64]);
    let stored = (out.len() - 100) as u32;
    assert_eq!(u32_at(&out, 63), stored);
}

#[test]
fn bsa_rebuild_refuses_unreadable_archives() {
    let src = vec![0u8; 100];
    let dir = BsaDirectory { folders: vec![folder("f", vec![sized("a.txt", 100, 4)])], folder_map: HashMap::new() };
    let h = header(0x68, 0);
    assert_eq!(rebuild_bsa(&src, &h, &dir, &Vec::new()).unwrap_err(), BsaRebuildError::OutOfRange);
    let low = BsaDirectory { folders: vec![folder("f", vec![sized("a.txt", 20, 0)])], folder_map: HashMap::new() };
    assert_eq!(rebuild_bsa(&src, &h, &low, &Vec::new()).unwrap_err(), BsaRebuildError::OutOfRange);
}
