use xt_core::ba2::reading::{read_file_table, Ba2TableError};
use std::collections::HashMap;
use xt_core::bsa::directory::{bsa_hash64, str_to_num, BsaDirectory, BsaFileRecord, BsaFolder};
use xt_core::bsa::header::{BsaHeader, BsaHeaderError};

#[test]
fn test_bsa_hash64_known_values() {
    let h1 = bsa_hash64("strings", "");
    assert_ne!(h1, 0);
    let h2 = bsa_hash64("skyrim_english", ".strings");
    assert_ne!(h2, 0);
    assert_eq!(bsa_hash64("test", ".ext"), bsa_hash64("test", ".ext"));
}

#[test]
fn test_str_to_num() {
    assert_eq!(str_to_num(b"a"), 97);
    assert_eq!(str_to_num(b"ab"), 97u64.wrapping_mul(0x1003F).wrapping_add(98));
}

#[test]
fn test_hash_against_known_bsa_values() {
    // "strings": last 's', second to last 'g', length 7, first 's', middle "trin"
    let expected = (b's' as u64)
        .wrapping_add((b'g' as u64) << 8)
        .wrapping_add(7u64 << 16)
        .wrapping_add((b's' as u64) << 24)
        .wrapping_add(str_to_num(b"trin").wrapping_shl(32));
    assert_eq!(bsa_hash64("strings", ""), expected);
    // short names skip the middle and the second-to-last byte
    assert_eq!(bsa_hash64("ab", ""), (b'b' as u64) + (2u64 << 16) + ((b'a' as u64) << 24));
}

fn header_bytes(version: u32, flags: u32) -> Vec<u8> {
    let mut b = b"BSA\0".to_vec();
    for v in [version, 36, flags, 1, 2, 3, 4, 5] {
        b.extend_from_slice(&v.to_le_bytes());
    }
    b
}

#[test]
fn header_decoding_and_flags() {
    let h = BsaHeader::from_bytes(&header_bytes(0x69, 0x0104)).unwrap();
    assert_eq!(h.version, 0x69);
    assert_eq!(h.folder_count, 1);
    assert_eq!(h.file_flags, 5);
    assert!(h.is_valid_version());
    assert_eq!(h.folder_offset_size(), 24);
    assert!(h.has_prefix_full_filenames());
    // archive compresses by default: the bit marks an uncompressed file
    assert_eq!(h.is_file_compressed(0x4000_0010), (false, 0x10));
    assert_eq!(h.is_file_compressed(0x10), (true, 0x10));
    let h = BsaHeader::from_bytes(&header_bytes(0x67, 0)).unwrap();
    assert!(!h.is_valid_version());
    assert_eq!(h.folder_offset_size(), 16);
    assert_eq!(h.is_file_compressed(0x4000_0010), (true, 0x10));
    assert_eq!(BsaHeader::from_bytes(b"BSX\0").unwrap_err(), BsaHeaderError::BadMagic);
    assert_eq!(BsaHeader::from_bytes(b"BSA\0\x68").unwrap_err(), BsaHeaderError::Truncated);
}

fn sample_directory() -> BsaDirectory {
    let file = BsaFileRecord {
        hash: bsa_hash64("skyrim_english", ".strings"),
        raw_size: 10,
        offset: 100,
        name: "skyrim_english.strings".to_string(),
    };
    let mut file_map = HashMap::new();
    file_map.insert(file.hash, 0usize);
    let folder = BsaFolder {
        name: "strings".to_string(),
        hash: bsa_hash64("strings", ""),
        files: vec![file],
        file_map,
        offset: 0,
    };
    let mut folder_map = HashMap::new();
    folder_map.insert(folder.hash, 0usize);
    BsaDirectory { folders: vec![folder], folder_map }
}

#[test]
fn find_by_path_uses_hashes_of_lowered_parts() {
    let dir = sample_directory();
    let (folder, file) = dir.find_by_path("Strings\\Skyrim_English.STRINGS").unwrap();
    assert_eq!(folder.name, "strings");
    assert_eq!(file.offset, 100);
    assert!(dir.find_by_path("strings/skyrim_english.strings").is_some());
    assert!(dir.find_by_path("strings/other.strings").is_none());
    assert!(dir.find_by_path("no_folder.strings").is_none());
    let h = bsa_hash64("strings", "");
    assert!(dir.find_file(h, bsa_hash64("skyrim_english", ".strings")).is_some());
    assert!(dir.find_file(h + 1, 0).is_none());
}

#[test]
fn test_split_path() {
    let (folder, file) = xt_core::ba2::archive::Ba2Archive::split_path("Strings\\Skyrim_English.strings");
    assert_eq!(folder, "strings");
    assert_eq!(file, "skyrim_english.strings");

    let (folder, file) = xt_core::ba2::archive::Ba2Archive::split_path("filename.txt");
    assert_eq!(folder, "");
    assert_eq!(file, "filename.txt");
}

fn small_archive() -> (Vec<u8>, xt_core::bsa::header::BsaHeader) {
    let mut d = Vec::new();
    d.extend_from_slice(b"BSA\0");
    for v in [0x68u32, 36, 0, 1, 2, 4, 12, 0] {
        d.extend_from_slice(&v.to_le_bytes());
    }
    // folder record: hash, file count, offset (block position + total file name length)
    d.extend_from_slice(&0x1111u64.to_le_bytes());
    d.extend_from_slice(&2u32.to_le_bytes());
    d.extend_from_slice(&64u32.to_le_bytes());
    // folder block at 52: name with its NUL, then two file records
    d.push(4);
    d.extend_from_slice(b"TeX\0");
    for (h, size, off) in [(0xAu64, 5u32, 100u32), (0xBu64, 6, 200)] {
        d.extend_from_slice(&h.to_le_bytes());
        d.extend_from_slice(&size.to_le_bytes());
        d.extend_from_slice(&off.to_le_bytes());
    }
    d.extend_from_slice(b"A.dds\0b.dds\0");
    let header = xt_core::bsa::header::BsaHeader::from_bytes(&d).unwrap();
    (d, header)
}

#[test]
fn directory_is_read_from_bytes() {
    let (d, header) = small_archive();
    let dir = BsaDirectory::read_from(&d, 36, &header).unwrap();
    assert_eq!(dir.folders.len(), 1);
    assert_eq!(dir.folders[0].name, "tex");
    assert_eq!(dir.folders[0].hash, 0x1111);
    let names: Vec<&str> = dir.folders[0].files.iter().map(|f| f.name.as_str()).collect();
    assert_eq!(names, vec!["a.dds", "b.dds"]);
    let (_, rec) = dir.find_file(0x1111, 0xB).unwrap();
    assert_eq!(rec.raw_size, 6);
    assert_eq!(rec.offset, 200);
}

#[test]
fn truncated_directory_is_refused() {
    let (d, header) = small_archive();
    assert!(BsaDirectory::read_from(&d[..d.len() - 1], 36, &header).is_none());
    assert!(BsaDirectory::read_from(&d[..60], 36, &header).is_none());
    assert!(BsaDirectory::read_from(&d, 90, &header).is_none());
}

fn ba2_entry(name: &str, packed: u32, size: u32) -> Vec<u8> {
    let units: Vec<u16> = name.encode_utf16().collect();
    let mut d = vec![units.len() as u8];
    for u in &units {
        d.extend_from_slice(&u.to_le_bytes());
    }
    if !units.is_empty() {
        d.extend_from_slice(&[0, 0]);
    }
    for v in [1u32, 2, 3, 4] {
        d.extend_from_slice(&v.to_le_bytes());
    }
    d.extend_from_slice(&77i64.to_le_bytes());
    d.extend_from_slice(&packed.to_le_bytes());
    d.extend_from_slice(&size.to_le_bytes());
    d.extend_from_slice(&0u32.to_le_bytes());
    d
}

#[test]
fn ba2_file_table_is_read() {
    let mut d = vec![9u8; 5];
    d.extend(ba2_entry("Strings\\A.strings", 0, 10));
    d.extend(ba2_entry("", 4, 8));
    let files = read_file_table(&d, 5, 2).unwrap();
    assert_eq!(files.len(), 2);
    assert_eq!(files[0].name, "Strings\\A.strings");
    assert_eq!(files[0].offset, 77);
    assert_eq!(files[0].size, 10);
    assert!(!files[0].is_packed);
    assert_eq!(files[1].name, "");
    assert!(files[1].is_packed);
    assert_eq!(read_file_table(&d, 5, 3).unwrap_err(), Ba2TableError::Truncated);
    let mut bad = vec![1u8];
    bad.extend_from_slice(&0xD800u16.to_le_bytes());
    bad.extend_from_slice(&[0, 0]);
    bad.extend(vec![0u8; 36]);
    assert_eq!(read_file_table(&bad, 0, 1).unwrap_err(), Ba2TableError::InvalidName);
}
