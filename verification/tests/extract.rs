//! Archives: listing, selecting and extracting.
use rage::commands::extract::{contents_line, count_recursive, extract_recursive, select, wanted, Nested, Packed, Step};
use rage::commands::index_cmd::{cache_files, part_line, PartState};
use rage::index::Parts;
use rage::rpf::{find_file, require_keys, stored_range, Archive, EntryKind, RpfEncryption, RpfVersion, StoredEntry, BAD_KEYS, BAD_TABLE, NOT_UNPACKED};
use rpf_archive::{GtaKeys, RpfBuilder};

/// `update.rpf`-shaped: a few metadata files in two folders, plus a nested
/// archive.
fn fixture_bytes() -> Vec<u8> {
    let mut inner = RpfBuilder::new(rpf_archive::RpfEncryption::None);
    inner.add_file("models/prop_a.ydr", b"drawable a".to_vec());
    inner.add_file("models/prop_b.ydr", b"drawable b".to_vec());
    let inner_bytes = inner.build(None).unwrap();

    let mut outer = RpfBuilder::new(rpf_archive::RpfEncryption::None);
    outer.add_file("common/data/handling.meta", b"<CHandlingDataMgr/>".to_vec());
    outer.add_file("common/data/levels/gta5/vehicles.meta", b"<CVehicleModelInfo__InitDataList/>".to_vec());
    outer.add_file("common/data/carcols.ymt", b"PSIN".to_vec());
    outer.add_file("common/data/carvariations.ymt", b"PSIN".to_vec());
    outer.add_file("levels/inner.rpf", inner_bytes);
    outer.build(None).unwrap()
}

fn open(data: &[u8]) -> Archive {
    match Archive::from_bytes(data, "update.rpf", None) {
        Ok(a) => a,
        Err(e) => panic!("{e}"),
    }
}

fn refused(data: &[u8], keys: Option<&GtaKeys>) -> String {
    match Archive::from_bytes(data, "x.rpf", keys) {
        Ok(_) => panic!("it was read"),
        Err(e) => e,
    }
}

fn chosen(patterns: &[&str]) -> (Vec<String>, Vec<String>) {
    let archive = open(&fixture_bytes());
    let files = archive.list_files();
    let s = select(&files, &patterns.iter().map(|p| p.to_string()).collect());
    (s.files.iter().map(|i| files[*i].path.clone()).collect(), s.missing)
}

#[test]
fn several_paths_come_out_in_one_pass() {
    let (files, missing) = chosen(&["common/data/handling.meta", "common/data/levels/gta5/vehicles.meta", "*.ymt"]);
    assert_eq!(files.len(), 4);
    let mut sorted = files.clone();
    sorted.sort();
    assert_eq!(
        sorted,
        ["common/data/carcols.ymt", "common/data/carvariations.ymt", "common/data/handling.meta", "common/data/levels/gta5/vehicles.meta"]
    );
    assert!(missing.is_empty());
}

#[test]
fn files_come_in_archive_order_whatever_the_patterns_say() {
    let (files, _) = chosen(&["*.ymt", "HANDLING.META"]);
    assert_eq!(files, ["common/data/carcols.ymt", "common/data/carvariations.ymt", "common/data/handling.meta"]);
}

#[test]
fn a_repeated_or_missing_pattern_is_harmless() {
    let (files, missing) = chosen(&["*.ymt", "common/data/carcols.ymt", "nope.meta"]);
    assert_eq!(missing, ["nope.meta"]);
    assert_eq!(files.len(), 2);
    let (files, _) = chosen(&["nope.meta"]);
    assert!(files.is_empty());
}

#[test]
fn one_pattern_and_none_still_work() {
    assert_eq!(chosen(&["common/data/handling.meta"]).0, ["common/data/handling.meta"]);
    assert_eq!(chosen(&["common\\data\\HANDLING.meta"]).0, ["common/data/handling.meta"]);
    assert_eq!(chosen(&[]).0.len(), 5);

    let mut steps = Vec::new();
    extract_recursive(&packed(), "", &vec!["*.ydr".to_string(), "*.meta".to_string()], 0, &mut steps);
    let written: Vec<&str> = steps.iter().filter_map(|s| match s {
        Step::Extract { full, wanted: true, .. } => Some(full.as_str()),
        _ => None,
    }).collect();
    assert_eq!(written, ["common/data/handling.meta", "levels/inner.rpf/models/prop_a.ydr", "levels/inner.rpf/models/prop_b.ydr"]);
}

fn leaf(path: &str, id: usize, nested: Nested) -> Packed {
    Packed { name: path.rsplit('/').next().unwrap().to_string(), path: path.to_string(), is_resource: path.ends_with(".ydr"), id, nested }
}

fn packed() -> Vec<Packed> {
    vec![
        leaf("common/data/handling.meta", 1, Nested::Nothing),
        leaf("common/data/carcols.ymt", 2, Nested::Nothing),
        leaf("levels/inner.rpf", 3, Nested::Files(vec![
            leaf("models/prop_a.ydr", 4, Nested::Nothing),
            leaf("models/prop_b.ydr", 5, Nested::Nothing),
        ])),
        leaf("bad.RPF", 6, Nested::Unreadable("no table".to_string())),
        leaf("worse.rpf", 7, Nested::Failed("no keys".to_string())),
    ]
}

#[test]
fn the_count_is_what_is_extracted() {
    let files = packed();
    assert_eq!(count_recursive(&files, 0), (4, 2, 3));
    let mut steps = Vec::new();
    extract_recursive(&files, "", &Vec::new(), 0, &mut steps);
    let extracted = steps.iter().filter(|s| matches!(s, Step::Extract { wanted: true, .. })).count();
    assert_eq!(extracted, 4);
    assert!(steps.iter().any(|s| matches!(s, Step::Unreadable { full, reason } if full == "bad.RPF" && reason == "no table")));
    assert!(steps.iter().any(|s| matches!(s, Step::Failed { full, .. } if full == "worse.rpf")));
}

#[test]
fn archives_are_not_entered_without_end() {
    let mut tree = vec![leaf("x.ydr", 0, Nested::Nothing)];
    for _ in 0..17 {
        tree = vec![leaf("a.rpf", 0, Nested::Files(tree))];
    }
    assert_eq!(count_recursive(&tree, 0), (0, 0, 17));
    let mut steps = Vec::new();
    extract_recursive(&tree, "", &Vec::new(), 0, &mut steps);
    assert!(matches!(&steps[..], [Step::TooDeep { prefix }] if prefix.matches("a.rpf").count() == 17));
}

#[test]
fn a_path_is_wanted_when_any_pattern_matches() {
    assert!(wanted("a/b.ydr", &Vec::new()));
    assert!(wanted("a/b.ydr", &vec!["*.ytd".to_string(), "b.y".to_string()]));
    assert!(!wanted("a/b.ydr", &vec!["*.ytd".to_string()]));
    assert_eq!(contents_line(7, 2), "Archive contains 7 entries (2 dirs, 5 files)");
}

#[test]
fn files_are_found_by_path_or_by_name() {
    let archive = open(&fixture_bytes());
    let files = archive.list_files();
    assert_eq!(files.len(), 5);
    assert_eq!((archive.entry_count, archive.dir_count), (11, 6));
    assert_eq!(archive.find_file("Common\\Data\\HANDLING.meta").map(|f| f.name.as_str()), Some("handling.meta"));
    assert!(archive.find_file("absent").is_none());
    assert_eq!(find_file(&files, "vehicles.meta").map(|i| files[i].path.as_str()), Some("common/data/levels/gta5/vehicles.meta"));
    assert_eq!(find_file(&files, "absent"), None);
}

#[test]
fn a_stored_entry_is_a_window_onto_its_archive() {
    let plain = StoredEntry { file_offset: 2, file_size: 0, uncompressed_size: 100, is_encrypted: false };
    assert_eq!(stored_range(plain, true, 0, 2000), Some((1024, 1124)));
    assert_eq!(stored_range(plain, false, 10, 2000), Some((12, 112)));
    assert_eq!(stored_range(plain, true, 0, 1123), None, "it has to lie inside");
    assert_eq!(stored_range(StoredEntry { is_encrypted: true, ..plain }, true, 0, 2000), None);
    assert_eq!(stored_range(StoredEntry { file_size: 50, ..plain }, true, 0, 2000), None);
    assert_eq!(stored_range(StoredEntry { uncompressed_size: 0, ..plain }, true, 0, 2000), None);
}

#[test]
fn files_are_read_out_of_an_archive_and_of_those_inside_it() {
    let data = fixture_bytes();
    let archive = open(&data);
    let read = |path: &str| archive.extract(&data, archive.find_file(path).unwrap(), None).unwrap();
    assert_eq!(read("handling.meta"), b"<CHandlingDataMgr/>");
    let inner = read("levels/inner.rpf");
    let nested = open(&inner);
    assert_eq!(nested.list_files().iter().map(|f| f.path.as_str()).collect::<Vec<_>>(), ["models/prop_a.ydr", "models/prop_b.ydr"]);
    let file = archive.find_file("inner.rpf").unwrap();
    assert!(matches!(archive.entry_kind(file), EntryKind::BinaryFile { .. }));
    if let Some((start, end)) = archive.stored_range(file, data.len()) {
        assert_eq!(&data[start..end], inner);
    }
    assert_eq!(archive.stored_range(file, 1), None);
    assert!(archive.require_keys(None).is_ok());
    assert_eq!((archive.encryption, archive.version), (RpfEncryption::Unencrypted, RpfVersion::V7));
}

#[test]
fn an_archive_that_cannot_be_read_says_so() {
    assert!(refused(b"not an archive at all", None).contains("unknown archive magic"));
    assert_eq!(refused(b"short", None), "data too short");

    // A directory that contains itself.
    let mut looped = fixture_bytes();
    let root_count = looped[28..32].to_vec();
    looped[16 + 16 + 8..16 + 16 + 12].copy_from_slice(&0u32.to_le_bytes());
    looped[16 + 16 + 12..16 + 16 + 16].copy_from_slice(&[2, 0, 0, 0]);
    assert_ne!(root_count, [0, 0, 0, 0]);
    assert_eq!(refused(&looped, None), BAD_TABLE);

    // Offsets that do not fit into 32 bits.
    let mut fourth = vec![0u8; 0x810];
    fourth[..4].copy_from_slice(b"RPF4");
    fourth[4..8].copy_from_slice(&16u32.to_le_bytes());
    fourth[8..12].copy_from_slice(&1u32.to_le_bytes());
    assert_eq!(open(&fourth).entry_count, 1);
    fourth[0x808..0x80c].copy_from_slice(&0x2000_0000u32.to_le_bytes());
    assert_eq!(refused(&fourth, None), BAD_TABLE);
    let mut sectors = vec![0u8; 40];
    sectors[..4].copy_from_slice(b"VER2");
    sectors[4..8].copy_from_slice(&1u32.to_le_bytes());
    assert_eq!(open(&sectors).entry_count, 1);
    sectors[8..12].copy_from_slice(&0x20_0000u32.to_le_bytes());
    assert_eq!(refused(&sectors, None), BAD_TABLE);

    // Names that run out.
    let mut image = vec![0u8; 20 + 32 + 4];
    image[..4].copy_from_slice(&0xa94e_2a52u32.to_le_bytes());
    image[8..12].copy_from_slice(&2u32.to_le_bytes());
    image[12..16].copy_from_slice(&36u32.to_le_bytes());
    image[16..18].copy_from_slice(&16u16.to_le_bytes());
    image[52..56].copy_from_slice(b"a\0b\0");
    assert_eq!(open(&image).entries.iter().map(|e| e.name.as_str()).collect::<Vec<_>>(), ["a", "b"]);
    image[52..56].copy_from_slice(b"abcd");
    assert_eq!(refused(&image, None), BAD_TABLE);
    image[8..12].copy_from_slice(&3u32.to_le_bytes());
    assert_eq!(refused(&image, None), BAD_TABLE);

    let keys = GtaKeys { aes_key: [0; 32], ng_keys: vec![vec![0; 4]; 101], ng_decrypt_tables: Box::new([[[0; 256]; 16]; 17]) };
    assert_eq!(refused(&fixture_bytes(), Some(&keys)), BAD_KEYS);
    let keys = GtaKeys { ng_keys: vec![vec![0; 272]; 101], ..keys };
    assert_eq!(Archive::from_bytes(&fixture_bytes(), "x.rpf", Some(&keys)).map(|a| a.entry_count).ok(), Some(11));
}

#[test]
fn encrypted_archives_are_read_with_their_key() {
    let keys = GtaKeys { aes_key: [7; 32], ng_keys: vec![vec![3; 272]; 101], ng_decrypt_tables: Box::new([[[0; 256]; 16]; 17]) };
    let mut builder = RpfBuilder::new(rpf_archive::RpfEncryption::Aes);
    builder.add_file("a.txt", b"plain words".to_vec());
    let data = builder.build(Some(&keys)).unwrap();
    let archive = Archive::from_bytes(&data, "x.rpf", Some(&keys)).ok().unwrap();
    assert_eq!(archive.encryption, RpfEncryption::Aes);
    assert_eq!(archive.list_files()[0].name, "a.txt");
    assert!(archive.require_keys(Some(&keys)).is_ok());
    assert!(archive.require_keys(None).unwrap_err().contains("Aes-encrypted"));
    assert_eq!(archive.extract(&data, archive.find_file("a.txt").unwrap(), Some(&keys)).unwrap(), b"plain words");

    // What only the sixth version compresses is left alone.
    let mut builder = RpfBuilder::for_version(rpf_archive::RpfVersion::V6, rpf_archive::RpfEncryption::None);
    builder.add_file("a.txt", vec![65; 4000]);
    let data = builder.build(None).unwrap();
    let archive = open(&data);
    let file = archive.list_files()[0];
    match archive.entry_kind(file) {
        EntryKind::BinaryFile { file_size, uncompressed_size, .. } if 0 < file_size && file_size < uncompressed_size => {
            assert_eq!(archive.extract(&data, file, None).unwrap_err(), NOT_UNPACKED);
        }
        _ => assert_eq!(archive.extract(&data, file, None).unwrap(), vec![65; 4000]),
    }
}

#[test]
fn encrypted_archives_need_keys() {
    assert!(require_keys(RpfEncryption::Ng, true).is_ok());
    assert!(require_keys(RpfEncryption::Open, false).is_ok());
    let e = require_keys(RpfEncryption::Aes, false).unwrap_err();
    assert_eq!(e, "archive is Aes-encrypted \u{2014} pass --exe <GTA5.exe> or set GTAV_PATH");
}

#[test]
fn the_cache_is_described_part_by_part() {
    assert_eq!(part_line(Parts::models(), &PartState::Missing), "models     not built (built on first use)");
    assert!(part_line(Parts::textures(), &PartState::Stale { size: 9 }).contains("9 bytes, stale"));
    assert!(part_line(Parts::textures(), &PartState::Unreadable { size: 9 }).contains("from another version of rage"));
    assert_eq!(part_line(Parts::textures(), &PartState::Current { size: 9, summary: "s".to_string() }), "textures   9 bytes, current: s");
    assert_eq!(cache_files(), ["textures.bin", "interiors.bin", "models.bin", "index.bin"]);
}
