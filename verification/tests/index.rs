//! The game index: its parts, its cache files, merging and lookups.
use std::collections::{HashMap, HashSet};

use rage::formats::TxdRelationship;
use rage::index::bytes::{Cursor, IndexError};
use rage::index::codec::{decode_part, encode_part, read_loc, write_loc, FORMAT_VERSION};
use rage::index::lookup::{gather, save, Reason, Stale};
use rage::index::placements::{maps_to_read, record_mlo_instance};
use rage::index::scan::{merge_txd_relationships, wanted, ArchiveFile, Content, Partial, Want};
use rage::index::{ArchetypeBox, Asset, EntryLoc, GameIndex, Parts};
use rage_formats::rage_joaat;

fn loc(inner: &str) -> EntryLoc {
    EntryLoc {
        top_archive: "C:/game/x64a.rpf".to_string(),
        nested_rpfs: vec!["levels/gta5/interiors.rpf".to_string()],
        inner_path: inner.to_string(),
    }
}

fn box_of(lo: [f32; 3], hi: [f32; 3]) -> ArchetypeBox {
    ArchetypeBox {
        min_x: lo[0].to_bits(),
        min_y: lo[1].to_bits(),
        min_z: lo[2].to_bits(),
        max_x: hi[0].to_bits(),
        max_y: hi[1].to_bits(),
        max_z: hi[2].to_bits(),
    }
}

fn sample() -> GameIndex {
    let mut index = GameIndex { parts: Parts::all(), ..Default::default() };
    index.ytd_by_name.insert(1, EntryLoc {
        top_archive: "C:/game/x64f.rpf".to_string(),
        nested_rpfs: vec!["levels/gta5/x.rpf".to_string()],
        inner_path: "prop_table_chair_02.ytd".to_string(),
    });
    index.archetype_txd.insert(2, 3);
    index.resident_textures.insert(4, 5);
    index.parent_txds.insert(6, 7);
    index.archetype_box.insert(8, box_of([-1.0, -2.0, -3.0], [1.0, 2.0, 3.0]));
    index.mlo_ytyp.insert(10, loc("v_int_3.ytyp"));
    index.mlo_instances.insert(10, vec![loc("a.ymap"), loc("b.ymap")]);
    index.ybn_by_name.insert(10, loc("v_int_3.ybn"));
    index.drawable_by_name.insert(11, loc("prop_x.ydr"));
    index.archetype_asset.insert(12, Asset { kind: 3, model: 13 });
    index
}

#[test]
fn each_part_round_trips_through_its_own_file() {
    let index = sample();
    let mut back = GameIndex::default();
    for part in Parts::all().each() {
        let (fingerprint, decoded) = decode_part(&encode_part(&index, part, 0xABCD_1234_5678), part).expect("should decode");
        assert_eq!(fingerprint, 0xABCD_1234_5678);
        assert_eq!(decoded.parts, part);
        back.merge(decoded);
    }
    assert_eq!(back.parts, Parts::all());
    assert_eq!(back.ytd_by_name, index.ytd_by_name);
    assert_eq!(back.archetype_txd, index.archetype_txd);
    assert_eq!(back.resident_textures, index.resident_textures);
    assert_eq!(back.parent_txds, index.parent_txds);
    assert_eq!(back.archetype_box, index.archetype_box);
    assert_eq!(back.mlo_ytyp, index.mlo_ytyp);
    assert_eq!(back.mlo_instances, index.mlo_instances);
    assert_eq!(back.ybn_by_name, index.ybn_by_name);
    assert_eq!(back.drawable_by_name, index.drawable_by_name);
    assert_eq!(back.archetype_asset, index.archetype_asset);
}

#[test]
fn a_part_file_holds_only_its_own_maps() {
    let (_, textures) = decode_part(&encode_part(&sample(), Parts::textures(), 0), Parts::textures()).unwrap();
    assert_eq!(textures.ytd_by_name.len(), 1);
    assert!(textures.mlo_ytyp.is_empty() && textures.drawable_by_name.is_empty());
}

#[test]
fn encoding_does_not_depend_on_insertion_order() {
    let mut a = GameIndex::default();
    let mut b = GameIndex::default();
    for k in 0..500u32 {
        a.archetype_txd.insert(k, k + 1);
        b.archetype_txd.insert(499 - k, 500 - k);
    }
    assert_eq!(encode_part(&a, Parts::textures(), 1), encode_part(&b, Parts::textures(), 1));
}

#[test]
fn a_file_for_another_part_is_refused() {
    let bytes = encode_part(&sample(), Parts::models(), 0);
    assert!(decode_part(&bytes, Parts::textures()).is_err());
}

#[test]
fn a_truncated_or_padded_file_is_refused() {
    let bytes = encode_part(&sample(), Parts::interiors(), 0);
    assert!(decode_part(&bytes[..bytes.len() - 1], Parts::interiors()).is_err());
    let mut padded = bytes.clone();
    padded.push(0);
    assert!(decode_part(&padded, Parts::interiors()).is_err());
}

#[test]
fn a_part_written_for_other_archives_is_stale() {
    let mut index = sample();
    index.parts = Parts::textures();
    let files = save(&index, 7);
    assert_eq!(files[0].0, Parts::textures().file_name());
    assert!(matches!(GameIndex::load_part(&files[0].1, Parts::textures(), 7), Ok(Ok(_))));
    assert!(matches!(GameIndex::load_part(&files[0].1, Parts::textures(), 8), Ok(Err(Stale))));
}

#[test]
fn saving_writes_one_file_per_part_and_drops_the_old_single_file() {
    let mut index = sample();
    index.parts = Parts::textures() | Parts::models();
    let names: Vec<String> = save(&index, 1).into_iter().map(|f| f.0).collect();
    assert_eq!(names, ["textures.bin", "models.bin"]);
}

#[test]
fn index_rejects_bad_magic() {
    assert!(decode_part(&[0u8; 20], Parts::textures()).is_err());
}

#[test]
fn rejects_every_older_format_version() {
    for stale in 1..FORMAT_VERSION {
        let mut bytes = encode_part(&sample(), Parts::textures(), 0);
        bytes[4..8].copy_from_slice(&stale.to_le_bytes());
        assert!(decode_part(&bytes, Parts::textures()).is_err(), "version {stale} should be rebuilt, not read");
    }
}

#[test]
fn write_loc_and_read_loc_are_symmetric() {
    for original in [
        loc("v_int_3.ytyp"),
        EntryLoc {
            top_archive: r"C:\game\update\update.rpf".to_string(),
            nested_rpfs: Vec::new(),
            inner_path: "x.ybn".to_string(),
        },
        EntryLoc {
            top_archive: "C:/game/x64a.rpf".to_string(),
            nested_rpfs: vec!["a.rpf".to_string(), "b.rpf".to_string()],
            inner_path: "deep/c.ymap".to_string(),
        },
    ] {
        let mut buf = Vec::new();
        write_loc(&mut buf, &original);
        let mut c = Cursor { data: &buf, pos: 0 };
        assert_eq!(read_loc(&mut c).expect("should read back"), original);
        assert_eq!(c.pos, buf.len(), "read_loc should consume exactly what write_loc wrote");
    }
}

#[test]
fn parts_combine_and_list_in_a_fixed_order() {
    let p = Parts::models() | Parts::textures();
    assert!(p.contains(Parts::textures()) && p.contains(Parts::models()) && !p.contains(Parts::interiors()));
    assert!(!p.contains(Parts::none()));
    assert_eq!(p.describe(), "textures, models");
    assert_eq!(Parts::all().each().len(), 3);
    assert!(Parts::none().is_empty());
}

#[test]
fn parts_name_their_files() {
    assert_eq!(Parts::interiors().name(), "interiors");
    assert_eq!(Parts::models().file_name(), "models.bin");
    let mut p = Parts::none();
    p.add(Parts::interiors());
    assert_eq!(p, Parts::interiors());
}

#[test]
fn merging_a_later_archive_overrides_names_but_not_parent_links() {
    let mut first = GameIndex { parts: Parts::textures(), ..Default::default() };
    first.ytd_by_name.insert(1, loc("base.ytd"));
    first.parent_txds.insert(5, 6);
    let mut later = GameIndex { parts: Parts::textures(), ..Default::default() };
    later.ytd_by_name.insert(1, loc("dlc.ytd"));
    later.parent_txds.insert(5, 9);
    later.mlo_instances.insert(3, vec![loc("b.ymap")]);
    first.mlo_instances.insert(3, vec![loc("a.ymap")]);

    first.merge(later);
    assert_eq!(first.ytd_by_name[&1], loc("dlc.ytd"));
    assert_eq!(first.parent_txds[&5], 6);
    assert_eq!(first.mlo_instances[&3], vec![loc("a.ymap"), loc("b.ymap")]);
}

/// The world cache vouches for the maps it describes: only those it names as
/// placing an interior are read, plus every map it does not describe at all.
#[test]
fn maps_to_read_are_the_placing_and_the_undescribed_ones() {
    let ymaps: Vec<(u32, EntryLoc)> = [10, 20, 30, 40, 20].iter().map(|&h| (h, loc(&format!("{h}.ymap")))).collect();
    let covered: HashSet<u32> = [10, 20, 30].into_iter().collect();
    let proxies = vec![(777, 20)];
    // 20 places an interior (both copies), 40 is described by nothing.
    assert_eq!(maps_to_read(&ymaps, &covered, &proxies), vec![1, 3, 4]);
}

#[test]
fn without_world_cache_files_every_map_is_read() {
    let ymaps: Vec<(u32, EntryLoc)> = (0..4).map(|h| (h, loc("m.ymap"))).collect();
    assert_eq!(maps_to_read(&ymaps, &HashSet::new(), &Vec::new()), vec![0, 1, 2, 3]);
}

/// A same-named map in a later archive is usually a DLC copy of the base one,
/// but it can equally be an unrelated map that happens to share the name, so
/// both are kept, in rank order.
#[test]
fn same_named_maps_from_different_archives_are_both_kept() {
    let base = EntryLoc {
        top_archive: "C:/game/x64a.rpf".to_string(),
        nested_rpfs: vec!["levels/gta5/_citye/indust_01.rpf".to_string()],
        inner_path: "id1_03_interior.ymap".to_string(),
    };
    let dlc = EntryLoc {
        top_archive: "C:/game/update/x64/dlcpacks/mpheist/dlc.rpf".to_string(),
        nested_rpfs: vec!["x64/levels/mpheist/interiors.rpf".to_string()],
        inner_path: "ID1_03_Interior.ymap".to_string(), // same map, different case
    };
    let elsewhere = EntryLoc { inner_path: "other.ymap".to_string(), ..base.clone() };

    let mut out: HashMap<u32, Vec<EntryLoc>> = HashMap::new();
    let base_kept = base.clone();
    record_mlo_instance(&mut out, 7, base);
    record_mlo_instance(&mut out, 7, elsewhere.clone());
    record_mlo_instance(&mut out, 7, dlc.clone());

    assert_eq!(
        out[&7],
        vec![base_kept, elsewhere, dlc],
        "every location should be listed, in the order the archives were scanned"
    );
}

#[test]
fn different_archetypes_keep_their_own_placement_lists() {
    let a = loc("a.ymap");
    let mut out: HashMap<u32, Vec<EntryLoc>> = HashMap::new();
    record_mlo_instance(&mut out, 1, a.clone());
    record_mlo_instance(&mut out, 2, a.clone());
    assert_eq!(out[&1], vec![a.clone()]);
    assert_eq!(out[&2], vec![a]);
}

#[test]
fn summary_counts_the_interior_maps() {
    let mut index = GameIndex { parts: Parts::interiors(), ..Default::default() };
    index.mlo_ytyp.insert(1, loc("i.ytyp"));
    index.mlo_instances.insert(1, vec![loc("a.ymap"), loc("b.ymap")]);
    index.ybn_by_name.insert(2, loc("i.ybn"));

    let summary = index.summary();
    assert!(summary.contains("1 interiors"), "{summary}");
    assert!(summary.contains("2 interior placement rows"), "{summary}");
    assert!(summary.contains("1 collision files"), "{summary}");
    assert!(!summary.contains("dictionaries"), "only loaded parts are summarised: {summary}");
}

fn rel(child: &str, parent: &str) -> TxdRelationship {
    TxdRelationship { child: child.to_string(), parent: parent.to_string() }
}

#[test]
fn merge_txd_relationships_is_first_wins() {
    let mut out = HashMap::new();
    merge_txd_relationships(&mut out, &vec![rel("a", "b")]);
    merge_txd_relationships(&mut out, &vec![rel("a", "c")]);
    assert_eq!(out.get(&rage_joaat("a")), Some(&rage_joaat("b")));
}

#[test]
fn merge_txd_relationships_lowercases_before_hashing() {
    let mut out = HashMap::new();
    merge_txd_relationships(&mut out, &vec![rel("PROP_Foo", "VehShare")]);
    assert_eq!(out.get(&rage_joaat("prop_foo")), Some(&rage_joaat("vehshare")));
}

#[test]
fn merge_txd_relationships_rejects_self_parent() {
    let mut out = HashMap::new();
    merge_txd_relationships(&mut out, &vec![rel("same", "same")]);
    assert!(out.is_empty());
}

#[test]
fn resolution_order_tries_archetype_txd_then_own_stem_hash() {
    let mut index = GameIndex::default();
    index.archetype_txd.insert(100, 200);

    let order = index.resolution_order(100);
    assert_eq!(order, vec![200, 100]);

    // No archetype known: falls back to the stem hash alone.
    let order = index.resolution_order(999);
    assert_eq!(order, vec![999]);
}

#[test]
fn resolution_order_walks_parent_chain_with_cycle_guard() {
    let mut index = GameIndex::default();
    index.parent_txds.insert(1, 2);
    index.parent_txds.insert(2, 1); // cycle

    let order = index.resolution_order(1);
    // 1 (self), 2 (parent), then the cycle back to 1 is rejected.
    assert_eq!(order, vec![1, 2]);
}

#[test]
fn resolution_order_walks_the_archetype_txds_chain_not_the_stems() {
    let mut index = GameIndex::default();
    index.archetype_txd.insert(100, 200);
    index.parent_txds.insert(200, 300);

    let order = index.resolution_order(100);
    assert_eq!(order, vec![200, 300, 100]);
}

#[test]
fn resolution_order_merges_both_chains_without_duplicates() {
    let mut index = GameIndex::default();
    index.archetype_txd.insert(100, 200);
    index.parent_txds.insert(200, 400);
    index.parent_txds.insert(100, 400); // same parent as the archetype chain

    let order = index.resolution_order(100);
    assert_eq!(order, vec![200, 400, 100]);
}

#[test]
fn resolution_order_stops_at_the_hop_limit() {
    let mut index = GameIndex::default();
    for i in 0..200u32 {
        index.parent_txds.insert(i, i + 1);
    }

    let order = index.resolution_order(0);
    assert!(order.len() <= 65, "expected the walk to stop at the hop limit, got {} entries", order.len());
}

#[test]
fn resident_textures_name_their_dictionary() {
    let index = sample();
    assert_eq!(index.resident_dict_for_texture(4), Some(5));
    assert_eq!(index.resident_dict_for_texture(5), None);
}

#[test]
fn each_index_error_has_its_input_and_its_words() {
    let good = encode_part(&sample(), Parts::textures(), 0);

    let mut magic = good.clone();
    magic[0] ^= 1;
    let mut version = good.clone();
    version[4..8].copy_from_slice(&7u32.to_le_bytes());
    let models = encode_part(&sample(), Parts::models(), 0);
    let mut padded = good.clone();
    padded.push(0);
    for bytes in [&magic, &version, &models, &padded, &good[..3].to_vec(), &good[..good.len() - 1].to_vec()] {
        let e: IndexError = match decode_part(bytes, Parts::textures()) {
            Err(e) => e,
            Ok(_) => panic!("should be refused"),
        };
        assert!(e.message().starts_with("index: "), "{}", e.message());
    }

    // A text that is not UTF-8: the last byte of the only inner path.
    let mut index = GameIndex { parts: Parts::textures(), ..Default::default() };
    index.ytd_by_name.insert(1, EntryLoc { top_archive: "a".to_string(), nested_rpfs: Vec::new(), inner_path: "b".to_string() });
    let mut bytes = encode_part(&index, Parts::textures(), 0);
    let at = bytes.iter().rposition(|b| *b == b'b').unwrap();
    bytes[at] = 0xFF;
    assert!(decode_part(&bytes, Parts::textures()).is_err());
}

#[test]
fn the_cache_serves_current_parts_and_names_the_rest() {
    let index = sample();
    let textures = encode_part(&index, Parts::textures(), 5);
    let models = encode_part(&index, Parts::models(), 6);
    let all = gather(Parts::all(), &vec![Some(textures), None, Some(models)], 5);
    assert_eq!(all.index.parts, Parts::textures());
    assert_eq!(all.index.ytd_by_name, index.ytd_by_name);
    assert_eq!(all.missing, Parts::interiors() | Parts::models());
    assert!(!matches!(all.why, Reason::FirstUse), "a stale part is more than a first use");

    let none = gather(Parts::textures(), &vec![None], 5);
    assert_eq!(none.missing, Parts::textures());
    assert!(matches!(none.why, Reason::FirstUse));
    assert!(!none.why.message().is_empty());
}

fn file(name: &str, content: Content) -> ArchiveFile {
    ArchiveFile { name: name.to_string(), path: name.to_lowercase(), content }
}

#[test]
fn an_archive_is_indexed_by_its_names_and_its_relationships() {
    let relationships = b"<CMapParentTxds><txdRelationships><item><parent>vehshare</parent><child>Car_A</child></item></txdRelationships></CMapParentTxds>".to_vec();
    let files = vec![
        file("Wall.ytd", Content::Unread),
        file("prop_x.ydr", Content::Unread),
        file("v_int.ybn", Content::Unread),
        file("inner.rpf", Content::Nested(vec![file("deep.ytd", Content::Unread)])),
        file("gtxd.meta", Content::Data(relationships)),
    ];
    let mut out = Partial::new();
    rage::index::scan::index_archive(&files, "C:/game/x64a.rpf", &Vec::new(), Parts::all(), &mut out);
    let index = GameIndex::build(out, Parts::all(), &Vec::new());
    assert_eq!(index.ytd_by_name[&rage_joaat("wall")].inner_path, "wall.ytd");
    assert_eq!(index.ytd_by_name[&rage_joaat("deep")].nested_rpfs, ["inner.rpf"]);
    assert!(index.drawable_by_name.contains_key(&rage_joaat("prop_x")));
    assert!(index.ybn_by_name.contains_key(&rage_joaat("v_int")));
    assert_eq!(index.parent_txds.get(&rage_joaat("car_a")), Some(&rage_joaat("vehshare")));
}

#[test]
fn only_what_the_parts_need_is_read() {
    assert!(matches!(wanted("x.rpf", Parts::textures()), Want::NestedArchive));
    assert!(matches!(wanted("x.ytyp", Parts::interiors()), Want::Bytes));
    assert!(matches!(wanted("x.ydr", Parts::all()), Want::Nothing));
    assert!(matches!(wanted("readme.txt", Parts::all()), Want::Nothing));
}

#[test]
fn the_single_parts_make_up_a_selection() {
    for bits in 0..8u8 {
        let p = Parts { bits };
        let singles = p.each();
        assert_eq!(singles.iter().fold(Parts::none(), |a, b| a | *b), p);
        assert_eq!(singles.is_empty(), p.is_empty());
        for x in [Parts::textures(), Parts::interiors(), Parts::models()] {
            assert_eq!(singles.contains(&x), p.contains(x));
        }
    }
    assert_eq!(Parts::all().each(), [Parts::textures(), Parts::interiors(), Parts::models()]);
}
