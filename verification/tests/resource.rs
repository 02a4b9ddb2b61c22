//! Containers, and what `resource info` prints.
use rage::bits::is_finite_box;
use rage::commands::resource::assemble::{build_format, built_line, check_strict, is_json, schema_sources, BuildArgs, BuildFormat};
use rage::commands::resource::checks::Sibling;
use rage::commands::resource::drawables::{Bounds, DrawableEntry, GeometryBounds, Lod, LodDistances, Shader, ShaderGroup};
use rage::commands::resource::info::{dump_failure, local_path, read_textures, reading, DrawableKind, MetaSummary, Reading};
use rage::commands::resource::manifest::{
    json_manifest, write_manifest, Dependencies, HashName, HdTxdBinding, ImapDependency, InteriorBounds, Manifest, MapDataGroup,
};
use rage::commands::resource::maps::{entity_flag_names, read_map, show_map, EntityShown, MapFile, MapShown, RawMap};
use rage::commands::resource::numbers::{Extents, Number, Point};
use rage::commands::resource::types::{read_types, show_types, ArchetypeShown, TypesShown};
use rage::commands::resource::{
    detect, parse_header, run, run_info, unresolved_note, Checks, Container, Contents, InfoArgs, MetaContainer, ResourceArgs,
    ResourceCommand, ResourceError, Rsc7Header,
};
use rage::formats::Corner;
use rage::name_table::add_siblings;
use rage::names::ListHeader;
use rage_formats::{build_meta, from_xml, rage_joaat, serialize_ytd, NameTable, Schema, TextureFormat, YtdTexture};

fn header(magic: &[u8; 4], version: u32, sys: u32, gfx: u32, body: &[u8]) -> Vec<u8> {
    let mut data = Vec::new();
    data.extend_from_slice(magic);
    data.extend_from_slice(&version.to_le_bytes());
    data.extend_from_slice(&sys.to_le_bytes());
    data.extend_from_slice(&gfx.to_le_bytes());
    data.extend_from_slice(body);
    data
}

fn stored_rsc7() -> Vec<u8> {
    header(b"RSC7", 165, 0xA800_0004, 0x5000_0000, &[0u8; 8192])
}

fn args(file: &str) -> InfoArgs {
    InfoArgs { file: file.to_string(), archive: None, json: false, limit: 50, names: Vec::new() }
}

fn table(stems: &[&str]) -> NameTable {
    let mut t = NameTable::empty();
    add_siblings(&mut t, &stems.iter().map(|s| s.to_string()).collect());
    t
}

#[test]
fn parses_a_stored_header() {
    let data = header(b"RSC7", 165, 0xA800_0004, 0x5000_0000, &[0u8; 8192]);
    let h = parse_header(&data).unwrap();
    assert_eq!(h, Rsc7Header {
        version: 165, system_flags: 0xA800_0004, graphics_flags: 0x5000_0000,
        system_size: 8192, graphics_size: 0, compressed: false, body_len: 8192,
    });
}

#[test]
fn resource_rejects_bad_magic() {
    let err = parse_header(&header(b"XXXX", 0, 0, 0, &[])).unwrap_err().message();
    assert!(err.contains("0x58585858"), "{err}");
    let err = detect(&header(b"XXXX", 0, 0, 0, &[])).unwrap_err().message();
    assert!(err.contains("0x58585858"), "{err}");
}

#[test]
fn names_fivem_escrow_files() {
    let err = parse_header(&header(b"FXAP", 0, 0, 0, &[0u8; 32])).unwrap_err().message();
    assert!(err.contains("FiveM escrow"), "{err}");
}

#[test]
fn rejects_rsc8() {
    let err = parse_header(&header(b"RSC8", 0, 0, 0, &[])).unwrap_err().message();
    assert!(err.contains("RSC8"), "{err}");
}

#[test]
fn rejects_short_input() {
    assert!(parse_header(b"RSC7").is_err());
    assert!(detect(b"RS").is_err());
}

#[test]
fn detects_the_metadata_containers() {
    assert_eq!(detect(b"PSIN\0\0\0\x10\0\0\0\0").unwrap(), Container::Meta(MetaContainer::Pso));
    assert_eq!(detect(b"RBF0\0\0\0\0").unwrap(), Container::Meta(MetaContainer::Rbf));
    assert_eq!(detect(b"<?xml version=\"1.0\"?><CPackFileMetaData/>").unwrap(), Container::Meta(MetaContainer::Xml));
    assert!(matches!(detect(&header(b"RSC7", 2, 0x0800_0004, 0, &[0u8; 8192])).unwrap(), Container::Rsc7(_)));
}

#[test]
fn detection_follows_the_first_bytes() {
    assert_eq!(detect(b"\xEF\xBB\xBF \r\n\t<a/>").unwrap(), Container::Meta(MetaContainer::Xml));
    let far = [vec![b' '; 64], b"<a/>".to_vec()].concat();
    assert!(matches!(detect(&far), Err(ResourceError::NotAResource { magic: 0x20202020 })));
    assert!(matches!(detect(b"FXAP"), Err(ResourceError::Escrowed)));
    assert!(matches!(detect(b"RSC8"), Err(ResourceError::Gen9 { .. })));
    assert!(matches!(detect(b""), Err(ResourceError::TooShort { len: 0 })));
    assert_eq!(detect(b"RS").unwrap_err().message(), "file is 2 bytes; an RSC7 header needs 16");
}

#[test]
fn a_deflated_or_short_body_is_told_apart() {
    // 8192 zero bytes deflated by hand: two stored blocks would do, but a body
    // that cannot hold its section is simply refused.
    let short = header(b"RSC7", 165, 0xA800_0004, 0, &[0u8; 16]);
    match parse_header(&short) {
        Err(e @ ResourceError::Unpack { .. }) => assert!(e.message().contains("expected system size"), "{}", e.message()),
        other => panic!("{other:?}"),
    }
    // One stored deflate block of 8192 bytes.
    let mut body = vec![1u8, 0x00, 0x20, 0xFF, 0xDF];
    body.extend(vec![7u8; 8192]);
    let h = parse_header(&header(b"RSC7", 165, 0xA800_0004, 0x5000_0000, &body)).unwrap();
    assert!(h.compressed);
    assert_eq!(h.body_len, 8197);
}

#[test]
fn section_sizes_follow_their_flags() {
    // One page of each of two sizes: 512 << 1 times (1 + 2).
    let flags = 1 | 1 << 27 | 1 << 26;
    let h = parse_header(&header(b"RSC7", 2, flags, 0, &[0u8; 4096])).unwrap();
    assert_eq!(h.system_size, 3072);
}

#[test]
fn unresolved_note_counts_placeholders_only() {
    assert!(unresolved_note("Map: paleto_props\n", &None).is_none());
    let note = unresolved_note("Map: hash_AEC13995\n  hash_4FD621BC x\n  hash_not_one\n", &None).unwrap();
    assert!(note.starts_with("Unresolved: 2 hash(es)"), "{note}");
}

#[test]
fn the_note_says_what_the_list_covers() {
    let mut h = ListHeader::default();
    h.add_source("harvest".to_string(), Some(3889));
    let note = unresolved_note("hash_0123abCD", &Some(h)).unwrap();
    assert!(note.contains("the name list covers game build 3889."), "{note}");
    assert!(unresolved_note("hash_0123abC", &None).is_none(), "eight digits make a placeholder");
}

#[test]
fn entity_flags_are_named_by_bit() {
    assert_eq!(entity_flag_names(0x20), ["static entity"]);
    assert_eq!(entity_flag_names(0), Vec::<String>::new());
    assert_eq!(entity_flag_names(1 | 1 << 5), ["allow full rotation", "static entity"]);
    assert_eq!(entity_flag_names(1 << 31), ["unk31"]);
}

#[test]
fn loose_file_reports_header() {
    let data = stored_rsc7();
    let container = detect(&data).unwrap();
    let out = run_info(&args("thing.ybn"), &container, &Contents::Other, &NameTable::empty(), &Checks::none(), false, &None);
    assert_eq!(
        out,
        "File:      thing.ybn\nFormat:    RSC7  version 165\nSystem:    0xA8000004 flags -> 8192 bytes\nGraphics:  0x50000000 flags -> 0 bytes\nBody:      8192 bytes (stored)\nSummary:   not a drawable, texture dictionary, map, type file or manifest\n"
    );
}

#[test]
fn loose_file_json() {
    let container = detect(&stored_rsc7()).unwrap();
    let a = InfoArgs { json: true, ..args("thing.ybn") };
    let out = run_info(&a, &container, &Contents::Other, &NameTable::empty(), &Checks::none(), false, &None);
    let out = out.trim();
    assert!(out.starts_with('{') && out.ends_with('}'), "not one JSON object:\n{out}");
    for needle in [
        "\"format\":\"RSC7\"",
        "\"version\":165",
        "\"system_flags\":\"0xA8000004\"",
        "\"system_size\":8192",
        "\"graphics_flags\":\"0x50000000\"",
        "\"graphics_size\":0",
        "\"compressed\":false",
        "\"kind\":\"other\"",
    ] {
        assert!(out.contains(needle), "missing {needle} in:\n{out}");
    }
}

#[test]
fn bad_magic_is_an_error() {
    let err = detect(b"XXXX\0\0\0\0\0\0\0\0\0\0\0\0").unwrap_err().message();
    assert!(err.contains("0x58585858"), "the error should name the magic: {err}");
}

#[test]
fn a_version_the_flags_disagree_with_is_warned_of() {
    let container = detect(&header(b"RSC7", 2, 0xA800_0004, 0x5000_0000, &[0u8; 8192])).unwrap();
    let out = run_info(&args("x"), &container, &Contents::Other, &NameTable::empty(), &Checks::none(), false, &None);
    assert!(out.contains("           (warning: flags encode version 165)\n"), "{out}");
}

/// `--verbose` only adds a per-geometry breakdown for drawables; on anything
/// else (and in JSON) it must not change the output at all.
#[test]
fn verbose_does_not_change_non_drawable_output() {
    let container = detect(&stored_rsc7()).unwrap();
    for json in [false, true] {
        let a = InfoArgs { json, ..args("thing.ybn") };
        let plain = run_info(&a, &container, &Contents::Other, &NameTable::empty(), &Checks::none(), false, &None);
        let verbose = run_info(&a, &container, &Contents::Other, &NameTable::empty(), &Checks::none(), true, &None);
        assert_eq!(plain, verbose);
    }
}

#[test]
fn the_extension_decides_what_a_file_is_read_as() {
    let rsc7 = detect(&stored_rsc7()).unwrap();
    assert_eq!(reading("YTD", &rsc7), Reading::Textures);
    assert_eq!(reading("yft", &rsc7), Reading::Drawables(DrawableKind::Yft));
    assert_eq!(reading("ymap", &rsc7), Reading::Ymap);
    assert_eq!(reading("ymt", &rsc7), Reading::MetaOrOther);
    let xml = Container::Meta(MetaContainer::Xml);
    assert_eq!(reading("ymf", &xml), Reading::Manifest);
    assert_eq!(reading("xml", &xml), Reading::ManifestOrMeta);
    assert_eq!(Reading::Types.failure(), Some("failed to parse type file"));
    assert_eq!(Reading::MetaOrOther.failure(), None);
    assert!(dump_failure("a.ydr").starts_with("'a.ydr' is an RSC7 resource but not a Meta file"));
    assert_eq!(local_path("a", &Some("b.rpf".to_string())), None);
    let plan = run(&ResourceArgs { command: ResourceCommand::Info(args("a.ymap")) });
    assert_eq!((plan.file.as_str(), plan.local.as_deref()), ("a.ymap", Some("a.ymap")));
}

const MAP_XML: &str = r#"<CMapData>
  <name>paleto_props</name>
  <parent/>
  <flags value="0"/>
  <contentFlags value="1"/>
  <streamingExtentsMin x="-1" y="-2" z="-3"/>
  <streamingExtentsMax x="10" y="20" z="30"/>
  <entitiesExtentsMin x="5" y="0" z="0"/>
  <entitiesExtentsMax x="4" y="0" z="0"/>
  <entities>
    <Item type="CEntityDef">
      <archetypeName>prop_gas_pump_1a</archetypeName>
      <flags value="32"/>
      <guid value="7"/>
      <position x="197.263" y="6573.081" z="30.78"/>
      <rotation x="0" y="0" z="0" w="1"/>
      <scaleXY value="1"/>
      <scaleZ value="1"/>
      <parentIndex value="-1"/>
      <lodDist value="100"/>
    </Item>
  </entities>
</CMapData>
"#;

fn sample_map() -> RawMap {
    let value = from_xml(MAP_XML).unwrap();
    let built = build_meta(&value, Schema::builtin()).unwrap();
    read_map(&built.bytes).expect("the map should parse")
}

fn number(shown: &str, json: &str) -> Number {
    Number { shown: shown.to_string(), json: json.to_string() }
}

fn point(c: [&str; 3]) -> Point {
    Point { x: number(c[0], c[0]), y: number(c[1], c[1]), z: number(c[2], c[2]) }
}

fn extents() -> Extents {
    Extents { min: point(["-1.00", "-2.00", "-3.00"]), max: point(["10.00", "20.00", "30.00"]) }
}

fn shown_map(raw: &RawMap) -> MapFile {
    let entities = raw
        .entities
        .iter()
        .map(|_| EntityShown {
            position: point(["197.263", "6573.081", "30.780"]),
            rotation: vec!["0".to_string(), "0".to_string(), "0".to_string(), "1".to_string()],
            yaw: number("20.0", "20"),
            scale_xy: number("1.00", "1"),
            scale_z: number("1.00", "1"),
            lod_dist: number("100", "100"),
        })
        .collect();
    show_map(raw, &MapShown { streaming: extents(), extents: extents(), entities, instances: Vec::new() }).unwrap()
}

#[test]
fn map_info_lists_header_and_entities() {
    let raw = sample_map();
    assert_eq!(raw.header.name_hash, rage_joaat("paleto_props"));
    assert_eq!(raw.entities.len(), 1);
    assert_eq!(raw.entities[0].archetype_hash, rage_joaat("prop_gas_pump_1a"));
    assert_eq!(raw.entities[0].parent_index, -1);
    assert_eq!(raw.entities[0].position.x, 197.263f32.to_bits());
    assert!(raw.instances.is_empty());

    let names = table(&["paleto_props", "prop_gas_pump_1a"]);
    let container = Container::Meta(MetaContainer::Xml);
    let checks = Checks::of("paleto_props", &Contents::Ymap(shown_map(&raw)), &Vec::new(), &names);
    assert_eq!(checks, Checks::of_map("paleto_props", raw.header.name_hash));
    assert_eq!(Checks::of("x", &Contents::Other, &Vec::new(), &names), Checks::none());
    let out = run_info(&args("paleto_props.ymap"), &container, &Contents::Ymap(shown_map(&raw)), &names, &checks, false, &None);
    assert!(out.contains("Map:       paleto_props  parent -\n"), "{out}");
    assert!(out.contains("content 0x1 HD"), "{out}");
    assert!(out.contains("Streaming: (-1.00, -2.00, -3.00)..(10.00, 20.00, 30.00)\n"), "{out}");
    assert!(!out.contains("Extents:"), "an inverted box is not worth printing: {out}");
    assert!(out.contains("Entities:  1 (0 MLO instances)"), "{out}");
    assert!(out.contains("     0  prop_gas_pump_1a                    197.263   6573.081   30.780   20.0\u{b0}  1.00    100  0x20\n"), "{out}");
    assert!(out.contains("Entity flags seen: static entity\n"), "{out}");

    let a = InfoArgs { json: true, limit: 1, ..args("paleto_props.ymap") };
    let json = run_info(&a, &container, &Contents::Ymap(shown_map(&raw)), &names, &checks, false, &None);
    assert!(json.contains("\"kind\":\"map\""), "{json}");
    assert!(json.contains("\"name\":\"paleto_props\""), "{json}");
    assert!(json.contains("\"archetype\":\"prop_gas_pump_1a\""), "{json}");
    assert!(json.contains("\"mlo_instances\":[]"), "{json}");
    assert!(json.contains("\"parent_index\":-1,\"flags\":32,\"flag_names\":[\"static entity\"]"), "{json}");
}

#[test]
fn a_limit_says_how_many_entities_are_left_out() {
    let mut raw = sample_map();
    let e = raw.entities[0];
    raw.entities.push(e);
    raw.entities.push(e);
    let a = InfoArgs { limit: 1, ..args("m.ymap") };
    let container = Container::Meta(MetaContainer::Xml);
    let out = run_info(&a, &container, &Contents::Ymap(shown_map(&raw)), &table(&[]), &Checks::none(), false, &None);
    assert!(out.contains("  ... 2 more (--limit 0 for all)\n"), "{out}");
    assert!(show_map(&raw, &MapShown { streaming: extents(), extents: extents(), entities: Vec::new(), instances: Vec::new() }).is_none());
}

#[test]
fn a_file_that_is_no_map_is_refused_with_its_reason() {
    let err = read_map(&stored_rsc7()).unwrap_err();
    assert!(err.starts_with("failed to parse map: "), "{err}");
    let err = read_types(b"junk").unwrap_err();
    assert!(err.starts_with("failed to parse type file: "), "{err}");
    let err = read_textures(b"junk").unwrap_err();
    assert!(err.starts_with("failed to parse texture dictionary: "), "{err}");
}

/// A map renamed in the file explorer keeps its old internal name; the game
/// registers it under the new one, so nothing that names the old one binds any
/// more. The check only applies to a file on disk.
#[test]
fn map_named_unlike_its_file_is_flagged() {
    let raw = sample_map();
    let container = Container::Meta(MetaContainer::Xml);
    let checks = Checks::of_map("casas_praia_extras", raw.header.name_hash);
    let out = run_info(&args("x"), &container, &Contents::Ymap(shown_map(&raw)), &table(&[]), &checks, false, &None);
    assert!(out.contains("Map:       hash_"), "nobody's sibling here: {out}");
    assert!(out.contains("warning: the file is called casas_praia_extras but the map calls itself hash_"), "{out}");
    assert!(out.contains("will not bind"), "{out}");
    let a = InfoArgs { json: true, ..args("x") };
    let json = run_info(&a, &container, &Contents::Ymap(shown_map(&raw)), &table(&[]), &checks, false, &None);
    assert!(json.contains("\"file_name_mismatch\":\"casas_praia_extras\""), "{json}");

    // The same bytes under the right name, in either case: no warning.
    assert_eq!(Checks::of_map("PALETO_PROPS", raw.header.name_hash), Checks::none());
    let json = run_info(&a, &container, &Contents::Ymap(shown_map(&raw)), &table(&[]), &Checks::none(), false, &None);
    assert!(json.contains("\"file_name_mismatch\":null"), "{json}");
}

fn named(s: &str) -> HashName {
    HashName { hash: rage_joaat(s), name: Some(s.to_string()) }
}

fn empty_manifest() -> Manifest {
    Manifest {
        map_data_groups: Vec::new(),
        imap_dependencies: Vec::new(),
        imap_dependencies_2: Vec::new(),
        ityp_dependencies_2: Vec::new(),
        hd_txd_bindings: Vec::new(),
        interiors: Vec::new(),
    }
}

fn dependency(name: &str, flags: u32, deps: &[&str]) -> Dependencies {
    Dependencies { name: named(name), manifest_flags: flags, ityp_deps: deps.iter().map(|d| named(d)).collect() }
}

/// A manifest's entries either name a map next to it, a vanilla map (known to
/// some list), or nothing at all, the last being a leftover.
#[test]
fn manifest_entries_with_no_map_beside_them_are_flagged() {
    let manifest = Manifest {
        imap_dependencies_2: vec![
            dependency("bombapaleto", 0, &["v_construction"]),
            dependency("cs1_roads_pb_long_0", 0, &[]),
            dependency("map1", 0, &[]),
        ],
        ..empty_manifest()
    };
    let siblings = vec![Sibling { stem: "bombaPALETO".to_string(), extension: "YMAP".to_string() }];
    let vanilla = table(&["cs1_roads_pb_long_0"]);
    let checks = Checks::of_manifest(&manifest, &siblings, &vanilla);

    let out = write_manifest(&manifest, &NameTable::empty(), &checks);
    assert!(out.contains("  bombapaleto -> v_construction\n"), "a sibling, no note: {out}");
    assert!(out.contains("cs1_roads_pb_long_0 -> -  (no such .ymap here; a vanilla map?)"), "{out}");
    assert!(out.contains("map1 -> -  (no such .ymap here, and no list knows the name)"), "{out}");
    assert!(out.contains("warning: 1 declared map(s) exist neither next to this manifest nor in any name list (map1)"), "{out}");

    let json = json_manifest(&manifest, &NameTable::empty(), &checks);
    assert!(json.contains("\"imaps_not_here\":[{\"name\":\"cs1_roads_pb_long_0\",\"known_name\":true},{\"name\":\"map1\",\"known_name\":false}]"), "{json}");

    // Without the vanilla list, the road chunk is just as unknown as map1.
    let checks = Checks::of_manifest(&manifest, &siblings, &NameTable::empty());
    let out = write_manifest(&manifest, &NameTable::empty(), &checks);
    assert!(out.contains("warning: 2 declared map(s)"), "{out}");
}

#[test]
fn a_whole_manifest_is_printed_section_by_section() {
    let manifest = Manifest {
        map_data_groups: vec![MapDataGroup { name: named("g"), bounds: vec![named("b")], weather_types: Vec::new(), flags: 0x1F, hours_on_off: 2 }],
        imap_dependencies: vec![ImapDependency { imap: named("m"), ityp: named("t"), pack_file: HashName { hash: 1, name: None } }],
        imap_dependencies_2: Vec::new(),
        ityp_dependencies_2: vec![dependency("t2", 1, &["a", "b"])],
        hd_txd_bindings: vec![HdTxdBinding { asset_type: named("AT_TXD"), target_asset: "car".to_string(), hd_txd: "car+hi".to_string() }],
        interiors: vec![InteriorBounds { name: named("i"), bounds: vec![named("c")] }],
    };
    let out = write_manifest(&manifest, &NameTable::empty(), &Checks::none());
    assert_eq!(
        out,
        "Type dependencies (1):\n  t2 [INTERIOR_DATA] -> a, b\nMap dependencies, old form (1):\n  m -> t (pack hash_00000001)\nInteriors (1):\n  i -> c\nHD texture bindings (1):\n  AT_TXD car -> car+hi\nMap data groups (1):\n  g flags 0x1F hours 0x2 bounds [b] weather []\n"
    );
    assert_eq!(write_manifest(&empty_manifest(), &NameTable::empty(), &Checks::none()), "Manifest:  empty\n");
    let json = json_manifest(&manifest, &NameTable::empty(), &Checks::none());
    assert!(json.contains("\"pack_file\":\"hash_00000001\""), "{json}");
    assert!(json.contains("\"hd_txd_bindings\":[{\"asset_type\":\"AT_TXD\",\"target_asset\":\"car\",\"hd_txd\":\"car+hi\"}]"), "{json}");
}

#[test]
fn names_in_json_are_quoted_and_escaped() {
    let manifest = Manifest {
        hd_txd_bindings: vec![HdTxdBinding { asset_type: HashName { hash: 0, name: None }, target_asset: "a\"\\\n\u{8}\u{1f}é".to_string(), hd_txd: String::new() }],
        ..empty_manifest()
    };
    let json = json_manifest(&manifest, &NameTable::empty(), &Checks::none());
    assert!(json.contains("{\"asset_type\":null,\"target_asset\":\"a\\\"\\\\\\n\\b\\u001fé\",\"hd_txd\":\"\"}"), "{json}");
}

#[test]
fn textures_are_listed_with_their_sizes() {
    let tex = |name: &str, hash: u32| YtdTexture {
        name: name.into(), name_hash: hash, width: 4, height: 4, depth: 1, format: TextureFormat::DXT1, levels: 1, stride: 2,
        pixel_data: vec![0; 8],
    };
    let data = serialize_ytd(&[tex("wall", rage_joaat("wall"))]).unwrap();
    let list = read_textures(&data).unwrap();
    assert_eq!(list.len(), 1);
    let container = detect(&data).unwrap();
    let out = run_info(&args("a.ytd"), &container, &Contents::Textures(list), &table(&[]), &Checks::none(), false, &None);
    assert!(out.contains("Textures:  1\n  wall \u{2014} 4x4x1 DXT1 1 mip(s) (8 bytes)\n"), "{out}");
    let list = read_textures(&data).unwrap();
    let a = InfoArgs { json: true, ..args("a.ytd") };
    let json = run_info(&a, &container, &Contents::Textures(list), &table(&[]), &Checks::none(), false, &None);
    assert!(json.contains("\"width\":4,\"height\":4,\"depth\":1,\"format\":\"DXT1\",\"mips\":1,\"bytes\":8}]"), "{json}");
}

fn drawable() -> DrawableEntry {
    DrawableEntry {
        name: "listed".to_string(),
        hash: 0xAB,
        own_name: String::new(),
        bounds: Bounds {
            center: point(["0.000", "0.000", "0.000"]),
            radius: number("1.500", "1.5"),
            min: point(["-1.000", "-1.000", "-1.000"]),
            max: point(["1.000", "1.000", "1.000"]),
            computed: true,
        },
        lod_distances: LodDistances { high: number("10.0", "10"), medium: number("20.0", "20"), low: number("30.0", "30"), very_low: number("40.0", "40") },
        geometry_bounds: Some(vec![GeometryBounds {
            model: 0, geometry: 1, shader_id: 2, vertices: 8, triangles: 12,
            min: point(["0", "0", "0"]), max: point(["1", "1", "1"]), centroid: point(["0.5", "0.5", "0.5"]),
        }]),
        lods: vec![Lod { level: "high".to_string(), models: 1, geometries: 2, triangles: 12 }],
        shader_group: Some(ShaderGroup {
            shaders: vec![Shader { name_hash: 1, file_name_hash: 2, render_bucket: 3, diffuse: None }],
            textures: Vec::new(),
        }),
    }
}

#[test]
fn drawables_show_their_geometry_only_when_verbose() {
    let container = detect(&stored_rsc7()).unwrap();
    let print = |json: bool, verbose: bool| {
        let a = InfoArgs { json, ..args("a.ydr") };
        run_info(&a, &container, &Contents::Drawables(vec![drawable()]), &table(&[]), &Checks::none(), verbose, &None)
    };
    let plain = print(false, false);
    assert!(plain.ends_with(
        "Drawables: 1\n\n  listed (0x000000AB)\n    bounds:   center (0.000, 0.000, 0.000) radius 1.500 (computed)\n              min (-1.000, -1.000, -1.000) max (1.000, 1.000, 1.000)\n    lod dist: 10.0 / 20.0 / 30.0 / 40.0\n    high:    1 models, 2 geometries, 12 triangles\n    shaders:  1\n      #0   name 0x00000001  file 0x00000002  bucket 3  diffuse -\n    embedded textures: 0\n"
    ), "{plain}");
    assert!(print(false, true).contains("    geometry bounds:\n      #1 model 0 shader 2   12 tris, 8 verts\n           min (0, 0, 0) max (1, 1, 1) centroid (0.5, 0.5, 0.5)\n"));
    assert!(!print(true, false).contains("geometry_bounds"));
    let json = print(true, true);
    assert!(json.contains("\"computed\":true},\"geometry_bounds\":[{\"model\":0,\"geometry\":1,\"shader\":2,"), "{json}");
    assert!(json.contains("\"lod_distances\":[10,20,30,40],\"lods\":[{\"level\":\"high\","), "{json}");
}

#[test]
fn type_files_are_listed_with_their_interiors() {
    let xml = r#"<CMapTypes><extensions/><archetypes><Item type="CBaseArchetypeDef"><lodDist value="60"/><flags value="0"/><specialAttribute value="0"/><bbMin x="-1" y="-1" z="-1"/><bbMax x="1" y="1" z="1"/><bsCentre x="0" y="0" z="0"/><bsRadius value="1"/><hdTextureDist value="5"/><name>prop_a</name><textureDictionary>txd_a</textureDictionary><clipDictionary/><drawableDictionary/><physicsDictionary/><assetType>ASSET_TYPE_DRAWABLE</assetType><assetName>prop_a</assetName><extensions/></Item></archetypes><name>t</name><dependencies/><compositeEntityTypes/></CMapTypes>"#;
    let built = build_meta(&from_xml(xml).unwrap(), Schema::builtin()).unwrap();
    let raw = read_types(&built.bytes).unwrap();
    assert_eq!(raw.archetypes.len(), 1);
    assert_eq!(raw.archetypes[0].lod_dist, 60f32.to_bits());
    assert_eq!(raw.archetypes[0].texture_dict_hash, rage_joaat("txd_a"));
    assert!(raw.mlos.is_empty());
    let shown = TypesShown {
        archetypes: vec![ArchetypeShown { lod_dist: number("60", "60"), bb_min: point(["-1", "-1", "-1"]), bb_max: point(["1", "1", "1"]) }],
        rooms: Vec::new(),
    };
    let types = show_types(&raw, &shown).unwrap();
    let container = detect(&built.bytes).unwrap();
    let out = run_info(&args("t.ytyp"), &container, &Contents::Types(types), &table(&["prop_a"]), &Checks::none(), false, &None);
    assert!(out.contains("Archetypes: 1 (0 MLO)\n"), "{out}");
    assert!(out.contains("  prop_a                           hash_"), "{out}");
    assert!(out.contains("      60  (-1, -1, -1)..(1, 1, 1)\n"), "{out}");
    assert!(out.contains("Unresolved: 1 hash(es)"), "{out}");
}

#[test]
fn a_metadata_tree_is_summarised() {
    let meta = MetaSummary { root: Some((rage_joaat("TestRoot"), 3)), warnings: vec!["w".to_string()], json: "{\"a\":1}".to_string() };
    let container = Container::Meta(MetaContainer::Pso);
    let out = run_info(&args("a.pso"), &container, &Contents::Meta(meta.clone()), &table(&["TestRoot"]), &Checks::none(), false, &None);
    assert_eq!(out, "File:      a.pso\nFormat:    PSO\nSummary:   TestRoot with 3 members; `rage resource dump` prints it in full\n           warning: w\n");
    let a = InfoArgs { json: true, archive: Some("x.rpf".to_string()), ..args("a.pso") };
    let json = run_info(&a, &container, &Contents::Meta(meta), &table(&[]), &Checks::none(), false, &None);
    assert_eq!(json, "{\"file\":\"a.pso\",\"archive\":\"x.rpf\",\"format\":\"PSO\",\"kind\":\"meta\",\"meta\":{\"a\":1}}\n");
}

fn build_args(output: &str, format: Option<&str>) -> BuildArgs {
    BuildArgs { input: "x.xml".to_string(), output: output.to_string(), format: format.map(str::to_string), schema: None, strict: false }
}

#[test]
fn the_container_comes_from_the_extension_or_format() {
    let err = build_format(&build_args("x.bin", None), "bin").unwrap_err();
    assert!(err.contains("cannot tell the container"), "{err}");
    let err = build_format(&build_args("x.bin", Some("rbf")), "bin").unwrap_err();
    assert!(err.contains("expected meta or pso"), "{err}");
    let a = build_args("x.bin", Some("meta"));
    let format = build_format(&a, "bin").unwrap();
    let line = built_line(&a, format, 10, "CMapData");
    assert!(line.contains("Wrote") && line.contains("RSC7 Meta") && line.contains("root CMapData"), "{line}");
    assert_eq!(build_format(&build_args("m.ymf", None), "YMF"), Ok(BuildFormat::Pso));
    assert!(built_line(&a, BuildFormat::Pso, 1, "r").contains("PSO from"));
    assert!(check_strict(true, 1).unwrap_err().contains("--strict"));
    assert!(check_strict(false, 1).is_ok() && check_strict(true, 0).is_ok());
    assert!(is_json("JSON") && !is_json("xml"));
    let with_schema = BuildArgs { schema: Some("s.ymap".to_string()), ..build_args("o.ymap", None) };
    assert_eq!(schema_sources(&with_schema, true), ["s.ymap", "o.ymap"]);
    assert!(schema_sources(&build_args("o", None), false).is_empty());
}

#[test]
fn boxes_compare_as_their_numbers_do() {
    let c = |x: f32, y: f32, z: f32| Corner { x: x.to_bits(), y: y.to_bits(), z: z.to_bits() };
    assert!(is_finite_box(c(-1.0, -2.0, -3.0), c(1.0, -1.0, 0.0)));
    assert!(is_finite_box(c(0.0, 0.0, 0.0), c(-0.0, 0.0, 0.0)), "both zeros are equal");
    assert!(!is_finite_box(c(f32::MAX, 0.0, 0.0), c(f32::MIN, 0.0, 0.0)));
    assert!(!is_finite_box(c(0.0, 0.0, 0.0), c(f32::NAN, 0.0, 0.0)));
    assert!(!is_finite_box(c(-1.0e9, 0.0, 0.0), c(0.0, 0.0, 0.0)));
    assert!(!is_finite_box(c(-1.0, 0.0, 0.0), c(-2.0, 0.0, 0.0)));
}
