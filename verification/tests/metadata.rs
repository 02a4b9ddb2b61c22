//! Metadata trees: manifests, dumps and what is refused.
use rage::commands::resource::info::{read_dump, read_tree, run_dump, DumpArgs, Reading};
use rage::commands::resource::assemble::{schema_sources, BuildArgs};
use rage::commands::resource::manifest::write_manifest;
use rage::commands::resource::maps::read_map;
use rage::commands::resource::{detect, parse_header, run_info, Checks, Container, Contents, InfoArgs, MetaContainer};
use rage::metadata::{NOT_SOUND, NO_JSON};
use rage::name_table::add_siblings;
use rage::nesting::MAX_NESTING;
use rage::rpf::Archive;
use rage_formats::{build_meta, build_pso, build_rsc7, from_json, from_xml, rage_joaat, MetaValue, NameTable, Schema};
use rpf_archive::{RpfBuilder, RpfEncryption};

fn names(list: &[&str]) -> NameTable {
    let mut t = NameTable::empty();
    add_siblings(&mut t, &list.iter().map(|s| s.to_string()).collect());
    t
}

fn dump(file: &str, data: &[u8], json: bool, names: &NameTable) -> Result<String, String> {
    let container = detect(data).map_err(|e| e.message())?;
    let dump = read_dump(file, &container, data)?;
    run_dump(&DumpArgs { file: file.to_string(), archive: None, json, output: None, names: Vec::new() }, &dump, names)
}

fn word(out: &mut Vec<u8>, n: u32) {
    out.extend(n.to_be_bytes());
}

fn section(ident: &[u8; 4], body: &[u8]) -> Vec<u8> {
    let mut out = ident.to_vec();
    word(&mut out, body.len() as u32 + 8);
    out.extend(body);
    out
}

/// A root with a hash, flags of two bytes and two children behind pointers,
/// each with a text, a number and a member of an enumeration.
fn pso() -> Vec<u8> {
    let mut data = vec![0u8; 96];
    data[0..4].copy_from_slice(&rage_joaat("map1").to_be_bytes());
    data[4..6].copy_from_slice(&5u16.to_be_bytes());
    data[8..12].copy_from_slice(&4u32.to_be_bytes());
    data[16..18].copy_from_slice(&2u16.to_be_bytes());
    data[18..20].copy_from_slice(&2u16.to_be_bytes());
    data[32..38].copy_from_slice(b"first\0");
    data[40..44].copy_from_slice(&1.5f32.to_bits().to_be_bytes());
    data[44] = 2;
    data[56..63].copy_from_slice(b"second\0");
    data[64..68].copy_from_slice(&2.5f32.to_bits().to_be_bytes());
    data[68] = 1;
    data[80..84].copy_from_slice(&2u32.to_be_bytes());
    data[88..92].copy_from_slice(&3u32.to_be_bytes());

    let mut map = Vec::new();
    word(&mut map, 1);
    map.extend([0, 4, 0x70, 0x70]);
    for (name, offset, len) in [(rage_joaat("TestRoot"), 8, 32), (rage_joaat("TestChild"), 40, 24), (rage_joaat("TestChild"), 64, 24), (7, 88, 16)] {
        for n in [name, offset, 0, len] {
            word(&mut map, n);
        }
    }

    let members = |list: &[(u32, u8, u8, u16, u32)], size: u32| {
        let mut out = Vec::new();
        for n in [list.len() as u32, size, 0] {
            word(&mut out, n);
        }
        for (name, kind, sub, offset, key) in list {
            word(&mut out, *name);
            out.extend([*kind, *sub]);
            out.extend(offset.to_be_bytes());
            word(&mut out, *key);
        }
        out
    };
    let values = |list: &[(&str, u32)]| {
        let mut out = Vec::new();
        word(&mut out, 1 << 24 | list.len() as u32);
        for (name, value) in list {
            word(&mut out, rage_joaat(name));
            word(&mut out, *value);
        }
        out
    };
    let bodies = [
        ("TestRoot", members(&[
            (rage_joaat("name"), 0x0b, 7, 0, 0),
            (0x100, 0x0e, 0, 0, rage_joaat("TestFlags")),
            (rage_joaat("flags"), 0x0f, 1, 4, 1),
            (0x100, 0x0c, 3, 0, rage_joaat("TestChild")),
            (rage_joaat("children"), 0x0d, 0, 8, 3),
        ], 32)),
        ("TestChild", members(&[
            (rage_joaat("label"), 0x0b, 0, 0, 8 << 16),
            (rage_joaat("weight"), 0x07, 0, 8, 0),
            (rage_joaat("kind"), 0x0e, 2, 12, rage_joaat("TestKind")),
        ], 24)),
        ("TestFlags", values(&[("FLAG_A", 0), ("FLAG_B", 1), ("FLAG_C", 2)])),
        ("TestKind", values(&[("KIND_ONE", 1), ("KIND_TWO", 2)])),
    ];
    let mut schema = Vec::new();
    word(&mut schema, bodies.len() as u32);
    let mut offset = 12 + 8 * bodies.len() as u32;
    for (name, body) in &bodies {
        word(&mut schema, rage_joaat(name));
        word(&mut schema, offset);
        offset += body.len() as u32;
    }
    for (_, body) in &bodies {
        schema.extend(body);
    }
    [section(b"PSIN", &data), section(b"PMAP", &map), section(b"PSCH", &schema)].concat()
}

const MANIFEST: &str = "<?xml version=\"1.0\"?><CPackFileMetaData><MapDataGroups/><HDTxdBindingArray/><imapDependencies/><imapDependencies_2><Item><imapName>bombapaleto</imapName><manifestFlags/><itypDepArray><Item>v_construction</Item></itypDepArray></Item></imapDependencies_2><itypDependencies_2/><Interiors/></CPackFileMetaData>";

#[test]
fn xml_manifest_info_and_pso_dump() {
    let info = |file: &str, data: &[u8], reading: Reading| {
        let container = detect(data).unwrap();
        let contents = read_tree(data, reading, &NameTable::core(), false).unwrap();
        let args = InfoArgs { file: file.to_string(), archive: None, json: false, limit: 50, names: Vec::new() };
        run_info(&args, &container, &contents, &NameTable::core(), &Checks::none(), false, &None)
    };
    let out = info("_manifest.ymf", MANIFEST.as_bytes(), Reading::Manifest);
    assert!(out.contains("Format:    XML"), "{out}");
    assert!(out.contains("bombapaleto -> v_construction"), "{out}");

    let out = info("thing.pso", &pso(), Reading::ManifestOrMeta);
    assert!(out.contains("Format:    PSO"), "{out}");
    assert!(out.contains("hash_"), "the structure names are not in the built-in list: {out}");

    let known = names(&[
        "TestRoot", "TestChild", "TestFlags", "FLAG_A", "FLAG_B", "FLAG_C", "KIND_ONE", "name", "flags", "children", "label", "weight", "kind",
    ]);
    let xml = dump("thing.pso", &pso(), false, &known).unwrap();
    assert!(xml.starts_with("<?xml"), "{xml}");
    assert!(xml.contains("<TestRoot>"), "{xml}");
    assert!(xml.contains("<Item type=\"TestChild\">"), "{xml}");
    assert!(xml.contains("<flags>FLAG_A, FLAG_C</flags>"), "{xml}");
    assert!(xml.contains("<kind>KIND_ONE</kind>"), "{xml}");
    let json = dump("thing.pso", &pso(), true, &known).unwrap();
    assert!(json.trim_start().starts_with('{') && json.ends_with("}\n"), "{json}");
    assert!(json.contains("\"$type\""), "{json}");
}

#[test]
fn meta_dump_of_a_ymap_names_every_member() {
    // A resource without a schema has nothing to walk; the error says so.
    let data = build_rsc7(2, &[0u8; 0x100], &[]);
    let err = dump("m.ymap", &data, false, &NameTable::empty()).unwrap_err();
    assert!(err.starts_with("'m.ymap' is an RSC7 resource but not a Meta file") && err.contains(": "), "{err}");
    assert!(matches!(read_tree(&data, Reading::MetaOrOther, &NameTable::empty(), false), Ok(Contents::Other)));

    // One that carries its schema names every member.
    let map = rage_formats::from_xml("<CMapData><name>m</name><flags value=\"3\"/></CMapData>").unwrap();
    let built = rage_formats::build_meta(&map, rage_formats::Schema::builtin()).unwrap();
    let xml = dump("m.ymap", &built.bytes, false, &NameTable::core()).unwrap();
    assert!(xml.contains("<CMapData>") && xml.contains("<flags value=\"3\"/>"), "{xml}");
    match read_tree(&built.bytes, Reading::MetaOrOther, &NameTable::core(), true).unwrap() {
        Contents::Meta(m) => {
            assert_eq!(m.root.map(|r| r.0), Some(rage_joaat("CMapData")));
            assert!(m.json.starts_with("{\"$type\":\"CMapData\""), "{}", m.json);
        }
        other => panic!("{other:?}"),
    }
}

#[test]
fn a_tree_is_a_manifest_if_it_says_so() {
    let known = NameTable::core();
    match read_tree(MANIFEST.as_bytes(), Reading::ManifestOrMeta, &known, false).unwrap() {
        Contents::Manifest(m) => {
            assert_eq!(m.imap_dependencies_2[0].name.name.as_deref(), Some("bombapaleto"));
            assert!(write_manifest(&m, &known, &Checks::none()).contains("bombapaleto"));
        }
        other => panic!("{other:?}"),
    }
    match read_tree(b"<CFoo><a value='1'/><b>x</b></CFoo>", Reading::ManifestOrMeta, &known, false).unwrap() {
        Contents::Meta(m) => assert_eq!((m.root, m.json.as_str()), (Some((rage_joaat("CFoo"), 2)), "")),
        other => panic!("{other:?}"),
    }
    let err = read_tree(b"<CFoo><a value='1'/></CFoo>", Reading::Manifest, &known, false).unwrap_err();
    assert!(err.starts_with("failed to parse manifest: manifest root is not CPackFileMetaData"), "{err}");
    let err = read_tree(b"<CFoo>", Reading::Manifest, &known, false).unwrap_err();
    assert!(err.starts_with("failed to parse manifest: malformed XML"), "{err}");
    let full = "<CPackFileMetaData><MapDataGroups><Item><Name>g</Name><Bounds><Item>b</Item></Bounds><WeatherTypes><Item>w</Item></WeatherTypes><Flags value='4'/><HoursOnOff value='5'/></Item></MapDataGroups><HDTxdBindingArray><Item><assetType>AT_TXD</assetType><targetAsset>t</targetAsset><HDTxd>t+hi</HDTxd></Item></HDTxdBindingArray><imapDependencies><Item><imapName>i</imapName><itypName>j</itypName><packFileName>k</packFileName></Item></imapDependencies><itypDependencies_2><Item><itypName>l</itypName><manifestFlags value='1'/><itypDepArray><Item>m</Item></itypDepArray></Item></itypDependencies_2><Interiors><Item><Name>n</Name><Bounds><Item>o</Item></Bounds></Item></Interiors></CPackFileMetaData>";
    match read_tree(full.as_bytes(), Reading::Manifest, &known, false).unwrap() {
        Contents::Manifest(m) => {
            let g = &m.map_data_groups[0];
            assert_eq!((g.flags, g.hours_on_off, g.bounds[0].hash, g.weather_types[0].hash), (4, 5, rage_joaat("b"), rage_joaat("w")));
            assert_eq!(m.imap_dependencies[0].pack_file.hash, rage_joaat("k"));
            assert_eq!((m.ityp_dependencies_2[0].manifest_flags, m.ityp_dependencies_2[0].ityp_deps[0].hash), (1, rage_joaat("m")));
            assert_eq!((m.hd_txd_bindings[0].target_asset.as_str(), m.hd_txd_bindings[0].hd_txd.as_str()), ("t", "t+hi"));
            assert_eq!(m.interiors[0].bounds[0].hash, rage_joaat("o"));
        }
        other => panic!("{other:?}"),
    }
}

#[test]
fn what_cannot_be_read_or_written_is_refused() {
    let known = NameTable::empty();
    // The least number of its size has no counterpart in JSON.
    for least in ["-2147483648", "-9223372036854775808"] {
        let data = format!("<CFoo><a value='1'/><l><Item><b value='{least}'/><c>x</c></Item></l></CFoo>").into_bytes();
        assert_eq!(dump("a.xml", &data, true, &known).unwrap_err(), NO_JSON);
        assert!(dump("a.xml", &data, false, &known).unwrap().contains(least));
        assert_eq!(read_tree(&data, Reading::ManifestOrMeta, &known, true).unwrap_err(), NO_JSON);
        assert!(read_tree(&data, Reading::ManifestOrMeta, &known, false).is_ok());
    }
    assert!(dump("a.xml", b"<CFoo><a value='-2147483647'/><b/></CFoo>", true, &known).unwrap().contains("-2147483647"));

    // A schema that is cut off in the size of a structure.
    let whole = pso();
    assert!(dump("a.pso", &whole, false, &known).is_ok());
    let mut cut = whole.clone();
    let schema = cut.windows(4).position(|w| w == b"PSCH").unwrap();
    let len = (cut.len() - schema) as u32;
    cut[schema + 16..schema + 20].copy_from_slice(&len.to_be_bytes());
    cut.extend([0, 0, 0, 1]);
    cut[schema + 4..schema + 8].copy_from_slice(&(len + 4).to_be_bytes());
    assert_eq!(dump("a.pso", &cut, false, &known).unwrap_err(), NOT_SOUND);

    // Documents that nest too deep.
    let nested = |n: usize| format!("{}<b value='1'/><c/>{}", "<a>".repeat(n), "</a>".repeat(n)).into_bytes();
    assert!(dump("a.xml", &nested(MAX_NESTING - 1), false, &known).is_ok());
    assert!(dump("a.xml", &nested(MAX_NESTING - 1), true, &known).is_ok());
    assert_eq!(dump("a.xml", &nested(100_000), false, &known).unwrap_err(), NOT_SOUND);
    let rbf = |n: usize| {
        let mut out = b"RBF0".to_vec();
        out.extend([0, 0, 1, 0, b'x', 0, 0, 0, 0, 0, 0]);
        for _ in 1..n {
            out.extend([0, 0, 0, 0, 0, 0, 0, 0]);
        }
        out.extend(vec![0xff; 2 * n]);
        out
    };
    assert!(dump("a.ymt", &rbf(MAX_NESTING - 1), true, &known).is_ok());
    assert_eq!(dump("a.ymt", &rbf(100_000), false, &known).unwrap_err(), NOT_SOUND);
}

/// A map with two entities, the way a dump prints one.
const BUILT_MAP: &str = r#"<?xml version="1.0" encoding="UTF-8"?>
<CMapData>
  <name>map1</name>
  <parent/>
  <flags value="0"/>
  <contentFlags value="1"/>
  <streamingExtentsMin x="180.5" y="6550.25" z="20"/>
  <streamingExtentsMax x="220.5" y="6590.25" z="40"/>
  <entitiesExtentsMin x="190" y="6560" z="25"/>
  <entitiesExtentsMax x="210" y="6580" z="35"/>
  <entities>
    <Item type="CEntityDef">
      <archetypeName>prop_gas_pump_1a</archetypeName>
      <flags value="1572864"/>
      <guid value="1"/>
      <position x="197.263" y="6573.081" z="30.78"/>
      <rotation x="0" y="0" z="0" w="1"/>
      <scaleXY value="1"/>
      <scaleZ value="1"/>
      <parentIndex value="-1"/>
      <lodDist value="120"/>
      <childLodDist value="0"/>
      <lodLevel>LODTYPES_DEPTH_ORPHANHD</lodLevel>
      <numChildren value="0"/>
      <priorityLevel>PRI_REQUIRED</priorityLevel>
      <extensions/>
      <ambientOcclusionMultiplier value="255"/>
      <artificialAmbientOcclusion value="255"/>
      <tintValue value="0"/>
    </Item>
    <Item type="CEntityDef">
      <archetypeName>prop_bench_01a</archetypeName>
      <flags value="32"/>
      <guid value="2"/>
      <position x="1" y="2" z="3"/>
      <rotation x="0" y="0" z="0.7071" w="0.7071"/>
      <scaleXY value="1"/>
      <scaleZ value="1"/>
      <parentIndex value="-1"/>
      <lodDist value="60"/>
      <childLodDist value="0"/>
      <lodLevel>LODTYPES_DEPTH_HD</lodLevel>
      <numChildren value="0"/>
      <priorityLevel>PRI_OPTIONAL_LOW</priorityLevel>
      <extensions/>
      <ambientOcclusionMultiplier value="255"/>
      <artificialAmbientOcclusion value="255"/>
      <tintValue value="0"/>
    </Item>
  </entities>
  <containerLods/>
  <boxOccluders/>
  <occludeModels/>
  <physicsDictionaries>
    <Item>cs1_02_phys</Item>
  </physicsDictionaries>
  <block>
    <version value="0"/>
    <flags value="0"/>
    <name>built for a test</name>
    <exportedBy>rage</exportedBy>
    <owner/>
    <time/>
  </block>
</CMapData>
"#;

const BUILT_MANIFEST: &str = r#"<CPackFileMetaData>
  <MapDataGroups/>
  <HDTxdBindingArray/>
  <imapDependencies/>
  <imapDependencies_2>
    <Item>
      <imapName>map1</imapName>
      <manifestFlags>INTERIOR_DATA</manifestFlags>
      <itypDepArray>
        <Item>casas_praia_types</Item>
        <Item>v_int_1</Item>
      </itypDepArray>
    </Item>
  </imapDependencies_2>
  <itypDependencies_2/>
  <Interiors>
    <Item>
      <Name>map1</Name>
      <Bounds>
        <Item>map1</Item>
      </Bounds>
    </Item>
  </Interiors>
</CPackFileMetaData>
"#;

fn build_map(root: &MetaValue, schema: &Schema) -> Vec<u8> {
    let written = build_meta(root, schema).unwrap();
    assert!(written.warnings.is_empty(), "{:?}", written.warnings);
    written.bytes
}

fn build_manifest(xml: &str, schema: &Schema) -> Vec<u8> {
    let written = build_pso(&from_xml(xml).unwrap(), schema).unwrap();
    assert!(written.warnings.is_empty(), "{:?}", written.warnings);
    written.bytes
}

/// The built-in names, with those of files next to the map.
fn known_beside(stems: &[&str]) -> NameTable {
    let mut t = NameTable::core();
    add_siblings(&mut t, &stems.iter().map(|s| s.to_string()).collect());
    t
}

#[test]
fn a_map_builds_from_xml_reads_back_and_its_name_can_be_fixed() {
    let original = build_map(&from_xml(BUILT_MAP).unwrap(), Schema::builtin());
    assert_eq!(parse_header(&original).unwrap().version, 2);
    let map = read_map(&original).unwrap();
    assert_eq!((map.header.name_hash, map.entities.len()), (rage_joaat("map1"), 2));
    assert_eq!((map.entities[0].position.x, map.entities[0].position.y), (197.263f32.to_bits(), 6573.081f32.to_bits()));

    // The map still calls itself map1 after the file was renamed; fix it in the
    // dump and build the file back.
    let known = known_beside(&["map1", "casas_praia_extras"]);
    let dump0 = dump("map1.ymap", &original, false, &known).unwrap();
    assert!(dump0.contains("<name>map1</name>"), "{dump0}");
    assert!(dump0.contains("<lodLevel>LODTYPES_DEPTH_ORPHANHD</lodLevel>"), "{dump0}");
    let edited = dump0.replacen("<name>map1</name>", "<name>casas_praia_extras</name>", 1);
    let built = build_map(&from_xml(&edited).unwrap(), Schema::builtin());
    assert_eq!(read_map(&built).unwrap().header.name_hash, rage_joaat("casas_praia_extras"));
    assert_eq!(dump("casas_praia_extras.ymap", &built, false, &known).unwrap(), edited);
}

#[test]
fn json_builds_the_same_file_as_xml_and_the_original_can_supply_the_schema() {
    let original = build_map(&from_xml(BUILT_MAP).unwrap(), Schema::builtin());
    let known = known_beside(&["map1"]);
    let dump0 = dump("map1.ymap", &original, false, &known).unwrap();
    let json = dump("map1.ymap", &original, true, &known).unwrap();
    let from = build_map(&from_json(&json).unwrap(), Schema::builtin());
    assert_eq!(dump("map1.ymap", &from, false, &known).unwrap(), dump0);

    let args = BuildArgs { input: "map.json".to_string(), output: "map1.ymap".to_string(), format: None, schema: Some("orig.ymap".to_string()), strict: false };
    assert_eq!(schema_sources(&args, true).len(), 2);
    let mut schema = Schema::builtin().clone();
    schema.merge(Schema::from_file(&original).unwrap());
    let from = build_map(&from_json(&json).unwrap(), &schema);
    assert_eq!(dump("map1.ymap", &from, false, &known).unwrap(), dump0);
}

#[test]
fn a_pso_manifest_builds_from_xml_and_from_its_own_dump() {
    let built = build_manifest(BUILT_MANIFEST, Schema::builtin());
    assert_eq!(detect(&built).unwrap(), Container::Meta(MetaContainer::Pso));
    let known = known_beside(&["map1"]);
    match read_tree(&built, Reading::Manifest, &known, false).unwrap() {
        Contents::Manifest(m) => {
            let info = write_manifest(&m, &known, &Checks::none());
            assert!(info.contains("Map dependencies (1)") && info.contains("[INTERIOR_DATA]"), "{info}");
            assert!(info.contains("Interiors (1)"), "{info}");
        }
        other => panic!("{other:?}"),
    }
    let dump0 = dump("_manifest.ymf", &built, false, &known).unwrap();
    let again = build_manifest(&dump0, Schema::builtin());
    assert_eq!(dump("again.ymf", &again, false, &known).unwrap(), dump0);

    // Structures that nobody knows need the file itself.
    let sample = pso();
    let known = NameTable::core();
    let xml = dump("sample.pso", &sample, false, &known).unwrap();
    let err = build_pso(&from_xml(&xml).unwrap(), Schema::builtin()).unwrap_err().to_string();
    assert!(err.contains("no PSO schema for the root"), "{err}");
    let mut schema = Schema::builtin().clone();
    schema.merge(Schema::from_file(&sample).unwrap());
    let second = build_manifest(&xml, &schema);
    assert_eq!(dump("sample2.pso", &second, false, &known).unwrap(), xml);
}

#[test]
fn entry_inside_archive() {
    let mut stored = b"RSC7".to_vec();
    for word in [165u32, 0xa800_0004, 0x5000_0000] {
        stored.extend(word.to_le_bytes());
    }
    stored.extend([0u8; 8192]);
    let mut builder = RpfBuilder::new(RpfEncryption::None);
    builder.add_file("data/thing.ybn", stored);
    let data = builder.build(None).unwrap();
    let archive = Archive::from_bytes(&data, "test.rpf", None).ok().unwrap();
    let bytes = archive.extract(&data, archive.find_file("thing.ybn").unwrap(), None).unwrap();
    let header = parse_header(&bytes).unwrap();
    assert_eq!((header.version, header.system_size), (165, 8192));
}
