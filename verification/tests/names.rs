//! Name lists, dates, and the `names` command.
use rage::calendar::civil_from_days;
use rage::commands::names::{
    add_fetched, add_identifier, could_be_name, download_succeeded, fetch, harvest, harvest_archive, harvest_nodes, harvest_wanted,
    harvest_xml, info, list_path, list_target, lookup, lookup_hash, run, FetchArgs, HarvestArgs, NamesArgs, NamesCommand, NamesPlan,
    XmlNode, DEFAULT_LIST_URL,
};
use rage::index::scan::{ArchiveFile, Content, Want};
use rage::name_table::{add_siblings, load, resolve};
use rage::names::{harvest_path, read_list, today, write_list, ListHeader, NameSet};
use rage_formats::{rage_joaat, NameTable};

fn set(names: &[&str]) -> NameSet {
    let mut out = NameSet::new();
    for n in names {
        out.insert(n);
    }
    out
}

#[test]
fn header_round_trips_and_the_build_only_moves_forward() {
    let mut h = ListHeader::default();
    assert_eq!(h.coverage(), "of unknown origin");
    h.add_source("fetch https://example/ObjectList.ini on 2026-09-23".into(), None);
    assert!(h.coverage().starts_with("of unstated game build"));
    h.add_source("harvest GTA5.exe 1.0.3889.0 on 2026-09-23".into(), Some(3889));
    h.add_source("fetch old list".into(), Some(3717));
    assert_eq!(h.build, Some(3889));
    assert_eq!(h.coverage(), "covers game build 3889");
    let parsed = ListHeader::parse(&(h.render() + "prop_a\n# not a header line\n"));
    assert_eq!(parsed, h);
    assert_eq!(ListHeader::parse("prop_a\n"), ListHeader::default());
}

#[test]
fn lists_are_written_and_read_back() {
    let mut header = ListHeader::default();
    header.add_source("test".into(), Some(3889));
    let names = set(&["prop_b", "prop_a"]);
    let (h, n) = read_list(&write_list(&header, &names));
    assert_eq!(h, header);
    assert_eq!(n.sorted(), ["prop_a", "prop_b"]);
}

#[test]
fn days_convert_to_dates() {
    assert_eq!(civil_from_days(0), (1970, 1, 1));
    assert_eq!(civil_from_days(20_719), (2026, 9, 23));
    assert_eq!(civil_from_days(19_723), (2024, 1, 1));
    assert_eq!(today(1_790_121_600).len(), 10);
}

#[test]
fn dates_are_written_out() {
    assert_eq!(today(0), "1970-01-01");
    assert_eq!(today(86_399), "1970-01-01");
    assert_eq!(today(951_782_400), "2000-02-29");
    assert_eq!(civil_from_days(-1), (1969, 12, 31));
}

#[test]
fn sibling_stems_join_in_both_spellings() {
    let mut table = NameTable::empty();
    add_siblings(&mut table, &vec!["bombaPALETO".to_string(), "prop_gas_pump".to_string()]);
    assert_eq!(table.get(rage_joaat("bombaPALETO")), Some("bombaPALETO"));
    assert_eq!(table.get(rage_joaat("bombapaleto")), Some("bombapaleto"));
    assert_eq!(table.get(rage_joaat("prop_gas_pump")), Some("prop_gas_pump"));
}

#[test]
fn loading_reads_lists_before_siblings_and_resolves() {
    let mut table = NameTable::empty();
    load(&mut table, &vec!["# header\nprop_a\n\n prop_b \n".to_string()], &vec!["Prop_C".to_string()]);
    assert_eq!(resolve(&table, rage_joaat("prop_a")), "prop_a");
    assert_eq!(resolve(&table, rage_joaat("prop_b")), "prop_b");
    assert_eq!(resolve(&table, rage_joaat("prop_c")), "prop_c");
    assert_eq!(resolve(&table, 0), "0");
    assert_eq!(resolve(&table, 0xAB), "hash_000000AB");
}

#[test]
fn xml_yields_tags_attributes_and_identifier_text() {
    let mut out = NameSet::new();
    harvest_xml(
        "<CPackFileMetaData><imapDependencies_2><Item><imapName>bombapaleto</imapName><itypDepArray><Item>v_construction</Item></itypDepArray><lodDist value=\"200\"/><flags value=\"true\"/><pos x=\"1.5\" y=\"-2\"/></Item></imapDependencies_2></CPackFileMetaData>",
        &mut out,
    );
    for expected in ["CPackFileMetaData", "imapDependencies_2", "Item", "imapName", "bombapaleto", "v_construction", "lodDist", "value", "flags", "pos"] {
        assert!(out.contains(expected), "missing {expected}: {:?}", out.sorted());
    }
    assert!(!out.contains("200"), "numbers are not names");
    assert!(!out.contains("true"));
    assert!(!out.contains("-2"));
    assert!(!out.contains("x"), "one-letter attribute names are not worth a line");
}

#[test]
fn a_text_that_is_no_xml_yields_nothing() {
    let mut out = NameSet::new();
    harvest_xml("<open>", &mut out);
    harvest_nodes(&Vec::new(), &mut out);
    assert_eq!(out.len(), 0);
}

#[test]
fn the_words_of_a_leaf_are_harvested() {
    let node = |has_elements: bool| XmlNode {
        is_element: true,
        tag: "flags".to_string(),
        attributes: vec![("type".to_string(), "CFoo".to_string())],
        has_elements,
        text: Some("FLAG_A, FLAG_B\n12".to_string()),
    };
    let mut out = NameSet::new();
    harvest_nodes(&vec![node(false)], &mut out);
    assert_eq!(out.sorted(), ["CFoo", "FLAG_A", "FLAG_B", "flags", "type"]);
    let mut out = NameSet::new();
    harvest_nodes(&vec![node(true)], &mut out);
    assert_eq!(out.sorted(), ["CFoo", "flags", "type"], "only leaves hold text worth reading");
}

#[test]
fn fetched_lists_skip_comments_and_ini_sections() {
    let mut names = NameSet::new();
    let n = add_fetched(&mut names, "\u{feff}# a comment\n[Objects]\nprop_a\n prop_b \n; another\n\nprop_a\n");
    assert_eq!(n, 3);
    assert_eq!(names.sorted(), ["prop_a", "prop_b"]);
    let mut marked = NameSet::new();
    assert_eq!(add_fetched(&mut marked, "\u{feff} prop_a\n"), 1);
    assert_eq!(marked.sorted(), ["prop_a"], "names are taken trimmed");
}

#[test]
fn identifiers_are_filtered() {
    let mut out = NameSet::new();
    for s in ["prop_a", "Hello World", "", "9lives", "ok-name", "1.5", "a".repeat(70).as_str(), "x64a", "+", "+ve", ":", "A0011940-7438-4232-BBF6-5119F9A8C9D1", "DEADBEEFDEADBEEF", "ab"] {
        add_identifier(&mut out, s);
    }
    assert_eq!(out.sorted(), ["ab", "ok-name", "prop_a", "x64a"]);
}

#[test]
fn words_that_are_numbers_are_no_names() {
    for s in ["NaN", "inf", "Infinity", "true", "false", "12", "..", "é1"] {
        assert!(!could_be_name(s), "{s}");
    }
    for s in ["nano", "infer", "truely", "deadbeef", "a.b"] {
        assert!(could_be_name(s), "{s}");
    }
}

#[test]
fn harvest_descends_into_archives() {
    let file = |name: &str, content: Content| ArchiveFile { name: name.to_string(), path: name.to_lowercase(), content };
    let files = vec![
        file("Prop_Box.ydr", Content::Unread),
        file("inner.RPF", Content::Nested(vec![file("data.meta", Content::Data(b"<CRoot/>".to_vec()))])),
        file("plain.meta", Content::Data(b"CNot xml".to_vec())),
        file("bad.xml", Content::Data(vec![b'<', 0xFF])),
    ];
    let mut out = NameSet::new();
    harvest_archive(&files, &mut out);
    assert_eq!(out.sorted(), ["CRoot", "Prop_Box", "bad", "data", "plain", "prop_box"]);
    assert!(matches!(harvest_wanted("A.RPF"), Want::NestedArchive));
    assert!(matches!(harvest_wanted("a.YMT"), Want::Bytes));
    assert!(matches!(harvest_wanted("a.ydr"), Want::Nothing));
}

#[test]
fn fetch_writes_a_list_that_info_and_lookup_read() {
    let url = "http://127.0.0.1:1/ObjectList.ini";
    let (header, names) = list_target(&None, false);
    let new = fetch(header, names, "# community dump\n[Objects]\nprop_beach_fire\nprop_barier_conc_05b\n", url, Some(3717), "2026-09-23", "names.txt").unwrap();
    assert_eq!(new.report, "Wrote 2 names to names.txt (2 new; the list covers game build 3717)");
    let text = new.text;
    assert!(text.contains(&format!("# source: fetch {url} on 2026-09-23 (build 3717)\n")), "{text}");
    assert!(text.contains("# build: 3717\n"), "{text}");
    assert!(text.ends_with("prop_barier_conc_05b\nprop_beach_fire\n"), "{text}");

    let out = info(900, "names.txt", &Some(text.clone()));
    assert!(out.contains("Built-in names: 900\n"), "{out}");
    assert!(out.contains("Names:          2"), "{out}");
    assert!(out.contains("Coverage:       covers game build 3717"), "{out}");
    assert!(out.contains("Sources:\n  fetch "), "{out}");

    let mut table = NameTable::empty();
    load(&mut table, &vec![text], &Vec::new());
    assert_eq!(lookup("0xC079B265", &table), "0xC079B265  prop_beach_fire");
    assert_eq!(lookup("prop_beach_fire", &table), "0xC079B265  prop_beach_fire");
    assert_eq!(lookup("0x1", &table), "0x00000001  (unknown)");
    assert_eq!(lookup("3229200997", &table), "0xC079B265  prop_beach_fire");
    assert_eq!(lookup_hash("0Xff"), Some(255));
    assert_eq!(lookup_hash("0xgg"), None);
}

#[test]
fn a_second_fetch_merges_and_the_build_only_moves_forward() {
    let (header, names) = list_target(&None, false);
    let first = fetch(header, names, "prop_a\nprop_b\n", "newer", Some(3889), "d", "p").unwrap();
    let (header, names) = list_target(&Some(first.text), false);
    let second = fetch(header, names, "prop_b\nprop_c\n", "older", Some(3717), "d", "p").unwrap();
    assert!(second.report.contains("Wrote 3 names"), "{}", second.report);
    assert!(second.report.contains("(1 new; the list covers game build 3889)"), "{}", second.report);
    let out = info(0, "p", &Some(second.text.clone()));
    assert_eq!(out.matches("\n  fetch ").count(), 2, "{out}");

    // --replace starts over, and a list with no stated build says so.
    let (header, names) = list_target(&Some(second.text), true);
    let third = fetch(header, names, "prop_b\nprop_c\n", "older", None, "d", "p").unwrap();
    assert!(third.report.contains("Wrote 2 names"), "{}", third.report);
    let out = info(0, "p", &Some(third.text));
    assert!(out.contains("of unstated game build"), "{out}");
    assert_eq!(out.matches("\n  fetch ").count(), 1, "{out}");
}

#[test]
fn an_empty_or_missing_list_is_an_error() {
    let (header, names) = list_target(&None, false);
    assert!(fetch(header, names, "# nothing but comments\n", "u", None, "d", "p").is_none());
    let out = info(0, "p", &None);
    assert!(out.contains("None yet"), "{out}");
    assert!(out.contains("rage names fetch"), "{out}");
    assert!(!download_succeeded(404) && download_succeeded(204));
}

/// A list written before the header existed still reads as a harvest.
#[test]
fn a_pre_header_harvest_is_recognised() {
    let list = "# Names harvested from the game's own files by `rage names harvest`.\nprop_a\n".to_string();
    let out = info(0, "p", &Some(list));
    assert!(out.contains("Names:          1"), "{out}");
    assert!(out.contains("Coverage:       of unstated game build"), "{out}");
    assert!(out.contains("harvest by an earlier rage"), "{out}");
}

#[test]
fn a_harvest_replaces_the_names_and_keeps_the_sources() {
    let mut header = ListHeader::default();
    header.add_source("fetch x on y".to_string(), Some(3717));
    let new = harvest(header, &set(&["prop_a"]), "GTA5.exe", &None, None, "2026-09-23", "names.txt").unwrap();
    assert_eq!(new.report, "Wrote 1 names to names.txt (the list covers game build 3717)");
    assert!(new.text.contains("# source: fetch x on y\n"), "{}", new.text);
    assert!(new.text.contains("# source: harvest GTA5.exe (version unknown) on 2026-09-23\n"), "{}", new.text);
    assert!(harvest(ListHeader::default(), &set(&[]), "e", &Some("1.0".to_string()), None, "d", "p").is_none());
}

#[test]
fn the_command_line_decides_what_is_done() {
    let harvest_args = || NamesArgs { command: NamesCommand::Harvest(HarvestArgs { output: None }) };
    assert!(matches!(run(harvest_args(), None), NamesPlan::NoExecutable));
    assert!(matches!(run(harvest_args(), Some("x".to_string())), NamesPlan::Harvest { .. }));
    let fetch_args = FetchArgs { url: DEFAULT_LIST_URL.to_string(), build: Some(1), output: None, replace: true };
    match run(NamesArgs { command: NamesCommand::Fetch(fetch_args) }, None) {
        NamesPlan::Fetch { url, build, replace, .. } => {
            assert!(url.starts_with("https://") && url.ends_with("ObjectList.ini"));
            assert_eq!((build, replace), (Some(1), true));
        }
        other => panic!("{other:?}"),
    }
    assert!(matches!(run(NamesArgs { command: NamesCommand::Info }, None), NamesPlan::Info));
    assert_eq!(list_path(None, Some("usual".to_string())), Some("usual".to_string()));
    assert_eq!(list_path(Some("named".to_string()), None), Some("named".to_string()));
    assert_eq!(harvest_path(None, None), None);
    assert_eq!(harvest_path(Some("env".to_string()), Some("home".to_string())), Some("env".to_string()));
}
