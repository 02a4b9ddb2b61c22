//! Patterns, JSON strings, texts and file names.
use rage::file_names::{extension_of, file_stem, without_extension};
use rage::json_text::array_of;
use rage::text::{
    contains, decimal_of, hex_upper_of, hex_upper_short, lines_of, number_of, padded_left, padded_right, signed_of, split_on,
    to_ascii_lowercase, trimmed,
};
use rage::utils::{json_string, matches_pattern, not_a_marker, parse_marker, parse_pair, parse_quad};

#[test]
fn single_star() {
    assert!(matches_pattern("a/b/c.ydr", "*.ydr"));
    assert!(matches_pattern("a/b/c.ydr", "a/*"));
    assert!(matches_pattern("a/b/c.ydr", "a/*.ydr"));
    assert!(!matches_pattern("a/b/c.ytd", "*.ydr"));
    assert!(!matches_pattern("x/b/c.ydr", "a/*"));
}

#[test]
fn multiple_stars_match_in_order() {
    assert!(matches_pattern("x64b.rpf/levels/icons.rpf/prop.ydr", "*icons.rpf/*.ydr"));
    assert!(!matches_pattern("x64b.rpf/levels/icons.rpf/prop.ytd", "*icons.rpf/*.ydr"));
    assert!(!matches_pattern("x64b.rpf/levels/icons.rpf", "*icons.rpf/*"));
    assert!(matches_pattern("a/b/c/d", "a*c*d"));
    assert!(!matches_pattern("a/d/c", "a*c*d"));
    assert!(matches_pattern("anything", "*"));
    assert!(matches_pattern("abc", "a**c"));
}

#[test]
fn no_star_is_substring() {
    assert!(matches_pattern("levels/inner.rpf/x", "inner.rpf"));
    assert!(!matches_pattern("levels/other.rpf", "inner.rpf"));
}

#[test]
fn json_strings_are_escaped() {
    assert_eq!(json_string("a\"b\\c\n\u{1}"), "\"a\\\"b\\\\c\\n\\u0001\"");
    assert_eq!(json_string(""), "\"\"");
}

#[test]
fn arrays_are_joined_with_commas() {
    assert_eq!(array_of(&Vec::new()), "[]");
    assert_eq!(array_of(&vec!["1".to_string(), "2".to_string()]), "[1,2]");
}

#[test]
fn numbers_are_written_and_read() {
    assert_eq!(decimal_of(u64::MAX), u64::MAX.to_string());
    assert_eq!(signed_of(i32::MIN), "-2147483648");
    assert_eq!(signed_of(7), "7");
    assert_eq!(hex_upper_of(0xAB, 8), "000000AB");
    assert_eq!(hex_upper_short(0), "0");
    assert_eq!(hex_upper_short(0x1A2B), "1A2B");
    assert_eq!(number_of("4294967295", 10, u32::MAX), Some(u32::MAX));
    assert_eq!(number_of("4294967296", 10, u32::MAX), None);
    assert_eq!(number_of("+7f", 16, u32::MAX), Some(0x7f));
    assert_eq!(number_of("", 10, u32::MAX), None);
    assert_eq!(number_of("-1", 10, u32::MAX), None);
}

#[test]
fn texts_are_taken_apart_as_the_standard_library_does() {
    for s in ["", "a", "a\nb", "a\r\nb\n", "\n\n", "a\rb\n", " x \u{a0}"] {
        assert_eq!(lines_of(s), s.lines().collect::<Vec<_>>(), "{s:?}");
        assert_eq!(split_on(s, '\n'), s.split('\n').collect::<Vec<_>>(), "{s:?}");
        assert_eq!(trimmed(s), s.trim(), "{s:?}");
        assert_eq!(to_ascii_lowercase(s), s.to_ascii_lowercase());
    }
    assert_eq!(to_ascii_lowercase("AbÄ"), "abÄ");
    assert!(contains("abc", "bc") && !contains("abc", "cb") && contains("abc", ""));
    assert_eq!(padded_left("ab", ' ', 4), "  ab");
    assert_eq!(padded_right("ab", '.', 4), "ab..");
    assert_eq!(padded_left("abcdef", ' ', 4), "abcdef");
}

#[test]
fn file_names_have_stems_and_extensions() {
    assert_eq!(file_stem("levels/gta5\\Prop.a.ydr"), "Prop.a");
    assert_eq!(extension_of("levels/gta5\\Prop.a.ydr"), "ydr");
    assert_eq!(file_stem("noext"), "noext");
    assert_eq!(extension_of("dir.x/noext"), "");
    assert_eq!(without_extension("navmesh[1][2].ynv"), "navmesh[1][2]");
}

#[test]
fn numbers_on_the_command_line_come_by_count() {
    assert_eq!(parse_pair(" -585.5 , 2"), Ok(("-585.5".to_string(), "2".to_string())));
    assert_eq!(parse_pair("1,2,3"), Err("expected two comma-separated numbers, got '1,2,3'".to_string()));
    assert_eq!(parse_pair("1"), Err("expected two comma-separated numbers, got '1'".to_string()));
    assert_eq!(parse_quad("0, 1,2 ,3").unwrap(), ["0", "1", "2", "3"]);
    assert_eq!(parse_quad("0,1,2"), Err("expected four comma-separated numbers, got '0,1,2'".to_string()));

    let m = parse_marker("1, 2,here, there").unwrap();
    assert_eq!((m.x.as_str(), m.y.as_str(), m.label.as_str()), ("1", "2", "here, there"));
    assert_eq!(parse_marker("1,2").unwrap().label, "");
    assert_eq!(parse_marker("1").unwrap_err(), "expected x,y,label; got '1'");
    assert_eq!(not_a_marker("x"), "expected x,y,label; got 'x'");
}
