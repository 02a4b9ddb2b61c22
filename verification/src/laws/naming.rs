//! How names are gathered, listed and looked up.
use vstd::prelude::*;
use vstd::utf8::{decode_utf8, valid_utf8};
use crate::calendar::{date_text, days_before_month, days_before_year, days_to_date, is_leap, month_days};
use crate::commands::names::{
    build_note, fetch_report, fetch_source, fetched_count, harvest_report, harvest_source,
    harvest_wants, info_text, is_identifier, lookup_text, plan_of, sources_text, strip_marks,
    term_hash, with_attributes, with_bytes, with_fetched, with_harvest, with_identifier,
    with_identifiers, with_nodes, with_xml, xml_nodes, NamesArgs, NamesCommand, NamesPlan,
    XmlView,
};
use crate::file_names::{extension, stem};
use crate::hash::joaat;
use crate::index::scan::{ArchiveFile, Content, Want};
use crate::laws::wording::{lemma_says, says};
use crate::name_table::{
    placeholder, resolved, with_lists, with_name, with_name_lines, with_stems,
};
use crate::names::{header_lines, names_of_lines, Header};
use crate::text::{
    ascii_lowercase, decimal, hex_digits_upper, is_hex_digit, lines, lowercase, number, pad_left,
    replace, split, trim,
};

verus! {

// ── Lists that are fetched ──────────────────────────────────────────────────

/// The byte order marks at the start of a line are taken off, all of them and
/// nothing else.
pub proof fn law_marks_are_taken_off(s: Seq<char>)
    ensures
        exists|k: int|
            0 <= k <= s.len() && #[trigger] s.skip(k) == strip_marks(s) && (forall|i: int|
                0 <= i < k ==> #[trigger] s[i] == '\u{feff}') && (k < s.len() ==> s[k] != '\u{feff}'),
    decreases s.len(),
{
    if s.len() > 0 && s[0] == '\u{feff}' {
        let rest = s.drop_first();
        law_marks_are_taken_off(rest);
        let k = choose|k: int|
            0 <= k <= rest.len() && #[trigger] rest.skip(k) == strip_marks(rest) && (forall|i: int|
                0 <= i < k ==> #[trigger] rest[i] == '\u{feff}') && (k < rest.len() ==> rest[k]
                != '\u{feff}');
        assert(rest.skip(k) =~= s.skip(k + 1));
        assert forall|i: int| 0 <= i < k + 1 implies #[trigger] s[i] == '\u{feff}' by {
            if i > 0 {
                assert(rest[i - 1] == s[i]);
            }
        }
        if k < rest.len() {
            assert(rest[k] == s[k + 1]);
        }
    } else {
        assert(s.skip(0) =~= s);
    }
}

/// A line of a downloaded list is a name unless it is blank, a remark or a
/// heading; every such line counts, and each name is taken once.
pub proof fn law_lines_of_a_download(names: Set<Seq<char>>, list: Seq<Seq<char>>, line: Seq<char>)
    ensures
        fetched_count(Seq::empty()) == 0,
        with_fetched(names, Seq::empty()) == names,
        ({
            let name = trim(strip_marks(trim(line)));
            let taken = name.len() > 0 && name[0] != '#' && name[0] != ';' && name[0] != '[';
            &&& fetched_count(list.push(line)) == fetched_count(list) + (if taken {
                1int
            } else {
                0
            })
            &&& with_fetched(names, list.push(line)) == (if taken {
                with_fetched(names, list).insert(name)
            } else {
                with_fetched(names, list)
            })
        }),
{
    assert(list.push(line).drop_last() =~= list);
}

// ── Looking up ──────────────────────────────────────────────────────────────

/// A term is a hash when it is hexadecimal behind "0x", or decimal; otherwise
/// it is a name.
pub proof fn law_terms_are_hashes(term: Seq<char>)
    ensures
        ("0x"@.is_prefix_of(term) || "0X"@.is_prefix_of(term)) && number(
            term.skip(2),
            16,
            0xffff_ffff,
        ) is Some ==> term_hash(term) == Some(number(term.skip(2), 16, 0xffff_ffff)->Some_0 as u32),
        !"0x"@.is_prefix_of(term) && !"0X"@.is_prefix_of(term) ==> match number(
            term,
            10,
            0xffff_ffff,
        ) {
            Some(n) => term_hash(term) == Some(n as u32),
            None => term_hash(term) is None,
        },
        term_hash(term) is Some ==> term_hash(term)->Some_0 as nat == (if ("0x"@.is_prefix_of(term)
            || "0X"@.is_prefix_of(term)) && number(term.skip(2), 16, 0xffff_ffff) is Some {
            number(term.skip(2), 16, 0xffff_ffff)->Some_0
        } else {
            number(term, 10, 0xffff_ffff)->Some_0
        }),
{
}

/// What is printed of a hash: the hash and its name, or that none is known.
pub proof fn law_lookup_of_a_hash(term: Seq<char>, names: Map<u32, Seq<char>>)
    requires
        term_hash(term) is Some,
    ensures
        ({
            let text = lookup_text(term, names);
            let h = term_hash(term)->Some_0;
            &&& says(text, "0x"@ + hex_digits_upper(h as nat, 8) + "  "@)
            &&& says(text, "  "@ + (if names.contains_key(h) { names[h] } else { "(unknown)"@ }))
            &&& says(
                text,
                hex_digits_upper(h as nat, 8) + "  "@
                    + (if names.contains_key(h) { names[h] } else { "(unknown)"@ }),
            )
        }),
{
    lemma_says();
}

/// What is printed of a name: its hash, and the name.
pub proof fn law_lookup_of_a_name(term: Seq<char>, names: Map<u32, Seq<char>>)
    requires
        term_hash(term) is None,
    ensures
        ({
            let text = lookup_text(term, names);
            &&& says(text, "0x"@ + hex_digits_upper(joaat(term) as nat, 8) + "  "@)
            &&& says(text, "  "@ + term)
            &&& says(text, hex_digits_upper(joaat(term) as nat, 8) + "  "@ + term)
        }),
{
    lemma_says();
}

/// How a download is recorded.
pub proof fn law_source_of_a_fetch(url: Seq<char>, date: Seq<char>, build: Option<u32>)
    ensures
        ({
            let text = fetch_source(url, date, build);
            &&& says(text, "fetch "@ + url + " on "@)
            &&& says(text, " on "@ + date + build_note(build))
            &&& says(text, date + build_note(build))
        }),
{
    lemma_says();
}

/// What is said of a download.
pub proof fn law_report_of_a_fetch(names: nat, path: Seq<char>, fresh: nat, coverage: Seq<char>)
    ensures
        ({
            let text = fetch_report(names, path, fresh, coverage);
            &&& says(text, "Wrote "@ + decimal(names) + " names to "@)
            &&& says(text, " names to "@ + path + " ("@)
            &&& says(text, " ("@ + decimal(fresh) + " new; the list "@)
            &&& says(text, " new; the list "@ + coverage + ")"@)
            &&& says(text, path + " ("@ + decimal(fresh))
        }),
{
    lemma_says();
}

/// How a harvest is recorded.
pub proof fn law_source_of_a_harvest(exe: Seq<char>, version: Option<Seq<char>>, date: Seq<char>)
    ensures
        ({
            let text = harvest_source(exe, version, date);
            &&& says(text, "harvest "@ + exe + " "@)
            &&& says(
                text,
                " "@ + (match version { Some(v) => v, None => "(version unknown)"@, }) + " on "@,
            )
            &&& says(text, " on "@ + date)
            &&& says(
                text,
                exe + " "@ + (match version { Some(v) => v, None => "(version unknown)"@, }),
            )
        }),
{
    lemma_says();
}

/// What is said of a harvest.
pub proof fn law_report_of_a_harvest(names: nat, path: Seq<char>, coverage: Seq<char>)
    ensures
        ({
            let text = harvest_report(names, path, coverage);
            &&& says(text, "Wrote "@ + decimal(names) + " names to "@)
            &&& says(text, " names to "@ + path + " (the list "@)
            &&& says(text, " (the list "@ + coverage + ")"@)
        }),
{
    lemma_says();
}

/// What is said of a list of names.
pub proof fn law_known_list(built_in: nat, path: Seq<char>, list: Seq<char>)
    ensures
        ({
            let text = info_text(built_in, path, Some(list));
            let header = Header::of_text(list);
            &&& says(text, "Built-in names: "@ + decimal(built_in) + "\nName list:      "@)
            &&& says(text, "\nName list:      "@ + path + "\n"@)
            &&& says(
                text,
                "Names:          "@ + decimal(names_of_lines(lines(list)).len())
                    + "\nCoverage:       "@,
            )
            &&& says(text, "\nCoverage:       "@ + header.covers() + "\n"@)
        }),
{
    lemma_says();
}

/// A date is written year, month, day.
pub proof fn law_dates(y: nat, m: nat, d: nat)
    ensures
        ({
            let text = date_text(y, m, d);
            &&& says(text, pad_left(decimal(y), '0', 4) + "-"@)
            &&& says(text, "-"@ + pad_left(decimal(m), '0', 2) + "-"@)
            &&& says(text, "-"@ + pad_left(decimal(d), '0', 2))
            &&& says(text, pad_left(decimal(y), '0', 4) + "-"@ + pad_left(decimal(m), '0', 2))
            &&& says(text, pad_left(decimal(m), '0', 2) + "-"@ + pad_left(decimal(d), '0', 2))
        }),
{
    lemma_says();
}

/// Where there is no list yet, it is said how to get one.
pub proof fn law_no_list_yet(built_in: nat, path: Seq<char>)
    ensures
        says(info_text(built_in, path, None), "Built-in names: "@ + decimal(built_in) + "\nName list:      "@),
        says(info_text(built_in, path, None), "\nName list:      "@ + path + "\n"@),
        says(
            info_text(built_in, path, None),
            "None yet \u{2014} `rage names harvest --exe PATH` scans the game, `rage names fetch` downloads a public list.\n"@,
        ),
{
    lemma_says();
}

/// The sources of a list are printed below each other.
pub proof fn law_one_more_source(sources: Seq<Seq<char>>, source: Seq<char>)
    ensures
        sources_text(Seq::empty()) == "Sources:\n"@,
        sources_text(sources.push(source)) == sources_text(sources) + "  "@ + source + "\n"@,
        build_note(None) == ""@,
        forall|b: u32| #[trigger] build_note(Some(b)) == " (build "@ + decimal(b as nat) + ")"@,
{
    assert(sources.push(source).drop_last() =~= sources);
}

// ── Harvesting ──────────────────────────────────────────────────────────────

/// A name is a word of two to sixty-four letters, digits and a few marks, with
/// a letter in it, that does not start as a number does and is neither a
/// number word, a truth value nor a long run of hexadecimal digits.
pub proof fn law_what_a_name_is(s: Seq<char>)
    ensures
        is_identifier(s) ==> 2 <= s.len() <= 64 && s[0] != '-' && s[0] != '.' && s[0] != '+' && !('0'
            <= s[0] <= '9'),
        is_identifier(s) ==> forall|i: int|
            0 <= i < s.len() ==> {
                let c = #[trigger] s[i];
                'a' <= c <= 'z' || 'A' <= c <= 'Z' || '0' <= c <= '9' || c == '_' || c == '+' || c
                    == '-' || c == '.' || c == '@'
            },
        is_identifier(s) ==> exists|i: int|
            0 <= i < s.len() && ('a' <= #[trigger] s[i] <= 'z' || 'A' <= s[i] <= 'Z'),
        is_identifier(s) ==> ascii_lowercase(s) != "inf"@ && ascii_lowercase(s) != "infinity"@
            && ascii_lowercase(s) != "nan"@ && s != "true"@ && s != "false"@,
        is_identifier(s) && s.len() >= 16 ==> exists|i: int|
            0 <= i < s.len() && !is_hex_digit(#[trigger] s[i]) && s[i] != '-',
        2 <= s.len() <= 64 && ('a' <= s[0] <= 'z' || 'A' <= s[0] <= 'Z' || s[0] == '_' || s[0] == '@')
            && (forall|i: int|
            0 <= i < s.len() ==> {
                let c = #[trigger] s[i];
                'a' <= c <= 'z' || 'A' <= c <= 'Z' || '0' <= c <= '9' || c == '_' || c == '+' || c
                    == '-' || c == '.' || c == '@'
            }) && (exists|i: int|
            0 <= i < s.len() && ('a' <= #[trigger] s[i] <= 'z' || 'A' <= s[i] <= 'Z'))
            && ascii_lowercase(s) != "inf"@ && ascii_lowercase(s) != "infinity"@ && ascii_lowercase(s)
            != "nan"@ && s != "true"@ && s != "false"@ && (s.len() < 16 || exists|i: int|
            0 <= i < s.len() && !is_hex_digit(#[trigger] s[i]) && s[i] != '-') ==> is_identifier(s),
{
    if exists|i: int| 0 <= i < s.len() && ('a' <= #[trigger] s[i] <= 'z' || 'A' <= s[i] <= 'Z') {
        let i = choose|i: int|
            0 <= i < s.len() && ('a' <= #[trigger] s[i] <= 'z' || 'A' <= s[i] <= 'Z');
        assert(crate::commands::names::is_letter(s[i]));
    }
}

/// A text is taken, trimmed, exactly when it is then a name.
pub proof fn law_names_are_taken_trimmed(names: Set<Seq<char>>, s: Seq<char>)
    ensures
        is_identifier(trim(s)) ==> with_identifier(names, s) == names.insert(trim(s)),
        !is_identifier(trim(s)) ==> with_identifier(names, s) == names,
{
}

/// An element gives its tag and the keys and values of its attributes; its
/// text too, word by word, where it holds no element. Nothing else gives
/// anything.
pub proof fn law_one_more_element(names: Set<Seq<char>>, list: Seq<XmlView>, node: XmlView)
    ensures
        with_nodes(names, Seq::empty()) == names,
        ({
            let before = with_nodes(names, list);
            let got = with_nodes(names, list.push(node));
            let own = with_attributes(with_identifier(before, node.tag), node.attributes);
            if !node.is_element {
                got == before
            } else if node.has_elements || node.text is None {
                got == own
            } else {
                got == with_identifiers(
                    own,
                    split(
                        replace(
                            replace(replace(replace(node.text->Some_0, ',', ' '), '\n', ' '), '\r', ' '),
                            '\t',
                            ' ',
                        ),
                        ' ',
                    ),
                )
            }
        }),
{
    assert(list.push(node).drop_last() =~= list);
}

/// The attributes give their keys and their values.
pub proof fn law_one_more_attribute(
    names: Set<Seq<char>>,
    list: Seq<(Seq<char>, Seq<char>)>,
    key: Seq<char>,
    value: Seq<char>,
)
    ensures
        with_attributes(names, Seq::empty()) == names,
        is_identifier(trim(key)) ==> with_attributes(names, list.push((key, value))).contains(trim(key)),
        is_identifier(trim(value)) ==> with_attributes(names, list.push((key, value))).contains(
            trim(value),
        ),
        forall|s: Seq<char>| #[trigger]
            with_attributes(names, list.push((key, value))).contains(s) <==> with_attributes(
                names,
                list,
            ).contains(s) || (is_identifier(s) && (s == trim(key) || s == trim(value))),
{
    assert(list.push((key, value)).drop_last() =~= list);
}

/// The words of a text are those of its parts that are names.
pub proof fn law_one_more_word(names: Set<Seq<char>>, list: Seq<Seq<char>>, word: Seq<char>)
    ensures
        with_identifiers(names, Seq::empty()) == names,
        forall|s: Seq<char>| #[trigger]
            with_identifiers(names, list.push(word)).contains(s) <==> with_identifiers(
                names,
                list,
            ).contains(s) || (is_identifier(s) && s == trim(word)),
{
    assert(list.push(word).drop_last() =~= list);
}

/// A file is searched for names when it starts with a bracket and is text that
/// parses; otherwise it gives none.
pub proof fn law_only_markup_is_searched(names: Set<Seq<char>>, data: Seq<u8>)
    ensures
        data.len() == 0 ==> with_bytes(names, data) == names,
        data.len() > 0 && data[0] != 0x3c ==> with_bytes(names, data) == names,
        !valid_utf8(data) ==> with_bytes(names, data) == names,
        data.len() > 0 && data[0] == 0x3c && valid_utf8(data) ==> with_bytes(names, data) == with_xml(
            names,
            decode_utf8(data),
        ),
        forall|text: Seq<char>|
            xml_nodes(text) is None ==> #[trigger] with_xml(names, text) == names,
        forall|text: Seq<char>|
            xml_nodes(text) is Some ==> #[trigger] with_xml(names, text) == with_nodes(
                names,
                xml_nodes(text)->Some_0,
            ),
{
}

/// What a harvest asks for of a file, by its name in lower case.
pub proof fn law_what_a_harvest_reads(name: Seq<char>)
    ensures
        harvest_wants(name) == Want::NestedArchive <==> ".rpf"@.is_suffix_of(name),
        harvest_wants(name) == Want::Bytes <==> !".rpf"@.is_suffix_of(name) && (extension(name)
            == "meta"@ || extension(name) == "xml"@ || extension(name) == "ymt"@ || extension(name)
            == "ymf"@ || extension(name) == "dat"@),
{
}

/// What one more file adds to a harvest: a nested archive what is in it; any
/// other file its stem, also in lower case, and the names in its markup.
pub proof fn law_one_more_file_is_harvested(
    names: Set<Seq<char>>,
    files: Seq<ArchiveFile>,
    file: ArchiveFile,
)
    ensures
        with_harvest(names, Seq::empty()) == names,
        ({
            let before = with_harvest(names, files);
            let got = with_harvest(names, files.push(file));
            let lower = lowercase(file.name@);
            let own = stem(file.name@);
            let stems = with_identifier(with_identifier(before, own), lowercase(own));
            if ".rpf"@.is_suffix_of(lower) {
                got == (match file.content {
                    Content::Nested(inner) => with_harvest(before, inner@),
                    _ => before,
                })
            } else {
                got == (match file.content {
                    Content::Data(data) if extension(lower) == "meta"@ || extension(lower) == "xml"@
                        || extension(lower) == "ymt"@ || extension(lower) == "ymf"@ || extension(lower)
                        == "dat"@ => with_bytes(stems, data@),
                    _ => stems,
                })
            }
        }),
{
    assert(files.push(file).drop_last() =~= files);
}

/// A harvest needs an executable; nothing else does, and each command is
/// carried out with its own arguments.
pub proof fn law_commands_are_planned(args: NamesArgs, exe: Option<String>)
    ensures
        match (args.command, plan_of(args, exe)) {
            (NamesCommand::Harvest(h), NamesPlan::Harvest { exe: e, output }) => exe == Some(e)
                && output == h.output,
            (NamesCommand::Harvest(h), NamesPlan::NoExecutable) => exe is None,
            (NamesCommand::Fetch(f), NamesPlan::Fetch { url, build, output, replace }) => url == f.url
                && build == f.build && output == f.output && replace == f.replace,
            (NamesCommand::Info, NamesPlan::Info) => true,
            (
                NamesCommand::Lookup { terms, names },
                NamesPlan::Lookup { terms: t, names: n },
            ) => t == terms && n == names,
            _ => false,
        },
{
}

// ── Lists ───────────────────────────────────────────────────────────────────

/// The header of a list is its leading blank lines and remarks.
pub proof fn law_header_is_the_leading_remarks(list: Seq<Seq<char>>)
    ensures
        header_lines(list).len() <= list.len(),
        header_lines(list) == list.take(header_lines(list).len() as int),
        forall|i: int|
            0 <= i < header_lines(list).len() ==> trim(#[trigger] list[i]).len() == 0
                || "#"@.is_prefix_of(list[i]),
        header_lines(list).len() < list.len() ==> trim(list[header_lines(list).len() as int]).len() > 0
            && !"#"@.is_prefix_of(list[header_lines(list).len() as int]),
    decreases list.len(),
{
    if list.len() > 0 && (trim(list[0]).len() == 0 || "#"@.is_prefix_of(list[0])) {
        let rest = list.drop_first();
        law_header_is_the_leading_remarks(rest);
        let n = header_lines(rest).len();
        assert(forall|i: int| 0 <= i < rest.len() ==> rest[i] == list[i + 1]);
        assert(header_lines(list) =~= list.take((n + 1) as int)) by {
            assert(header_lines(rest) == rest.take(n as int));
            assert forall|i: int| 0 <= i < n + 1 implies header_lines(list)[i] == list[i] by {
                if i > 0 {
                    assert(rest.take(n as int)[i - 1] == rest[i - 1]);
                }
            }
        }
        assert forall|i: int| 0 <= i < n + 1 implies trim(#[trigger] list[i]).len() == 0
            || "#"@.is_prefix_of(list[i]) by {
            if i > 0 {
                assert(rest[i - 1] == list[i]);
            }
        }
        if n + 1 < list.len() {
            assert(rest[n as int] == list[n as int + 1]);
        }
    }
}

/// A source is recorded as the last one, and the build is the greatest of
/// those that are stated.
pub proof fn law_sources_are_recorded(h: Header, source: Seq<char>, build: Option<u32>)
    ensures
        h.with_source(source, build).sources == h.sources.push(source),
        h.build is None ==> h.with_source(source, build).build == build,
        build is None ==> h.with_source(source, build).build == h.build,
        h.build matches Some(a) ==> build matches Some(b) ==> {
            &&& h.with_source(source, build).build matches Some(c)
            &&& h.with_source(source, build).build->Some_0 >= a
            &&& h.with_source(source, build).build->Some_0 >= b
            &&& (h.with_source(source, build).build == Some(a) || h.with_source(source, build).build
                == Some(b))
        },
{
}

/// What a line of a header says: a source, a build, or nothing.
pub proof fn law_lines_of_a_header(h: Header, line: Seq<char>)
    ensures
        "# source:"@.is_prefix_of(line) ==> h.with_line(line).sources == h.sources.push(
            trim(line.skip(9)),
        ) && h.with_line(line).build == h.build,
        "# build:"@.is_prefix_of(line) ==> h.with_line(line).sources == h.sources && h.with_line(
            line,
        ).build == (match number(trim(line.skip(8)), 10, 0xffff_ffff) {
            Some(n) => Some(n as u32),
            None => None::<u32>,
        }),
        "# Names harvested from the game's own files"@.is_prefix_of(line) ==> h.with_line(line).sources
            == h.sources.push("harvest by an earlier rage (game build not recorded)"@) && h.with_line(
            line,
        ).build == h.build,
        !"# source:"@.is_prefix_of(line) && !"# build:"@.is_prefix_of(line)
            && !"# Names harvested from the game's own files"@.is_prefix_of(line) ==> h.with_line(line)
            == h,
{
    reveal_strlit("# source:");
    reveal_strlit("# build:");
    reveal_strlit("# Names harvested from the game's own files");
    let a = "# source:"@;
    let b = "# build:"@;
    let c = "# Names harvested from the game's own files"@;
    assert(a.len() == 9 && b.len() == 8 && a[2] == 's' && b[2] == 'b' && c[2] == 'N');
    if a.is_prefix_of(line) {
        assert(line[2] == 's') by {
            assert(line.subrange(0, a.len() as int)[2] == a[2]);
        }
    }
    if b.is_prefix_of(line) {
        assert(line[2] == 'b') by {
            assert(line.subrange(0, b.len() as int)[2] == b[2]);
        }
    }
    if c.is_prefix_of(line) {
        assert(line[2] == 'N') by {
            assert(line.subrange(0, c.len() as int)[2] == c[2]);
        }
    }
}

/// What a list is said to cover.
pub proof fn law_coverage(h: Header)
    ensures
        h.build matches Some(b) ==> h.covers() == "covers game build "@ + decimal(b as nat),
        h.build is None && h.sources.len() == 0 ==> h.covers() == "of unknown origin"@,
        h.build is None && h.sources.len() > 0 ==> h.covers()
            == "of unstated game build (a `names harvest` records the game's build; `names fetch --build N` states a downloaded list's)"@,
{
}

/// The header is written as a remark, the sources and the build.
pub proof fn law_header_is_written(h: Header, i: int)
    ensures
        h.as_lines()[0] == "# Names for `rage`: one per line, hashed with JOAAT when loaded."@,
        0 <= i < h.sources.len() ==> h.as_lines()[1 + i] == "# source: "@ + h.sources[i],
        h.build matches Some(b) ==> h.as_lines().len() == h.sources.len() + 2 && h.as_lines().last()
            == "# build: "@ + decimal(b as nat),
        h.build is None ==> h.as_lines().len() == h.sources.len() + 1,
{
}

/// A line is a name, trimmed, unless it is blank or a remark.
pub proof fn law_one_more_line(list: Seq<Seq<char>>, line: Seq<char>)
    ensures
        names_of_lines(Seq::empty()) == Set::<Seq<char>>::empty(),
        names_of_lines(list.push(line)) == (if trim(line).len() > 0 && !"#"@.is_prefix_of(trim(line)) {
            names_of_lines(list).insert(trim(line))
        } else {
            names_of_lines(list)
        }),
{
    assert(list.push(line).drop_last() =~= list);
}

// ── The table ───────────────────────────────────────────────────────────────

/// A name is entered under its hash, unless one is there already; nothing else
/// changes.
pub proof fn law_first_name_of_a_hash_stays(m: Map<u32, Seq<char>>, name: Seq<char>, other: u32)
    ensures
        with_name(m, name).contains_key(joaat(name)),
        m.contains_key(joaat(name)) ==> with_name(m, name) == m,
        !m.contains_key(joaat(name)) ==> with_name(m, name)[joaat(name)] == name,
        other != joaat(name) ==> (with_name(m, name).contains_key(other) <==> m.contains_key(other)),
        m.contains_key(other) ==> with_name(m, name).contains_key(other) && with_name(m, name)[other]
            == m[other],
{
}

/// What lists, lines and stems add to the table, one by one: a line as above,
/// a stem as it is and then in lower case.
pub proof fn law_table_grows_one_by_one(
    m: Map<u32, Seq<char>>,
    list: Seq<Seq<char>>,
    one: Seq<char>,
)
    ensures
        with_name_lines(m, Seq::empty()) == m,
        with_name_lines(m, list.push(one)) == (if trim(one).len() > 0 && !"#"@.is_prefix_of(trim(one)) {
            with_name(with_name_lines(m, list), trim(one))
        } else {
            with_name_lines(m, list)
        }),
        with_stems(m, Seq::empty()) == m,
        with_stems(m, list.push(one)) == with_name(
            with_name(with_stems(m, list), one),
            lowercase(one),
        ),
        with_lists(m, Seq::empty()) == m,
        with_lists(m, list.push(one)) == with_name_lines(with_lists(m, list), lines(one)),
{
    assert(list.push(one).drop_last() =~= list);
}

/// A hash is shown by its name, else by its digits; no hash by a nought.
pub proof fn law_hashes_are_shown(m: Map<u32, Seq<char>>, hash: u32)
    ensures
        m.contains_key(hash) ==> resolved(m, hash) == m[hash],
        !m.contains_key(hash) && hash != 0 ==> resolved(m, hash) == "hash_"@ + hex_digits_upper(
            hash as nat,
            8,
        ),
        !m.contains_key(0) ==> resolved(m, 0) == "0"@,
        placeholder(0) == "0"@,
        hash != 0 ==> placeholder(hash) == "hash_"@ + hex_digits_upper(hash as nat, 8),
{
}

// ── The calendar ────────────────────────────────────────────────────────────

/// Days follow each other within a month, and from the last of a month to the
/// first of the next. The count starts with the first of January 1970.
pub proof fn law_days_follow_each_other(y: int, m: int, d: int)
    ensures
        days_to_date(1970, 1, 1) == 0,
        days_to_date(y, m, d + 1) == days_to_date(y, m, d) + 1,
        m == 4 || m == 6 || m == 9 || m == 11 ==> days_to_date(y, m + 1, 1) == days_to_date(y, m, 30)
            + 1,
        m == 1 || m == 3 || m == 5 || m == 7 || m == 8 || m == 10 ==> days_to_date(y, m + 1, 1)
            == days_to_date(y, m, 31) + 1,
        y % 400 == 0 || (y % 4 == 0 && y % 100 != 0) ==> days_to_date(y, 3, 1) == days_to_date(y, 2, 29)
            + 1,
        !(y % 400 == 0 || (y % 4 == 0 && y % 100 != 0)) ==> days_to_date(y, 3, 1) == days_to_date(
            y,
            2,
            28,
        ) + 1,
{
    if m >= 1 {
        assert(days_before_month(y, m + 1) == days_before_month(y, m) + month_days(y, m));
    }
    assert(days_before_month(y, 3) == days_before_month(y, 2) + month_days(y, 2));
    assert(y % 400 == 0 ==> y % 4 == 0);
}

/// The first day of a year follows the last of the year before.
pub proof fn law_years_follow_each_other(y: int)
    requires
        y >= 0,
    ensures
        days_to_date(y + 1, 1, 1) == days_to_date(y, 12, 31) + 1,
{
    lemma_year(y);
    lemma_months(y);
    assert(days_before_month(y + 1, 1) == 0);
}

proof fn lemma_months(y: int)
    ensures
        days_before_month(y, 12) + 31 == (if is_leap(y) {
            366int
        } else {
            365
        }),
{
    reveal_with_fuel(days_before_month, 13);
}

proof fn lemma_year(y: int)
    requires
        y >= 0,
    ensures
        days_before_year(y + 1) == days_before_year(y) + (if is_leap(y) {
            366int
        } else {
            365
        }),
{
    assert((y + 4) / 4 == (y + 3) / 4 + (if y % 4 == 0 {
        1int
    } else {
        0
    }));
    assert((y + 100) / 100 == (y + 99) / 100 + (if y % 100 == 0 {
        1int
    } else {
        0
    }));
    assert((y + 400) / 400 == (y + 399) / 400 + (if y % 400 == 0 {
        1int
    } else {
        0
    }));
    assert(y % 100 == 0 ==> y % 4 == 0);
    assert(y % 400 == 0 ==> y % 100 == 0);
}

} // verus!
