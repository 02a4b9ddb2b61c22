//! `rage names`: which names of the game's own files, of a downloaded list or
//! of a lookup are kept and shown.
use vstd::prelude::*;
use vstd::string::*;
use vstd::utf8::{decode_utf8, valid_utf8};
use crate::file_names::{extension, extension_of, file_stem, stem};
use crate::hash::{joaat, rage_joaat};
use crate::index::scan::{ArchiveFile, Content, Want};
use crate::name_table::{name_of, table};
use rage_formats::NameTable;
use crate::names::{in_order, names_of_lines, read_list, write_list, Header, ListHeader, NameSet};
use crate::text::{
    ascii_lowercase, chars_of, decimal, decimal_of, ends_with, hex_digits_upper, hex_range,
    hex_upper_of, is_digit, is_hex_digit, lemma_hex_digits, lines, lines_of, lowercase, number,
    number_of, replace, replaced, same, split, split_on, strip_prefix, text_from_utf8, text_of,
    texts, to_ascii_lowercase, to_lowercase, trim, trimmed, unlines,
};

verus! {

/// A public, one-name-per-line dump of the game's archetype names,
/// maintained by the community; what `fetch` reads without `--url`.
pub const DEFAULT_LIST_URL: &'static str =
    "https://raw.githubusercontent.com/DurtyFree/gta-v-data-dumps/master/ObjectList.ini";

// ── Arguments ───────────────────────────────────────────────────────────────

/// The arguments of `rage names`.
#[derive(Debug)]
pub struct NamesArgs {
    pub command: NamesCommand,
}

/// What `rage names` does.
#[derive(Debug)]
pub enum NamesCommand {
    Harvest(HarvestArgs),
    Fetch(FetchArgs),
    Info,
    Lookup { terms: Vec<String>, names: Vec<String> },
}

/// The arguments of `rage names harvest`.
#[derive(Debug)]
pub struct HarvestArgs {
    pub output: Option<String>,
}

/// The arguments of `rage names fetch`.
#[derive(Debug)]
pub struct FetchArgs {
    pub url: String,
    pub build: Option<u32>,
    pub output: Option<String>,
    pub replace: bool,
}

// ── Downloaded lists ────────────────────────────────────────────────────────

/// `s` without the byte order marks it starts with.
pub open spec fn strip_marks(s: Seq<char>) -> Seq<char>
    decreases s.len(),
{
    if s.len() > 0 && s[0] == '\u{feff}' {
        strip_marks(s.drop_first())
    } else {
        s
    }
}

/// What a line of a downloaded list says, without what surrounds it.
pub open spec fn fetched_line(line: Seq<char>) -> Seq<char> {
    trim(strip_marks(trim(line)))
}

/// A line of a downloaded list that holds a name: not empty, no comment, no
/// section.
pub open spec fn is_fetched_name(s: Seq<char>) -> bool {
    s.len() > 0 && s[0] != '#' && s[0] != ';' && s[0] != '['
}

/// The number of lines that hold a name.
pub open spec fn fetched_count(list: Seq<Seq<char>>) -> nat
    decreases list.len(),
{
    if list.len() == 0 {
        0
    } else {
        fetched_count(list.drop_last()) + (if is_fetched_name(fetched_line(list.last())) {
            1nat
        } else {
            0
        })
    }
}

/// `names` with those of the lines of a downloaded list.
pub open spec fn with_fetched(names: Set<Seq<char>>, list: Seq<Seq<char>>) -> Set<Seq<char>>
    decreases list.len(),
{
    if list.len() == 0 {
        names
    } else {
        let before = with_fetched(names, list.drop_last());
        let name = fetched_line(list.last());
        if is_fetched_name(name) {
            before.insert(name)
        } else {
            before
        }
    }
}

/// What a line of a downloaded list says, without what surrounds it.
fn fetched_text(line: &str) -> (out: String)
    ensures
        out@ == fetched_line(line@),
{
    let t = trimmed(line);
    let v = chars_of(t.as_str());
    let mut from: usize = 0;
    assert(v@.skip(0) =~= v@);
    while from < v.len() && v[from] == '\u{feff}'
        invariant
            from <= v.len(),
            strip_marks(v@) == strip_marks(v@.skip(from as int)),
        decreases v.len() - from,
    {
        assert(v@.skip(from as int).drop_first() =~= v@.skip(from + 1));
        from = from + 1;
    }
    let out = text_of(&v, from, v.len());
    assert(out@ =~= v@.skip(from as int));
    trimmed(out.as_str())
}

/// Adds the names of a downloaded list: one per line, trimmed, `#` and `;`
/// comments and `[section]` lines skipped. Returns how many lines held a name.
pub fn add_fetched(names: &mut NameSet, body: &str) -> (count: usize)
    requires
        old(names).wf(),
    ensures
        final(names).wf(),
        final(names)@ == with_fetched(old(names)@, lines(body@)),
        count == fetched_count(lines(body@)),
{
    let list = lines_of(body);
    let ghost all = lines(body@);
    let mut count: usize = 0;
    let mut i: usize = 0;
    assert(all.take(0) =~= Seq::empty());
    while i < list.len()
        invariant
            i <= list.len(),
            all == texts(list@),
            names.wf(),
            names@ == with_fetched(old(names)@, all.take(i as int)),
            count == fetched_count(all.take(i as int)),
            count <= i,
        decreases list.len() - i,
    {
        proof {
            assert(all.take(i + 1).drop_last() =~= all.take(i as int));
            assert(all.take(i + 1).last() == list[i as int]@);
        }
        let name = fetched_text(list[i].as_str());
        let v = chars_of(name.as_str());
        if v.len() > 0 && v[0] != '#' && v[0] != ';' && v[0] != '[' {
            count = count + 1;
            names.insert(name.as_str());
        }
        i = i + 1;
    }
    assert(all.take(all.len() as int) =~= all);
    count
}

// ── Lookups ─────────────────────────────────────────────────────────────────

/// The hash that a term of a lookup writes: `0x` and hexadecimal digits, or
/// decimal digits.
pub open spec fn term_hash(term: Seq<char>) -> Option<u32> {
    let hex = if "0x"@.is_prefix_of(term) || "0X"@.is_prefix_of(term) {
        number(term.skip(2), 16, u32::MAX as nat)
    } else {
        None
    };
    match hex {
        Some(n) => Some(n as u32),
        None => match number(term, 10, u32::MAX as nat) {
            Some(n) => Some(n as u32),
            None => None,
        },
    }
}

/// The hash that a term of a lookup writes, if it writes one.
pub fn lookup_hash(term: &str) -> (r: Option<u32>)
    ensures
        r == term_hash(term@),
{
    proof {
        reveal_strlit("0x");
        reveal_strlit("0X");
    }
    let digits = match strip_prefix(term, "0x") {
        Some(d) => Some(d),
        None => strip_prefix(term, "0X"),
    };
    if let Some(d) = digits {
        if let Some(n) = number_of(d.as_str(), 16, u32::MAX) {
            return Some(n);
        }
    }
    number_of(term, 10, u32::MAX)
}

/// What a lookup of `term` prints.
pub open spec fn lookup_text(term: Seq<char>, names: Map<u32, Seq<char>>) -> Seq<char> {
    match term_hash(term) {
        Some(h) => "0x"@ + hex_digits_upper(h as nat, 8) + "  "@ + (if names.contains_key(h) {
            names[h]
        } else {
            "(unknown)"@
        }),
        None => "0x"@ + hex_digits_upper(joaat(term) as nat, 8) + "  "@ + term,
    }
}

/// The line a lookup prints for one term: the name of a hash, or the hash of
/// a name.
pub fn lookup(term: &str, names: &NameTable) -> (out: String)
    ensures
        out@ == lookup_text(term@, table(*names)),
{
    let mut out = String::from_str("0x");
    match lookup_hash(term) {
        Some(h) => {
            out.append(hex_upper_of(h, 8).as_str());
            out.append("  ");
            match name_of(names, h) {
                Some(name) => {
                    out.append(name.as_str());
                },
                None => {
                    out.append("(unknown)");
                },
            }
        },
        None => {
            out.append(hex_upper_of(rage_joaat(term), 8).as_str());
            out.append("  ");
            out.append(term);
        },
    }
    out
}

// ── Identifiers ─────────────────────────────────────────────────────────────

/// An ASCII letter.
pub open spec fn is_letter(c: char) -> bool {
    'a' <= c <= 'z' || 'A' <= c <= 'Z'
}

/// A character that a name is made of.
pub open spec fn is_name_char(c: char) -> bool {
    is_letter(c) || is_digit(c) || c == '_' || c == '+' || c == '-' || c == '.' || c == '@'
}

/// What a number starts with.
pub open spec fn starts_a_number(c: char) -> bool {
    is_digit(c) || c == '-' || c == '.' || c == '+'
}

/// A word that writes a floating-point number without a digit, in any case.
pub open spec fn is_number_word(s: Seq<char>) -> bool {
    let t = ascii_lowercase(s);
    t == "inf"@ || t == "infinity"@ || t == "nan"@
}

/// A long run of hexadecimal digits and dashes: a GUID or a blob.
pub open spec fn is_hex_blob(s: Seq<char>) -> bool {
    s.len() >= 16 && forall|i: int| 0 <= i < s.len() ==> is_hex_digit(#[trigger] s[i]) || s[i] == '-'
}

/// A token that could be a name: something a hash was made of. Numbers, GUIDs,
/// hex blobs and punctuation are not.
pub open spec fn is_identifier(s: Seq<char>) -> bool {
    &&& 2 <= s.len() <= 64
    &&& !starts_a_number(s[0])
    &&& forall|i: int| 0 <= i < s.len() ==> is_name_char(#[trigger] s[i])
    &&& exists|i: int| 0 <= i < s.len() && is_letter(#[trigger] s[i])
    &&& !is_number_word(s)
    &&& s != "true"@
    &&& s != "false"@
    &&& !is_hex_blob(s)
}

/// `names` with `s`, trimmed, if it could be a name.
pub open spec fn with_identifier(names: Set<Seq<char>>, s: Seq<char>) -> Set<Seq<char>> {
    if is_identifier(trim(s)) {
        names.insert(trim(s))
    } else {
        names
    }
}

fn letter(c: char) -> (r: bool)
    ensures
        r == is_letter(c),
{
    ('a' <= c && c <= 'z') || ('A' <= c && c <= 'Z')
}

fn decimal_digit(c: char) -> (r: bool)
    ensures
        r == is_digit(c),
{
    '0' <= c && c <= '9'
}

fn hex_digit(c: char) -> (r: bool)
    ensures
        r == is_hex_digit(c),
{
    decimal_digit(c) || ('a' <= c && c <= 'f') || ('A' <= c && c <= 'F')
}

fn name_char(c: char) -> (r: bool)
    ensures
        r == is_name_char(c),
{
    letter(c) || decimal_digit(c) || c == '_' || c == '+' || c == '-' || c == '.' || c == '@'
}

/// Whether a word writes a floating-point number without a digit.
fn number_word(s: &str) -> (r: bool)
    ensures
        r == is_number_word(s@),
{
    let low = to_ascii_lowercase(s);
    same(low.as_str(), "inf") || same(low.as_str(), "infinity") || same(low.as_str(), "nan")
}

/// Whether a token could be a name.
pub fn could_be_name(s: &str) -> (r: bool)
    ensures
        r == is_identifier(s@),
{
    let v = chars_of(s);
    if v.len() < 2 || v.len() > 64 {
        return false;
    }
    if decimal_digit(v[0]) || v[0] == '-' || v[0] == '.' || v[0] == '+' {
        return false;
    }
    let mut letters: bool = false;
    let mut hexish: bool = true;
    let mut i: usize = 0;
    while i < v.len()
        invariant
            i <= v.len(),
            v@ == s@,
            forall|j: int| 0 <= j < i ==> is_name_char(#[trigger] v[j]),
            letters <==> exists|j: int| 0 <= j < i && is_letter(#[trigger] v[j]),
            hexish <==> forall|j: int| 0 <= j < i ==> is_hex_digit(#[trigger] v[j]) || v[j] == '-',
        decreases v.len() - i,
    {
        let c: char = v[i];
        if !name_char(c) {
            assert(!is_name_char(s@[i as int]));
            return false;
        }
        if letter(c) {
            letters = true;
        }
        if !hex_digit(c) && c != '-' {
            hexish = false;
        }
        i = i + 1;
    }
    if !letters || number_word(s) || same(s, "true") || same(s, "false") {
        proof {
            if is_identifier(s@) {
                let j = choose|j: int| 0 <= j < s@.len() && is_letter(#[trigger] s@[j]);
                assert(is_letter(v[j]));
            }
        }
        return false;
    }
    proof {
        let j = choose|j: int| 0 <= j < v.len() && is_letter(#[trigger] v[j]);
        assert(is_letter(s@[j]));
        assert forall|k: int| 0 <= k < s@.len() implies is_name_char(#[trigger] s@[k]) by {
            assert(is_name_char(v[k]));
        }
        if hexish {
            assert forall|k: int| 0 <= k < s@.len() implies is_hex_digit(#[trigger] s@[k]) || s@[k]
                == '-' by {
                assert(is_hex_digit(v[k]) || v[k] == '-');
            }
        }
        if is_hex_blob(s@) {
            assert forall|k: int| 0 <= k < v.len() implies is_hex_digit(#[trigger] v[k]) || v[k]
                == '-' by {
                assert(is_hex_digit(s@[k]) || s@[k] == '-');
            }
        }
    }
    !(hexish && v.len() >= 16)
}

/// Keeps a token when it could be a name.
pub fn add_identifier(out: &mut NameSet, s: &str)
    requires
        old(out).wf(),
    ensures
        final(out).wf(),
        final(out)@ == with_identifier(old(out)@, s@),
{
    let t = trimmed(s);
    if could_be_name(t.as_str()) {
        out.insert(t.as_str());
    }
}

// ── XML ─────────────────────────────────────────────────────────────────────

/// A node of an XML document.
#[derive(Debug)]
pub struct XmlNode {
    pub is_element: bool,
    pub tag: String,
    /// The name and the value of each attribute.
    pub attributes: Vec<(String, String)>,
    /// An element stands inside.
    pub has_elements: bool,
    pub text: Option<String>,
}

/// An `XmlNode` as texts.
pub struct XmlView {
    pub is_element: bool,
    pub tag: Seq<char>,
    pub attributes: Seq<(Seq<char>, Seq<char>)>,
    pub has_elements: bool,
    pub text: Option<Seq<char>>,
}

impl View for XmlNode {
    type V = XmlView;

    open spec fn view(&self) -> XmlView {
        XmlView {
            is_element: self.is_element,
            tag: self.tag@,
            attributes: self.attributes@.map_values(|a: (String, String)| (a.0@, a.1@)),
            has_elements: self.has_elements,
            text: match self.text {
                Some(t) => Some(t@),
                None => None,
            },
        }
    }
}

/// The nodes of a list, as texts.
pub open spec fn node_texts(list: Seq<XmlNode>) -> Seq<XmlView> {
    list.map_values(|n: XmlNode| n@)
}

/// The nodes that `roxmltree::Document::parse` finds in a text, in document
/// order; none where it fails.
pub uninterp spec fn xml_nodes(text: Seq<char>) -> Option<Seq<XmlView>>;

/// `roxmltree::Document::parse`, whose result depends on the text alone: every
/// node of the document with its tag, its attributes, whether an element
/// stands inside, and its text.
#[verifier::external_body]
fn parse_xml(text: &str) -> (r: Option<Vec<XmlNode>>)
    ensures
        match r {
            Some(list) => xml_nodes(text@) == Some(node_texts(list@)),
            None => xml_nodes(text@) == None::<Seq<XmlView>>,
        },
{
    let doc = roxmltree::Document::parse(text).ok()?;
    Some(doc.descendants().map(|n| XmlNode {
        is_element: n.is_element(),
        tag: n.tag_name().name().to_string(),
        attributes: n.attributes().map(|a| (a.name().to_string(), a.value().to_string())).collect(),
        has_elements: n.first_element_child().is_some(),
        text: n.text().map(str::to_string),
    }).collect())
}

/// A text with its commas and line ends made blanks.
pub open spec fn blanked(s: Seq<char>) -> Seq<char> {
    replace(replace(replace(replace(s, ',', ' '), '\n', ' '), '\r', ' '), '\t', ' ')
}

/// `names` with those among the texts of a list.
pub open spec fn with_identifiers(names: Set<Seq<char>>, list: Seq<Seq<char>>) -> Set<Seq<char>>
    decreases list.len(),
{
    if list.len() == 0 {
        names
    } else {
        with_identifier(with_identifiers(names, list.drop_last()), list.last())
    }
}

/// `names` with those among the names and values of attributes.
pub open spec fn with_attributes(
    names: Set<Seq<char>>,
    list: Seq<(Seq<char>, Seq<char>)>,
) -> Set<Seq<char>>
    decreases list.len(),
{
    if list.len() == 0 {
        names
    } else {
        with_identifier(
            with_identifier(with_attributes(names, list.drop_last()), list.last().0),
            list.last().1,
        )
    }
}

/// `names` with those that an XML node holds: its tag, its attributes, and
/// the words of its text where no element stands inside.
pub open spec fn with_node(names: Set<Seq<char>>, node: XmlView) -> Set<Seq<char>> {
    if !node.is_element {
        names
    } else {
        let attributes = with_attributes(with_identifier(names, node.tag), node.attributes);
        if !node.has_elements && node.text is Some {
            with_identifiers(attributes, split(blanked(node.text->Some_0), ' '))
        } else {
            attributes
        }
    }
}

/// `names` with those that the nodes of an XML document hold.
pub open spec fn with_nodes(names: Set<Seq<char>>, list: Seq<XmlView>) -> Set<Seq<char>>
    decreases list.len(),
{
    if list.len() == 0 {
        names
    } else {
        with_node(with_nodes(names, list.drop_last()), list.last())
    }
}

/// `names` with those that an XML text holds; none where it does not parse.
pub open spec fn with_xml(names: Set<Seq<char>>, text: Seq<char>) -> Set<Seq<char>> {
    match xml_nodes(text) {
        Some(list) => with_nodes(names, list),
        None => names,
    }
}

fn add_words(text: &str, out: &mut NameSet)
    requires
        old(out).wf(),
    ensures
        final(out).wf(),
        final(out)@ == with_identifiers(old(out)@, split(blanked(text@), ' ')),
{
    let a = replaced(text, ',', ' ');
    let b = replaced(a.as_str(), '\n', ' ');
    let c = replaced(b.as_str(), '\r', ' ');
    let d = replaced(c.as_str(), '\t', ' ');
    let words = split_on(d.as_str(), ' ');
    let ghost all = texts(words@);
    let mut i: usize = 0;
    assert(all.take(0) =~= Seq::empty());
    while i < words.len()
        invariant
            i <= words.len(),
            all == texts(words@),
            out.wf(),
            out@ == with_identifiers(old(out)@, all.take(i as int)),
        decreases words.len() - i,
    {
        proof {
            assert(all.take(i + 1).drop_last() =~= all.take(i as int));
            assert(all.take(i + 1).last() == words[i as int]@);
        }
        add_identifier(out, words[i].as_str());
        i = i + 1;
    }
    assert(all.take(all.len() as int) =~= all);
}

fn add_node(node: &XmlNode, out: &mut NameSet)
    requires
        old(out).wf(),
    ensures
        final(out).wf(),
        final(out)@ == with_node(old(out)@, node@),
{
    if !node.is_element {
        return;
    }
    add_identifier(out, node.tag.as_str());
    let ghost start = out@;
    let ghost all = node@.attributes;
    let mut i: usize = 0;
    assert(all.take(0) =~= Seq::empty());
    while i < node.attributes.len()
        invariant
            i <= node.attributes.len(),
            all == node@.attributes,
            out.wf(),
            out@ == with_attributes(start, all.take(i as int)),
        decreases node.attributes.len() - i,
    {
        proof {
            assert(all.take(i + 1).drop_last() =~= all.take(i as int));
            assert(all.take(i + 1).last() == all[i as int]);
        }
        add_identifier(out, node.attributes[i].0.as_str());
        add_identifier(out, node.attributes[i].1.as_str());
        i = i + 1;
    }
    assert(all.take(all.len() as int) =~= all);
    if !node.has_elements {
        if let Some(t) = &node.text {
            add_words(t.as_str(), out);
        }
    }
}

/// Element names, attribute names, and identifier-like attribute values and
/// text (type names, hash names, model names) of the given nodes.
pub fn harvest_nodes(nodes: &Vec<XmlNode>, out: &mut NameSet)
    requires
        old(out).wf(),
    ensures
        final(out).wf(),
        final(out)@ == with_nodes(old(out)@, node_texts(nodes@)),
{
    let ghost all = node_texts(nodes@);
    let mut i: usize = 0;
    assert(all.take(0) =~= Seq::empty());
    while i < nodes.len()
        invariant
            i <= nodes.len(),
            all == node_texts(nodes@),
            out.wf(),
            out@ == with_nodes(old(out)@, all.take(i as int)),
        decreases nodes.len() - i,
    {
        proof {
            assert(all.take(i + 1).drop_last() =~= all.take(i as int));
            assert(all.take(i + 1).last() == nodes[i as int]@);
        }
        add_node(&nodes[i], out);
        i = i + 1;
    }
    assert(all.take(all.len() as int) =~= all);
}

/// The names in an XML text; none where it does not parse.
pub fn harvest_xml(text: &str, out: &mut NameSet)
    requires
        old(out).wf(),
    ensures
        final(out).wf(),
        final(out)@ == with_xml(old(out)@, text@),
{
    if let Some(nodes) = parse_xml(text) {
        harvest_nodes(&nodes, out);
    }
}

// ── Archives ────────────────────────────────────────────────────────────────

/// A file that may hold XML, by its extension.
pub open spec fn may_hold_xml(name: Seq<char>) -> bool {
    let ext = extension(name);
    ext == "meta"@ || ext == "xml"@ || ext == "ymt"@ || ext == "ymf"@ || ext == "dat"@
}

/// What has to be read of a file of the given lowercase name.
pub open spec fn harvest_wants(name: Seq<char>) -> Want {
    if ".rpf"@.is_suffix_of(name) {
        Want::NestedArchive
    } else if may_hold_xml(name) {
        Want::Bytes
    } else {
        Want::Nothing
    }
}

/// `names` with those that the bytes of a file hold: those of its XML, where
/// it starts with `<` and is UTF-8.
pub open spec fn with_bytes(names: Set<Seq<char>>, data: Seq<u8>) -> Set<Seq<char>> {
    if data.len() > 0 && data[0] == 0x3c && valid_utf8(data) {
        with_xml(names, decode_utf8(data))
    } else {
        names
    }
}

/// `names` with those of the files of an archive and of those nested in it:
/// every stem, as spelled and in lowercase, and the names inside the XML
/// files.
pub open spec fn with_harvest(names: Set<Seq<char>>, files: Seq<ArchiveFile>) -> Set<Seq<char>>
    decreases files,
{
    if files.len() == 0 {
        names
    } else {
        let before = with_harvest(names, files.drop_last());
        let file = files[files.len() - 1];
        let lower = lowercase(file.name@);
        if ".rpf"@.is_suffix_of(lower) {
            match file.content {
                Content::Nested(inner) => with_harvest(before, inner@),
                _ => before,
            }
        } else {
            let s = stem(file.name@);
            let stems = with_identifier(with_identifier(before, s), lowercase(s));
            match file.content {
                Content::Data(data) => if may_hold_xml(lower) {
                    with_bytes(stems, data@)
                } else {
                    stems
                },
                _ => stems,
            }
        }
    }
}

fn xml_file(name: &str) -> (r: bool)
    ensures
        r == may_hold_xml(name@),
{
    let ext = extension_of(name);
    let ext = ext.as_str();
    same(ext, "meta") || same(ext, "xml") || same(ext, "ymt") || same(ext, "ymf") || same(
        ext,
        "dat",
    )
}

/// What has to be read of a file before its names are harvested.
pub fn harvest_wanted(file_name: &str) -> (r: Want)
    ensures
        r == harvest_wants(lowercase(file_name@)),
{
    let name = to_lowercase(file_name);
    if ends_with(name.as_str(), ".rpf") {
        Want::NestedArchive
    } else if xml_file(name.as_str()) {
        Want::Bytes
    } else {
        Want::Nothing
    }
}

fn add_bytes(data: &Vec<u8>, out: &mut NameSet)
    requires
        old(out).wf(),
    ensures
        final(out).wf(),
        final(out)@ == with_bytes(old(out)@, data@),
{
    if data.len() > 0 && data[0] == 0x3c {
        if let Some(text) = text_from_utf8(data.as_slice()) {
            harvest_xml(text.as_str(), out);
        }
    }
}

/// Every entry's stem, and the names inside every plain-text XML entry,
/// descending into nested archives.
pub fn harvest_archive(files: &Vec<ArchiveFile>, out: &mut NameSet)
    requires
        old(out).wf(),
    ensures
        final(out).wf(),
        final(out)@ == with_harvest(old(out)@, files@),
    decreases files@,
{
    let mut i: usize = 0;
    assert(files@.take(0) =~= Seq::empty());
    while i < files.len()
        invariant
            i <= files.len(),
            out.wf(),
            out@ == with_harvest(old(out)@, files@.take(i as int)),
        decreases files.len() - i,
    {
        let file = &files[i];
        proof {
            assert(files@.take(i + 1).drop_last() =~= files@.take(i as int));
            assert(files@.take(i + 1)[i as int] == files[i as int]);
        }
        let lower = to_lowercase(file.name.as_str());
        if ends_with(lower.as_str(), ".rpf") {
            if let Content::Nested(inner) = &file.content {
                assert(decreases_to!(files@ => files@[i as int]));
                harvest_archive(inner, out);
            }
        } else {
            let s = file_stem(file.name.as_str());
            add_identifier(out, s.as_str());
            add_identifier(out, to_lowercase(s.as_str()).as_str());
            if xml_file(lower.as_str()) {
                if let Content::Data(data) = &file.content {
                    add_bytes(data, out);
                }
            }
        }
        i = i + 1;
    }
    assert(files@.take(files.len() as int) =~= files@);
}

// ── What the command does ───────────────────────────────────────────────────

/// What `rage names` is to do next.
#[derive(Debug)]
pub enum NamesPlan {
    /// Scan the game that the executable at `exe` belongs to.
    Harvest { exe: String, output: Option<String> },
    Fetch { url: String, build: Option<u32>, output: Option<String>, replace: bool },
    Info,
    Lookup { terms: Vec<String>, names: Vec<String> },
    /// A harvest without an executable.
    NoExecutable,
}

/// What is done for the given arguments, where `exe` is the executable that
/// was named.
pub open spec fn plan_of(args: NamesArgs, exe: Option<String>) -> NamesPlan {
    match args.command {
        NamesCommand::Harvest(h) => match exe {
            Some(e) => NamesPlan::Harvest { exe: e, output: h.output },
            None => NamesPlan::NoExecutable,
        },
        NamesCommand::Fetch(f) => NamesPlan::Fetch {
            url: f.url,
            build: f.build,
            output: f.output,
            replace: f.replace,
        },
        NamesCommand::Info => NamesPlan::Info,
        NamesCommand::Lookup { terms, names } => NamesPlan::Lookup { terms, names },
    }
}

/// Decides what is to be done; only a harvest needs the game's executable.
pub fn run(args: NamesArgs, exe: Option<String>) -> (plan: NamesPlan)
    ensures
        plan == plan_of(args, exe),
{
    match args.command {
        NamesCommand::Harvest(h) => match exe {
            Some(e) => NamesPlan::Harvest { exe: e, output: h.output },
            None => NamesPlan::NoExecutable,
        },
        NamesCommand::Fetch(f) => NamesPlan::Fetch {
            url: f.url,
            build: f.build,
            output: f.output,
            replace: f.replace,
        },
        NamesCommand::Info => NamesPlan::Info,
        NamesCommand::Lookup { terms, names } => NamesPlan::Lookup { terms, names },
    }
}

/// Where a new list goes: the file that was asked for, else the usual one;
/// nowhere if there is no directory for it.
pub fn list_path(output: Option<String>, usual: Option<String>) -> (r: Option<String>)
    ensures
        r == (if output is Some {
            output
        } else {
            usual
        }),
{
    match output {
        Some(p) => Some(p),
        None => usual,
    }
}

/// What a new list starts from: the text of the list on disk, unless there
/// is none or it is to be replaced.
pub fn list_target(on_disk: &Option<String>, replace: bool) -> (r: (ListHeader, NameSet))
    ensures
        r.1.wf(),
        match *on_disk {
            Some(text) if !replace => r.0@ == Header::of_text(text@) && r.1@ == names_of_lines(
                lines(text@),
            ),
            _ => r.0@ == Header::unknown() && r.1@ == Set::<Seq<char>>::empty(),
        },
{
    match on_disk {
        Some(text) if !replace => read_list(text.as_str()),
        _ => (ListHeader::default(), NameSet::new()),
    }
}

/// A list as it is written to disk, and what is said of it.
#[derive(Debug)]
pub struct NewList {
    pub text: String,
    pub report: String,
}

/// A build in parentheses, where one is known.
pub open spec fn build_note(build: Option<u32>) -> Seq<char> {
    match build {
        Some(b) => " (build "@ + decimal(b as nat) + ")"@,
        None => ""@,
    }
}

/// The source that a download is recorded as.
pub open spec fn fetch_source(url: Seq<char>, date: Seq<char>, build: Option<u32>) -> Seq<char> {
    "fetch "@ + url + " on "@ + date + build_note(build)
}

/// What is said of a list that was downloaded.
pub open spec fn fetch_report(
    names: nat,
    path: Seq<char>,
    fresh: nat,
    coverage: Seq<char>,
) -> Seq<char> {
    "Wrote "@ + decimal(names) + " names to "@ + path + " ("@ + decimal(fresh) + " new; the list "@
        + coverage + ")"@
}

/// Adds a downloaded list to what is on disk: the list to write and what is
/// said of it, or nothing when no line of it holds a name.
pub fn fetch(
    header: ListHeader,
    names: NameSet,
    body: &str,
    url: &str,
    build: Option<u32>,
    date: &str,
    path: &str,
) -> (r: Option<NewList>)
    requires
        names.wf(),
    ensures
        r is None <==> fetched_count(lines(body@)) == 0,
        r matches Some(new) ==> {
            let after = header@.with_source(fetch_source(url@, date@, build), build);
            let all = with_fetched(names@, lines(body@));
            &&& new.text@ == unlines(after.as_lines() + in_order(all))
            &&& new.report@ == fetch_report(
                all.len(),
                path@,
                (all.len() - names@.len()) as nat,
                after.covers(),
            )
        },
{
    let mut header = header;
    let mut names = names;
    let ghost had = names@;
    let before: usize = names.len();
    if add_fetched(&mut names, body) == 0 {
        return None;
    }
    let mut source = String::from_str("fetch ");
    source.append(url);
    source.append(" on ");
    source.append(date);
    let mut note = String::from_str("");
    if let Some(b) = build {
        note = String::from_str(" (build ");
        note.append(decimal_of(b as u64).as_str());
        note.append(")");
    }
    source.append(note.as_str());
    header.add_source(source, build);
    let after: usize = names.len();
    proof {
        assert forall|s: Seq<char>| had.contains(s) implies names@.contains(s) by {
            law_fetching_only_adds(had, lines(body@), s);
        }
        vstd::set_lib::lemma_len_subset(had, names@);
    }
    let mut report = String::from_str("Wrote ");
    report.append(decimal_of(after as u64).as_str());
    report.append(" names to ");
    report.append(path);
    report.append(" (");
    report.append(decimal_of((after - before) as u64).as_str());
    report.append(" new; the list ");
    report.append(header.coverage().as_str());
    report.append(")");
    Some(NewList { text: write_list(&header, &names), report })
}

/// The source that a harvest is recorded as.
pub open spec fn harvest_source(
    exe: Seq<char>,
    version: Option<Seq<char>>,
    date: Seq<char>,
) -> Seq<char> {
    "harvest "@ + exe + " "@ + (match version {
        Some(v) => v,
        None => "(version unknown)"@,
    }) + " on "@ + date
}

/// What is said of a list that was harvested.
pub open spec fn harvest_report(names: nat, path: Seq<char>, coverage: Seq<char>) -> Seq<char> {
    "Wrote "@ + decimal(names) + " names to "@ + path + " (the list "@ + coverage + ")"@
}

/// The list of the names that were harvested, and what is said of it;
/// nothing when there are none. A harvest supersedes whatever was fetched, but
/// the previous sources stay in the header for the record.
pub fn harvest(
    header: ListHeader,
    names: &NameSet,
    exe: &str,
    version: &Option<String>,
    build: Option<u32>,
    date: &str,
    path: &str,
) -> (r: Option<NewList>)
    requires
        names.wf(),
    ensures
        r is None <==> names@.len() == 0,
        r matches Some(new) ==> {
            let v = match *version {
                Some(t) => Some(t@),
                None => None,
            };
            let after = header@.with_source(harvest_source(exe@, v, date@), build);
            &&& new.text@ == unlines(after.as_lines() + in_order(names@))
            &&& new.report@ == harvest_report(names@.len(), path@, after.covers())
        },
{
    let mut header = header;
    let count: usize = names.len();
    if count == 0 {
        return None;
    }
    let mut source = String::from_str("harvest ");
    source.append(exe);
    source.append(" ");
    match version {
        Some(v) => {
            source.append(v.as_str());
        },
        None => {
            source.append("(version unknown)");
        },
    }
    source.append(" on ");
    source.append(date);
    header.add_source(source, build);
    let mut report = String::from_str("Wrote ");
    report.append(decimal_of(count as u64).as_str());
    report.append(" names to ");
    report.append(path);
    report.append(" (the list ");
    report.append(header.coverage().as_str());
    report.append(")");
    Some(NewList { text: write_list(&header, names), report })
}

/// The lines that list the sources of a list.
pub open spec fn sources_text(sources: Seq<Seq<char>>) -> Seq<char>
    decreases sources.len(),
{
    if sources.len() == 0 {
        "Sources:\n"@
    } else {
        sources_text(sources.drop_last()) + "  "@ + sources.last() + "\n"@
    }
}

/// What `rage names info` prints.
pub open spec fn info_text(built_in: nat, path: Seq<char>, list: Option<Seq<char>>) -> Seq<char> {
    let head = "Built-in names: "@ + decimal(built_in) + "\nName list:      "@ + path + "\n"@;
    match list {
        Some(text) => {
            let header = Header::of_text(text);
            let known = head + "Names:          "@ + decimal(names_of_lines(lines(text)).len())
                + "\nCoverage:       "@ + header.covers() + "\n"@;
            if header.sources.len() == 0 {
                known
            } else {
                known + sources_text(header.sources)
            }
        },
        None => head
            + "None yet \u{2014} `rage names harvest --exe PATH` scans the game, `rage names fetch` downloads a public list.\n"@,
    }
}

/// What `rage names info` prints of the list whose text is given, if there is
/// one.
pub fn info(built_in: usize, path: &str, list: &Option<String>) -> (out: String)
    ensures
        out@ == info_text(
            built_in as nat,
            path@,
            match *list {
                Some(text) => Some(text@),
                None => None,
            },
        ),
{
    let mut out = String::from_str("Built-in names: ");
    out.append(decimal_of(built_in as u64).as_str());
    out.append("\nName list:      ");
    out.append(path);
    out.append("\n");
    match list {
        Some(text) => {
            let (header, names) = read_list(text.as_str());
            out.append("Names:          ");
            out.append(decimal_of(names.len() as u64).as_str());
            out.append("\nCoverage:       ");
            out.append(header.coverage().as_str());
            out.append("\n");
            if header.sources.len() > 0 {
                let mut sources = String::from_str("Sources:\n");
                let ghost all = texts(header.sources@);
                let mut i: usize = 0;
                assert(all.take(0) =~= Seq::empty());
                while i < header.sources.len()
                    invariant
                        i <= header.sources.len(),
                        all == texts(header.sources@),
                        sources@ == sources_text(all.take(i as int)),
                    decreases header.sources.len() - i,
                {
                    proof {
                        assert(all.take(i + 1).drop_last() =~= all.take(i as int));
                        assert(all.take(i + 1).last() == header.sources[i as int]@);
                    }
                    sources.append("  ");
                    sources.append(header.sources[i].as_str());
                    sources.append("\n");
                    i = i + 1;
                }
                assert(all.take(all.len() as int) =~= all);
                out.append(sources.as_str());
            }
        },
        None => {
            out.append(
                "None yet \u{2014} `rage names harvest --exe PATH` scans the game, `rage names fetch` downloads a public list.\n",
            );
        },
    }
    out
}

/// Whether a download's HTTP status says that it succeeded.
pub fn download_succeeded(status: u16) -> (r: bool)
    ensures
        r == (200 <= status < 300),
{
    200 <= status && status < 300
}

// ── Laws ────────────────────────────────────────────────────────────────────

/// Adding a downloaded list loses no name that was there, and adds only names
/// that the list holds.
pub proof fn law_fetching_only_adds(names: Set<Seq<char>>, list: Seq<Seq<char>>, s: Seq<char>)
    ensures
        names.contains(s) ==> with_fetched(names, list).contains(s),
        with_fetched(names, list).contains(s) ==> names.contains(s) || (is_fetched_name(s)
            && exists|i: int| 0 <= i < list.len() && fetched_line(#[trigger] list[i]) == s),
    decreases list.len(),
{
    if list.len() > 0 {
        let front = list.drop_last();
        law_fetching_only_adds(names, front, s);
        if with_fetched(names, front).contains(s) && !names.contains(s) {
            let i = choose|i: int| 0 <= i < front.len() && fetched_line(#[trigger] front[i]) == s;
            assert(fetched_line(list[i]) == s);
        }
        if s == fetched_line(list.last()) {
            assert(fetched_line(list[list.len() - 1]) == s);
        }
    }
}

proof fn lemma_identifiers(names: Set<Seq<char>>, list: Seq<Seq<char>>, s: Seq<char>)
    ensures
        names.contains(s) ==> with_identifiers(names, list).contains(s),
        with_identifiers(names, list).contains(s) ==> names.contains(s) || is_identifier(s),
    decreases list.len(),
{
    if list.len() > 0 {
        lemma_identifiers(names, list.drop_last(), s);
    }
}

proof fn lemma_attributes(names: Set<Seq<char>>, list: Seq<(Seq<char>, Seq<char>)>, s: Seq<char>)
    ensures
        names.contains(s) ==> with_attributes(names, list).contains(s),
        with_attributes(names, list).contains(s) ==> names.contains(s) || is_identifier(s),
    decreases list.len(),
{
    if list.len() > 0 {
        lemma_attributes(names, list.drop_last(), s);
    }
}

proof fn lemma_nodes(names: Set<Seq<char>>, list: Seq<XmlView>, s: Seq<char>)
    ensures
        names.contains(s) ==> with_nodes(names, list).contains(s),
        with_nodes(names, list).contains(s) ==> names.contains(s) || is_identifier(s),
    decreases list.len(),
{
    if list.len() > 0 {
        let before = with_nodes(names, list.drop_last());
        lemma_nodes(names, list.drop_last(), s);
        let node = list.last();
        let tagged = with_identifier(before, node.tag);
        lemma_attributes(tagged, node.attributes, s);
        if node.text is Some {
            lemma_identifiers(
                with_attributes(tagged, node.attributes),
                split(blanked(node.text->Some_0), ' '),
                s,
            );
        }
    }
}

/// A harvest loses no name, and adds none that could not be one: numbers,
/// GUIDs, hex blobs and punctuation never enter the list.
pub proof fn law_harvest_adds_only_identifiers(
    names: Set<Seq<char>>,
    files: Seq<ArchiveFile>,
    s: Seq<char>,
)
    ensures
        names.contains(s) ==> with_harvest(names, files).contains(s),
        with_harvest(names, files).contains(s) ==> names.contains(s) || is_identifier(s),
    decreases files,
{
    if files.len() > 0 {
        let front = files.drop_last();
        let before = with_harvest(names, front);
        law_harvest_adds_only_identifiers(names, front, s);
        let file = files[files.len() - 1];
        let stem_ = stem(file.name@);
        let stems = with_identifier(with_identifier(before, stem_), lowercase(stem_));
        match file.content {
            Content::Nested(inner) => {
                law_harvest_adds_only_identifiers(before, inner@, s);
            },
            Content::Data(data) => {
                if valid_utf8(data@) && xml_nodes(decode_utf8(data@)) is Some {
                    lemma_nodes(stems, xml_nodes(decode_utf8(data@))->Some_0, s);
                }
            },
            Content::Unread => {},
        }
    }
}

/// The hash that a lookup prints for a name is itself a term: looking it up
/// prints the same hash, with the name that the list has for it.
pub proof fn law_printed_hash_is_read_back(h: u32)
    ensures
        term_hash("0x"@ + hex_digits_upper(h as nat, 8)) == Some(h),
{
    reveal_strlit("0x");
    let digits = hex_digits_upper(h as nat, 8);
    let term = "0x"@ + digits;
    reveal_with_fuel(hex_range, 9);
    lemma_hex_digits(h as nat, 8);
    assert("0x"@.is_prefix_of(term)) by {
        assert(term.subrange(0, 2) =~= "0x"@);
    }
    assert(term.skip(2) =~= digits);
    assert(is_hex_digit(digits[0]));
}

} // verus!
