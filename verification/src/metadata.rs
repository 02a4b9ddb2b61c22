//! Metadata trees. They are read and written by `rage_formats`; its functions
//! are named here, not described.
use vstd::prelude::*;
use vstd::string::*;
use crate::commands::resource::container::{
    can_count, detect_meta, is_countable, meta_container, prepare_rsc7, unpacked, word, word_at,
    MetaContainer,
};
use crate::commands::resource::manifest::{
    Dependencies, HashName, HdTxdBinding, ImapDependency, InteriorBounds, Manifest, ManifestView,
    MapDataGroup,
};
use crate::formats::{is_wide, wide};
use crate::name_table::table;
use crate::nesting::{
    count_rbf_nesting, count_xml_nesting, rbf_nesting, xml_nesting, MAX_NESTING,
};
use crate::sections::{at_address, long, long_at, short, short_at, Sections};
use crate::text::texts;
use rage_formats::{MetaValue, NameTable};

verus! {

// ── What can be read ────────────────────────────────────────────────────────

/// The four bytes from `at` on, as a number with its high byte first.
pub open spec fn high_word(data: Seq<u8>, at: int) -> int {
    0x100_0000 * data[at] + 0x1_0000 * data[at + 1] + 0x100 * data[at + 2] + data[at + 3]
}

fn high_word_at(data: &[u8], at: usize) -> (r: u64)
    requires
        at + 4 <= data.len(),
    ensures
        r == high_word(data@, at as int),
        r <= 0xffff_ffff,
{
    0x100_0000 * (data[at] as u64) + 0x1_0000 * (data[at + 1] as u64) + 0x100 * (data[at + 2] as u64)
        + data[at + 3] as u64
}

/// Entry `i` of the schema at `at`, of so many bytes, that starts as a
/// structure is not cut off before its size.
pub open spec fn is_entry_whole(data: Seq<u8>, at: int, len: int, i: int) -> bool {
    let offset = high_word(data, at + 16 + 8 * i);
    offset + 4 <= len && data[at + offset] == 0 ==> offset + 8 <= len
}

/// No entry of the schema at `at`, of so many bytes, is cut off.
pub open spec fn is_schema_whole(data: Seq<u8>, at: int, len: int) -> bool {
    len >= 12 && 12 + 8 * high_word(data, at + 8) <= len ==> forall|i: int|
        0 <= i < high_word(data, at + 8) ==> #[trigger] is_entry_whole(data, at, len, i)
}

/// `PSCH`: the section of a PSO file that holds its schema.
pub const PSCH: u64 = 0x5053_4348;

/// No schema of a PSO file, from `at` on, is cut off.
pub open spec fn are_schemas_whole(data: Seq<u8>, at: int) -> bool
    decreases data.len() - at,
{
    if at < 0 || at + 8 > data.len() {
        true
    } else {
        let len = high_word(data, at + 4);
        if len < 8 || at + len > data.len() {
            true
        } else {
            &&& high_word(data, at) == PSCH ==> is_schema_whole(data, at, len)
            &&& are_schemas_whole(data, at + len)
        }
    }
}

fn check_schema(data: &[u8], at: usize, len: usize) -> (r: bool)
    requires
        at + len <= data.len(),
    ensures
        r == is_schema_whole(data@, at as int, len as int),
{
    if len < 12 {
        return true;
    }
    let count: u64 = high_word_at(data, at + 8);
    if count * 8 > (len - 12) as u64 {
        return true;
    }
    let mut i: usize = 0;
    while (i as u64) < count
        invariant
            at + len <= data.len(),
            12 <= len,
            i <= count,
            count == high_word(data@, at + 8),
            12 + 8 * count <= len,
            forall|k: int| 0 <= k < i ==> #[trigger] is_entry_whole(data@, at as int, len as int, k),
        decreases count - i,
    {
        let offset: u64 = high_word_at(data, at + 16 + 8 * i);
        if offset + 4 <= len as u64 && data[at + offset as usize] == 0 && offset + 8 > len as u64 {
            assert(!is_entry_whole(data@, at as int, len as int, i as int));
            return false;
        }
        i = i + 1;
    }
    true
}

fn check_schemas(data: &[u8]) -> (r: bool)
    ensures
        r == are_schemas_whole(data@, 0),
{
    let mut at: usize = 0;
    while data.len() >= 8 && at <= data.len() - 8
        invariant
            at <= data.len(),
            are_schemas_whole(data@, 0) == are_schemas_whole(data@, at as int),
        decreases data.len() - at,
    {
        let len: u64 = high_word_at(data, at + 4);
        if len < 8 || len > (data.len() - at) as u64 {
            return true;
        }
        let len: usize = len as usize;
        if high_word_at(data, at) == PSCH && !check_schema(data, at, len) {
            return false;
        }
        at = at + len;
    }
    true
}

/// The members that enumeration `i` of a table claims fit into two sections.
pub open spec fn is_enum_modest(
    records: Seq<u8>,
    i: int,
    system: Seq<u8>,
    graphics: Seq<u8>,
) -> bool {
    word(records, 24 * i + 16) * 8 <= system.len() + graphics.len()
}

/// The members that each of the first so many enumerations of a table claims
/// fit into two sections.
pub open spec fn are_all_modest(
    records: Seq<u8>,
    count: int,
    system: Seq<u8>,
    graphics: Seq<u8>,
) -> bool {
    forall|i: int| 0 <= i < count ==> #[trigger] is_enum_modest(records, i, system, graphics)
}

/// The members that each enumeration of the schema of a resource claims fit
/// into the file.
pub open spec fn are_enums_modest(system: Seq<u8>, graphics: Seq<u8>) -> bool {
    system.len() >= 0x70 ==> match at_address(
        system,
        graphics,
        long(system, 0x28),
        24 * short(system, 0x4a),
    ) {
        None => true,
        Some(records) => are_all_modest(records, short(system, 0x4a), system, graphics),
    }
}

fn check_enums(s: &Sections) -> (r: bool)
    ensures
        r == are_enums_modest(s.system@, s.graphics@),
{
    if s.system.len() < 0x70 {
        return true;
    }
    let count: u64 = short_at(s.system.as_slice(), 0x4a);
    match s.find(long_at(s.system.as_slice(), 0x28), 24 * count) {
        Some(records) => check_records(s, &records, count),
        None => true,
    }
}

fn check_records(s: &Sections, records: &Vec<u8>, count: u64) -> (r: bool)
    requires
        records.len() == 24 * count,
        count <= 0xffff,
    ensures
        r == are_all_modest(records@, count as int, s.system@, s.graphics@),
{
    let total: u128 = s.system.len() as u128 + s.graphics.len() as u128;
    let mut i: usize = 0;
    while (i as u64) < count
        invariant
            i <= count <= 0xffff,
            records.len() == 24 * count,
            total == s.system.len() + s.graphics.len(),
            are_all_modest(records@, i as int, s.system@, s.graphics@),
        decreases count - i,
    {
        let claimed: u128 = (word_at(records.as_slice(), 24 * i + 16) as u64 * 8) as u128;
        if claimed > total {
            assert(!is_enum_modest(records@, i as int, s.system@, s.graphics@));
            return false;
        }
        i = i + 1;
    }
    true
}

/// What is said of a metadata file that is not read.
pub const NOT_SOUND: &'static str = "the file is cut off, nests too deep or claims more than it holds";

/// A metadata file can be read: its schema is whole and claims no more than
/// the file has, and its documents nest no deeper than is read.
pub open spec fn is_sound(data: Seq<u8>) -> bool {
    is_wide() && match meta_container(data) {
        Some(MetaContainer::Pso) => are_schemas_whole(data, 0),
        Some(MetaContainer::Rbf) => rbf_nesting(data) <= MAX_NESTING,
        Some(MetaContainer::Meta) => is_countable(data) && match unpacked(data) {
            Ok((system, graphics)) => are_enums_modest(system, graphics),
            Err(_) => true,
        },
        Some(MetaContainer::Xml) => xml_nesting(data) <= MAX_NESTING,
        None => true,
    }
}

fn check_sound(data: &[u8]) -> (r: bool)
    ensures
        r == is_sound(data@),
{
    wide() && match detect_meta(data) {
        Some(MetaContainer::Pso) => check_schemas(data),
        Some(MetaContainer::Rbf) => count_rbf_nesting(data) <= MAX_NESTING,
        Some(MetaContainer::Meta) => can_count(data) && match prepare_rsc7(data) {
            Ok((system, graphics)) => check_enums(&Sections { system, graphics }),
            Err(_) => true,
        },
        Some(MetaContainer::Xml) => count_xml_nesting(data) <= MAX_NESTING,
        None => true,
    }
}

// ── Trees ───────────────────────────────────────────────────────────────────

/// The values of the metadata trees of `rage_formats`.
#[verifier::external_type_specification]
#[verifier::external_body]
pub struct ExMetaValue(rage_formats::MetaValue);

/// What a value of a tree is, apart from the values inside it. Fractional
/// numbers are bits.
pub enum Kind {
    Null,
    Bool(bool),
    Signed { bits: u8, value: i64 },
    Unsigned { bits: u8, value: u64 },
    Fraction(u32),
    Vector(Seq<u32>),
    Hash(u32),
    Text(Seq<char>),
    Member { enum_hash: u32, value: i32, name: Option<u32> },
    Flags { enum_hash: u32, bits: u32, names: Seq<u32> },
    Bytes(Seq<u8>),
    List { item_type: Option<u32>, typed_items: bool },
    /// Keys and values, in turn.
    Pairs,
    Struct { type_hash: u32, names: Seq<u32> },
}

/// A value of a tree, with the values inside it.
pub struct Tree {
    pub kind: Kind,
    pub parts: Seq<Tree>,
}

/// What a value holds.
pub uninterp spec fn tree(v: MetaValue) -> Tree;

/// The tree is no more than so many values deep.
pub open spec fn is_low(t: Tree, n: nat) -> bool
    decreases n,
{
    n > 0 && forall|i: int| 0 <= i < t.parts.len() ==> is_low(#[trigger] t.parts[i], (n - 1) as nat)
}

/// The least number of its size with a sign, which has no counterpart without
/// one.
pub open spec fn is_least(kind: Kind) -> bool {
    match kind {
        Kind::Signed { bits, value } => value == least_of(bits),
        Kind::Member { enum_hash, value, name } => name is None && value == i32::MIN,
        _ => false,
    }
}

/// The least number of so many bits.
pub open spec fn least_of(bits: u8) -> int {
    if bits == 8 {
        i8::MIN as int
    } else if bits == 16 {
        i16::MIN as int
    } else if bits == 32 {
        i32::MIN as int
    } else {
        i64::MIN as int
    }
}

/// The first so many levels of a tree hold no least number.
pub open spec fn is_mild(t: Tree, n: nat) -> bool
    decreases n,
{
    n > 0 ==> !is_least(t.kind) && forall|i: int|
        0 <= i < t.parts.len() ==> is_mild(#[trigger] t.parts[i], (n - 1) as nat)
}

/// The trees of values.
pub open spec fn trees(list: Seq<&MetaValue>) -> Seq<Tree> {
    list.map_values(|v: &MetaValue| tree(*v))
}

/// The fields of `rage_formats::MetaValue`: the values that stand directly in
/// one, in order; of pairs, each key before its value.
#[verifier::external_body]
fn parts_of<'a>(v: &'a MetaValue) -> (r: Vec<&'a MetaValue>)
    ensures
        trees(r@) == tree(*v).parts,
{
    match v {
        MetaValue::Array(a) => a.items.iter().collect(),
        MetaValue::Map(pairs) => pairs.iter().flat_map(|p| [&p.0, &p.1]).collect(),
        MetaValue::Struct(s) => s.fields.iter().map(|f| &f.1).collect(),
        _ => Vec::new(),
    }
}

/// The number of a value with a sign: its size in bits, and itself. So too of
/// a member of an enumeration that has no name.
pub open spec fn signed_in(kind: Kind) -> Option<(u8, i64)> {
    match kind {
        Kind::Signed { bits, value } => Some((bits, value)),
        Kind::Member { enum_hash, value, name } => if name is None {
            Some((32u8, value as i64))
        } else {
            None
        },
        _ => None,
    }
}

/// The fields of `rage_formats::MetaValue`: the number of one with a sign, of
/// 8, 16, 32 or 64 bits.
#[verifier::external_body]
fn signed_of(v: &MetaValue) -> (r: Option<(u8, i64)>)
    ensures
        r == signed_in(tree(*v).kind),
        r matches Some((bits, value)) ==> (bits == 8 || bits == 16 || bits == 32 || bits == 64),
{
    match v {
        MetaValue::I8(n) => Some((8, *n as i64)),
        MetaValue::I16(n) => Some((16, *n as i64)),
        MetaValue::I32(n) => Some((32, *n as i64)),
        MetaValue::I64(n) => Some((64, *n)),
        MetaValue::Enum { value, name: None, .. } => Some((32, *value as i64)),
        _ => None,
    }
}

/// Whether a tree is no more than so many values deep.
fn check_low(v: &MetaValue, n: usize) -> (r: bool)
    ensures
        r == is_low(tree(*v), n as nat),
    decreases n,
{
    if n == 0 {
        return false;
    }
    let parts = parts_of(v);
    let ghost inside = tree(*v).parts;
    let mut i: usize = 0;
    while i < parts.len()
        invariant
            i <= parts.len(),
            n > 0,
            inside == trees(parts@),
            inside == tree(*v).parts,
            forall|k: int| 0 <= k < i ==> is_low(#[trigger] inside[k], (n - 1) as nat),
        decreases parts.len() - i,
    {
        assert(inside[i as int] == tree(*parts[i as int]));
        if !check_low(parts[i], n - 1) {
            assert(!is_low(tree(*v).parts[i as int], (n - 1) as nat));
            return false;
        }
        i = i + 1;
    }
    true
}

/// Whether the first so many levels of a tree hold no least number.
fn check_mild(v: &MetaValue, n: usize) -> (r: bool)
    ensures
        r == is_mild(tree(*v), n as nat),
    decreases n,
{
    if n == 0 {
        return true;
    }
    match signed_of(v) {
        Some((bits, value)) => {
            let least: i64 = if bits == 8 {
                -128
            } else if bits == 16 {
                -32768
            } else if bits == 32 {
                -2147483648
            } else {
                i64::MIN
            };
            if value == least {
                return false;
            }
        },
        None => {},
    }
    let parts = parts_of(v);
    let ghost inside = tree(*v).parts;
    let mut i: usize = 0;
    while i < parts.len()
        invariant
            i <= parts.len(),
            n > 0,
            !is_least(tree(*v).kind),
            inside == trees(parts@),
            inside == tree(*v).parts,
            forall|k: int| 0 <= k < i ==> is_mild(#[trigger] inside[k], (n - 1) as nat),
        decreases parts.len() - i,
    {
        assert(inside[i as int] == tree(*parts[i as int]));
        if !check_mild(parts[i], n - 1) {
            assert(!is_mild(tree(*v).parts[i as int], (n - 1) as nat));
            return false;
        }
        i = i + 1;
    }
    true
}

// ── Reading and writing ─────────────────────────────────────────────────────

/// The tree and the warnings that `rage_formats::dump_metadata` makes of a
/// file, or what it says is wrong with the file.
pub uninterp spec fn parsed_metadata(data: Seq<u8>) -> Result<(Tree, Seq<Seq<char>>), Seq<char>>;

/// `rage_formats::dump_metadata`, whose result depends on the file's bytes
/// alone: the root of the tree and the warnings, or its error as text.
/// Structures that contain each other are followed down to 64 levels.
#[verifier::external_body]
fn dump_metadata(data: &[u8]) -> (r: Result<(MetaValue, Vec<String>), String>)
    requires
        is_sound(data@),
    ensures
        match r {
            Ok((root, warnings)) => parsed_metadata(data@) == Ok::<
                (Tree, Seq<Seq<char>>),
                Seq<char>,
            >((tree(root), texts(warnings@))),
            Err(e) => parsed_metadata(data@) == Err::<(Tree, Seq<Seq<char>>), Seq<char>>(e@),
        },
{
    let (_, dump) = rage_formats::dump_metadata(data).map_err(|e| format!("{e:#}"))?;
    Ok((dump.root, dump.warnings))
}

/// A metadata tree, and what was not understood of its file.
pub struct Dump {
    pub root: MetaValue,
    pub warnings: Vec<String>,
}

/// The tree and the warnings of a file, or what is wrong with the file.
pub open spec fn metadata_in(data: Seq<u8>) -> Result<(Tree, Seq<Seq<char>>), Seq<char>> {
    if !is_sound(data) {
        Err(NOT_SOUND@)
    } else {
        match parsed_metadata(data) {
            Ok((root, warnings)) => if is_low(root, MAX_NESTING as nat) {
                Ok((root, warnings))
            } else {
                Err(NOT_SOUND@)
            },
            Err(e) => Err(e),
        }
    }
}

/// Reads a metadata file.
pub fn read_metadata(data: &[u8]) -> (r: Result<Dump, String>)
    ensures
        match r {
            Ok(d) => metadata_in(data@) == Ok::<(Tree, Seq<Seq<char>>), Seq<char>>(
                (tree(d.root), texts(d.warnings@)),
            ) && is_low(tree(d.root), MAX_NESTING as nat),
            Err(e) => metadata_in(data@) == Err::<(Tree, Seq<Seq<char>>), Seq<char>>(e@),
        },
{
    if !check_sound(data) {
        return Err(NOT_SOUND.to_owned());
    }
    match dump_metadata(data) {
        Ok((root, warnings)) => if check_low(&root, MAX_NESTING) {
            Ok(Dump { root, warnings })
        } else {
            Err(NOT_SOUND.to_owned())
        },
        Err(e) => Err(e),
    }
}

/// The type and the number of members of a structure.
pub open spec fn struct_in(t: Tree) -> Option<(u32, nat)> {
    match t.kind {
        Kind::Struct { type_hash, names } => Some((type_hash, t.parts.len())),
        _ => None,
    }
}

/// `rage_formats::MetaValue::as_struct`: the hash of the type and the number
/// of members of a structure.
#[verifier::external_body]
pub(crate) fn struct_of(v: &MetaValue) -> (r: Option<(u32, usize)>)
    ensures
        match r {
            Some((type_hash, members)) => struct_in(tree(*v)) == Some((type_hash, members as nat)),
            None => struct_in(tree(*v)) is None,
        },
{
    v.as_struct().map(|s| (s.type_hash, s.fields.len()))
}

/// The text that `rage_formats::to_xml` makes of a tree with a table of names.
pub uninterp spec fn xml_of(t: Tree, names: Map<u32, Seq<char>>) -> Seq<char>;

/// `rage_formats::to_xml`, whose result depends on the tree and the names
/// alone.
#[verifier::external_body]
fn to_xml(v: &MetaValue, names: &NameTable) -> (out: String)
    requires
        is_low(tree(*v), MAX_NESTING as nat),
    ensures
        out@ == xml_of(tree(*v), table(*names)),
{
    rage_formats::to_xml(v, names)
}

/// The text that `rage_formats::to_json` and `json::JsonValue::pretty`, two
/// blanks a level, make of a tree with a table of names.
pub uninterp spec fn pretty_json_of(t: Tree, names: Map<u32, Seq<char>>) -> Seq<char>;

/// `rage_formats::to_json`, whose result depends on the tree and the names
/// alone, as `json::JsonValue::pretty` writes it. It turns the sign of
/// negative numbers, which the least number of a size does not allow.
#[verifier::external_body]
fn pretty_json(v: &MetaValue, names: &NameTable) -> (out: String)
    requires
        is_low(tree(*v), MAX_NESTING as nat),
        is_mild(tree(*v), MAX_NESTING as nat),
    ensures
        out@ == pretty_json_of(tree(*v), table(*names)),
{
    rage_formats::to_json(v, names).pretty(2)
}

/// The text that `rage_formats::to_json` and `json::JsonValue::dump` make of a
/// tree with a table of names.
pub uninterp spec fn short_json_of(t: Tree, names: Map<u32, Seq<char>>) -> Seq<char>;

/// `rage_formats::to_json`, whose result depends on the tree and the names
/// alone, as `json::JsonValue::dump` writes it. It turns the sign of negative
/// numbers, which the least number of a size does not allow.
#[verifier::external_body]
fn short_json(v: &MetaValue, names: &NameTable) -> (out: String)
    requires
        is_low(tree(*v), MAX_NESTING as nat),
        is_mild(tree(*v), MAX_NESTING as nat),
    ensures
        out@ == short_json_of(tree(*v), table(*names)),
{
    rage_formats::to_json(v, names).dump()
}

/// What is said of a tree that cannot be written as JSON.
pub const NO_JSON: &'static str = "the least number of its size cannot be written as JSON";

/// Writes a tree as JSON on one line; or, if it cannot be, says so.
pub(crate) fn write_short(v: &MetaValue, names: &NameTable) -> (r: Result<String, String>)
    requires
        is_low(tree(*v), MAX_NESTING as nat),
    ensures
        match r {
            Ok(text) => is_mild(tree(*v), MAX_NESTING as nat) && text@ == short_json_of(
                tree(*v),
                table(*names),
            ),
            Err(e) => !is_mild(tree(*v), MAX_NESTING as nat) && e@ == NO_JSON@,
        },
{
    if check_mild(v, MAX_NESTING) {
        Ok(short_json(v, names))
    } else {
        Err(NO_JSON.to_owned())
    }
}

/// A tree as text, in full: as XML, or as JSON over several lines; or why it
/// cannot be written.
pub open spec fn tree_text(t: Tree, names: Map<u32, Seq<char>>, json: bool) -> Result<
    Seq<char>,
    Seq<char>,
> {
    if !is_low(t, MAX_NESTING as nat) {
        Err(NOT_SOUND@)
    } else if !json {
        Ok(xml_of(t, names))
    } else if is_mild(t, MAX_NESTING as nat) {
        Ok(pretty_json_of(t, names) + "\n"@)
    } else {
        Err(NO_JSON@)
    }
}

/// Writes a tree as text, in full.
pub fn write_tree(v: &MetaValue, names: &NameTable, json: bool) -> (r: Result<String, String>)
    ensures
        match r {
            Ok(text) => tree_text(tree(*v), table(*names), json) == Ok::<Seq<char>, Seq<char>>(text@),
            Err(e) => tree_text(tree(*v), table(*names), json) == Err::<Seq<char>, Seq<char>>(e@),
        },
{
    if !check_low(v, MAX_NESTING) {
        return Err(NOT_SOUND.to_owned());
    }
    if !json {
        return Ok(to_xml(v, names));
    }
    if check_mild(v, MAX_NESTING) {
        let mut text = pretty_json(v, names);
        text.append("\n");
        Ok(text)
    } else {
        Err(NO_JSON.to_owned())
    }
}

// ── Manifests ───────────────────────────────────────────────────────────────

/// The manifest that `rage_formats::Manifest::from_value` finds in a tree, or
/// why it finds none.
pub uninterp spec fn manifest_in(t: Tree) -> Result<ManifestView, Seq<char>>;

/// `rage_formats::Manifest::from_value`, whose result depends on the tree
/// alone: the timed groups of maps, or its error as text.
#[verifier::external_body]
fn manifest_groups(v: &MetaValue) -> (r: Result<Vec<MapDataGroup>, String>)
    requires
        is_low(tree(*v), MAX_NESTING as nat),
    ensures
        match r {
            Ok(list) => manifest_in(tree(*v)) is Ok && manifest_in(tree(*v))->Ok_0.map_data_groups
                == list@.map_values(|x: MapDataGroup| x@),
            Err(e) => manifest_in(tree(*v)) == Err::<ManifestView, Seq<char>>(e@),
        },
{
    let name = |n: rage_formats::HashName| HashName { hash: n.hash, name: n.name };
    let m = rage_formats::Manifest::from_value(v).map_err(|e| format!("{e:#}"))?;
    Ok(m.map_data_groups.into_iter().map(|x| MapDataGroup {
        name: name(x.name), bounds: x.bounds.into_iter().map(name).collect(),
        weather_types: x.weather_types.into_iter().map(name).collect(),
        flags: x.flags, hours_on_off: x.hours_on_off,
    }).collect())
}

/// `rage_formats::Manifest::from_value`, whose result depends on the tree
/// alone: the maps and the one type file each needs, or its error as text.
#[verifier::external_body]
fn manifest_imaps(v: &MetaValue) -> (r: Result<Vec<ImapDependency>, String>)
    requires
        is_low(tree(*v), MAX_NESTING as nat),
    ensures
        match r {
            Ok(list) => manifest_in(tree(*v)) is Ok && manifest_in(tree(*v))->Ok_0.imap_dependencies
                == list@.map_values(|x: ImapDependency| x@),
            Err(e) => manifest_in(tree(*v)) == Err::<ManifestView, Seq<char>>(e@),
        },
{
    let name = |n: rage_formats::HashName| HashName { hash: n.hash, name: n.name };
    let m = rage_formats::Manifest::from_value(v).map_err(|e| format!("{e:#}"))?;
    Ok(m.imap_dependencies.into_iter().map(|x| ImapDependency {
        imap: name(x.imap), ityp: name(x.ityp), pack_file: name(x.pack_file),
    }).collect())
}

/// `rage_formats::Manifest::from_value`, whose result depends on the tree
/// alone: the maps and the type files each needs, or its error as text.
#[verifier::external_body]
fn manifest_map_files(v: &MetaValue) -> (r: Result<Vec<Dependencies>, String>)
    requires
        is_low(tree(*v), MAX_NESTING as nat),
    ensures
        match r {
            Ok(list) => manifest_in(tree(*v)) is Ok && manifest_in(tree(*v))->Ok_0.imap_dependencies_2
                == list@.map_values(|x: Dependencies| x@),
            Err(e) => manifest_in(tree(*v)) == Err::<ManifestView, Seq<char>>(e@),
        },
{
    let name = |n: rage_formats::HashName| HashName { hash: n.hash, name: n.name };
    let m = rage_formats::Manifest::from_value(v).map_err(|e| format!("{e:#}"))?;
    Ok(m.imap_dependencies_2.into_iter().map(|x| Dependencies {
        name: name(x.name), manifest_flags: x.manifest_flags,
        ityp_deps: x.ityp_deps.into_iter().map(name).collect(),
    }).collect())
}

/// `rage_formats::Manifest::from_value`, whose result depends on the tree
/// alone: the type files and those each needs, or its error as text.
#[verifier::external_body]
fn manifest_type_files(v: &MetaValue) -> (r: Result<Vec<Dependencies>, String>)
    requires
        is_low(tree(*v), MAX_NESTING as nat),
    ensures
        match r {
            Ok(list) => manifest_in(tree(*v)) is Ok && manifest_in(tree(*v))->Ok_0.ityp_dependencies_2
                == list@.map_values(|x: Dependencies| x@),
            Err(e) => manifest_in(tree(*v)) == Err::<ManifestView, Seq<char>>(e@),
        },
{
    let name = |n: rage_formats::HashName| HashName { hash: n.hash, name: n.name };
    let m = rage_formats::Manifest::from_value(v).map_err(|e| format!("{e:#}"))?;
    Ok(m.ityp_dependencies_2.into_iter().map(|x| Dependencies {
        name: name(x.name), manifest_flags: x.manifest_flags,
        ityp_deps: x.ityp_deps.into_iter().map(name).collect(),
    }).collect())
}

/// `rage_formats::Manifest::from_value`, whose result depends on the tree
/// alone: the HD texture bindings, or its error as text.
#[verifier::external_body]
fn manifest_bindings(v: &MetaValue) -> (r: Result<Vec<HdTxdBinding>, String>)
    requires
        is_low(tree(*v), MAX_NESTING as nat),
    ensures
        match r {
            Ok(list) => manifest_in(tree(*v)) is Ok && manifest_in(tree(*v))->Ok_0.hd_txd_bindings
                == list@.map_values(|x: HdTxdBinding| x@),
            Err(e) => manifest_in(tree(*v)) == Err::<ManifestView, Seq<char>>(e@),
        },
{
    let name = |n: rage_formats::HashName| HashName { hash: n.hash, name: n.name };
    let m = rage_formats::Manifest::from_value(v).map_err(|e| format!("{e:#}"))?;
    Ok(m.hd_txd_bindings.into_iter().map(|x| HdTxdBinding {
        asset_type: name(x.asset_type), target_asset: x.target_asset, hd_txd: x.hd_txd,
    }).collect())
}

/// `rage_formats::Manifest::from_value`, whose result depends on the tree
/// alone: the interiors, or its error as text.
#[verifier::external_body]
fn manifest_interiors(v: &MetaValue) -> (r: Result<Vec<InteriorBounds>, String>)
    requires
        is_low(tree(*v), MAX_NESTING as nat),
    ensures
        match r {
            Ok(list) => manifest_in(tree(*v)) is Ok && manifest_in(tree(*v))->Ok_0.interiors
                == list@.map_values(|x: InteriorBounds| x@),
            Err(e) => manifest_in(tree(*v)) == Err::<ManifestView, Seq<char>>(e@),
        },
{
    let name = |n: rage_formats::HashName| HashName { hash: n.hash, name: n.name };
    let m = rage_formats::Manifest::from_value(v).map_err(|e| format!("{e:#}"))?;
    Ok(m.interiors.into_iter().map(|x| InteriorBounds {
        name: name(x.name), bounds: x.bounds.into_iter().map(name).collect(),
    }).collect())
}

/// Reads the manifest in a tree.
pub(crate) fn read_manifest(v: &MetaValue) -> (r: Result<Manifest, String>)
    requires
        is_low(tree(*v), MAX_NESTING as nat),
    ensures
        match r {
            Ok(m) => manifest_in(tree(*v)) == Ok::<ManifestView, Seq<char>>(m@),
            Err(e) => manifest_in(tree(*v)) == Err::<ManifestView, Seq<char>>(e@),
        },
{
    let map_data_groups = match manifest_groups(v) {
        Ok(list) => list,
        Err(e) => return Err(e),
    };
    let imap_dependencies = match manifest_imaps(v) {
        Ok(list) => list,
        Err(e) => return Err(e),
    };
    let imap_dependencies_2 = match manifest_map_files(v) {
        Ok(list) => list,
        Err(e) => return Err(e),
    };
    let ityp_dependencies_2 = match manifest_type_files(v) {
        Ok(list) => list,
        Err(e) => return Err(e),
    };
    let hd_txd_bindings = match manifest_bindings(v) {
        Ok(list) => list,
        Err(e) => return Err(e),
    };
    let interiors = match manifest_interiors(v) {
        Ok(list) => list,
        Err(e) => return Err(e),
    };
    Ok(
        Manifest {
            map_data_groups,
            imap_dependencies,
            imap_dependencies_2,
            ityp_dependencies_2,
            hd_txd_bindings,
            interiors,
        },
    )
}

} // verus!
