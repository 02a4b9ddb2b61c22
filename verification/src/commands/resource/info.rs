//! What `rage resource info` and `rage resource dump` do and print.
use vstd::prelude::*;
use vstd::string::*;
use crate::commands::resource::assemble::BuildArgs;
use crate::commands::resource::checks::Checks;
use crate::commands::resource::container::{
    container_name, flags_version, version_from_flags, Container, Rsc7Header,
};
use crate::commands::resource::drawables::{
    drawable_text, json_textures, textures_json, write_drawable, DrawableEntry, DrawableJson,
    PlainLine,
};
use crate::commands::resource::manifest::{
    json_manifest, manifest_json, manifest_text, write_manifest, Manifest, ManifestView,
};
use crate::commands::resource::maps::{
    hash_json, json_hash, json_map, map_json, map_text, write_map, MapFile,
};
use crate::commands::resource::types::{json_types, types_json, types_text, write_types, TypeFile};
use crate::formats::{dictionary, parse_ytd, texture_views, Texture, TextureView};
use crate::json_text::{array, array_of};
use crate::metadata::{
    is_low, is_mild, manifest_in, metadata_in, read_manifest, read_metadata, short_json_of,
    struct_in, struct_of, tree, tree_text, write_short, write_tree, Dump, Tree, NO_JSON,
};
use crate::name_table::{resolve, resolved, table};
use crate::names::ListHeader;
use crate::nesting::MAX_NESTING;
use crate::text::{
    bool_of, bool_text, chars_of, decimal, decimal_of, hex_digits_upper, hex_range, hex_upper_of,
    is_at, is_hex_digit, lemma_hex_digits, lowercase, occurs_at, same, texts, to_lowercase, unlines,
};
use crate::utils::{json_string, json_text};
use crate::writer::{unlines_of, write_each, written, Writes};
use rage_formats::NameTable;

verus! {

// ── Arguments ───────────────────────────────────────────────────────────────

/// The arguments of `rage resource`.
#[derive(Debug)]
pub struct ResourceArgs {
    pub command: ResourceCommand,
}

/// What `rage resource` does.
#[derive(Debug)]
pub enum ResourceCommand {
    Info(InfoArgs),
    Dump(DumpArgs),
    Build(BuildArgs),
}

/// The arguments of `rage resource info`.
#[derive(Debug)]
pub struct InfoArgs {
    pub file: String,
    /// The archive to look the file up in, instead of on disk.
    pub archive: Option<String>,
    pub json: bool,
    /// How many entities of a map to list, 0 for all.
    pub limit: usize,
    pub names: Vec<String>,
}

/// The arguments of `rage resource dump`.
#[derive(Debug)]
pub struct DumpArgs {
    pub file: String,
    /// The archive to look the file up in, instead of on disk.
    pub archive: Option<String>,
    pub json: bool,
    pub output: Option<String>,
    pub names: Vec<String>,
}

/// What `rage resource` reads before it prints.
#[derive(Debug)]
pub struct ResourcePlan {
    pub file: String,
    pub archive: Option<String>,
    /// The extra name lists.
    pub names: Vec<String>,
    /// The file on disk whose siblings name the hashes, when the input is one.
    pub local: Option<String>,
}

/// The file on disk whose siblings name the hashes: the input, unless it lies
/// in an archive.
pub fn local_path(file: &str, archive: &Option<String>) -> (r: Option<String>)
    ensures
        r is Some <==> archive is None,
        r matches Some(path) ==> path@ == file@,
{
    match archive {
        Some(_) => None,
        None => Some(file.to_owned()),
    }
}

/// The file, the archive it lies in and the name lists that arguments name;
/// a build reads its dump from disk, and needs no names.
pub open spec fn inputs_of(command: ResourceCommand) -> (Seq<char>, Option<Seq<char>>, Seq<Seq<char>>) {
    match command {
        ResourceCommand::Info(a) => (a.file@, archive_text(a.archive), texts(a.names@)),
        ResourceCommand::Dump(a) => (a.file@, archive_text(a.archive), texts(a.names@)),
        ResourceCommand::Build(a) => (a.input@, None, Seq::empty()),
    }
}

/// The path of an archive, if there is one.
pub open spec fn archive_text(archive: Option<String>) -> Option<Seq<char>> {
    match archive {
        Some(a) => Some(a@),
        None => None,
    }
}

fn copy_archive(archive: &Option<String>) -> (r: Option<String>)
    ensures
        archive_text(r) == archive_text(*archive),
{
    match archive {
        Some(a) => Some(a.clone()),
        None => None,
    }
}

/// What is read for the given arguments.
pub fn run(args: &ResourceArgs) -> (plan: ResourcePlan)
    ensures
        plan.file@ == inputs_of(args.command).0,
        archive_text(plan.archive) == inputs_of(args.command).1,
        texts(plan.names@) == inputs_of(args.command).2,
        archive_text(plan.local) == (if inputs_of(args.command).1 is None {
            Some(inputs_of(args.command).0)
        } else {
            None
        }),
{
    match &args.command {
        ResourceCommand::Info(a) => ResourcePlan {
            file: a.file.clone(),
            archive: copy_archive(&a.archive),
            names: crate::text::copy_texts(&a.names),
            local: local_path(a.file.as_str(), &a.archive),
        },
        ResourceCommand::Dump(a) => ResourcePlan {
            file: a.file.clone(),
            archive: copy_archive(&a.archive),
            names: crate::text::copy_texts(&a.names),
            local: local_path(a.file.as_str(), &a.archive),
        },
        ResourceCommand::Build(a) => {
            let names: Vec<String> = Vec::new();
            assert(texts(names@) =~= Seq::empty());
            ResourcePlan {
                file: a.input.clone(),
                archive: None,
                names,
                local: Some(a.input.clone()),
            }
        },
    }
}

// ── Contents ────────────────────────────────────────────────────────────────

/// A self-describing metadata file of no known kind.
#[derive(Debug, Clone)]
pub struct MetaSummary {
    /// The type's hash and the number of members of the root structure, where
    /// the root is one.
    pub root: Option<(u32, usize)>,
    pub warnings: Vec<String>,
    /// The whole tree as JSON, where that is wanted.
    pub json: String,
}

/// What the body was parsed as.
#[derive(Debug)]
pub enum Contents {
    Textures(Vec<Texture>),
    Drawables(Vec<DrawableEntry>),
    Ymap(MapFile),
    Types(TypeFile),
    Manifest(Manifest),
    /// Any other self-describing metadata: the generic tree.
    Meta(MetaSummary),
    Other,
}

/// The kinds of files that hold drawables.
#[derive(Debug, Clone, Copy, PartialEq, Eq, Structural)]
pub enum DrawableKind {
    Ydr,
    Ydd,
    Yft,
}

/// What the body is to be parsed as.
#[derive(Debug, Clone, Copy, PartialEq, Eq, Structural)]
pub enum Reading {
    Textures,
    Drawables(DrawableKind),
    Ymap,
    Types,
    Manifest,
    /// A metadata tree if it carries its schema, else nothing known.
    MetaOrOther,
    /// A manifest if the tree is one, else the tree.
    ManifestOrMeta,
}

/// What a file of the given lowercase extension is parsed as: by the
/// extension and, failing that, by the container.
pub open spec fn reading_of(ext: Seq<char>, container: Container) -> Reading {
    match container {
        Container::Rsc7(_) => {
            if ext == "ytd"@ {
                Reading::Textures
            } else if ext == "ydr"@ {
                Reading::Drawables(DrawableKind::Ydr)
            } else if ext == "ydd"@ {
                Reading::Drawables(DrawableKind::Ydd)
            } else if ext == "yft"@ {
                Reading::Drawables(DrawableKind::Yft)
            } else if ext == "ymap"@ {
                Reading::Ymap
            } else if ext == "ytyp"@ {
                Reading::Types
            } else if ext == "ymf"@ {
                Reading::Manifest
            } else {
                Reading::MetaOrOther
            }
        },
        Container::Meta(_) => if ext == "ymf"@ {
            Reading::Manifest
        } else {
            Reading::ManifestOrMeta
        },
    }
}

/// Decides what the body of a file of the given extension is parsed as.
pub fn reading(extension: &str, container: &Container) -> (r: Reading)
    ensures
        r == reading_of(lowercase(extension@), *container),
{
    let ext = to_lowercase(extension);
    let ext = ext.as_str();
    match container {
        Container::Rsc7(_) => {
            if same(ext, "ytd") {
                Reading::Textures
            } else if same(ext, "ydr") {
                Reading::Drawables(DrawableKind::Ydr)
            } else if same(ext, "ydd") {
                Reading::Drawables(DrawableKind::Ydd)
            } else if same(ext, "yft") {
                Reading::Drawables(DrawableKind::Yft)
            } else if same(ext, "ymap") {
                Reading::Ymap
            } else if same(ext, "ytyp") {
                Reading::Types
            } else if same(ext, "ymf") {
                Reading::Manifest
            } else {
                Reading::MetaOrOther
            }
        },
        Container::Meta(_) => if same(ext, "ymf") {
            Reading::Manifest
        } else {
            Reading::ManifestOrMeta
        },
    }
}

/// What is said when a file cannot be parsed as what it is.
pub open spec fn failure_of(reading: Reading) -> Option<Seq<char>> {
    match reading {
        Reading::Textures => Some("failed to parse texture dictionary"@),
        Reading::Drawables(_) => Some("failed to parse drawable"@),
        Reading::Ymap => Some("failed to parse map"@),
        Reading::Types => Some("failed to parse type file"@),
        Reading::Manifest => Some("failed to parse manifest"@),
        Reading::MetaOrOther | Reading::ManifestOrMeta => None,
    }
}

impl Reading {
    /// What is said when a file cannot be parsed as what it is; nothing is
    /// added where the parser's own words stand alone.
    pub fn failure(&self) -> (r: Option<&'static str>)
        ensures
            match r {
                Some(s) => failure_of(*self) == Some(s@),
                None => failure_of(*self) == None::<Seq<char>>,
            },
    {
        match self {
            Reading::Textures => Some("failed to parse texture dictionary"),
            Reading::Drawables(_) => Some("failed to parse drawable"),
            Reading::Ymap => Some("failed to parse map"),
            Reading::Types => Some("failed to parse type file"),
            Reading::Manifest => Some("failed to parse manifest"),
            Reading::MetaOrOther | Reading::ManifestOrMeta => None,
        }
    }
}

/// Reads the textures of a dictionary.
pub fn read_textures(data: &[u8]) -> (r: Result<Vec<Texture>, String>)
    ensures
        match r {
            Ok(list) => dictionary(data@) == Ok::<Seq<TextureView>, Seq<char>>(texture_views(list@)),
            Err(e) => dictionary(data@) is Err && e@ == "failed to parse texture dictionary: "@
                + dictionary(data@)->Err_0,
        },
{
    match parse_ytd(data) {
        Ok(list) => Ok(list),
        Err(e) => {
            let mut out = String::from_str("failed to parse texture dictionary: ");
            out.append(e.as_str());
            Err(out)
        },
    }
}

/// What is said when a resource that is to be dumped carries no schema.
pub fn dump_failure(file: &str) -> (out: String)
    ensures
        out@ == "'"@ + file@
            + "' is an RSC7 resource but not a Meta file (only .ymap/.ytyp/.ymt carry a schema to dump)"@,
{
    let mut out = String::from_str("'");
    out.append(file);
    out.append("' is an RSC7 resource but not a Meta file (only .ymap/.ytyp/.ymt carry a schema to dump)");
    out
}

// ── Metadata ────────────────────────────────────────────────────────────────

/// The summary of a tree and its warnings, with the tree as JSON or not.
pub open spec fn is_summary(
    m: MetaSummary,
    t: Tree,
    warnings: Seq<Seq<char>>,
    names: Map<u32, Seq<char>>,
    json: bool,
) -> bool {
    &&& match m.root {
        Some(root) => struct_in(t) == Some((root.0, root.1 as nat)),
        None => struct_in(t) is None,
    }
    &&& texts(m.warnings@) == warnings
    &&& m.json@ == (if json {
        short_json_of(t, names)
    } else {
        ""@
    })
}

/// What a tree is read as that is no manifest: its summary, unless the JSON
/// that is wanted of it cannot be written.
pub open spec fn is_read_as_tree(
    r: Result<Contents, String>,
    t: Tree,
    warnings: Seq<Seq<char>>,
    names: Map<u32, Seq<char>>,
    json: bool,
) -> bool {
    if json && !is_mild(t, MAX_NESTING as nat) {
        r is Err && r->Err_0@ == NO_JSON@
    } else {
        match r {
            Ok(Contents::Meta(m)) => is_summary(m, t, warnings, names, json),
            _ => false,
        }
    }
}

/// What a tree is read as that is a manifest.
pub open spec fn is_read_as_manifest(r: Result<Contents, String>, m: ManifestView) -> bool {
    match r {
        Ok(Contents::Manifest(found)) => found@ == m,
        _ => false,
    }
}

/// What a metadata file is read as.
pub open spec fn is_metadata_read(
    r: Result<Contents, String>,
    data: Seq<u8>,
    reading: Reading,
    names: Map<u32, Seq<char>>,
    json: bool,
) -> bool {
    match (metadata_in(data), reading) {
        (Err(e), Reading::MetaOrOther) => r matches Ok(Contents::Other),
        (Err(e), Reading::Manifest) => r is Err && r->Err_0@ == "failed to parse manifest: "@ + e,
        (Err(e), _) => r is Err && r->Err_0@ == e,
        (Ok((t, warnings)), Reading::MetaOrOther) => is_read_as_tree(r, t, warnings, names, json),
        (Ok((t, warnings)), Reading::Manifest) => match manifest_in(t) {
            Ok(m) => is_read_as_manifest(r, m),
            Err(e) => r is Err && r->Err_0@ == "failed to parse manifest: "@ + e,
        },
        (Ok((t, warnings)), _) => match manifest_in(t) {
            Ok(m) => is_read_as_manifest(r, m),
            Err(_) => is_read_as_tree(r, t, warnings, names, json),
        },
    }
}

fn manifest_failure(reason: &str) -> (out: String)
    ensures
        out@ == "failed to parse manifest: "@ + reason@,
{
    let mut out = String::from_str("failed to parse manifest: ");
    out.append(reason);
    out
}

fn summarise(dump: Dump, names: &NameTable, json: bool) -> (r: Result<Contents, String>)
    requires
        is_low(tree(dump.root), MAX_NESTING as nat),
    ensures
        is_read_as_tree(r, tree(dump.root), texts(dump.warnings@), table(*names), json),
{
    let text = if json {
        match write_short(&dump.root, names) {
            Ok(text) => text,
            Err(e) => return Err(e),
        }
    } else {
        String::from_str("")
    };
    let root = struct_of(&dump.root);
    Ok(Contents::Meta(MetaSummary { root, warnings: dump.warnings, json: text }))
}

/// Reads a metadata file: a manifest, one if it is one, or a tree of any
/// kind; with the tree as JSON where that is wanted.
pub fn read_tree(data: &[u8], reading: Reading, names: &NameTable, json: bool) -> (r: Result<
    Contents,
    String,
>)
    requires
        reading is Manifest || reading is MetaOrOther || reading is ManifestOrMeta,
    ensures
        is_metadata_read(r, data@, reading, table(*names), json),
{
    let dump = match read_metadata(data) {
        Ok(dump) => dump,
        Err(e) => {
            return match reading {
                Reading::MetaOrOther => Ok(Contents::Other),
                Reading::Manifest => Err(manifest_failure(e.as_str())),
                _ => Err(e),
            };
        },
    };
    match reading {
        Reading::MetaOrOther => summarise(dump, names, json),
        Reading::Manifest => match read_manifest(&dump.root) {
            Ok(m) => Ok(Contents::Manifest(m)),
            Err(e) => Err(manifest_failure(e.as_str())),
        },
        _ => match read_manifest(&dump.root) {
            Ok(m) => Ok(Contents::Manifest(m)),
            Err(_) => summarise(dump, names, json),
        },
    }
}

/// Reads the metadata tree of a file that is to be dumped.
pub fn read_dump(file: &str, container: &Container, data: &[u8]) -> (r: Result<Dump, String>)
    ensures
        match r {
            Ok(d) => metadata_in(data@) == Ok::<(Tree, Seq<Seq<char>>), Seq<char>>(
                (tree(d.root), texts(d.warnings@)),
            ),
            Err(e) => metadata_in(data@) is Err && e@ == (if *container is Rsc7 {
                "'"@ + file@
                    + "' is an RSC7 resource but not a Meta file (only .ymap/.ytyp/.ymt carry a schema to dump)"@
                    + ": "@ + metadata_in(data@)->Err_0
            } else {
                metadata_in(data@)->Err_0
            }),
        },
{
    match read_metadata(data) {
        Ok(dump) => Ok(dump),
        Err(reason) => match container {
            Container::Rsc7(_) => {
                let mut e = dump_failure(file);
                e.append(": ");
                e.append(reason.as_str());
                Err(e)
            },
            Container::Meta(_) => Err(reason),
        },
    }
}

/// Writes out the tree of a file that is dumped.
pub fn run_dump(args: &DumpArgs, dump: &Dump, names: &NameTable) -> (r: Result<String, String>)
    ensures
        match r {
            Ok(text) => tree_text(tree(dump.root), table(*names), args.json) == Ok::<
                Seq<char>,
                Seq<char>,
            >(text@),
            Err(e) => tree_text(tree(dump.root), table(*names), args.json) == Err::<
                Seq<char>,
                Seq<char>,
            >(e@),
        },
{
    write_tree(&dump.root, names, args.json)
}

// ── Unresolved hashes ───────────────────────────────────────────────────────

/// A hash without a name is printed from `i` on: `hash_` and eight
/// hexadecimal digits.
pub open spec fn is_placeholder_at(s: Seq<char>, i: int) -> bool {
    &&& occurs_at(s, "hash_"@, i)
    &&& i + 13 <= s.len()
    &&& forall|k: int| i + 5 <= k < i + 13 ==> is_hex_digit(#[trigger] s[k])
}

/// The number of hashes without a name that start in the first `n`
/// characters.
pub open spec fn placeholders(s: Seq<char>, n: nat) -> nat
    decreases n,
{
    if n == 0 {
        0
    } else {
        placeholders(s, (n - 1) as nat) + (if is_placeholder_at(s, n - 1) {
            1nat
        } else {
            0
        })
    }
}

fn placeholder_at(v: &Vec<char>, word: &Vec<char>, i: usize) -> (r: bool)
    requires
        i <= v.len(),
        word@ == "hash_"@,
    ensures
        r == is_placeholder_at(v@, i as int),
{
    if !is_at(v, word, i) || v.len() - i < 13 {
        return false;
    }
    let mut k: usize = i + 5;
    while k < i + 13
        invariant
            i + 5 <= k <= i + 13 <= v.len(),
            forall|j: int| i + 5 <= j < k ==> is_hex_digit(#[trigger] v@[j]),
        decreases i + 13 - k,
    {
        let c: char = v[k];
        if !(('0' <= c && c <= '9') || ('a' <= c && c <= 'f') || ('A' <= c && c <= 'F')) {
            assert(!is_hex_digit(v@[k as int]));
            return false;
        }
        k = k + 1;
    }
    true
}

fn count_placeholders(s: &str) -> (r: usize)
    ensures
        r == placeholders(s@, s@.len()),
{
    let v = chars_of(s);
    let word = chars_of("hash_");
    let mut count: usize = 0;
    let mut i: usize = 0;
    while i < v.len()
        invariant
            i <= v.len(),
            v@ == s@,
            word@ == "hash_"@,
            count == placeholders(s@, i as nat),
            count <= i,
        decreases v.len() - i,
    {
        if placeholder_at(&v, &word, i) {
            count = count + 1;
        }
        i = i + 1;
    }
    count
}

/// What is said of the active name list.
pub open spec fn active_list(header: Option<ListHeader>) -> Seq<char> {
    match header {
        Some(h) => "the name list "@ + h@.covers(),
        None =>
            "there is no name list yet (`rage names fetch` needs no game install; `rage names harvest --exe` scans one)"@,
    }
}

/// The closing line for a number of hashes without a name.
pub open spec fn note_text(count: nat, header: Option<ListHeader>) -> Seq<char> {
    "Unresolved: "@ + decimal(count) + " hash(es) with no known name; "@ + active_list(header)
        + ". A name absent from a list older than the file is not proof the asset does not exist.\n"@
}

/// A closing line when the text left `hash_XXXXXXXX` placeholders behind: how
/// many, what the active list covers, and that an absent name may be newer
/// than the list rather than missing from the game.
pub fn unresolved_note(text: &str, active: &Option<ListHeader>) -> (r: Option<String>)
    ensures
        r is None <==> placeholders(text@, text@.len()) == 0,
        r matches Some(note) ==> note@ == note_text(placeholders(text@, text@.len()), *active),
{
    let count: usize = count_placeholders(text);
    if count == 0 {
        return None;
    }
    let mut list = String::from_str(
        "there is no name list yet (`rage names fetch` needs no game install; `rage names harvest --exe` scans one)",
    );
    if let Some(h) = active {
        list = String::from_str("the name list ");
        list.append(h.coverage().as_str());
    }
    let mut out = String::from_str("Unresolved: ");
    out.append(decimal_of(count as u64).as_str());
    out.append(" hash(es) with no known name; ");
    out.append(list.as_str());
    out.append(
        ". A name absent from a list older than the file is not proof the asset does not exist.\n",
    );
    Some(out)
}

// ── Text ────────────────────────────────────────────────────────────────────

/// The line that names the file.
pub open spec fn file_line(file: Seq<char>, archive: Option<Seq<char>>) -> Seq<char> {
    match archive {
        Some(a) => "File:      "@ + a + " : "@ + file + "\n"@,
        None => "File:      "@ + file + "\n"@,
    }
}

fn write_file_line(file: &str, archive: &Option<String>) -> (out: String)
    ensures
        out@ == file_line(
            file@,
            match *archive {
                Some(a) => Some(a@),
                None => None,
            },
        ),
{
    let mut out = String::from_str("File:      ");
    if let Some(a) = archive {
        out.append(a.as_str());
        out.append(" : ");
    }
    out.append(file);
    out.append("\n");
    out
}

/// The lines about the header of a resource.
pub open spec fn header_text(h: Rsc7Header) -> Seq<char> {
    let encoded = flags_version(h.system_flags, h.graphics_flags);
    "Format:    RSC7  version "@ + decimal(h.version as nat) + "\n"@ + (if encoded != h.version {
        "           (warning: flags encode version "@ + decimal(encoded as nat) + ")\n"@
    } else {
        ""@
    }) + "System:    0x"@ + hex_digits_upper(h.system_flags as nat, 8) + " flags -> "@ + decimal(
        h.system_size as nat,
    ) + " bytes\nGraphics:  0x"@ + hex_digits_upper(h.graphics_flags as nat, 8) + " flags -> "@ + decimal(
        h.graphics_size as nat,
    ) + " bytes\nBody:      "@ + decimal(h.body_len as nat) + " bytes ("@ + (if h.compressed {
        "deflated"@
    } else {
        "stored"@
    }) + ")\n"@
}

fn write_header(h: &Rsc7Header) -> (out: String)
    ensures
        out@ == header_text(*h),
{
    let encoded: u32 = version_from_flags(h.system_flags, h.graphics_flags);
    let mut out = String::from_str("Format:    RSC7  version ");
    out.append(decimal_of(h.version as u64).as_str());
    out.append("\n");
    let mut warning = String::from_str("");
    if encoded != h.version {
        warning = String::from_str("           (warning: flags encode version ");
        warning.append(decimal_of(encoded as u64).as_str());
        warning.append(")\n");
    }
    out.append(warning.as_str());
    out.append("System:    0x");
    out.append(hex_upper_of(h.system_flags, 8).as_str());
    out.append(" flags -> ");
    out.append(decimal_of(h.system_size as u64).as_str());
    out.append(" bytes\nGraphics:  0x");
    out.append(hex_upper_of(h.graphics_flags, 8).as_str());
    out.append(" flags -> ");
    out.append(decimal_of(h.graphics_size as u64).as_str());
    out.append(" bytes\nBody:      ");
    out.append(decimal_of(h.body_len as u64).as_str());
    out.append(" bytes (");
    if h.compressed {
        out.append("deflated");
    } else {
        out.append("stored");
    }
    out.append(")\n");
    out
}

/// The lines about the container.
pub open spec fn container_text(container: Container) -> Seq<char> {
    match container {
        Container::Rsc7(h) => header_text(h),
        Container::Meta(kind) => "Format:    "@ + container_name(kind) + "\n"@,
    }
}

fn write_container(container: &Container) -> (out: String)
    ensures
        out@ == container_text(*container),
{
    match container {
        Container::Rsc7(h) => write_header(h),
        Container::Meta(kind) => {
            let mut out = String::from_str("Format:    ");
            out.append(kind.name());
            out.append("\n");
            out
        },
    }
}

/// What is printed of some drawables.
pub open spec fn drawables_text(list: Seq<DrawableEntry>, verbose: bool) -> Seq<char>
    decreases list.len(),
{
    if list.len() == 0 {
        ""@
    } else {
        drawables_text(list.drop_last(), verbose) + drawable_text(list.last(), verbose)
    }
}

fn write_drawables(list: &Vec<DrawableEntry>, verbose: bool) -> (out: String)
    ensures
        out@ == drawables_text(list@, verbose),
{
    let mut out = String::from_str("");
    let mut i: usize = 0;
    assert(list@.take(0) =~= Seq::empty());
    while i < list.len()
        invariant
            i <= list.len(),
            out@ == drawables_text(list@.take(i as int), verbose),
        decreases list.len() - i,
    {
        proof {
            assert(list@.take(i + 1).drop_last() =~= list@.take(i as int));
            assert(list@.take(i + 1).last() == list[i as int]);
        }
        out.append(write_drawable(&list[i], verbose).as_str());
        i = i + 1;
    }
    assert(list@.take(list.len() as int) =~= list@);
    out
}

/// Writes a warning as a line.
pub struct WarningLine;

impl Writes<String> for WarningLine {
    open spec fn text_of(&self, i: nat, item: &String) -> Seq<char> {
        "           warning: "@ + item@
    }

    fn write(&self, i: usize, item: &String) -> (out: String) {
        let mut out = String::from_str("           warning: ");
        out.append(item.as_str());
        out
    }
}

/// What is printed of a metadata tree.
pub open spec fn meta_text(meta: MetaSummary, names: NameTable) -> Seq<char> {
    "Summary:   "@ + (match meta.root {
        Some(root) => resolved(table(names), root.0),
        None => "?"@,
    }) + " with "@ + decimal(
        match meta.root {
            Some(root) => root.1 as nat,
            None => 0nat,
        },
    ) + " members; `rage resource dump` prints it in full\n"@ + unlines(
        written(WarningLine, meta.warnings@),
    )
}

fn write_meta(meta: &MetaSummary, names: &NameTable) -> (out: String)
    ensures
        out@ == meta_text(*meta, *names),
{
    let mut out = String::from_str("Summary:   ");
    let mut fields: usize = 0;
    match &meta.root {
        Some(root) => {
            out.append(resolve(names, root.0).as_str());
            fields = root.1;
        },
        None => {
            out.append("?");
        },
    }
    out.append(" with ");
    out.append(decimal_of(fields as u64).as_str());
    out.append(" members; `rage resource dump` prints it in full\n");
    out.append(unlines_of(&write_each(&WarningLine, &meta.warnings)).as_str());
    out
}

/// What is printed of the contents of a file.
pub open spec fn contents_text(
    contents: Contents,
    names: NameTable,
    checks: Checks,
    limit: nat,
    verbose: bool,
) -> Seq<char> {
    match contents {
        Contents::Other =>
            "Summary:   not a drawable, texture dictionary, map, type file or manifest\n"@,
        Contents::Textures(list) => "Textures:  "@ + decimal(list@.len()) + "\n"@ + unlines(
            written(PlainLine, list@),
        ),
        Contents::Drawables(list) => "Drawables: "@ + decimal(list@.len()) + "\n"@ + drawables_text(
            list@,
            verbose,
        ),
        Contents::Ymap(map) => map_text(map, names, checks, limit),
        Contents::Types(types) => types_text(types, names, limit),
        Contents::Manifest(manifest) => manifest_text(manifest, names, checks),
        Contents::Meta(meta) => meta_text(meta, names),
    }
}

fn write_contents(
    contents: &Contents,
    names: &NameTable,
    checks: &Checks,
    limit: usize,
    verbose: bool,
) -> (out: String)
    ensures
        out@ == contents_text(*contents, *names, *checks, limit as nat, verbose),
{
    match contents {
        Contents::Other => String::from_str(
            "Summary:   not a drawable, texture dictionary, map, type file or manifest\n",
        ),
        Contents::Textures(list) => {
            let mut out = String::from_str("Textures:  ");
            out.append(decimal_of(list.len() as u64).as_str());
            out.append("\n");
            out.append(unlines_of(&write_each(&PlainLine, list)).as_str());
            out
        },
        Contents::Drawables(list) => {
            let mut out = String::from_str("Drawables: ");
            out.append(decimal_of(list.len() as u64).as_str());
            out.append("\n");
            out.append(write_drawables(list, verbose).as_str());
            out
        },
        Contents::Ymap(map) => write_map(map, names, checks, limit),
        Contents::Types(types) => write_types(types, names, limit),
        Contents::Manifest(manifest) => write_manifest(manifest, names, checks),
        Contents::Meta(meta) => write_meta(meta, names),
    }
}

/// What `rage resource info` prints as text, before any closing line.
pub open spec fn info_text(
    args: InfoArgs,
    container: Container,
    contents: Contents,
    names: NameTable,
    checks: Checks,
    verbose: bool,
) -> Seq<char> {
    file_line(
        args.file@,
        match args.archive {
            Some(a) => Some(a@),
            None => None,
        },
    ) + container_text(container) + contents_text(contents, names, checks, args.limit as nat, verbose)
}

/// Prints what a file is and what it holds as text.
pub fn write_text(
    args: &InfoArgs,
    container: &Container,
    contents: &Contents,
    names: &NameTable,
    checks: &Checks,
    verbose: bool,
) -> (out: String)
    ensures
        out@ == info_text(*args, *container, *contents, *names, *checks, verbose),
{
    let mut out = write_file_line(args.file.as_str(), &args.archive);
    out.append(write_container(container).as_str());
    out.append(write_contents(contents, names, checks, args.limit, verbose).as_str());
    out
}

// ── JSON ────────────────────────────────────────────────────────────────────

/// The name of the kind of a file's contents.
pub open spec fn kind_name(contents: Contents) -> Seq<char> {
    match contents {
        Contents::Other => "other"@,
        Contents::Textures(_) => "textures"@,
        Contents::Drawables(_) => "drawables"@,
        Contents::Ymap(_) => "map"@,
        Contents::Types(_) => "types"@,
        Contents::Manifest(_) => "manifest"@,
        Contents::Meta(_) => "meta"@,
    }
}

fn name_kind(contents: &Contents) -> (out: &'static str)
    ensures
        out@ == kind_name(*contents),
{
    match contents {
        Contents::Other => "other",
        Contents::Textures(_) => "textures",
        Contents::Drawables(_) => "drawables",
        Contents::Ymap(_) => "map",
        Contents::Types(_) => "types",
        Contents::Manifest(_) => "manifest",
        Contents::Meta(_) => "meta",
    }
}

/// The member with the contents of a file.
pub open spec fn contents_json(
    contents: Contents,
    names: NameTable,
    checks: Checks,
    verbose: bool,
) -> Seq<char> {
    match contents {
        Contents::Other => ""@,
        Contents::Textures(list) => ",\"textures\":"@ + textures_json(list@),
        Contents::Drawables(list) => ",\"drawables\":"@ + array(
            written(DrawableJson { verbose }, list@),
        ),
        Contents::Ymap(map) => ",\"map\":"@ + map_json(map, names, checks),
        Contents::Types(types) => ",\"types\":"@ + types_json(types, names),
        Contents::Manifest(manifest) => ",\"manifest\":"@ + manifest_json(manifest, names, checks),
        Contents::Meta(meta) => ",\"meta\":"@ + meta.json@,
    }
}

fn json_contents(
    contents: &Contents,
    names: &NameTable,
    checks: &Checks,
    verbose: bool,
) -> (out: String)
    ensures
        out@ == contents_json(*contents, *names, *checks, verbose),
{
    match contents {
        Contents::Other => String::from_str(""),
        Contents::Textures(list) => {
            let mut out = String::from_str(",\"textures\":");
            out.append(json_textures(list).as_str());
            out
        },
        Contents::Drawables(list) => {
            let mut out = String::from_str(",\"drawables\":");
            out.append(array_of(&write_each(&DrawableJson { verbose }, list)).as_str());
            out
        },
        Contents::Ymap(map) => {
            let mut out = String::from_str(",\"map\":");
            out.append(json_map(map, names, checks).as_str());
            out
        },
        Contents::Types(types) => {
            let mut out = String::from_str(",\"types\":");
            out.append(json_types(types, names).as_str());
            out
        },
        Contents::Manifest(manifest) => {
            let mut out = String::from_str(",\"manifest\":");
            out.append(json_manifest(manifest, names, checks).as_str());
            out
        },
        Contents::Meta(meta) => {
            let mut out = String::from_str(",\"meta\":");
            out.append(meta.json.as_str());
            out
        },
    }
}

/// The members about the container.
pub open spec fn container_json(container: Container) -> Seq<char> {
    match container {
        Container::Rsc7(h) => "\"format\":\"RSC7\",\"version\":"@ + decimal(h.version as nat)
            + ",\"system_flags\":"@ + hash_json(h.system_flags) + ",\"system_size\":"@ + decimal(
            h.system_size as nat,
        ) + ",\"graphics_flags\":"@ + hash_json(h.graphics_flags) + ",\"graphics_size\":"@ + decimal(
            h.graphics_size as nat,
        ) + ",\"body_bytes\":"@ + decimal(h.body_len as nat) + ",\"compressed\":"@ + bool_text(
            h.compressed,
        ),
        Container::Meta(kind) => "\"format\":"@ + json_text(container_name(kind)),
    }
}

fn json_container(container: &Container) -> (out: String)
    ensures
        out@ == container_json(*container),
{
    match container {
        Container::Rsc7(h) => {
            let mut out = String::from_str("\"format\":\"RSC7\",\"version\":");
            out.append(decimal_of(h.version as u64).as_str());
            out.append(",\"system_flags\":");
            out.append(json_hash(h.system_flags).as_str());
            out.append(",\"system_size\":");
            out.append(decimal_of(h.system_size as u64).as_str());
            out.append(",\"graphics_flags\":");
            out.append(json_hash(h.graphics_flags).as_str());
            out.append(",\"graphics_size\":");
            out.append(decimal_of(h.graphics_size as u64).as_str());
            out.append(",\"body_bytes\":");
            out.append(decimal_of(h.body_len as u64).as_str());
            out.append(",\"compressed\":");
            out.append(bool_of(h.compressed));
            out
        },
        Container::Meta(kind) => {
            let mut out = String::from_str("\"format\":");
            out.append(json_string(kind.name()).as_str());
            out
        },
    }
}

/// What `rage resource info` prints as JSON.
pub open spec fn info_json(
    args: InfoArgs,
    container: Container,
    contents: Contents,
    names: NameTable,
    checks: Checks,
    verbose: bool,
) -> Seq<char> {
    "{\"file\":"@ + json_text(args.file@) + ",\"archive\":"@ + (match args.archive {
        Some(a) => json_text(a@),
        None => "null"@,
    }) + ","@ + container_json(container) + ",\"kind\":\""@ + kind_name(contents) + "\""@
        + contents_json(contents, names, checks, verbose) + "}\n"@
}

/// Prints what a file is and what it holds as one JSON object.
pub fn write_json(
    args: &InfoArgs,
    container: &Container,
    contents: &Contents,
    names: &NameTable,
    checks: &Checks,
    verbose: bool,
) -> (out: String)
    ensures
        out@ == info_json(*args, *container, *contents, *names, *checks, verbose),
{
    let mut out = String::from_str("{\"file\":");
    out.append(json_string(args.file.as_str()).as_str());
    out.append(",\"archive\":");
    match &args.archive {
        Some(a) => {
            out.append(json_string(a.as_str()).as_str());
        },
        None => {
            out.append("null");
        },
    }
    out.append(",");
    out.append(json_container(container).as_str());
    out.append(",\"kind\":\"");
    out.append(name_kind(contents));
    out.append("\"");
    out.append(json_contents(contents, names, checks, verbose).as_str());
    out.append("}\n");
    out
}

/// What `rage resource info` prints: one JSON object, or the text with a
/// closing line where hashes stayed without a name.
pub open spec fn info_output(
    args: InfoArgs,
    container: Container,
    contents: Contents,
    names: NameTable,
    checks: Checks,
    verbose: bool,
    active: Option<ListHeader>,
) -> Seq<char> {
    let text = info_text(args, container, contents, names, checks, verbose);
    let left = placeholders(text, text.len());
    if args.json {
        info_json(args, container, contents, names, checks, verbose)
    } else if left == 0 {
        text
    } else {
        text + note_text(left, active)
    }
}

/// Prints what a file is and what it holds, as the arguments ask for it.
pub fn run_info(
    args: &InfoArgs,
    container: &Container,
    contents: &Contents,
    names: &NameTable,
    checks: &Checks,
    verbose: bool,
    active: &Option<ListHeader>,
) -> (out: String)
    ensures
        out@ == info_output(*args, *container, *contents, *names, *checks, verbose, *active),
{
    if args.json {
        return write_json(args, container, contents, names, checks, verbose);
    }
    let mut out = write_text(args, container, contents, names, checks, verbose);
    if let Some(note) = unresolved_note(out.as_str(), active) {
        out.append(note.as_str());
    }
    out
}

/// A hash that no list knows shows up as a placeholder of the closing line's
/// count: what stands for it is `hash_` and eight hexadecimal digits.
pub proof fn law_placeholders_are_counted(hash: u32)
    requires
        hash != 0,
    ensures
        is_placeholder_at(crate::name_table::placeholder(hash), 0),
{
    reveal_strlit("hash_");
    let p = crate::name_table::placeholder(hash);
    let digits = hex_digits_upper(hash as nat, 8);
    reveal_with_fuel(hex_range, 9);
    lemma_hex_digits(hash as nat, 8);
    assert(p.subrange(0, 5) =~= "hash_"@);
    assert forall|k: int| 5 <= k < 13 implies is_hex_digit(#[trigger] p[k]) by {
        assert(p[k] == digits[k - 5]);
    }
}

/// Being verbose only adds the bounds of each geometry of drawables: on
/// anything else it changes nothing, as text or as JSON.
pub proof fn law_verbose_only_concerns_drawables(
    args: InfoArgs,
    container: Container,
    contents: Contents,
    names: NameTable,
    checks: Checks,
    active: Option<ListHeader>,
)
    requires
        !(contents is Drawables),
    ensures
        info_output(args, container, contents, names, checks, true, active) == info_output(
            args,
            container,
            contents,
            names,
            checks,
            false,
            active,
        ),
{
}

} // verus!
