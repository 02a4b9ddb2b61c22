//! How a file is told and what is said of it.
use vstd::prelude::*;
use crate::commands::resource::assemble::{format_name, named_format, usual_format, BuildFormat};
use crate::commands::resource::checks::{
    first_known, is_here, name_mismatch, orphans, unknown_of, Sibling,
};
use crate::commands::resource::container::{
    container_name, container_of, flags_version, header_of, meta_container, pages, section_size,
    system_section, word, Container, Fault, MetaContainer, Rsc7Header,
};
use crate::commands::resource::drawables::{
    diffuse_json, diffuse_text, geometry_json, geometry_text, shaders_json, shaders_text,
    texture_label, textures_json, DrawableEntry, DrawableJson, GeometryBounds, IndentedLine,
    ShaderGroup,
};
use crate::commands::resource::info::{
    active_list, container_json, container_text, contents_json, contents_text, drawables_text,
    failure_of, file_line, info_json, info_output, info_text, kind_name, placeholders, reading_of,
    Contents, DrawableKind, InfoArgs, Reading,
};
use crate::commands::resource::manifest::{
    deps_text, interior_note, manifest_text, names_text, orphan_note, section, unknown_warning,
    Dependencies, HashName, Manifest, MapDependencyLine, NameText, TypeDependencyLine,
};
use crate::commands::resource::maps::{
    hash_json, map_failure, map_head_text, map_text, mismatch_json, mismatch_text, mlo_note,
    more_text, parent_text, seen_text, MapFile, MapLine,
};
use crate::commands::resource::numbers::shown_count;
use crate::commands::resource::checks::Checks;
use crate::formats::Texture;
use crate::hash::joaat;
use crate::json_text::{array, json_hash_name, quoted};
use crate::laws::wording::{lemma_says, says};
use crate::name_table::{resolved, table};
use crate::names::ListHeader;
use crate::text::{
    ascii_lowercase, bool_text, decimal, hex_digits_upper, is_hex_digit, join, lowercase, unlines,
};
use crate::utils::json_text;
use crate::writer::written;
use rage_formats::NameTable;

verus! {

// ── Containers ──────────────────────────────────────────────────────────────

/// The pages of a section are counted by size: the fields of the flags, from
/// the smallest pages to the largest, each weigh twice the one before.
pub proof fn law_pages_are_counted_by_size(flags: u32)
    ensures
        pages(flags) == ((flags & 0x0800_0000) >> 27) + ((flags & 0x0400_0000) >> 25) + ((flags
            & 0x0200_0000) >> 23) + ((flags & 0x0100_0000) >> 21) + ((flags & 0x00fe_0000) >> 13) + ((
        flags & 0x0001_f800) >> 6) + ((flags & 0x0000_0780) >> 1) + 4 * (flags & 0x0000_0060) + 16 * (
        flags & 0x0000_0010),
        section_size(flags) % 512 == 0,
        flags & 0xf == 0 ==> section_size(flags) == 512 * pages(flags),
{
    assert(((flags >> 27) & 1) == ((flags & 0x0800_0000) >> 27) && 2 * ((flags >> 26) & 1) == ((flags
        & 0x0400_0000) >> 25) && 4 * ((flags >> 25) & 1) == ((flags & 0x0200_0000) >> 23) && 8 * ((
    flags >> 24) & 1) == ((flags & 0x0100_0000) >> 21) && 16 * ((flags >> 17) & 0x7f) == ((flags
        & 0x00fe_0000) >> 13) && 32 * ((flags >> 11) & 0x3f) == ((flags & 0x0001_f800) >> 6) && 64 * ((
    flags >> 7) & 0xf) == ((flags & 0x0000_0780) >> 1) && 128 * ((flags >> 5) & 3) == 4 * (flags
        & 0x0000_0060) && 256 * ((flags >> 4) & 1) == 16 * (flags & 0x0000_0010)) by (bit_vector);
    assert(flags & 0xf <= 15) by (bit_vector);
    let shift = (flags & 0xf) as u64;
    assert(512u64 << shift == 512 * (1u64 << shift) && 512u64 << 0u64 == 512) by (bit_vector)
        requires
            shift <= 15,
    ;
    let unit = 1u64 << shift;
    let n = pages(flags);
    assert((512 * unit) * n == 512 * (unit * n)) by (nonlinear_arith);
    assert((512 * (unit * n)) % 512 == 0) by (nonlinear_arith);
}

/// Doubling the size of the smallest page doubles a section.
pub proof fn law_page_size_doubles(flags: u32)
    requires
        flags & 0xf < 15,
    ensures
        section_size((flags + 1) as u32) == 2 * section_size(flags),
{
    let next = (flags + 1) as u32;
    assert(flags < 0xffff_ffffu32 && next & 0xf == (flags & 0xf) + 1 && (next >> 4) == (flags >> 4)) by (bit_vector)
        requires
            flags & 0xf < 15,
            next == (flags + 1) as u32,
    ;
    law_pages_are_counted_by_size(flags);
    law_pages_are_counted_by_size(next);
    assert((next & 0x0800_0000) == (flags & 0x0800_0000) && (next & 0x0400_0000) == (flags
        & 0x0400_0000) && (next & 0x0200_0000) == (flags & 0x0200_0000) && (next & 0x0100_0000) == (
    flags & 0x0100_0000) && (next & 0x00fe_0000) == (flags & 0x00fe_0000) && (next & 0x0001_f800) == (
    flags & 0x0001_f800) && (next & 0x0000_0780) == (flags & 0x0000_0780) && (next & 0x60) == (flags
        & 0x60) && (next & 0x10) == (flags & 0x10)) by (bit_vector)
        requires
            (next >> 4) == (flags >> 4),
    ;
    let a = (flags & 0xf) as u64;
    let b = (next & 0xf) as u64;
    assert(512u64 << b == 2 * (512u64 << a)) by (bit_vector)
        requires
            a < 15,
            b == a + 1,
    ;
    let n = pages(flags);
    assert((2 * (512u64 << a)) * n == 2 * ((512u64 << a) * n)) by (nonlinear_arith);
}

/// The version that the flags encode is made of the topmost four bits of both:
/// those of the system flags are the high ones.
pub proof fn law_flags_encode_the_version(system: u32, graphics: u32)
    ensures
        flags_version(system, graphics) == 16 * (system / 0x1000_0000) + graphics / 0x1000_0000,
{
    assert(((((system >> 28) & 0xf) << 4) | ((graphics >> 28) & 0xf)) == 16 * (system / 0x1000_0000)
        + graphics / 0x1000_0000) by (bit_vector);
}

/// The header of a resource: the version is the second word, the flags of both
/// sections the third and the fourth; the body is what follows, and is stored
/// as it is exactly when it holds both sections and starts with the first.
pub proof fn law_header_is_read_word_by_word(data: Seq<u8>)
    requires
        data.len() >= 16,
    ensures
        match header_of(data) {
            Ok(h) => {
                &&& word(data, 0) == 0x3743_5352
                &&& h.version == word(data, 4)
                &&& h.system_flags == word(data, 8)
                &&& h.graphics_flags == word(data, 12)
                &&& h.system_size == section_size(h.system_flags) as usize
                &&& h.graphics_size == section_size(h.graphics_flags) as usize
                &&& h.body_len == (data.len() - 16) as usize
                &&& system_section(data) is Ok
                &&& !h.compressed <==> data.len() - 16 >= section_size(h.system_flags)
                    + section_size(h.graphics_flags) && data.subrange(
                    16,
                    16 + section_size(h.system_flags),
                ) == system_section(data)->Ok_0
            },
            Err(Fault::Escrowed) => word(data, 0) == 0x5041_5846,
            Err(Fault::Gen9 { magic }) => magic == word(data, 0) && magic == 0x3843_5352,
            Err(Fault::NotRsc7 { magic }) => magic == word(data, 0) && magic != 0x3743_5352 && magic
                != 0x3843_5352 && magic != 0x5041_5846,
            Err(Fault::TooLarge) => word(data, 0) == 0x3743_5352 && section_size(word(data, 8))
                + section_size(word(data, 12)) > usize::MAX,
            Err(Fault::Unpack { reason }) => word(data, 0) == 0x3743_5352 && system_section(data)
                == Err::<Seq<u8>, Seq<char>>(reason),
            Err(_) => false,
        },
{
    let s = section_size(word(data, 8));
    let body = data.skip(16);
    law_pages_are_counted_by_size(word(data, 8));
    law_pages_are_counted_by_size(word(data, 12));
    lemma_size_is_natural(word(data, 8));
    lemma_size_is_natural(word(data, 12));
    if body.len() >= s {
        assert(body.take(s) =~= data.subrange(16, 16 + s));
    }
}

proof fn lemma_size_is_natural(flags: u32)
    ensures
        section_size(flags) >= 0,
{
    let a = 512u64 << ((flags & 0xf) as u64);
    let n = pages(flags);
    law_pages_are_counted_by_size(flags);
    assert(n >= 0);
    assert(a * n >= 0) by (nonlinear_arith)
        requires
            n >= 0,
            a >= 0,
    ;
}

/// A file is told by its first four bytes: "PSIN", "RBF0" and the mark of a
/// resource; failing those, by a bracket within the first 64 bytes behind
/// nothing but white space and a byte order mark.
pub proof fn law_containers_are_told_by_their_mark(data: Seq<u8>)
    requires
        data.len() >= 4,
    ensures
        ({
            let mark = seq![data[0], data[1], data[2], data[3]];
            let got = meta_container(data);
            &&& mark == seq![0x50u8, 0x53, 0x49, 0x4e] ==> got == Some(MetaContainer::Pso)
            &&& mark == seq![0x52u8, 0x42, 0x46, 0x30] ==> got == Some(MetaContainer::Rbf)
            &&& got == Some(MetaContainer::Pso) ==> mark == seq![0x50u8, 0x53, 0x49, 0x4e]
            &&& got == Some(MetaContainer::Rbf) ==> mark == seq![0x52u8, 0x42, 0x46, 0x30]
            &&& got == Some(MetaContainer::Meta) ==> word(data, 0) == 0x3743_5352
            &&& got == Some(MetaContainer::Xml) ==> exists|i: int|
                0 <= i < 64 && i < data.len() && #[trigger] data[i] == 0x3c && forall|j: int|
                    0 <= j < i ==> {
                        let b = #[trigger] data[j];
                        b == 0x20 || b == 0x09 || b == 0x0a || b == 0x0c || b == 0x0d || b == 0xef || b
                            == 0xbb || b == 0xbf
                    }
            &&& data[0] == 0x3c && word(data, 0) != 0x3743_5352 ==> got == Some(MetaContainer::Xml)
            &&& got is None ==> data[0] != 0x3c
        }),
{
    let mark = seq![data[0], data[1], data[2], data[3]];
    let pso = seq![0x50u8, 0x53u8, 0x49u8, 0x4eu8];
    let rbf = seq![0x52u8, 0x42u8, 0x46u8, 0x30u8];
    assert(data.take(4) =~= mark);
    assert(pso[0] == 0x50 && rbf[0] == 0x52);
    assert(mark[0] == data[0]);
    if data[0] == 0x3c {
        assert(mark != pso && mark != rbf);
        assert(crate::commands::resource::container::starts_as_xml(data));
    }
}

/// What a file is refused for, or taken as, by its first word: each mark has
/// an answer of its own.
pub proof fn law_files_are_taken_by_their_mark(data: Seq<u8>)
    requires
        data.len() >= 16,
    ensures
        ({
            let magic = word(data, 0);
            let got = container_of(data);
            &&& magic == 0x5041_5846 <==> got == Err::<Container, Fault>(Fault::Escrowed)
            &&& magic == 0x3843_5352 <==> got == Err::<Container, Fault>(Fault::Gen9 { magic })
            &&& magic == 0x3743_5352 ==> got == (match header_of(data) {
                Ok(h) => Ok::<Container, Fault>(Container::Rsc7(h)),
                Err(e) => Err(e),
            })
            &&& magic != 0x5041_5846 && magic != 0x3843_5352 && magic != 0x3743_5352 ==> got == (
            match meta_container(data) {
                Some(kind) => Ok::<Container, Fault>(Container::Meta(kind)),
                None => Err(Fault::NotAResource { magic }),
            })
        }),
{
    law_header_is_read_word_by_word(data);
}

/// The names of containers and of what is built.
pub proof fn law_containers_have_names()
    ensures
        container_name(MetaContainer::Pso) == "PSO"@,
        container_name(MetaContainer::Rbf) == "RBF"@,
        container_name(MetaContainer::Meta) == "RSC7 Meta"@,
        container_name(MetaContainer::Xml) == "XML"@,
        format_name(BuildFormat::Meta) == container_name(MetaContainer::Meta),
        format_name(BuildFormat::Pso) == container_name(MetaContainer::Pso),
{
}

/// What a file is refused with.
pub proof fn law_faults_are_worded(fault: Fault)
    ensures
        match fault {
            Fault::TooShort { len } => fault.text() == "file is "@ + decimal(len as nat)
                + " bytes; an RSC7 header needs 16"@,
            Fault::Escrowed => fault.text()
                == "FiveM escrow-encrypted asset (magic 'FXAP'); only the server that bought it can decrypt it"@,
            Fault::Gen9 { magic } => fault.text()
                == "Gen9 RSC8 resources are not supported (magic 0x"@ + hex_digits_upper(
                magic as nat,
                8,
            ) + ")"@,
            Fault::NotRsc7 { magic } => fault.text() == "not an RSC7 resource (magic 0x"@
                + hex_digits_upper(magic as nat, 8) + ", expected 0x37435352)"@,
            Fault::NotAResource { magic } => fault.text() == "not an RSC7 resource (magic 0x"@
                + hex_digits_upper(magic as nat, 8)
                + ", expected 0x37435352), nor a PSO, RBF or XML file"@,
            Fault::TooLarge => fault.text()
                == "the sections of the resource are too large for this machine"@,
            Fault::Unpack { reason } => fault.text() == reason,
        },
{
}

/// A format is named whatever its case, and each of the two by its own name;
/// failing that, it follows from the extension of the output.
pub proof fn law_formats_are_named(name: Seq<char>)
    ensures
        named_format(name) == Some(BuildFormat::Meta) <==> ascii_lowercase(name) == "meta"@,
        named_format(name) == Some(BuildFormat::Pso) <==> ascii_lowercase(name) == "pso"@,
        usual_format(name) == Some(BuildFormat::Meta) <==> name == "ymap"@ || name == "ytyp"@ || name
            == "ymt"@,
        usual_format(name) == Some(BuildFormat::Pso) <==> name == "ymf"@ || name == "pso"@,
{
    reveal_strlit("meta");
    reveal_strlit("pso");
    reveal_strlit("ymap");
    reveal_strlit("ytyp");
    reveal_strlit("ymt");
    reveal_strlit("ymf");
    assert("meta"@.len() == 4 && "pso"@.len() == 3 && "ymap"@.len() == 4 && "ytyp"@.len() == 4);
    assert("ymt"@[2] == 't' && "ymf"@[2] == 'f' && "ymf"@[0] == 'y' && "pso"@[0] == 'p' && "ymt"@[0]
        == 'y');
}

// ── What a file is read as ──────────────────────────────────────────────────

/// A resource is read by its extension, each as its own kind.
pub proof fn law_resources_are_read_by_extension(ext: Seq<char>, h: Rsc7Header)
    ensures
        ({
            let got = reading_of(ext, Container::Rsc7(h));
            &&& got == Reading::Textures <==> ext == "ytd"@
            &&& got == Reading::Drawables(DrawableKind::Ydr) <==> ext == "ydr"@
            &&& got == Reading::Drawables(DrawableKind::Ydd) <==> ext == "ydd"@
            &&& got == Reading::Drawables(DrawableKind::Yft) <==> ext == "yft"@
            &&& got == Reading::Ymap <==> ext == "ymap"@
            &&& got == Reading::Types <==> ext == "ytyp"@
            &&& got == Reading::Manifest <==> ext == "ymf"@
            &&& got != Reading::ManifestOrMeta
        }),
{
    reveal_strlit("ytd");
    reveal_strlit("ydr");
    reveal_strlit("ydd");
    reveal_strlit("yft");
    reveal_strlit("ymap");
    reveal_strlit("ytyp");
    reveal_strlit("ymf");
    assert("ytd"@[1] == 't' && "ydr"@[1] == 'd' && "ydd"@[1] == 'd' && "yft"@[1] == 'f' && "ymap"@[1]
        == 'm' && "ytyp"@[1] == 't' && "ymf"@[1] == 'm');
    assert("ydr"@[2] == 'r' && "ydd"@[2] == 'd' && "ytd"@.len() == 3 && "ytyp"@.len() == 4
        && "ymap"@.len() == 4 && "ymf"@.len() == 3);
}

/// Metadata outside a resource is a manifest by its extension, and otherwise a
/// manifest if its tree is one.
pub proof fn law_metadata_is_read_as_a_manifest(ext: Seq<char>, kind: MetaContainer)
    ensures
        reading_of(ext, Container::Meta(kind)) == (if ext == "ymf"@ {
            Reading::Manifest
        } else {
            Reading::ManifestOrMeta
        }),
{
}

/// What is said where a file of each kind cannot be read.
pub proof fn law_failures_are_worded(kind: DrawableKind)
    ensures
        failure_of(Reading::Textures) == Some("failed to parse texture dictionary"@),
        failure_of(Reading::Drawables(kind)) == Some("failed to parse drawable"@),
        failure_of(Reading::Ymap) == Some("failed to parse map"@),
        failure_of(Reading::Types) == Some("failed to parse type file"@),
        failure_of(Reading::Manifest) == Some("failed to parse manifest"@),
        failure_of(Reading::MetaOrOther) is None,
        failure_of(Reading::ManifestOrMeta) is None,
{
}

// ── What is printed ─────────────────────────────────────────────────────────

/// A limit of nothing is none; any other shows so many, and the rest is counted.
pub proof fn law_limit(len: nat, limit: nat)
    ensures
        shown_count(len, 0) == len,
        limit > 0 ==> shown_count(len, limit) == (if limit < len {
            limit
        } else {
            len
        }),
        more_text(0).len() == 0,
        limit > 0 ==> more_text(limit) == "  ... "@ + decimal(limit) + " more (--limit 0 for all)\n"@,
{
    reveal_strlit("");
}

/// The entities of a map are listed up to the limit, the rest is counted, and
/// the flags that any bears are named. A map without entities has its head
/// alone.
pub proof fn law_map_is_printed(map: MapFile, names: NameTable, checks: Checks, limit: nat)
    ensures
        ({
            let text = map_text(map, names, checks, limit);
            let count = shown_count(map.entities@.len(), limit);
            let lines = unlines(written(MapLine { names: &names }, map.entities@.take(count as int)));
            let rest = more_text((map.entities@.len() - count) as nat);
            let seen = seen_text(
                crate::names::in_order(
                    crate::commands::resource::maps::flags_seen(map.entities@),
                ),
            );
            if map.entities@.len() == 0 {
                text == map_head_text(map, names, checks)
            } else {
                &&& map_head_text(map, names, checks).is_prefix_of(text)
                &&& says(text, lines + rest + seen)
                &&& says(
                    text,
                    "     #  archetype                                 x          y        z     yaw scale    lod  flags\n"@
                        + lines,
                )
            }
        }),
        seen_text(Seq::empty()).len() == 0,
        forall|seen: Seq<Seq<char>>|
            seen.len() > 0 ==> #[trigger] seen_text(seen) == "Entity flags seen: "@ + join(seen, ", "@)
                + "\n"@,
{
    reveal_strlit("");
    lemma_says();
}

/// A map is warned of when its file's name is not its own, with both names.
pub proof fn law_renamed_maps_are_warned_of(
    stem: Seq<char>,
    name_hash: u32,
    names: Map<u32, Seq<char>>,
)
    ensures
        mismatch_text(None, name_hash, names).len() == 0,
        ({
            let text = mismatch_text(Some(stem), name_hash, names);
            let own = resolved(names, name_hash);
            &&& says(
                text,
                "           warning: the file is called "@ + stem + " but the map calls itself "@,
            )
            &&& says(text, " but the map calls itself "@ + own + " (0x"@)
            &&& says(
                text,
                " (0x"@ + hex_digits_upper(name_hash as nat, 8) + "); the game registers it as "@,
            )
            &&& says(
                text,
                "); the game registers it as "@ + stem
                    + ",\n           so parent links and _manifest.ymf imapName entries that say "@,
            )
        }),
        mismatch_json(None) == "null"@,
        mismatch_json(Some(stem)) == quoted(stem),
        name_mismatch(stem, name_hash) <==> stem.len() > 0 && joaat(stem) != name_hash && joaat(
            lowercase(stem),
        ) != name_hash,
{
    reveal_strlit("");
    lemma_says();
}

/// Small words: a hash of nothing is a dash, or null; an interior is marked.
pub proof fn law_small_words(hash: u32, names: Map<u32, Seq<char>>)
    ensures
        parent_text(0, names) == "-"@,
        hash != 0 ==> parent_text(hash, names) == resolved(names, hash),
        json_hash_name(0, names) == "null"@,
        hash != 0 ==> json_hash_name(hash, names) == quoted(resolved(names, hash)),
        hash_json(hash) == "\"0x"@ + hex_digits_upper(hash as nat, 8) + "\""@,
        mlo_note(true) == " (MLO)"@,
        mlo_note(false) == ""@,
        bool_text(true) == "true"@,
        bool_text(false) == "false"@,
        hash & 1 != 0 ==> interior_note(hash) == " [INTERIOR_DATA]"@,
        hash & 1 == 0 ==> interior_note(hash) == ""@,
        orphan_note(None) == ""@,
        orphan_note(Some(true)) == "  (no such .ymap here; a vanilla map?)"@,
        orphan_note(Some(false)) == "  (no such .ymap here, and no list knows the name)"@,
{
}

/// The failure of a map is that of the first of its parts that cannot be read.
pub proof fn law_first_failure_of_a_map(data: Seq<u8>)
    ensures
        match crate::formats::map_header(data) {
            Err(e) => map_failure(data) == Some(e),
            Ok(_) => match crate::formats::map_entities(data) {
                Err(e) => map_failure(data) == Some(e),
                Ok(_) => match crate::formats::map_instances(data) {
                    Err(e) => map_failure(data) == Some(e),
                    Ok(_) => map_failure(data) is None,
                },
            },
        },
{
}

/// A name of a manifest is shown as it is written, else by its hash.
pub proof fn law_names_of_a_manifest(n: HashName, names: Map<u32, Seq<char>>)
    ensures
        n.name is None ==> n.shown(names) == resolved(names, n.hash),
        n.name is None ==> n.as_json(names) == json_hash_name(n.hash, names),
        n.name is None ==> n.name_hash() == n.hash,
        n.name matches Some(s) ==> n.shown(names) == s@ && n.as_json(names) == quoted(s@)
            && n.name_hash() == joaat(s@),
{
}

/// A section of a manifest has a title, a count and its lines; an empty one is
/// left out.
pub proof fn law_sections_are_counted(title: Seq<char>, lines: Seq<Seq<char>>)
    ensures
        section(title, Seq::empty()).len() == 0,
        lines.len() > 0 ==> section(title, lines) == title + " ("@ + decimal(lines.len()) + "):\n"@
            + unlines(lines),
{
    reveal_strlit("");
}

/// The sections of a manifest come in their order, each under its title. A
/// manifest that lists nothing says so.
pub proof fn law_manifest_is_printed(m: Manifest, names: NameTable, checks: Checks)
    ensures
        ({
            let text = manifest_text(m, names, checks);
            let by_name = NameText { names: &names };
            let empty = m.map_data_groups@.len() == 0 && m.imap_dependencies@.len() == 0
                && m.imap_dependencies_2@.len() == 0 && m.ityp_dependencies_2@.len() == 0
                && m.hd_txd_bindings@.len() == 0 && m.interiors@.len() == 0;
            let maps = section(
                "Map dependencies"@,
                written(MapDependencyLine { names: &names, checks: &checks }, m.imap_dependencies_2@),
            );
            let types = section(
                "Type dependencies"@,
                written(TypeDependencyLine { names: &names }, m.ityp_dependencies_2@),
            );
            let old = section("Map dependencies, old form"@, written(by_name, m.imap_dependencies@));
            let interiors = section("Interiors"@, written(by_name, m.interiors@));
            let bindings = section("HD texture bindings"@, written(by_name, m.hd_txd_bindings@));
            let groups = section("Map data groups"@, written(by_name, m.map_data_groups@));
            if empty {
                text == "Manifest:  empty\n"@
            } else {
                &&& maps.is_prefix_of(text)
                &&& m.imap_dependencies_2@.len() > 0 ==> says(
                    text,
                    maps + unknown_warning(checks@.unknown()) + types,
                )
                &&& says(text, types + old + interiors)
                &&& says(text, interiors + bindings + groups)
            }
        }),
{
    lemma_says();
}

/// The maps that no list knows are warned of together.
pub proof fn law_unknown_maps_are_warned_of(unknown: Seq<Seq<char>>)
    ensures
        unknown_warning(Seq::empty()).len() == 0,
        unknown.len() > 0 ==> says(
            unknown_warning(unknown),
            "           warning: "@ + decimal(unknown.len())
                + " declared map(s) exist neither next to this manifest nor in any name list ("@,
        ) && says(
            unknown_warning(unknown),
            " declared map(s) exist neither next to this manifest nor in any name list ("@ + join(
                unknown,
                ", "@,
            ) + "); a leftover from a map since renamed or removed?\n"@,
        ),
{
    reveal_strlit("");
    lemma_says();
}

/// What a map depends on is listed, or a dash.
pub proof fn law_dependencies_are_listed(list: Seq<HashName>, names: NameTable)
    ensures
        deps_text(Seq::empty(), names) == "-"@,
        list.len() > 0 ==> deps_text(list, names) == names_text(list, names),
        names_text(list, names) == join(
            Seq::new(list.len(), |i: int| list[i].shown(table(names))),
            ", "@,
        ),
{
    assert(written(NameText { names: &names }, list) =~= Seq::new(
        list.len(),
        |i: int| list[i].shown(table(names)),
    ));
}

// ── Orphans ─────────────────────────────────────────────────────────────────

/// A declared map is reported exactly when no map file here bears its name,
/// in whatever case of its extension, with whether any list knows it.
pub proof fn law_declared_maps_without_a_file_are_reported(
    deps: Seq<Dependencies>,
    dep: Dependencies,
    siblings: Seq<Sibling>,
    known: Map<u32, Seq<char>>,
)
    ensures
        orphans(Seq::empty(), siblings, known).len() == 0,
        ({
            let before = orphans(deps, siblings, known);
            let got = orphans(deps.push(dep), siblings, known);
            let hash = dep.name.name_hash();
            let here = exists|i: int|
                0 <= i < siblings.len() && ascii_lowercase((#[trigger] siblings[i]).extension@)
                    == "ymap"@ && (joaat(siblings[i].stem@) == hash || joaat(
                    lowercase(siblings[i].stem@),
                ) == hash);
            if here {
                got == before
            } else {
                got == before.push((dep.name.shown(known), known.contains_key(hash)))
            }
        }),
{
    assert(deps.push(dep).drop_last() =~= deps);
    let hash = dep.name.name_hash();
    assert(is_here(hash, siblings) <==> exists|i: int|
        0 <= i < siblings.len() && ascii_lowercase((#[trigger] siblings[i]).extension@) == "ymap"@
            && (joaat(siblings[i].stem@) == hash || joaat(lowercase(siblings[i].stem@)) == hash)) by {
        if is_here(hash, siblings) {
            let i = choose|i: int|
                0 <= i < siblings.len() && crate::commands::resource::checks::is_map_of(
                    #[trigger] siblings[i],
                    hash,
                );
            assert(ascii_lowercase(siblings[i].extension@) == "ymap"@);
        }
        if exists|i: int|
            0 <= i < siblings.len() && ascii_lowercase((#[trigger] siblings[i]).extension@) == "ymap"@
                && (joaat(siblings[i].stem@) == hash || joaat(lowercase(siblings[i].stem@)) == hash) {
            let i = choose|i: int|
                0 <= i < siblings.len() && ascii_lowercase((#[trigger] siblings[i]).extension@)
                    == "ymap"@ && (joaat(siblings[i].stem@) == hash || joaat(
                    lowercase(siblings[i].stem@),
                ) == hash);
            assert(crate::commands::resource::checks::is_map_of(siblings[i], hash));
        }
    }
}

/// A map is noted as an orphan by the first entry of its name; the unknown
/// ones are those that no list knows.
pub proof fn law_first_orphan_of_a_name(list: Seq<(Seq<char>, bool)>, name: Seq<char>)
    ensures
        match first_known(list, name) {
            Some(known) => exists|i: int|
                0 <= i < list.len() && #[trigger] list[i] == (name, known) && forall|j: int|
                    0 <= j < i ==> (#[trigger] list[j]).0 != name,
            None => forall|j: int| 0 <= j < list.len() ==> (#[trigger] list[j]).0 != name,
        },
        forall|o: (Seq<char>, bool)| #[trigger]
            unknown_of(list.push(o)) == (if o.1 {
                unknown_of(list)
            } else {
                unknown_of(list).push(o.0)
            }),
        unknown_of(Seq::empty()).len() == 0,
    decreases list.len(),
{
    assert forall|o: (Seq<char>, bool)| #[trigger]
        unknown_of(list.push(o)) == (if o.1 {
            unknown_of(list)
        } else {
            unknown_of(list).push(o.0)
        }) by {
        assert(list.push(o).drop_last() =~= list);
    }
    if list.len() > 0 && list[0].0 != name {
        let rest = list.drop_first();
        law_first_orphan_of_a_name(rest, name);
        assert(forall|j: int| 0 <= j < rest.len() ==> rest[j] == list[j + 1]);
        match first_known(list, name) {
            Some(known) => {
                let i = choose|i: int|
                    0 <= i < rest.len() && #[trigger] rest[i] == (name, known) && forall|j: int|
                        0 <= j < i ==> (#[trigger] rest[j]).0 != name;
                assert(list[i + 1] == (name, known));
                assert forall|j: int| 0 <= j < i + 1 implies (#[trigger] list[j]).0 != name by {
                    if j > 0 {
                        assert(rest[j - 1] == list[j]);
                    }
                }
            },
            None => {
                assert forall|j: int| 0 <= j < list.len() implies (#[trigger] list[j]).0 != name by {
                    if j > 0 {
                        assert(rest[j - 1] == list[j]);
                    }
                }
            },
        }
    } else if list.len() > 0 {
        assert(list[0] == (name, list[0].1));
    }
}

// ── The file as a whole ─────────────────────────────────────────────────────

/// A hash without a name is counted wherever the text has the mark of one:
/// "hash_" and eight hexadecimal digits.
pub proof fn law_hashes_without_names_are_counted(s: Seq<char>, n: nat)
    requires
        n < s.len(),
    ensures
        placeholders(s, 0) == 0,
        placeholders(s, n + 1) == placeholders(s, n) + (if n + 13 <= s.len() && s.subrange(
            n as int,
            n as int + 5,
        ) == seq!['h', 'a', 's', 'h', '_'] && (forall|k: int|
            n + 5 <= k < n + 13 ==> is_hex_digit(#[trigger] s[k])) {
            1int
        } else {
            0
        }),
{
    reveal_strlit("hash_");
    assert("hash_"@ =~= seq!['h', 'a', 's', 'h', '_']);
}

/// A file is named with its archive, where it is from one.
pub proof fn law_files_are_named_with_their_archive(file: Seq<char>, archive: Seq<char>)
    ensures
        file_line(file, None) == "File:      "@ + file + "\n"@,
        file_line(file, Some(archive)) == "File:      "@ + archive + " : "@ + file + "\n"@,
{
}

/// Each kind of contents is printed as its own.
pub proof fn law_contents_are_printed_by_kind(
    contents: Contents,
    names: NameTable,
    checks: Checks,
    limit: nat,
    verbose: bool,
)
    ensures
        ({
            let text = contents_text(contents, names, checks, limit, verbose);
            let json = contents_json(contents, names, checks, verbose);
            let kind = kind_name(contents);
            match contents {
                Contents::Other => kind == "other"@ && json == ""@ && text
                    == "Summary:   not a drawable, texture dictionary, map, type file or manifest\n"@,
                Contents::Textures(list) => kind == "textures"@ && says(
                    text,
                    "Textures:  "@ + decimal(list@.len()) + "\n"@,
                ) && json == ",\"textures\":"@ + textures_json(list@),
                Contents::Drawables(list) => kind == "drawables"@ && says(
                    text,
                    "Drawables: "@ + decimal(list@.len()) + "\n"@,
                ) && says(text, "\n"@ + drawables_text(list@, verbose)) && json == ",\"drawables\":"@
                    + array(written(DrawableJson { verbose }, list@)),
                Contents::Ymap(map) => kind == "map"@ && text == map_text(map, names, checks, limit)
                    && says(json, ",\"map\":"@),
                Contents::Types(types) => kind == "types"@ && text
                    == crate::commands::resource::types::types_text(types, names, limit) && says(
                    json,
                    ",\"types\":"@,
                ),
                Contents::Manifest(m) => kind == "manifest"@ && text == manifest_text(m, names, checks)
                    && says(json, ",\"manifest\":"@),
                Contents::Meta(meta) => kind == "meta"@ && json == ",\"meta\":"@ + meta.json@ && text
                    == crate::commands::resource::info::meta_text(meta, names),
            }
        }),
{
    lemma_says();
}

/// Drawables are printed one after the other, each once.
pub proof fn law_one_more_drawable(list: Seq<DrawableEntry>, entry: DrawableEntry, verbose: bool)
    ensures
        drawables_text(Seq::empty(), verbose).len() == 0,
        drawables_text(list.push(entry), verbose) == drawables_text(list, verbose)
            + crate::commands::resource::drawables::drawable_text(entry, verbose),
{
    reveal_strlit("");
    assert(list.push(entry).drop_last() =~= list);
}

/// What is printed goes by the one switch: the object where it is asked for;
/// else the text, with a note on the hashes in it that have no name, if any.
pub proof fn law_output_is_text_or_object(
    args: InfoArgs,
    container: Container,
    contents: Contents,
    names: NameTable,
    checks: Checks,
    verbose: bool,
    active: Option<ListHeader>,
)
    ensures
        ({
            let got = info_output(args, container, contents, names, checks, verbose, active);
            let text = info_text(args, container, contents, names, checks, verbose);
            &&& args.json ==> got == info_json(args, container, contents, names, checks, verbose)
            &&& !args.json ==> text.is_prefix_of(got)
            &&& !args.json && got == text ==> placeholders(text, text.len()) == 0
            &&& !args.json && placeholders(text, text.len()) > 0 ==> says(
                got,
                text + crate::commands::resource::info::note_text(
                    placeholders(text, text.len()),
                    active,
                ),
            )
        }),
{
    let text = info_text(args, container, contents, names, checks, verbose);
    let left = placeholders(text, text.len());
    reveal_strlit("Unresolved: ");
    assert(crate::commands::resource::info::note_text(left, active).len() > 0);
    lemma_says();
}

/// The container as members of an object.
pub proof fn law_container_object(h: Rsc7Header, kind: MetaContainer)
    ensures
        ({
            let text = container_json(Container::Rsc7(h));
            &&& says(
                text,
                "\"format\":\"RSC7\",\"version\":"@ + decimal(h.version as nat) + ",\"system_flags\":"@,
            )
            &&& says(text, ",\"system_flags\":"@ + hash_json(h.system_flags) + ",\"system_size\":"@)
            &&& says(
                text,
                ",\"system_size\":"@ + decimal(h.system_size as nat) + ",\"graphics_flags\":"@,
            )
            &&& says(
                text,
                ",\"graphics_flags\":"@ + hash_json(h.graphics_flags) + ",\"graphics_size\":"@,
            )
            &&& says(
                text,
                ",\"graphics_size\":"@ + decimal(h.graphics_size as nat) + ",\"body_bytes\":"@,
            )
            &&& says(text, ",\"body_bytes\":"@ + decimal(h.body_len as nat) + ",\"compressed\":"@)
            &&& says(text, ",\"compressed\":"@ + bool_text(h.compressed))
        }),
        container_json(Container::Meta(kind)) == "\"format\":"@ + json_text(container_name(kind)),
        container_text(Container::Meta(kind)) == "Format:    "@ + container_name(kind) + "\n"@,
{
    lemma_says();
}

/// The active list of names, or that there is none.
pub proof fn law_active_list(header: ListHeader)
    ensures
        active_list(Some(header)) == "the name list "@ + header@.covers(),
        active_list(None)
            == "there is no name list yet (`rage names fetch` needs no game install; `rage names harvest --exe` scans one)"@,
{
}

// ── Drawables ───────────────────────────────────────────────────────────────

/// A texture without a name goes by its hash.
pub proof fn law_textures_have_labels(tex: Texture)
    ensures
        tex.name@.len() > 0 ==> texture_label(tex) == tex.name@,
        tex.name@.len() == 0 ==> texture_label(tex) == "0x"@ + hex_digits_upper(tex.name_hash as nat, 8),
{
}

/// A drawable goes by its own name, else by that of its file.
pub proof fn law_drawables_have_labels(entry: DrawableEntry)
    ensures
        entry.own_name@.len() > 0 ==> entry.label() == entry.own_name@,
        entry.own_name@.len() == 0 ==> entry.label() == entry.name@,
{
}

/// Geometry is listed only where it is asked for and there is some.
pub proof fn law_geometry_is_listed_on_request(list: Vec<GeometryBounds>)
    ensures
        geometry_text(Some(list), false).len() == 0,
        geometry_text(None, true).len() == 0,
        list@.len() == 0 ==> geometry_text(Some(list), true).len() == 0,
        list@.len() > 0 ==> geometry_text(Some(list), true) == "    geometry bounds:\n"@ + unlines(
            written(IndentedLine, list@),
        ),
        geometry_json(Some(list), false).len() == 0,
        geometry_json(None, true).len() == 0,
        geometry_json(Some(list), true) == ",\"geometry_bounds\":"@ + array(
            written(DrawableJson { verbose: false }, list@),
        ),
{
    reveal_strlit("");
}

/// Shaders and the textures among them are counted and listed.
pub proof fn law_shaders_are_listed(g: ShaderGroup)
    ensures
        shaders_text(None) == "    shaders:  none\n"@,
        says(shaders_text(Some(g)), "    shaders:  "@ + decimal(g.shaders@.len()) + "\n"@),
        says(
            shaders_text(Some(g)),
            "\n"@ + unlines(written(IndentedLine, g.shaders@)) + "    embedded textures: "@,
        ),
        says(
            shaders_text(Some(g)),
            "    embedded textures: "@ + decimal(g.textures@.len()) + "\n"@,
        ),
        says(shaders_text(Some(g)), "\n"@ + unlines(written(IndentedLine, g.textures@))),
        shaders_json(None) == ",\"shaders\":[],\"textures\":[]"@,
        says(
            shaders_json(Some(g)),
            ",\"shaders\":"@ + array(written(DrawableJson { verbose: false }, g.shaders@))
                + ",\"textures\":"@,
        ),
        says(shaders_json(Some(g)), ",\"textures\":"@ + textures_json(g.textures@)),
{
    lemma_says();
}

/// A shader without a diffuse texture has a dash, or null.
pub proof fn law_diffuse_textures(d: String)
    ensures
        diffuse_text(None) == "-"@,
        diffuse_text(Some(d)) == d@,
        diffuse_json(None) == "null"@,
        diffuse_json(Some(d)) == json_text(d@),
{
}

} // verus!
