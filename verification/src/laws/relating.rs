//! How what is shown, sorted or planned relates to what was read.
use vstd::prelude::*;
use crate::cells::{cell_in, rewritten, rewritten_in, CellView};
use crate::commands::nav_build::{
    counts_slots, declares, is_answer, no_interior_text, placed_in, placed_views, slot_count,
    stem_names, NavProp, PlacedProp, PropCounts, PropTypes, RulesView,
};
use crate::commands::navmesh::{is_info_of, material_lines, material_text, materials_text, NavInfo};
use crate::commands::resource::checks::CheckView;
use crate::commands::resource::info::{
    inputs_of, is_metadata_read, Contents, Reading, ResourceCommand,
};
use crate::commands::resource::maps::{is_shown, MapFile, MapShown, RawMap};
use crate::commands::resource::numbers::{Extents, Point};
use crate::commands::resource::types::{is_types_shown, RawTypes, TypeFile, TypesShown};
use crate::formats::TypesView;
use crate::index::codec::part_bytes;
use crate::index::load_order::{
    is_load_order, list_not_after, loads_as, pack_names, pack_orders, ranks_packs, ArchivePath,
};
use crate::index::lookup::is_cache_file;
use crate::index::model::{ArchetypeBox, IndexView};
use crate::index::parts::Parts;
use crate::metadata::{
    is_low, is_mild, manifest_in, metadata_in, pretty_json_of, short_json_of, struct_in, tree_text,
    xml_of, Kind, Tree,
};
use crate::names::{lists_in_order, Header};
use crate::order::{is_ascending, is_stable_order, text_not_after, SortKey};
use crate::rpf::{
    archive_in, extracted, file_in, is_plain, stored_in, EntryKind, Keys, StoredEntry, Toc,
};
use crate::text::{decimal, texts, unlines};

verus! {

// ── What is shown ───────────────────────────────────────────────────────────

/// A map is shown by its own bits and the texts that were made of them: each
/// box by its own, each entity and each instance by the one of its place.
pub proof fn law_map_shows_what_was_read(map: MapFile, raw: RawMap, shown: MapShown, i: int)
    requires
        is_shown(map, raw, shown),
    ensures
        map.header.bits == raw.header,
        map.header.streaming.min.text() == shown.streaming.min.text(),
        map.header.streaming.max.text() == shown.streaming.max.text(),
        map.header.extents.min.text() == shown.extents.min.text(),
        map.header.extents.max.text() == shown.extents.max.text(),
        map.entities@.len() == raw.entities@.len(),
        map.instances@.len() == raw.instances@.len(),
        0 <= i < raw.entities@.len() ==> {
            let e = map.entities@[i];
            let s = shown.entities@[i];
            &&& e.bits == raw.entities@[i]
            &&& e.shown.position.x.shown@ == s.position.x.shown@
            &&& e.shown.position.y.shown@ == s.position.y.shown@
            &&& e.shown.position.z.shown@ == s.position.z.shown@
            &&& e.shown.yaw.shown@ == s.yaw.shown@ && e.shown.yaw.json@ == s.yaw.json@
            &&& e.shown.scale_xy.shown@ == s.scale_xy.shown@ && e.shown.scale_xy.json@
                == s.scale_xy.json@
            &&& e.shown.scale_z.shown@ == s.scale_z.shown@ && e.shown.scale_z.json@ == s.scale_z.json@
            &&& e.shown.lod_dist.shown@ == s.lod_dist.shown@ && e.shown.lod_dist.json@
                == s.lod_dist.json@
        },
        0 <= i < raw.instances@.len() ==> {
            let e = map.instances@[i];
            let s = shown.instances@[i];
            &&& e.bits@ == raw.instances@[i]@
            &&& e.position.x.json@ == s.x.json@
            &&& e.position.y.json@ == s.y.json@
            &&& e.position.z.json@ == s.z.json@
        },
{
    lemma_extents(map.header.streaming, shown.streaming);
    lemma_extents(map.header.extents, shown.extents);
    if 0 <= i < raw.entities@.len() {
        let e = map.entities[i].shown;
        let s = shown.entities@[i];
        assert(e.texts() == s.texts());
        assert(e.texts().0 == s.texts().0 && e.texts().2 == s.texts().2);
        lemma_point(e.position, s.position);
        assert(e.texts().2[0] == s.texts().2[0]);
        assert(e.texts().2[1] == s.texts().2[1]);
        assert(e.texts().2[2] == s.texts().2[2]);
        assert(e.texts().2[3] == s.texts().2[3]);
    }
    if 0 <= i < raw.instances@.len() {
        lemma_point(map.instances[i].position, shown.instances@[i]);
    }
}

proof fn lemma_point(a: Point, b: Point)
    ensures
        a.texts() == b.texts() ==> a.x.texts() == b.x.texts() && a.y.texts() == b.y.texts()
            && a.z.texts() == b.z.texts() && a.text() == b.text() && a.as_json() == b.as_json(),
{
    if a.texts() == b.texts() {
        assert(a.texts()[0] == b.texts()[0]);
        assert(a.texts()[1] == b.texts()[1]);
        assert(a.texts()[2] == b.texts()[2]);
    }
}

proof fn lemma_extents(a: Extents, b: Extents)
    ensures
        a.texts() == b.texts() ==> a.min.text() == b.min.text() && a.max.text() == b.max.text(),
{
    lemma_point(a.min, b.min);
    lemma_point(a.max, b.max);
}

/// A type file is shown by its own bits: each archetype with its own texts,
/// each interior with its portals, entities, sets and rooms, each room with
/// its name, its props and its own box.
pub proof fn law_types_show_what_was_read(
    types: TypeFile,
    raw: RawTypes,
    shown: TypesShown,
    i: int,
    r: int,
)
    requires
        is_types_shown(types, raw, shown),
    ensures
        types.archetypes@.len() == raw.archetypes@.len(),
        types.mlos@.len() == raw.mlos@.len(),
        0 <= i < raw.archetypes@.len() ==> {
            let a = types.archetypes@[i];
            let s = shown.archetypes@[i];
            &&& a.bits == raw.archetypes@[i]
            &&& a.shown.lod_dist.shown@ == s.lod_dist.shown@
            &&& a.shown.bb_min.text() == s.bb_min.text()
            &&& a.shown.bb_max.text() == s.bb_max.text()
        },
        0 <= i < raw.mlos@.len() ==> {
            let m = types.mlos@[i];
            let b = raw.mlos@[i];
            &&& m.name_hash == b.name_hash
            &&& m.portals == b.portals@.len()
            &&& m.entities == b.entities@.len()
            &&& m.entity_sets@.len() == b.entity_sets@.len()
            &&& 0 <= r < b.entity_sets@.len() ==> m.entity_sets@[r] == b.entity_sets@[r].name_hash
            &&& m.rooms@.len() == b.rooms@.len()
            &&& 0 <= r < b.rooms@.len() ==> m.rooms@[r].name@ == b.rooms@[r].name@
                && m.rooms@[r].props == b.rooms@[r].attached@.len()
                && m.rooms@[r].bounds.min.text() == shown.rooms@[i]@[r].min.text()
                && m.rooms@[r].bounds.max.text() == shown.rooms@[i]@[r].max.text()
        },
{
    if 0 <= i < raw.archetypes@.len() {
        let a = types.archetypes[i].shown;
        let s = shown.archetypes@[i];
        assert(a.texts() == s.texts());
        lemma_point(a.bb_min, s.bb_min);
        lemma_point(a.bb_max, s.bb_max);
    }
    if 0 <= i < raw.mlos@.len() {
        let m = types.mlos[i];
        assert(crate::commands::resource::types::is_interior_shown(
            m,
            raw.mlos[i],
            shown.rooms[i]@,
        ));
        if 0 <= r < raw.mlos[i].rooms@.len() {
            assert(m.rooms[r].bounds.texts() == shown.rooms[i]@[r].texts());
            lemma_extents(m.rooms[r].bounds, shown.rooms[i]@[r]);
        }
    }
}

/// What is known of a mesh is what its cell says: each flag of each polygon by
/// its own, and an edge leads into the area of its end unless it leads nowhere.
pub proof fn law_mesh_says_what_its_cell_says(
    nav: NavInfo,
    cell: CellView,
    lo: Seq<char>,
    hi: Seq<char>,
    i: int,
    k: int,
)
    requires
        is_info_of(nav, cell, lo, hi),
    ensures
        nav.area_id == cell.header.area_id,
        nav.content_flags == cell.header.content_flags,
        nav.portals == cell.header.portals,
        nav.points == cell.header.points,
        nav.bb_min@ == lo,
        nav.bb_max@ == hi,
        nav.polys@.len() == cell.polys.len(),
        0 <= i < cell.polys.len() ==> {
            let p = nav.polys@[i];
            let c = cell.polys[i];
            &&& p.interior == c.interior
            &&& p.flat_ground == c.flat_ground
            &&& p.footpath == c.footpath
            &&& p.road == c.road
            &&& p.water == c.water
            &&& p.links@.len() == c.ends.len()
            &&& 0 <= k < c.ends.len() && c.ends[k].0 ==> p.links@[k] is None
            &&& 0 <= k < c.ends.len() && !c.ends[k].0 ==> p.links@[k] == Some(c.ends[k].1)
        },
{
    if 0 <= i < cell.polys.len() {
        assert(crate::commands::navmesh::is_poly_of(nav.polys[i], cell.polys[i]));
    }
}

/// A mesh that cannot be read is not rewritten, and what is rewritten is what
/// was read.
pub proof fn law_only_what_is_read_is_rewritten(data: Seq<u8>)
    ensures
        cell_in(data) matches Err(e) ==> rewritten_in(data) == Err::<Seq<u8>, Seq<char>>(e),
        rewritten_in(data) matches Ok(bytes) ==> cell_in(data) is Ok && rewritten(data) == Ok::<
            Seq<u8>,
            Seq<char>,
        >(bytes),
{
}

/// The triangles of each material stand under its number, in the order of the
/// numbers; a material without any has no group.
pub proof fn law_materials_come_in_order(materials: Seq<u8>, n: nat)
    requires
        n < 256,
    ensures
        materials_text(materials, 0).len() == 0,
        materials_text(materials, n + 1) == materials_text(materials, n) + material_text(
            materials,
            n as u8,
        ),
        material_lines(materials, n as u8).len() == 0 ==> material_text(materials, n as u8).len() == 0,
        material_lines(materials, n as u8).len() > 0 ==> material_text(materials, n as u8)
            == "g material_"@ + decimal(n) + "\n"@ + unlines(material_lines(materials, n as u8)),
{
    reveal_strlit("");
}

// ── Commands and metadata ───────────────────────────────────────────────────

/// A command reads its own file, out of the archive that it names, with its own
/// lists of names; a build reads its input from disk and needs none.
pub proof fn law_commands_read_their_inputs(command: ResourceCommand)
    ensures
        match command {
            ResourceCommand::Info(a) => inputs_of(command).0 == a.file@ && inputs_of(command).2
                == texts(a.names@) && (inputs_of(command).1 is Some <==> a.archive is Some) && (
            a.archive matches Some(s) ==> inputs_of(command).1 == Some(s@)),
            ResourceCommand::Dump(a) => inputs_of(command).0 == a.file@ && inputs_of(command).2
                == texts(a.names@) && (inputs_of(command).1 is Some <==> a.archive is Some) && (
            a.archive matches Some(s) ==> inputs_of(command).1 == Some(s@)),
            ResourceCommand::Build(a) => inputs_of(command).0 == a.input@ && inputs_of(command).1 is None
                && inputs_of(command).2.len() == 0,
        },
{
}

/// Metadata is read as a manifest where it is to be one, as a tree where it is
/// not, and as nothing known where it may be; a manifest that is not one fails
/// only where it was to be one.
pub proof fn law_metadata_is_read_as_it_is_to_be(
    r: Result<Contents, String>,
    data: Seq<u8>,
    reading: Reading,
    names: Map<u32, Seq<char>>,
    json: bool,
)
    requires
        is_metadata_read(r, data, reading, names, json),
    ensures
        metadata_in(data) is Err && reading == Reading::MetaOrOther ==> r is Ok && r->Ok_0
            == Contents::Other,
        metadata_in(data) is Err && reading == Reading::Manifest ==> r is Err && r->Err_0@
            == "failed to parse manifest: "@ + metadata_in(data)->Err_0,
        metadata_in(data) is Err && reading == Reading::ManifestOrMeta ==> r is Err && r->Err_0@
            == metadata_in(data)->Err_0,
        metadata_in(data) matches Ok(found) ==> {
            &&& reading == Reading::Manifest && manifest_in(found.0) is Err ==> r is Err && r->Err_0@
                == "failed to parse manifest: "@ + manifest_in(found.0)->Err_0
            &&& (reading == Reading::Manifest || reading == Reading::ManifestOrMeta) && manifest_in(
                found.0,
            ) is Ok ==> r is Ok && (r->Ok_0 matches Contents::Manifest(m) && m@ == manifest_in(
                found.0,
            )->Ok_0)
            &&& (reading == Reading::MetaOrOther || (reading == Reading::ManifestOrMeta && manifest_in(
                found.0,
            ) is Err)) && !json ==> r is Ok && (r->Ok_0 matches Contents::Meta(m) && texts(m.warnings@)
                == found.1 && m.json@ == ""@ && (m.root is Some <==> found.0.kind is Struct))
            &&& (reading == Reading::MetaOrOther || (reading == Reading::ManifestOrMeta && manifest_in(
                found.0,
            ) is Err)) && json && r is Ok ==> (r->Ok_0 matches Contents::Meta(m) && texts(m.warnings@)
                == found.1 && m.json@ == short_json_of(found.0, names))
        },
{
}

/// The root of a tree is known by its type and how many members it has.
pub proof fn law_roots_are_structures(t: Tree)
    ensures
        struct_in(t) is Some <==> t.kind is Struct,
        t.kind matches Kind::Struct { type_hash, names } ==> struct_in(t) == Some(
            (type_hash, t.parts.len()),
        ),
{
}

/// A tree is printed as markup, or as an indented object with a line feed
/// behind it.
pub proof fn law_trees_are_printed(t: Tree, names: Map<u32, Seq<char>>)
    requires
        is_low(t, crate::nesting::MAX_NESTING as nat),
    ensures
        tree_text(t, names, false) == Ok::<Seq<char>, Seq<char>>(xml_of(t, names)),
        is_mild(t, crate::nesting::MAX_NESTING as nat) ==> tree_text(t, names, true) == Ok::<
            Seq<char>,
            Seq<char>,
        >(pretty_json_of(t, names) + "\n"@),
        !is_mild(t, crate::nesting::MAX_NESTING as nat) ==> tree_text(t, names, true) is Err,
{
}

// ── Props of an interior ────────────────────────────────────────────────────

/// The props of an interior are those that a type file places in it, or it is
/// said that none declares it.
pub proof fn law_props_are_those_of_the_interior(
    r: Result<Vec<PlacedProp>, String>,
    types: Seq<PropTypes>,
    game: Map<u32, ArchetypeBox>,
    interior: u32,
    stems: Seq<Seq<char>>,
    i: int,
)
    requires
        is_answer(r, types, game, interior, stems),
    ensures
        r is Ok <==> placed_in(types, interior) is Some,
        r matches Err(e) ==> e@ == no_interior_text(interior),
        r matches Ok(list) ==> {
            let entities = placed_in(types, interior)->Some_0;
            &&& list@.len() == entities.len()
            &&& 0 <= i < entities.len() ==> list@[i]@ == placed_views(
                entities,
                stem_names(stems),
                types,
                game,
            )[i]
        },
{
    if let Ok(list) = r {
        let views = list@.map_values(|p: PlacedProp| p@);
        let entities = placed_in(types, interior)->Some_0;
        assert(views.len() == list@.len());
        if 0 <= i < entities.len() {
            assert(views[i] == list@[i]@);
        }
    }
}

/// A type file declares the boxes of its archetypes, and of each interior what
/// it places.
pub proof fn law_types_declare_boxes_and_interiors(p: PropTypes, v: TypesView, i: int, k: int)
    requires
        declares(p, v),
    ensures
        p.archetypes@.len() == v.archetypes.len(),
        0 <= i < v.archetypes.len() ==> p.archetypes@[i] == (
            v.archetypes[i].name_hash,
            v.archetypes[i].bounds,
        ),
        p.interiors@.len() == v.interiors.len(),
        0 <= i < v.interiors.len() ==> p.interiors@[i].name_hash == v.interiors[i].name_hash
            && p.interiors@[i].entities@.len() == v.interiors[i].entities.len() && (0 <= k
            < v.interiors[i].entities.len() ==> p.interiors@[i].entities@[k]
            == v.interiors[i].entities[k].archetype_hash),
{
    if 0 <= i < v.interiors.len() {
        assert(p.interiors[i].name_hash == v.interiors[i].name_hash);
    }
}

/// The counts of props are each that of its own reason.
pub proof fn law_counts_are_by_reason(c: PropCounts, props: Seq<NavProp>, rules: RulesView)
    requires
        counts_slots(c, props, rules),
    ensures
        c.blocked == slot_count(props, rules, 0),
        c.by_name == slot_count(props, rules, 1),
        c.too_big == slot_count(props, rules, 2),
        c.height == slot_count(props, rules, 3),
        c.unknown == slot_count(props, rules, 4),
{
}

// ── Archives ────────────────────────────────────────────────────────────────

/// A file is stored plainly when it is not encrypted and not compressed, that
/// is, has no stored size or the same as its own, and has a size.
pub proof fn law_plain_files(e: StoredEntry)
    ensures
        is_plain(e) <==> !e.is_encrypted && e.uncompressed_size > 0 && (e.file_size == 0 || e.file_size
            == e.uncompressed_size),
{
}

/// Only a plain file of an archive is stored by itself, with its own numbers.
pub proof fn law_stored_entries(kind: EntryKind)
    ensures
        match kind {
            EntryKind::BinaryFile { file_offset, file_size, uncompressed_size, is_encrypted } => {
                &&& stored_in(kind) is Some
                &&& stored_in(kind)->Some_0.file_offset == file_offset
                &&& stored_in(kind)->Some_0.file_size == file_size
                &&& stored_in(kind)->Some_0.uncompressed_size == uncompressed_size
                &&& stored_in(kind)->Some_0.is_encrypted == is_encrypted
            },
            _ => stored_in(kind) is None,
        },
{
}

/// What comes out of an archive is what its table and data give; an archive
/// that is parsed is the one that its bytes give.
pub proof fn law_files_come_out_of_their_archive(
    t: Toc,
    data: Seq<u8>,
    index: usize,
    keys: Option<Keys>,
    name: Seq<char>,
)
    ensures
        file_in(t, data, index, keys) matches Ok(bytes) ==> extracted(t, data, index, keys) == Ok::<
            Seq<u8>,
            Seq<char>,
        >(bytes),
        archive_in(data, name, keys) matches Ok(toc) ==> crate::rpf::parsed_archive(data, name, keys)
            == Ok::<Toc, Seq<char>>(toc),
{
}

// ── Order ───────────────────────────────────────────────────────────────────

/// Texts are ordered as in a dictionary: by the first character in which they
/// differ; a text comes before what it is the start of.
pub proof fn law_dictionary_order(a: Seq<char>, b: Seq<char>, k: int)
    requires
        0 <= k <= a.len(),
        k <= b.len(),
        forall|i: int| 0 <= i < k ==> #[trigger] a[i] == b[i],
    ensures
        k == a.len() ==> text_not_after(a, b),
        k == b.len() && a.len() > b.len() ==> !text_not_after(a, b),
        k < a.len() && k < b.len() && a[k] != b[k] ==> (text_not_after(a, b) <==> a[k] < b[k]),
    decreases k,
{
    if k > 0 {
        let x = a.drop_first();
        let y = b.drop_first();
        assert forall|i: int| 0 <= i < k - 1 implies #[trigger] x[i] == y[i] by {
            assert(x[i] == a[i + 1]);
            assert(y[i] == b[i + 1]);
        }
        assert(a[0] == b[0]);
        law_dictionary_order(x, y, k - 1);
    }
}

/// Paths are ordered part by part in the same way.
pub proof fn law_path_order(a: Seq<Seq<char>>, b: Seq<Seq<char>>, k: int)
    requires
        0 <= k <= a.len(),
        k <= b.len(),
        forall|i: int| 0 <= i < k ==> #[trigger] a[i] == b[i],
    ensures
        k == a.len() ==> list_not_after(a, b),
        k == b.len() && a.len() > b.len() ==> !list_not_after(a, b),
        k < a.len() && k < b.len() && a[k] != b[k] ==> (list_not_after(a, b) <==> text_not_after(
            a[k],
            b[k],
        )),
    decreases k,
{
    if k > 0 {
        let x = a.drop_first();
        let y = b.drop_first();
        assert forall|i: int| 0 <= i < k - 1 implies #[trigger] x[i] == y[i] by {
            assert(x[i] == a[i + 1]);
            assert(y[i] == b[i + 1]);
        }
        assert(a[0] == b[0]);
        law_path_order(x, y, k - 1);
    }
}

/// A stable order has every place once, lets nothing come before what it is
/// after, and keeps equal ones as they were.
pub proof fn law_stable_order<K: SortKey>(keys: Seq<K>, order: Seq<usize>, i: int, j: int)
    requires
        is_stable_order(keys, order, 0, keys.len() as int),
        0 <= i < j < order.len(),
    ensures
        order.len() == keys.len(),
        0 <= order[i] < keys.len(),
        order[i] != order[j] || keys[order[i] as int] == keys[order[j] as int],
        keys[order[i] as int].not_after(keys[order[j] as int]),
        keys[order[j] as int].not_after(keys[order[i] as int]) ==> order[i] < order[j],
        forall|x: usize| 0 <= x < keys.len() ==> order.contains(x),
{
    assert(crate::order::precedes(keys, order[i], order[j]));
}

/// Numbers ascend, each once, and are those of the set; so do texts.
pub proof fn law_listed_in_order(
    list: Seq<u32>,
    set: Set<u32>,
    words: Seq<Seq<char>>,
    all: Set<Seq<char>>,
    i: int,
    j: int,
)
    ensures
        is_ascending(list, set) && 0 <= i < j < list.len() ==> list[i] < list[j],
        is_ascending(list, set) && 0 <= i < list.len() ==> set.contains(list[i]),
        is_ascending(list, set) ==> forall|k: u32| set.contains(k) ==> #[trigger] list.contains(k),
        lists_in_order(words, all) && 0 <= i < j < words.len() ==> text_not_after(words[i], words[j])
            && words[i] != words[j],
        lists_in_order(words, all) && 0 <= i < words.len() ==> all.contains(words[i]),
        lists_in_order(words, all) ==> forall|w: Seq<char>|
            all.contains(w) ==> #[trigger] words.contains(w),
{
    if is_ascending(list, set) && 0 <= i < list.len() {
        assert(list.contains(list[i]));
    }
    if lists_in_order(words, all) && 0 <= i < words.len() {
        assert(words.contains(words[i]));
    }
}

/// Packs are ranked by their orders, ascending; equal ones stay as listed.
pub proof fn law_packs_are_ranked_by_order(packs: Seq<(String, i32)>, names: Seq<Seq<char>>)
    requires
        ranks_packs(packs, names),
    ensures
        exists|order: Seq<usize>|
            order.len() == packs.len() && names.len() == packs.len() && (forall|i: int|
                0 <= i < order.len() ==> order[i] < packs.len() && #[trigger] names[i]
                    == packs[order[i] as int].0@) && #[trigger] is_stable_order(
                pack_orders(packs),
                order,
                0,
                packs.len() as int,
            ),
        pack_orders(packs).len() == packs.len(),
        forall|i: int| 0 <= i < packs.len() ==> #[trigger] pack_orders(packs)[i] == packs[i].1,
{
    let order = choose|order: Seq<usize>|
        is_stable_order(pack_orders(packs), order, 0, packs.len() as int) && names
            == #[trigger] crate::index::load_order::in_order(pack_names(packs), order);
    assert(is_stable_order(pack_orders(packs), order, 0, packs.len() as int));
    assert forall|i: int| 0 <= i < order.len() implies order[i] < packs.len() && #[trigger] names[i]
        == packs[order[i] as int].0@ by {
        assert(order[i] < packs.len());
        assert(pack_names(packs)[order[i] as int] == packs[order[i] as int].0@);
    }
}

/// The archives load as the paths of one load order.
pub proof fn law_paths_load_in_order(
    archives: Seq<ArchivePath>,
    ranks: Seq<Seq<char>>,
    paths: Seq<Seq<char>>,
)
    requires
        loads_as(archives, ranks, paths),
    ensures
        exists|order: Seq<usize>| #[trigger]
            is_load_order(archives, ranks, order) && paths.len() == order.len() && forall|i: int|
                0 <= i < order.len() ==> #[trigger] paths[i] == archives[order[i] as int].text@,
{
    let order = choose|order: Seq<usize>|
        #[trigger] is_load_order(archives, ranks, order) && paths
            == crate::index::load_order::paths_in_order(archives, order);
    assert forall|i: int| 0 <= i < order.len() implies #[trigger] paths[i]
        == archives[order[i] as int].text@ by {}
}

// ── The rest ────────────────────────────────────────────────────────────────

/// A header is read line by line, from nothing known.
pub proof fn law_header_is_read_line_by_line(list: Seq<Seq<char>>, line: Seq<char>)
    ensures
        Header::of_lines(Seq::empty()).sources.len() == 0,
        Header::of_lines(Seq::empty()).build is None,
        Header::of_lines(list.push(line)) == Header::of_lines(list).with_line(line),
{
    assert(list.push(line).drop_last() =~= list);
}

/// The file of a part is named after it and holds that part.
pub proof fn law_cache_files_are_named_after_their_part(
    file: (String, Vec<u8>),
    v: IndexView,
    part: Parts,
    fingerprint: u64,
)
    requires
        is_cache_file(file, v, part, fingerprint),
    ensures
        file.0@ == part.title() + ".bin"@,
        file.1@ == part_bytes(v, part, fingerprint),
{
}

/// Nothing is reported of a file that was not checked.
pub proof fn law_nothing_to_report()
    ensures
        CheckView::clean().mismatch is None,
        CheckView::clean().orphans.len() == 0,
        CheckView::clean().unknown().len() == 0,
{
}

} // verus!
