//! What is printed of resource files, line by line and key by key.
use vstd::prelude::*;
use crate::bits::is_box;
use crate::commands::resource::checks::Checks;
use crate::commands::resource::container::{flags_version, Container, Rsc7Header};
use crate::commands::resource::drawables::{
    bounds_json, diffuse_json, diffuse_text, drawable_head, drawable_json, drawable_text,
    geometry_json, geometry_text, shaders_json, shaders_text, texture_label, texture_line,
    DrawableEntry, DrawableJson, GeometryBounds, IndentedLine, Lod, Shader,
};
use crate::commands::resource::info::{
    active_list, container_json, container_text, contents_json, contents_text, file_line,
    header_text, info_json, info_text, kind_name, meta_text, note_text, Contents, InfoArgs,
    MetaSummary, WarningLine,
};
use crate::commands::resource::manifest::{
    deps_text, interior_note, manifest_json, names_json, names_text, orphan_note, Dependencies,
    HdTxdBinding, ImapDependency, InteriorBounds, JsonText, Manifest, MapDataGroup,
    MapDependencyLine, NameText, TypeDependencyLine,
};
use crate::commands::resource::maps::{
    content_flags, entity_flags, hash_json, header_flags, map_head_text, map_json, mismatch_json,
    mismatch_text, mlo_note, more_text, parent_text, quoted_all, MapEntity, MapFile, MapInstance,
    MapJson, MapLine,
};
use crate::commands::resource::numbers::shown_count;
use crate::commands::resource::types::{
    mlo_text, mlos_text, types_json, types_text, MloType, Room, TypeArchetype, TypeFile, TypeJson,
    TypeLine,
};
use crate::formats::Texture;
use crate::json_text::{array, json_hash_name, quoted};
use crate::laws::wording::{lemma_says, says};
use crate::name_table::{resolved, table};
use crate::names::ListHeader;
use crate::text::{
    bool_text, decimal, hex_digits_upper, hex_upper, join, pad_left, pad_right, signed_decimal,
    texts, unlines,
};
use crate::utils::json_text;
use crate::writer::{written, Writes};
use rage_formats::NameTable;

verus! {

/// The line of an entity: its place in the list, its archetype, where it stands,
/// its heading, its scale, its distance and its flags.
pub proof fn law_entity_line<'a>(w: MapLine<'a>, i: nat, item: MapEntity)
    ensures
        ({
            let text = w.text_of(i, &item);
            &&& says(text, "  "@ + pad_left(decimal(i), ' ', 4) + "  "@)
            &&& says(
                text,
                "  "@ + pad_right(resolved(table(*w.names), item.bits.archetype_hash), ' ', 32)
                    + " "@,
            )
            &&& says(text, " "@ + pad_left(item.shown.position.x.shown@, ' ', 10) + " "@)
            &&& says(text, " "@ + pad_left(item.shown.position.y.shown@, ' ', 10) + " "@)
            &&& says(text, " "@ + pad_left(item.shown.position.z.shown@, ' ', 8) + " "@)
            &&& says(text, " "@ + pad_left(item.shown.yaw.shown@, ' ', 6) + "\u{b0} "@)
            &&& says(text, "\u{b0} "@ + pad_left(item.shown.scale_xy.shown@, ' ', 5) + " "@)
            &&& says(text, " "@ + pad_left(item.shown.lod_dist.shown@, ' ', 6) + "  0x"@)
            &&& says(
                text,
                "  0x"@ + hex_upper(item.bits.flags as nat) + mlo_note(item.bits.is_mlo_instance),
            )
            &&& says(text, hex_upper(item.bits.flags as nat) + mlo_note(item.bits.is_mlo_instance))
            &&& says(
                text,
                pad_left(decimal(i), ' ', 4) + "  "@
                    + pad_right(resolved(table(*w.names), item.bits.archetype_hash), ' ', 32),
            )
            &&& says(
                text,
                pad_right(resolved(table(*w.names), item.bits.archetype_hash), ' ', 32) + " "@
                    + pad_left(item.shown.position.x.shown@, ' ', 10),
            )
            &&& says(
                text,
                pad_left(item.shown.position.x.shown@, ' ', 10) + " "@
                    + pad_left(item.shown.position.y.shown@, ' ', 10),
            )
            &&& says(
                text,
                pad_left(item.shown.position.y.shown@, ' ', 10) + " "@
                    + pad_left(item.shown.position.z.shown@, ' ', 8),
            )
            &&& says(
                text,
                pad_left(item.shown.position.z.shown@, ' ', 8) + " "@
                    + pad_left(item.shown.yaw.shown@, ' ', 6),
            )
            &&& says(
                text,
                pad_left(item.shown.yaw.shown@, ' ', 6) + "\u{b0} "@
                    + pad_left(item.shown.scale_xy.shown@, ' ', 5),
            )
            &&& says(
                text,
                pad_left(item.shown.scale_xy.shown@, ' ', 5) + " "@
                    + pad_left(item.shown.lod_dist.shown@, ' ', 6),
            )
            &&& says(
                text,
                pad_left(item.shown.lod_dist.shown@, ' ', 6) + "  0x"@
                    + hex_upper(item.bits.flags as nat),
            )
        }),
{
    lemma_says();
}

/// The entity as an object: under each key stands what the key says.
pub proof fn law_entity_object<'a>(w: MapJson<'a>, i: nat, item: MapEntity)
    ensures
        ({
            let text = w.text_of(i, &item);
            &&& says(
                text,
                "{\"archetype\":"@ + json_hash_name(item.bits.archetype_hash, table(*w.names))
                    + ",\"archetype_hash\":"@,
            )
            &&& says(
                text,
                ",\"archetype_hash\":"@ + hash_json(item.bits.archetype_hash) + ",\"position\":"@,
            )
            &&& says(text, ",\"position\":"@ + item.shown.position.as_json() + ",\"rotation\":"@)
            &&& says(
                text,
                ",\"rotation\":"@ + array(texts(item.shown.rotation@)) + ",\"yaw_degrees\":"@,
            )
            &&& says(text, ",\"yaw_degrees\":"@ + item.shown.yaw.json@ + ",\"scale_xy\":"@)
            &&& says(text, ",\"scale_xy\":"@ + item.shown.scale_xy.json@ + ",\"scale_z\":"@)
            &&& says(text, ",\"scale_z\":"@ + item.shown.scale_z.json@ + ",\"lod_dist\":"@)
            &&& says(text, ",\"lod_dist\":"@ + item.shown.lod_dist.json@ + ",\"parent_index\":"@)
            &&& says(
                text,
                ",\"parent_index\":"@ + signed_decimal(item.bits.parent_index as int)
                    + ",\"flags\":"@,
            )
            &&& says(text, ",\"flags\":"@ + decimal(item.bits.flags as nat) + ",\"flag_names\":"@)
            &&& says(
                text,
                ",\"flag_names\":"@ + array(quoted_all(entity_flags(item.bits.flags)))
                    + ",\"guid\":"@,
            )
            &&& says(text, ",\"guid\":"@ + decimal(item.bits.guid as nat) + ",\"mlo_instance\":"@)
            &&& says(text, ",\"mlo_instance\":"@ + bool_text(item.bits.is_mlo_instance) + "}"@)
        }),
{
    lemma_says();
}

/// The instance of an interior as an object.
pub proof fn law_instance_object<'a>(w: MapJson<'a>, i: nat, item: MapInstance)
    ensures
        ({
            let text = w.text_of(i, &item);
            &&& says(
                text,
                "{\"archetype\":"@ + json_hash_name(item.bits.archetype_hash, table(*w.names))
                    + ",\"position\":"@,
            )
            &&& says(text, ",\"position\":"@ + item.position.as_json() + ",\"group_id\":"@)
            &&& says(
                text,
                ",\"group_id\":"@ + decimal(item.bits.group_id as nat) + ",\"floor_id\":"@,
            )
            &&& says(
                text,
                ",\"floor_id\":"@ + decimal(item.bits.floor_id as nat)
                    + ",\"default_entity_sets\":"@,
            )
            &&& says(
                text,
                ",\"default_entity_sets\":"@
                    + array(written(MapJson { names: w.names }, item.bits.default_entity_sets@))
                    + ",\"num_exit_portals\":"@,
            )
            &&& says(
                text,
                ",\"num_exit_portals\":"@ + decimal(item.bits.num_exit_portals as nat) + "}"@,
            )
        }),
{
    lemma_says();
}

/// The map as an object.
pub proof fn law_map_object(map: MapFile, names: NameTable, checks: Checks)
    ensures
        ({
            let text = map_json(map, names, checks);
            let h = map.header;
            let t = table(names);
            let w = MapJson { names: &names };
            &&& says(text, "{\"name\":"@ + json_hash_name(h.bits.name_hash, t) + ",\"name_hash\":"@)
            &&& says(
                text,
                ",\"name_hash\":"@ + hash_json(h.bits.name_hash) + ",\"file_name_mismatch\":"@,
            )
            &&& says(
                text,
                ",\"file_name_mismatch\":"@ + mismatch_json(checks@.mismatch) + ",\"parent\":"@,
            )
            &&& says(text, ",\"parent\":"@ + json_hash_name(h.bits.parent_hash, t) + ",\"flags\":"@)
            &&& says(text, ",\"flags\":"@ + decimal(h.bits.flags as nat) + ",\"flag_names\":"@)
            &&& says(
                text,
                ",\"flag_names\":"@ + array(quoted_all(header_flags(h.bits.flags)))
                    + ",\"content_flags\":"@,
            )
            &&& says(
                text,
                ",\"content_flags\":"@ + decimal(h.bits.content_flags as nat)
                    + ",\"content_flag_names\":"@,
            )
            &&& says(
                text,
                ",\"content_flag_names\":"@
                    + array(quoted_all(content_flags(h.bits.content_flags)))
                    + ",\"streaming_extents\":"@,
            )
            &&& says(
                text,
                ",\"streaming_extents\":"@ + h.streaming.as_json() + ",\"entities_extents\":"@,
            )
            &&& says(text, ",\"entities_extents\":"@ + h.extents.as_json() + ",\"entities\":"@)
            &&& says(
                text,
                ",\"entities\":"@ + array(written(w, map.entities@)) + ",\"mlo_instances\":"@,
            )
            &&& says(text, ",\"mlo_instances\":"@ + array(written(w, map.instances@)) + "}"@)
        }),
{
    lemma_says();
}

/// The head of a map: its name and parent, both sorts of flags with their names,
/// both boxes where they are worth showing, and how many entities and instances
/// of interiors there are.
pub proof fn law_map_head(map: MapFile, names: NameTable, checks: Checks)
    ensures
        ({
            let text = map_head_text(map, names, checks);
            let h = map.header;
            let t = table(names);
            &&& says(text, "Map:       "@ + resolved(t, h.bits.name_hash) + "  parent "@)
            &&& says(text, "  parent "@ + parent_text(h.bits.parent_hash, t) + "\n"@)
            &&& says(
                text,
                "\n"@ + mismatch_text(checks@.mismatch, h.bits.name_hash, t) + "Flags:     0x"@,
            )
            &&& says(text, "Flags:     0x"@ + hex_upper(h.bits.flags as nat) + " "@)
            &&& says(text, " "@ + join(header_flags(h.bits.flags), "|"@) + "  content 0x"@)
            &&& says(text, "  content 0x"@ + hex_upper(h.bits.content_flags as nat) + " "@)
            &&& says(text, " "@ + join(content_flags(h.bits.content_flags), "|"@) + "\n"@)
            &&& says(
                text,
                "\n"@
                    + (if is_box(h.bits.streaming_min, h.bits.streaming_max) { "Streaming: "@ + h.streaming.text() + "\n"@ } else { ""@ })
                    + (if is_box(h.bits.entities_min, h.bits.entities_max) && map.entities.len() > 0 { "Extents:   "@ + h.extents.text() + "\n"@ } else { ""@ }),
            )
            &&& says(
                text,
                (if is_box(h.bits.streaming_min, h.bits.streaming_max) { "Streaming: "@ + h.streaming.text() + "\n"@ } else { ""@ })
                    + (if is_box(h.bits.entities_min, h.bits.entities_max) && map.entities.len() > 0 { "Extents:   "@ + h.extents.text() + "\n"@ } else { ""@ })
                    + "Entities:  "@,
            )
            &&& says(text, "Entities:  "@ + decimal(map.entities.len() as nat) + " ("@)
            &&& says(text, " ("@ + decimal(map.instances.len() as nat) + " MLO instances)\n"@)
            &&& says(
                text,
                parent_text(h.bits.parent_hash, t) + "\n"@
                    + mismatch_text(checks@.mismatch, h.bits.name_hash, t),
            )
            &&& says(
                text,
                hex_upper(h.bits.flags as nat) + " "@ + join(header_flags(h.bits.flags), "|"@),
            )
            &&& says(
                text,
                hex_upper(h.bits.content_flags as nat) + " "@
                    + join(content_flags(h.bits.content_flags), "|"@),
            )
            &&& says(
                text,
                join(content_flags(h.bits.content_flags), "|"@) + "\n"@
                    + (if is_box(h.bits.streaming_min, h.bits.streaming_max) { "Streaming: "@ + h.streaming.text() + "\n"@ } else { ""@ }),
            )
            &&& says(
                text,
                decimal(map.entities.len() as nat) + " ("@ + decimal(map.instances.len() as nat),
            )
        }),
{
    lemma_says();
}

/// The line of an archetype.
pub proof fn law_archetype_line<'a>(w: TypeLine<'a>, i: nat, item: TypeArchetype)
    ensures
        ({
            let text = w.text_of(i, &item);
            let t = table(*w.names);
            &&& says(text, "  "@ + pad_right(resolved(t, item.bits.name_hash), ' ', 32) + " "@)
            &&& says(
                text,
                " "@ + pad_right(parent_text(item.bits.texture_dict_hash, t), ' ', 24) + " "@,
            )
            &&& says(text, " "@ + pad_left(item.shown.lod_dist.shown@, ' ', 7) + "  "@)
            &&& says(text, "  "@ + item.shown.bb_min.text() + ".."@)
            &&& says(text, ".."@ + item.shown.bb_max.text() + mlo_note(item.bits.is_mlo))
            &&& says(text, item.shown.bb_max.text() + mlo_note(item.bits.is_mlo))
            &&& says(
                text,
                pad_right(resolved(t, item.bits.name_hash), ' ', 32) + " "@
                    + pad_right(parent_text(item.bits.texture_dict_hash, t), ' ', 24),
            )
            &&& says(
                text,
                pad_right(parent_text(item.bits.texture_dict_hash, t), ' ', 24) + " "@
                    + pad_left(item.shown.lod_dist.shown@, ' ', 7),
            )
            &&& says(
                text,
                pad_left(item.shown.lod_dist.shown@, ' ', 7) + "  "@ + item.shown.bb_min.text(),
            )
            &&& says(text, item.shown.bb_min.text() + ".."@ + item.shown.bb_max.text())
        }),
{
    lemma_says();
}

/// The line of a room.
pub proof fn law_room_line<'a>(w: TypeLine<'a>, i: nat, item: Room)
    ensures
        ({
            let text = w.text_of(i, &item);
            &&& says(text, "  room "@ + pad_left(decimal(i), ' ', 2) + " "@)
            &&& says(text, " "@ + pad_right(item.name@, ' ', 24) + " "@)
            &&& says(text, " "@ + decimal(item.props as nat) + " props"@)
            &&& says(text, pad_left(decimal(i), ' ', 2) + " "@ + pad_right(item.name@, ' ', 24))
            &&& says(text, pad_right(item.name@, ' ', 24) + " "@ + decimal(item.props as nat))
        }),
{
    lemma_says();
}

/// What is printed of an interior: its name, and how many rooms, portals,
/// entities and entity sets it has.
pub proof fn law_interior_text(mlo: MloType, names: NameTable)
    ensures
        ({
            let text = mlo_text(mlo, names);
            &&& says(text, "MLO "@ + resolved(table(names), mlo.name_hash) + ": "@)
            &&& says(text, ": "@ + decimal(mlo.rooms.len() as nat) + " rooms, "@)
            &&& says(text, " rooms, "@ + decimal(mlo.portals as nat) + " portals, "@)
            &&& says(text, " portals, "@ + decimal(mlo.entities as nat) + " entities, "@)
            &&& says(
                text,
                " entities, "@ + decimal(mlo.entity_sets.len() as nat) + " entity sets\n"@,
            )
            &&& says(
                text,
                " entity sets\n"@ + unlines(written(TypeLine { names: &names }, mlo.rooms@)),
            )
            &&& says(
                text,
                resolved(table(names), mlo.name_hash) + ": "@ + decimal(mlo.rooms.len() as nat),
            )
        }),
{
    lemma_says();
}

/// What is printed of a type file.
pub proof fn law_types_text(types: TypeFile, names: NameTable, limit: nat)
    ensures
        ({
            let text = types_text(types, names, limit);
            let count = shown_count(types.archetypes@.len(), limit);
            &&& says(text, "Archetypes: "@ + decimal(types.archetypes@.len()) + " ("@)
            &&& says(text, " ("@ + decimal(types.mlos@.len()) + " MLO)\n"@)
            &&& says(
                text,
                "  name                             texture dictionary           lod  bounds\n"@
                    + unlines(written(TypeLine { names: &names }, types.archetypes@.take(count as int)))
                    + more_text((types.archetypes@.len() - count) as nat),
            )
            &&& says(
                text,
                unlines(written(TypeLine { names: &names }, types.archetypes@.take(count as int)))
                    + more_text((types.archetypes@.len() - count) as nat)
                    + mlos_text(types.mlos@, names),
            )
            &&& says(
                text,
                more_text((types.archetypes@.len() - count) as nat)
                    + mlos_text(types.mlos@, names),
            )
            &&& says(text, decimal(types.archetypes@.len()) + " ("@ + decimal(types.mlos@.len()))
        }),
{
    lemma_says();
}

/// The archetype as an object.
pub proof fn law_archetype_object<'a>(w: TypeJson<'a>, i: nat, item: TypeArchetype)
    ensures
        ({
            let text = w.text_of(i, &item);
            let t = table(*w.names);
            &&& says(
                text,
                "{\"name\":"@ + json_hash_name(item.bits.name_hash, t) + ",\"name_hash\":"@,
            )
            &&& says(
                text,
                ",\"name_hash\":"@ + hash_json(item.bits.name_hash) + ",\"texture_dictionary\":"@,
            )
            &&& says(
                text,
                ",\"texture_dictionary\":"@ + json_hash_name(item.bits.texture_dict_hash, t)
                    + ",\"lod_dist\":"@,
            )
            &&& says(text, ",\"lod_dist\":"@ + item.shown.lod_dist.json@ + ",\"bb_min\":"@)
            &&& says(text, ",\"bb_min\":"@ + item.shown.bb_min.as_json() + ",\"bb_max\":"@)
            &&& says(text, ",\"bb_max\":"@ + item.shown.bb_max.as_json() + ",\"mlo\":"@)
            &&& says(text, ",\"mlo\":"@ + bool_text(item.bits.is_mlo) + "}"@)
        }),
{
    lemma_says();
}

/// The room as an object.
pub proof fn law_room_object<'a>(w: TypeJson<'a>, i: nat, item: Room)
    ensures
        ({
            let text = w.text_of(i, &item);
            &&& says(text, "{\"name\":"@ + quoted(item.name@) + ",\"props\":"@)
            &&& says(text, ",\"props\":"@ + decimal(item.props as nat) + ",\"bb_min\":"@)
            &&& says(text, ",\"bb_min\":"@ + item.bounds.min.as_json() + ",\"bb_max\":"@)
            &&& says(text, ",\"bb_max\":"@ + item.bounds.max.as_json() + "}"@)
        }),
{
    lemma_says();
}

/// The interior as an object.
pub proof fn law_interior_object<'a>(w: TypeJson<'a>, i: nat, item: MloType)
    ensures
        ({
            let text = w.text_of(i, &item);
            &&& says(
                text,
                "{\"name\":"@ + json_hash_name(item.name_hash, table(*w.names)) + ",\"rooms\":"@,
            )
            &&& says(
                text,
                ",\"rooms\":"@ + array(written(TypeJson { names: w.names }, item.rooms@))
                    + ",\"portals\":"@,
            )
            &&& says(text, ",\"portals\":"@ + decimal(item.portals as nat) + ",\"entities\":"@)
            &&& says(text, ",\"entities\":"@ + decimal(item.entities as nat) + ",\"entity_sets\":"@)
            &&& says(
                text,
                ",\"entity_sets\":"@
                    + array(written(TypeJson { names: w.names }, item.entity_sets@)) + "}"@,
            )
        }),
{
    lemma_says();
}

/// The type file as an object.
pub proof fn law_types_object(types: TypeFile, names: NameTable)
    ensures
        ({
            let text = types_json(types, names);
            let w = TypeJson { names: &names };
            &&& says(
                text,
                "{\"archetypes\":"@ + array(written(w, types.archetypes@)) + ",\"mlos\":"@,
            )
            &&& says(text, ",\"mlos\":"@ + array(written(w, types.mlos@)) + "}"@)
        }),
{
    lemma_says();
}

/// The line of a map in a manifest.
pub proof fn law_map_dependency_line<'a>(w: MapDependencyLine<'a>, i: nat, item: Dependencies)
    ensures
        ({
            let text = w.text_of(i, &item);
            let name = item.name.shown(table(*w.names));
            &&& says(text, "  "@ + name + interior_note(item.manifest_flags))
            &&& says(text, name + interior_note(item.manifest_flags) + " -> "@)
            &&& says(
                text,
                " -> "@ + deps_text(item.ityp_deps@, *w.names)
                    + orphan_note(w.checks@.orphan(name)),
            )
            &&& says(
                text,
                deps_text(item.ityp_deps@, *w.names) + orphan_note(w.checks@.orphan(name)),
            )
            &&& says(
                text,
                interior_note(item.manifest_flags) + " -> "@
                    + deps_text(item.ityp_deps@, *w.names),
            )
        }),
{
    lemma_says();
}

/// The line of a type file in a manifest.
pub proof fn law_type_dependency_line<'a>(w: TypeDependencyLine<'a>, i: nat, item: Dependencies)
    ensures
        ({
            let text = w.text_of(i, &item);
            &&& says(
                text,
                "  "@ + item.name.shown(table(*w.names)) + interior_note(item.manifest_flags),
            )
            &&& says(
                text,
                item.name.shown(table(*w.names)) + interior_note(item.manifest_flags) + " -> "@,
            )
            &&& says(text, " -> "@ + deps_text(item.ityp_deps@, *w.names))
            &&& says(
                text,
                interior_note(item.manifest_flags) + " -> "@
                    + deps_text(item.ityp_deps@, *w.names),
            )
        }),
{
    lemma_says();
}

/// The line of a dependency in the old form.
pub proof fn law_old_dependency_line<'a>(w: NameText<'a>, i: nat, item: ImapDependency)
    ensures
        ({
            let text = w.text_of(i, &item);
            let names = table(*w.names);
            &&& says(text, "  "@ + item.imap.shown(names) + " -> "@)
            &&& says(text, " -> "@ + item.ityp.shown(names) + " (pack "@)
            &&& says(text, " (pack "@ + item.pack_file.shown(names) + ")"@)
            &&& says(text, item.imap.shown(names) + " -> "@ + item.ityp.shown(names))
        }),
{
    lemma_says();
}

/// The line of an interior in a manifest.
pub proof fn law_interior_line<'a>(w: NameText<'a>, i: nat, item: InteriorBounds)
    ensures
        ({
            let text = w.text_of(i, &item);
            &&& says(text, "  "@ + item.name.shown(table(*w.names)) + " -> "@)
            &&& says(text, " -> "@ + names_text(item.bounds@, *w.names))
            &&& says(
                text,
                item.name.shown(table(*w.names)) + " -> "@ + names_text(item.bounds@, *w.names),
            )
        }),
{
    lemma_says();
}

/// The line of a texture binding.
pub proof fn law_binding_line<'a>(w: NameText<'a>, i: nat, item: HdTxdBinding)
    ensures
        ({
            let text = w.text_of(i, &item);
            &&& says(text, "  "@ + item.asset_type.shown(table(*w.names)) + " "@)
            &&& says(text, " "@ + item.target_asset@ + " -> "@)
            &&& says(text, " -> "@ + item.hd_txd@)
            &&& says(text, item.asset_type.shown(table(*w.names)) + " "@ + item.target_asset@)
            &&& says(text, item.target_asset@ + " -> "@ + item.hd_txd@)
        }),
{
    lemma_says();
}

/// The line of a group of map data.
pub proof fn law_group_line<'a>(w: NameText<'a>, i: nat, item: MapDataGroup)
    ensures
        ({
            let text = w.text_of(i, &item);
            &&& says(text, "  "@ + item.name.shown(table(*w.names)) + " flags 0x"@)
            &&& says(text, " flags 0x"@ + hex_upper(item.flags as nat) + " hours 0x"@)
            &&& says(text, " hours 0x"@ + hex_upper(item.hours_on_off as nat) + " bounds ["@)
            &&& says(text, " bounds ["@ + names_text(item.bounds@, *w.names) + "] weather ["@)
            &&& says(text, "] weather ["@ + names_text(item.weather_types@, *w.names) + "]"@)
        }),
{
    lemma_says();
}

/// The group of map data as an object.
pub proof fn law_group_object<'a>(w: JsonText<'a>, i: nat, item: MapDataGroup)
    ensures
        ({
            let text = w.text_of(i, &item);
            &&& says(text, "{\"name\":"@ + item.name.as_json(table(*w.names)) + ",\"flags\":"@)
            &&& says(text, ",\"flags\":"@ + decimal(item.flags as nat) + ",\"hours_on_off\":"@)
            &&& says(
                text,
                ",\"hours_on_off\":"@ + decimal(item.hours_on_off as nat) + ",\"bounds\":"@,
            )
            &&& says(
                text,
                ",\"bounds\":"@ + names_json(item.bounds@, *w.names) + ",\"weather_types\":"@,
            )
            &&& says(
                text,
                ",\"weather_types\":"@ + names_json(item.weather_types@, *w.names) + "}"@,
            )
        }),
{
    lemma_says();
}

/// The dependency in the old form as an object.
pub proof fn law_old_dependency_object<'a>(w: JsonText<'a>, i: nat, item: ImapDependency)
    ensures
        ({
            let text = w.text_of(i, &item);
            let names = table(*w.names);
            &&& says(text, "{\"imap\":"@ + item.imap.as_json(names) + ",\"ityp\":"@)
            &&& says(text, ",\"ityp\":"@ + item.ityp.as_json(names) + ",\"pack_file\":"@)
            &&& says(text, ",\"pack_file\":"@ + item.pack_file.as_json(names) + "}"@)
        }),
{
    lemma_says();
}

/// The dependency as an object.
pub proof fn law_dependency_object<'a>(w: JsonText<'a>, i: nat, item: Dependencies)
    ensures
        ({
            let text = w.text_of(i, &item);
            &&& says(
                text,
                "{\"name\":"@ + item.name.as_json(table(*w.names)) + ",\"manifest_flags\":"@,
            )
            &&& says(
                text,
                ",\"manifest_flags\":"@ + decimal(item.manifest_flags as nat) + ",\"ityp_deps\":"@,
            )
            &&& says(text, ",\"ityp_deps\":"@ + names_json(item.ityp_deps@, *w.names) + "}"@)
        }),
{
    lemma_says();
}

/// The texture binding as an object.
pub proof fn law_binding_object<'a>(w: JsonText<'a>, i: nat, item: HdTxdBinding)
    ensures
        ({
            let text = w.text_of(i, &item);
            &&& says(
                text,
                "{\"asset_type\":"@ + item.asset_type.as_json(table(*w.names))
                    + ",\"target_asset\":"@,
            )
            &&& says(text, ",\"target_asset\":"@ + quoted(item.target_asset@) + ",\"hd_txd\":"@)
            &&& says(text, ",\"hd_txd\":"@ + quoted(item.hd_txd@) + "}"@)
        }),
{
    lemma_says();
}

/// The interior of a manifest as an object.
pub proof fn law_manifest_interior_object<'a>(w: JsonText<'a>, i: nat, item: InteriorBounds)
    ensures
        ({
            let text = w.text_of(i, &item);
            &&& says(text, "{\"name\":"@ + item.name.as_json(table(*w.names)) + ",\"bounds\":"@)
            &&& says(text, ",\"bounds\":"@ + names_json(item.bounds@, *w.names) + "}"@)
        }),
{
    lemma_says();
}

/// The map that is not here as an object.
pub proof fn law_orphan_object<'a>(w: JsonText<'a>, i: nat, item: (String, bool))
    ensures
        ({
            let text = w.text_of(i, &item);
            &&& says(text, "{\"name\":"@ + quoted(item.0@) + ",\"known_name\":"@)
            &&& says(text, ",\"known_name\":"@ + bool_text(item.1) + "}"@)
        }),
{
    lemma_says();
}

/// The manifest as an object: each list under its own key.
pub proof fn law_manifest_object(m: Manifest, names: NameTable, checks: Checks)
    ensures
        ({
            let text = manifest_json(m, names, checks);
            let w = JsonText { names: &names };
            &&& says(
                text,
                "{\"map_data_groups\":"@ + array(written(w, m.map_data_groups@))
                    + ",\"imap_dependencies\":"@,
            )
            &&& says(
                text,
                ",\"imap_dependencies\":"@ + array(written(w, m.imap_dependencies@))
                    + ",\"imap_dependencies_2\":"@,
            )
            &&& says(
                text,
                ",\"imap_dependencies_2\":"@ + array(written(w, m.imap_dependencies_2@))
                    + ",\"imaps_not_here\":"@,
            )
            &&& says(
                text,
                ",\"imaps_not_here\":"@ + array(written(w, checks.orphan_imaps@))
                    + ",\"ityp_dependencies_2\":"@,
            )
            &&& says(
                text,
                ",\"ityp_dependencies_2\":"@ + array(written(w, m.ityp_dependencies_2@))
                    + ",\"hd_txd_bindings\":"@,
            )
            &&& says(
                text,
                ",\"hd_txd_bindings\":"@ + array(written(w, m.hd_txd_bindings@))
                    + ",\"interiors\":"@,
            )
            &&& says(text, ",\"interiors\":"@ + array(written(w, m.interiors@)) + "}"@)
        }),
{
    lemma_says();
}

/// The line of a texture.
pub proof fn law_texture_line(tex: Texture)
    ensures
        ({
            let text = texture_line(tex);
            &&& says(text, "  "@ + texture_label(tex) + " \u{2014} "@)
            &&& says(text, " \u{2014} "@ + decimal(tex.width as nat) + "x"@)
            &&& says(text, "x"@ + decimal(tex.height as nat) + "x"@)
            &&& says(text, "x"@ + decimal(tex.depth as nat) + " "@)
            &&& says(text, " "@ + tex.format@ + " "@)
            &&& says(text, " "@ + decimal(tex.levels as nat) + " mip(s) ("@)
            &&& says(text, " mip(s) ("@ + decimal(tex.bytes as nat) + " bytes)"@)
            &&& says(text, texture_label(tex) + " \u{2014} "@ + decimal(tex.width as nat))
            &&& says(text, decimal(tex.width as nat) + "x"@ + decimal(tex.height as nat))
            &&& says(text, decimal(tex.height as nat) + "x"@ + decimal(tex.depth as nat))
            &&& says(text, decimal(tex.depth as nat) + " "@ + tex.format@)
            &&& says(text, tex.format@ + " "@ + decimal(tex.levels as nat))
        }),
{
    lemma_says();
}

/// The lines of a geometry.
pub proof fn law_geometry_line(w: IndentedLine, i: nat, item: GeometryBounds)
    ensures
        ({
            let text = w.text_of(i, &item);
            &&& says(text, "      #"@ + decimal(item.geometry as nat) + " model "@)
            &&& says(text, " model "@ + decimal(item.model as nat) + " shader "@)
            &&& says(text, " shader "@ + decimal(item.shader_id as nat) + "   "@)
            &&& says(text, "   "@ + decimal(item.triangles as nat) + " tris, "@)
            &&& says(text, " tris, "@ + decimal(item.vertices as nat) + " verts\n           min "@)
            &&& says(text, " verts\n           min "@ + item.min.text() + " max "@)
            &&& says(text, " max "@ + item.max.text() + " centroid "@)
            &&& says(text, " centroid "@ + item.centroid.text())
            &&& says(text, decimal(item.shader_id as nat) + "   "@ + decimal(item.triangles as nat))
        }),
{
    lemma_says();
}

/// The line of a level of detail.
pub proof fn law_detail_line(w: IndentedLine, i: nat, item: Lod)
    ensures
        ({
            let text = w.text_of(i, &item);
            &&& says(text, "    "@ + pad_right(item.level@ + ":"@, ' ', 8) + " "@)
            &&& says(text, " "@ + decimal(item.models as nat) + " models, "@)
            &&& says(text, " models, "@ + decimal(item.geometries as nat) + " geometries, "@)
            &&& says(text, " geometries, "@ + decimal(item.triangles as nat) + " triangles"@)
            &&& says(
                text,
                pad_right(item.level@ + ":"@, ' ', 8) + " "@ + decimal(item.models as nat),
            )
        }),
{
    lemma_says();
}

/// The line of a shader.
pub proof fn law_shader_line(w: IndentedLine, i: nat, item: Shader)
    ensures
        ({
            let text = w.text_of(i, &item);
            &&& says(text, "      #"@ + pad_right(decimal(i), ' ', 3) + " name 0x"@)
            &&& says(text, " name 0x"@ + hex_digits_upper(item.name_hash as nat, 8) + "  file 0x"@)
            &&& says(
                text,
                "  file 0x"@ + hex_digits_upper(item.file_name_hash as nat, 8) + "  bucket "@,
            )
            &&& says(text, "  bucket "@ + decimal(item.render_bucket as nat) + "  diffuse "@)
            &&& says(text, "  diffuse "@ + diffuse_text(item.diffuse))
        }),
{
    lemma_says();
}

/// The head of a drawable.
pub proof fn law_drawable_head(entry: DrawableEntry)
    ensures
        ({
            let text = drawable_head(entry);
            let b = entry.bounds;
            let d = entry.lod_distances;
            &&& says(text, "\n  "@ + entry.label() + " (0x"@)
            &&& says(
                text,
                " (0x"@ + hex_digits_upper(entry.hash as nat, 8) + ")\n    bounds:   center "@,
            )
            &&& says(text, ")\n    bounds:   center "@ + b.center.text() + " radius "@)
            &&& says(
                text,
                " radius "@ + b.radius.shown@ + (if b.computed { " (computed)"@ } else { ""@ }),
            )
            &&& says(
                text,
                b.radius.shown@ + (if b.computed { " (computed)"@ } else { ""@ })
                    + "\n              min "@,
            )
            &&& says(text, "\n              min "@ + b.min.text() + " max "@)
            &&& says(text, " max "@ + b.max.text() + "\n    lod dist: "@)
            &&& says(text, "\n    lod dist: "@ + d.high.shown@ + " / "@)
            &&& says(text, " / "@ + d.medium.shown@ + " / "@)
            &&& says(text, " / "@ + d.low.shown@ + " / "@)
            &&& says(text, " / "@ + d.very_low.shown@ + "\n"@)
            &&& says(text, entry.label() + " (0x"@ + hex_digits_upper(entry.hash as nat, 8))
            &&& says(text, d.high.shown@ + " / "@ + d.medium.shown@)
            &&& says(text, d.medium.shown@ + " / "@ + d.low.shown@)
            &&& says(text, d.low.shown@ + " / "@ + d.very_low.shown@)
        }),
{
    lemma_says();
}

/// What is printed of a drawable, in order.
pub proof fn law_drawable_text(entry: DrawableEntry, verbose: bool)
    ensures
        ({
            let text = drawable_text(entry, verbose);
            &&& says(text, drawable_head(entry) + geometry_text(entry.geometry_bounds, verbose))
            &&& says(
                text,
                drawable_head(entry) + geometry_text(entry.geometry_bounds, verbose)
                    + unlines(written(IndentedLine, entry.lods@)),
            )
            &&& says(
                text,
                geometry_text(entry.geometry_bounds, verbose)
                    + unlines(written(IndentedLine, entry.lods@))
                    + shaders_text(entry.shader_group),
            )
            &&& says(
                text,
                unlines(written(IndentedLine, entry.lods@)) + shaders_text(entry.shader_group),
            )
        }),
{
    lemma_says();
}

/// The texture as an object.
pub proof fn law_texture_object(w: DrawableJson, i: nat, item: Texture)
    ensures
        ({
            let text = w.text_of(i, &item);
            &&& says(text, "{\"name\":"@ + json_text(item.name@) + ",\"hash\":"@)
            &&& says(text, ",\"hash\":"@ + hash_json(item.name_hash) + ",\"width\":"@)
            &&& says(text, ",\"width\":"@ + decimal(item.width as nat) + ",\"height\":"@)
            &&& says(text, ",\"height\":"@ + decimal(item.height as nat) + ",\"depth\":"@)
            &&& says(text, ",\"depth\":"@ + decimal(item.depth as nat) + ",\"format\":\""@)
            &&& says(text, ",\"format\":\""@ + item.format@ + "\",\"mips\":"@)
            &&& says(text, "\",\"mips\":"@ + decimal(item.levels as nat) + ",\"bytes\":"@)
            &&& says(text, ",\"bytes\":"@ + decimal(item.bytes as nat) + "}"@)
        }),
{
    lemma_says();
}

/// The geometry as an object.
pub proof fn law_geometry_object(w: DrawableJson, i: nat, item: GeometryBounds)
    ensures
        ({
            let text = w.text_of(i, &item);
            &&& says(text, "{\"model\":"@ + decimal(item.model as nat) + ",\"geometry\":"@)
            &&& says(text, ",\"geometry\":"@ + decimal(item.geometry as nat) + ",\"shader\":"@)
            &&& says(text, ",\"shader\":"@ + decimal(item.shader_id as nat) + ",\"vertices\":"@)
            &&& says(text, ",\"vertices\":"@ + decimal(item.vertices as nat) + ",\"triangles\":"@)
            &&& says(text, ",\"triangles\":"@ + decimal(item.triangles as nat) + ",\"min\":"@)
            &&& says(text, ",\"min\":"@ + item.min.as_json() + ",\"max\":"@)
            &&& says(text, ",\"max\":"@ + item.max.as_json() + ",\"centroid\":"@)
            &&& says(text, ",\"centroid\":"@ + item.centroid.as_json() + "}"@)
        }),
{
    lemma_says();
}

/// The level of detail as an object.
pub proof fn law_detail_object(w: DrawableJson, i: nat, item: Lod)
    ensures
        ({
            let text = w.text_of(i, &item);
            &&& says(text, "{\"level\":\""@ + item.level@ + "\",\"models\":"@)
            &&& says(text, "\",\"models\":"@ + decimal(item.models as nat) + ",\"geometries\":"@)
            &&& says(
                text,
                ",\"geometries\":"@ + decimal(item.geometries as nat) + ",\"triangles\":"@,
            )
            &&& says(text, ",\"triangles\":"@ + decimal(item.triangles as nat) + "}"@)
        }),
{
    lemma_says();
}

/// The shader as an object.
pub proof fn law_shader_object(w: DrawableJson, i: nat, item: Shader)
    ensures
        ({
            let text = w.text_of(i, &item);
            &&& says(text, "{\"id\":"@ + decimal(i) + ",\"name_hash\":"@)
            &&& says(text, ",\"name_hash\":"@ + hash_json(item.name_hash) + ",\"file_name_hash\":"@)
            &&& says(
                text,
                ",\"file_name_hash\":"@ + hash_json(item.file_name_hash) + ",\"render_bucket\":"@,
            )
            &&& says(
                text,
                ",\"render_bucket\":"@ + decimal(item.render_bucket as nat) + ",\"diffuse\":"@,
            )
            &&& says(text, ",\"diffuse\":"@ + diffuse_json(item.diffuse) + "}"@)
        }),
{
    lemma_says();
}

/// The bounds and distances of a drawable as an object.
pub proof fn law_bounds_object(entry: DrawableEntry, verbose: bool)
    ensures
        ({
            let text = bounds_json(entry, verbose);
            let b = entry.bounds;
            let d = entry.lod_distances;
            &&& says(text, ",\"bounds\":{\"center\":"@ + b.center.as_json() + ",\"radius\":"@)
            &&& says(text, ",\"radius\":"@ + b.radius.json@ + ",\"min\":"@)
            &&& says(text, ",\"min\":"@ + b.min.as_json() + ",\"max\":"@)
            &&& says(text, ",\"max\":"@ + b.max.as_json() + ",\"computed\":"@)
            &&& says(text, ",\"computed\":"@ + bool_text(b.computed) + "}"@)
            &&& says(
                text,
                "}"@ + geometry_json(entry.geometry_bounds, verbose) + ",\"lod_distances\":["@,
            )
            &&& says(text, ",\"lod_distances\":["@ + d.high.json@ + ","@)
            &&& says(text, ","@ + d.medium.json@ + ","@)
            &&& says(text, ","@ + d.low.json@ + ","@)
            &&& says(text, ","@ + d.very_low.json@ + "]"@)
            &&& says(
                text,
                bool_text(b.computed) + "}"@ + geometry_json(entry.geometry_bounds, verbose),
            )
            &&& says(text, d.high.json@ + ","@ + d.medium.json@)
            &&& says(text, d.medium.json@ + ","@ + d.low.json@)
            &&& says(text, d.low.json@ + ","@ + d.very_low.json@)
        }),
{
    lemma_says();
}

/// The drawable as an object.
pub proof fn law_drawable_object(entry: DrawableEntry, verbose: bool)
    ensures
        ({
            let text = drawable_json(entry, verbose);
            &&& says(text, "{\"name\":"@ + json_text(entry.label()) + ",\"hash\":"@)
            &&& says(text, ",\"hash\":"@ + hash_json(entry.hash) + bounds_json(entry, verbose))
            &&& says(text, hash_json(entry.hash) + bounds_json(entry, verbose) + ",\"lods\":"@)
            &&& says(
                text,
                ",\"lods\":"@ + array(written(DrawableJson { verbose: false }, entry.lods@))
                    + shaders_json(entry.shader_group),
            )
            &&& says(
                text,
                array(written(DrawableJson { verbose: false }, entry.lods@))
                    + shaders_json(entry.shader_group) + "}"@,
            )
        }),
{
    lemma_says();
}

/// The head of a resource: its version, with the one that its flags encode where
/// that is another, and the flags and size of each section.
pub proof fn law_container_head(h: Rsc7Header)
    ensures
        ({
            let text = header_text(h);
            let encoded = flags_version(h.system_flags, h.graphics_flags);
            &&& says(text, "Format:    RSC7  version "@ + decimal(h.version as nat) + "\n"@)
            &&& says(
                text,
                "\n"@
                    + (if encoded != h.version { "           (warning: flags encode version "@ + decimal(encoded as nat) + ")\n"@ } else { ""@ })
                    + "System:    0x"@,
            )
            &&& says(
                text,
                "System:    0x"@ + hex_digits_upper(h.system_flags as nat, 8) + " flags -> "@,
            )
            &&& says(text, " flags -> "@ + decimal(h.system_size as nat) + " bytes\nGraphics:  0x"@)
            &&& says(
                text,
                " bytes\nGraphics:  0x"@ + hex_digits_upper(h.graphics_flags as nat, 8)
                    + " flags -> "@,
            )
            &&& says(text, " flags -> "@ + decimal(h.graphics_size as nat) + " bytes\nBody:      "@)
            &&& says(text, " bytes\nBody:      "@ + decimal(h.body_len as nat) + " bytes ("@)
            &&& says(
                text,
                " bytes ("@ + (if h.compressed { "deflated"@ } else { "stored"@ }) + ")\n"@,
            )
            &&& says(
                text,
                decimal(h.version as nat) + "\n"@
                    + (if encoded != h.version { "           (warning: flags encode version "@ + decimal(encoded as nat) + ")\n"@ } else { ""@ }),
            )
        }),
{
    lemma_says();
}

/// What is printed of a file: where it is from, what holds it and what is in it.
pub proof fn law_info_text(args: InfoArgs, container: Container, contents: Contents, names: NameTable,
    checks: Checks, verbose: bool)
    ensures
        ({
            let text = info_text(args, container, contents, names, checks, verbose);
            &&& says(
                text,
                file_line(args.file@, match args.archive { Some(a) => Some(a@), None => None, })
                    + container_text(container),
            )
            &&& says(
                text,
                file_line(args.file@, match args.archive { Some(a) => Some(a@), None => None, })
                    + container_text(container)
                    + contents_text(contents, names, checks, args.limit as nat, verbose),
            )
            &&& says(
                text,
                container_text(container)
                    + contents_text(contents, names, checks, args.limit as nat, verbose),
            )
        }),
{
    lemma_says();
}

/// The file as an object.
pub proof fn law_info_object(args: InfoArgs, container: Container, contents: Contents, names: NameTable,
    checks: Checks, verbose: bool)
    ensures
        ({
            let text = info_json(args, container, contents, names, checks, verbose);
            &&& says(text, "{\"file\":"@ + json_text(args.file@) + ",\"archive\":"@)
            &&& says(
                text,
                ",\"archive\":"@
                    + (match args.archive { Some(a) => json_text(a@), None => "null"@, }) + ","@,
            )
            &&& says(text, ","@ + container_json(container) + ",\"kind\":\""@)
            &&& says(text, ",\"kind\":\""@ + kind_name(contents) + "\""@)
            &&& says(text, "\""@ + contents_json(contents, names, checks, verbose) + "}\n"@)
            &&& says(
                text,
                (match args.archive { Some(a) => json_text(a@), None => "null"@, }) + ","@
                    + container_json(container),
            )
            &&& says(
                text,
                kind_name(contents) + "\""@ + contents_json(contents, names, checks, verbose),
            )
        }),
{
    lemma_says();
}

/// What is printed of metadata of another sort.
pub proof fn law_summary_of_other_metadata(meta: MetaSummary, names: NameTable)
    ensures
        ({
            let text = meta_text(meta, names);
            &&& says(
                text,
                "Summary:   "@
                    + (match meta.root { Some(root) => resolved(table(names), root.0), None => "?"@, })
                    + " with "@,
            )
            &&& says(
                text,
                " with "@
                    + decimal(match meta.root { Some(root) => root.1 as nat, None => 0nat, })
                    + " members; `rage resource dump` prints it in full\n"@,
            )
            &&& says(
                text,
                " members; `rage resource dump` prints it in full\n"@
                    + unlines(written(WarningLine, meta.warnings@)),
            )
        }),
{
    lemma_says();
}

/// The note on hashes without a name.
pub proof fn law_note_on_unresolved_hashes(count: nat, header: Option<ListHeader>)
    ensures
        ({
            let text = note_text(count, header);
            &&& says(text, "Unresolved: "@ + decimal(count) + " hash(es) with no known name; "@)
            &&& says(
                text,
                " hash(es) with no known name; "@ + active_list(header)
                    + ". A name absent from a list older than the file is not proof the asset does not exist.\n"@,
            )
        }),
{
    lemma_says();
}

} // verus!
