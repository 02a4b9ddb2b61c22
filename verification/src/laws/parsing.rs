//! What is read out of files, where they can be read at all.
use vstd::prelude::*;
use crate::bits::{is_above, is_box};
use crate::cells::{cell_in, is_readable, parsed_cell};
use crate::commands::resource::container::{is_countable, section_size, word};
use crate::commands::resource::info::DrawableKind;
use crate::formats::{
    are_lengths_countable, dds_in, dictionary_file, embedded_in, flattened, is_dds_countable,
    is_dictionary_countable, is_shallow, is_wide, map_entities, map_header, map_instances,
    parsed_cache, parsed_dds, parsed_drawables, parsed_map_entities, parsed_map_header,
    parsed_map_instances, parsed_pixels, parsed_relationships, parsed_types, pixels_in, serialized,
    txd_relationships, types_in, world_cache, Corner, PixelView,
};
use crate::index::load_order::{dlc_list, parsed_dlc_list, parsed_setup_order, setup_order};
use crate::layout::layout_rests;
use crate::metadata::{is_low, is_sound, metadata_in, parsed_metadata};
use crate::nesting::{xml_nesting, MAX_NESTING};

verus! {

/// A resource is read by its own parser wherever its sections can be counted;
/// one whose sections are too large is refused.
pub proof fn law_resources_are_read_where_they_fit(data: Seq<u8>)
    ensures
        is_countable(data) ==> types_in(data) == parsed_types(data),
        is_countable(data) ==> map_header(data) == parsed_map_header(data),
        is_countable(data) ==> map_entities(data) == parsed_map_entities(data),
        is_countable(data) ==> map_instances(data) == parsed_map_instances(data),
        !is_countable(data) ==> types_in(data) is Err && map_header(data) is Err && map_entities(
            data,
        ) is Err && map_instances(data) is Err,
        is_countable(data) <==> data.len() < 16 || section_size(word(data, 8)) + section_size(
            word(data, 12),
        ) <= usize::MAX,
{
}

/// Textures are read by their own parsers, out of dictionaries, drawables and
/// single files.
pub proof fn law_textures_are_read_where_they_fit(data: Seq<u8>, kind: DrawableKind)
    ensures
        is_dictionary_countable(data) ==> pixels_in(data) == parsed_pixels(data),
        !is_dictionary_countable(data) ==> pixels_in(data) is Err,
        is_wide() && is_countable(data) ==> match parsed_drawables(data, kind) {
            Ok(groups) => embedded_in(data, kind) == Ok::<Seq<PixelView>, Seq<char>>(
                flattened(groups),
            ),
            Err(e) => embedded_in(data, kind) == Err::<Seq<PixelView>, Seq<char>>(e),
        },
        !is_countable(data) ==> embedded_in(data, kind) is Err,
        is_dds_countable(data) ==> dds_in(data) == parsed_dds(data),
        !is_dds_countable(data) ==> dds_in(data) is Err,
{
}

/// A dictionary is written wherever its pages can be laid out.
pub proof fn law_dictionaries_are_written_where_they_fit(list: Seq<PixelView>)
    ensures
        is_wide() && layout_rests(list) ==> dictionary_file(list) == serialized(list),
        !layout_rests(list) ==> dictionary_file(list) is Err,
{
}

/// Relationships, world caches and lists of packs are read wherever they do not
/// nest too deep or claim too much; otherwise there are none.
pub proof fn law_lists_are_read_where_they_are_shallow(data: Vec<u8>)
    ensures
        is_countable(data@) && is_shallow(data@) ==> txd_relationships(data@) == parsed_relationships(
            data@,
        ),
        !is_countable(data@) || !is_shallow(data@) ==> txd_relationships(data@) is None,
        are_lengths_countable(data@) ==> world_cache(data@) == parsed_cache(data@),
        !are_lengths_countable(data@) ==> world_cache(data@) is None,
        xml_nesting(data@) <= MAX_NESTING ==> dlc_list(data@) == parsed_dlc_list(data@),
        xml_nesting(data@) > MAX_NESTING ==> dlc_list(data@) is None,
        xml_nesting(data@) <= MAX_NESTING ==> setup_order(Some(data)) == parsed_setup_order(data@),
        xml_nesting(data@) > MAX_NESTING ==> setup_order(Some(data)) is None,
        setup_order(None) is None,
{
}

/// Meshes and metadata are read wherever they are sound.
pub proof fn law_sound_files_are_read(data: Seq<u8>)
    ensures
        is_readable(data) ==> cell_in(data) == parsed_cell(data),
        !is_readable(data) ==> cell_in(data) is Err,
        !is_sound(data) ==> metadata_in(data) is Err,
        is_sound(data) && parsed_metadata(data) is Err ==> metadata_in(data) == parsed_metadata(data),
        is_sound(data) && parsed_metadata(data) is Ok && is_low(
            parsed_metadata(data)->Ok_0.0,
            MAX_NESTING as nat,
        ) ==> metadata_in(data) == parsed_metadata(data),
{
}

/// A box is worth showing when each of its six sides is below 1e9 in size and
/// none of the lower ones lies above its opposite.
pub proof fn law_boxes_worth_showing(lo: Corner, hi: Corner)
    ensures
        is_box(lo, hi) <==> {
            &&& lo.x & 0x7fff_ffff < 0x4e6e_6b28 && lo.y & 0x7fff_ffff < 0x4e6e_6b28 && lo.z
                & 0x7fff_ffff < 0x4e6e_6b28
            &&& hi.x & 0x7fff_ffff < 0x4e6e_6b28 && hi.y & 0x7fff_ffff < 0x4e6e_6b28 && hi.z
                & 0x7fff_ffff < 0x4e6e_6b28
            &&& !is_above(lo.x, hi.x) && !is_above(lo.y, hi.y) && !is_above(lo.z, hi.z)
        },
{
}

} // verus!
