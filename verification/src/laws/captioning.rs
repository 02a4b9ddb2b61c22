//! What is written on a plan and said beside it.
use vstd::prelude::*;
use crate::commands::plot::{
    count_texts, escrow_count, format_of_extension, layer_noun, room_text, stacked_text, LayerArg,
    OutputFormat, RoomText, SceneFacts,
};
use crate::formats::{described, dictionary, flattened, pixels_in, Archetype, PixelView};
use crate::laws::wording::{lemma_says, says};
use crate::plot_inputs::{skipped_views, SkipReason, SkippedView};
use crate::text::{decimal, join};

verus! {

/// The formats of a plan go by extension, each by its own.
pub proof fn law_plans_go_by_extension(ext: Seq<char>)
    ensures
        format_of_extension(ext) == Some(OutputFormat::Svg) <==> ext == "svg"@,
        format_of_extension(ext) == Some(OutputFormat::Png) <==> ext == "png"@,
        format_of_extension(ext) == Some(OutputFormat::Jpeg) <==> ext == "jpg"@ || ext == "jpeg"@,
        format_of_extension(ext) == Some(OutputFormat::Webp) <==> ext == "webp"@,
{
    reveal_strlit("svg");
    reveal_strlit("png");
    reveal_strlit("jpg");
    reveal_strlit("jpeg");
    reveal_strlit("webp");
    assert("svg"@[0] == 's' && "png"@[0] == 'p' && "jpg"@[0] == 'j' && "jpeg"@[0] == 'j'
        && "webp"@[0] == 'w');
}

/// What was drawn is counted by the noun of its layer, in order.
pub proof fn law_layers_are_counted(drawn: Seq<(LayerArg, usize)>, i: int)
    ensures
        layer_noun(LayerArg::Rooms) == "rooms"@,
        layer_noun(LayerArg::Portals) == "portals"@,
        layer_noun(LayerArg::Entities) == "entities"@,
        layer_noun(LayerArg::Collision) == "collision tris"@,
        layer_noun(LayerArg::Drawable) == "drawable tris"@,
        layer_noun(LayerArg::Navmesh) == "navmesh polys"@,
        count_texts(drawn).len() == drawn.len(),
        0 <= i < drawn.len() ==> count_texts(drawn)[i] == decimal(drawn[i].1 as nat) + " "@
            + layer_noun(drawn[i].0),
{
}

/// Rooms above each other are named, the upper one first, with how many pairs
/// there are besides.
pub proof fn law_stacked_rooms_are_named(upper: RoomText, lower: RoomText, pairs: nat)
    ensures
        room_text(upper) == "r"@ + decimal(upper.index as nat) + " '"@ + upper.name@ + "' "@ + upper.z_lo@
            + ".."@ + upper.z_hi@,
        says(
            stacked_text(upper, lower, pairs),
            "warning: rooms stack vertically ("@ + room_text(upper) + " over "@,
        ),
        says(stacked_text(upper, lower, pairs), " over "@ + room_text(lower)),
        pairs > 1 ==> says(
            stacked_text(upper, lower, pairs),
            " and "@ + decimal((pairs - 1) as nat) + " more"@,
        ),
        says(
            stacked_text(upper, lower, pairs),
            "); use --floor-z Z or --z-range LO,HI to draw one storey"@,
        ),
        stacked_text(upper, lower, 1) == "warning: rooms stack vertically ("@ + room_text(upper)
            + " over "@ + room_text(lower) + ""@
            + "); use --floor-z Z or --z-range LO,HI to draw one storey"@,
{
    lemma_says();
}

/// Encrypted files are counted.
pub proof fn law_encrypted_files_are_counted(list: Seq<SkippedView>, s: SkippedView)
    ensures
        escrow_count(Seq::empty()) == 0,
        escrow_count(list.push(s)) == escrow_count(list) + (match s.reason {
            SkipReason::Escrow => 1int,
            SkipReason::Unreadable => 0,
        }),
{
    assert(list.push(s).drop_last() =~= list);
}

/// The caption says where the interior is placed, or that it is not; which one
/// is drawn of several; the band of heights; what stands around; whether rooms
/// are estimated; what was left out; and the notes. Nothing else.
pub proof fn law_caption_says_what_was_drawn(f: SceneFacts, i: int)
    ensures
        ({
            let got = f.caption();
            let placed = f.source is Some || f.needs_placing;
            let several = f.source is None && f.mlo_count > 1 && f.mlo_name is Some;
            let around = f.exterior_entities > 0;
            let props = around && f.stats.archetypes > 0 && !f.no_props;
            let left = f.skipped@.len() > 0;
            let one = |b: bool| -> int {
                if b {
                    1
                } else {
                    0
                }
            };
            let n = one(placed) + one(several) + 1 + one(around) + one(props) + one(f.estimated_rooms)
                + one(left);
            &&& got.len() == n + f.notes@.len()
            &&& f.source matches Some(map) ==> got[0] == "placement: "@ + map@
            &&& f.source is None && f.needs_placing ==> got[0]
                == "MLO-local coordinates (no ymap given)"@
            &&& several ==> got[one(placed)] == decimal(f.mlo_count as nat)
                + " interiors loaded, drawing "@ + f.mlo_name->Some_0@
                + " (give the .ymap to pick one)"@
            &&& got[one(placed) + one(several)] == f.band@
            &&& around ==> got[one(placed) + one(several) + 1] == decimal(f.exterior_entities as nat)
                + " entities from "@ + decimal(f.exterior_maps as nat) + (if f.exterior_maps == 1 {
                " ymap"@
            } else {
                " ymaps"@
            }) + (if f.bounded {
                " around the interior"@
            } else {
                ""@
            })
            &&& props ==> got[one(placed) + one(several) + 2] == "props: "@ + join(
                f.stats.parts(),
                ", "@,
            )
            &&& f.estimated_rooms ==> got[one(placed) + one(several) + 1 + one(around) + one(props)]
                == "room boxes estimated from props and portals (ytyp boxes are unpositioned)"@
            &&& left ==> got[n - 1] == f.skipped_lines()[0]
            &&& 0 <= i < f.notes@.len() ==> got[n + i] == f.notes@[i]@
        }),
{
}

/// What was left out is counted by reason, the encrypted files first.
pub proof fn law_left_out_files_are_counted(f: SceneFacts)
    ensures
        ({
            let escrow = escrow_count(skipped_views(f.skipped@));
            let other = f.skipped@.len() - escrow;
            let first = decimal(escrow) + " escrow-encrypted "@ + (if escrow == 1 {
                "file"@
            } else {
                "files"@
            });
            let second = decimal(other as nat) + " unreadable"@;
            &&& f.skipped@.len() == 0 ==> f.skipped_lines().len() == 0
            &&& f.skipped@.len() > 0 && escrow > 0 && other > 0 ==> f.skipped_lines() == seq![
                "not drawn: "@ + (first + ", "@ + second),
            ]
            &&& f.skipped@.len() > 0 && escrow > 0 && other == 0 ==> f.skipped_lines() == seq![
                "not drawn: "@ + first,
            ]
            &&& f.skipped@.len() > 0 && escrow == 0 ==> f.skipped_lines() == seq![
                "not drawn: "@ + second,
            ]
        }),
{
    let escrow = escrow_count(skipped_views(f.skipped@));
    let other = f.skipped@.len() - escrow;
    let first = decimal(escrow) + " escrow-encrypted "@ + (if escrow == 1 {
        "file"@
    } else {
        "files"@
    });
    let second = decimal(other as nat) + " unreadable"@;
    let both = seq![first] + seq![second];
    assert(both.drop_last() =~= seq![first]);
    assert(both.last() == second);
    assert(join(both, ", "@) == first + ", "@ + second) by {
        reveal_with_fuel(join, 2);
    }
    assert(seq![first] + Seq::<Seq<char>>::empty() =~= seq![first]);
    assert(Seq::<Seq<char>>::empty() + seq![second] =~= seq![second]);
    assert(seq![first][0] == first);
    assert(seq![second][0] == second);
}

/// What is warned of, and when.
pub proof fn law_warnings_are_given_for_cause(f: SceneFacts)
    ensures
        ({
            let got = f.warnings();
            let lost = f.has_navmesh && f.source is None && f.needs_placing;
            let several = f.source is None && f.mlo_count > 1 && f.mlo_name is Some;
            let spent = f.exterior_entities > 0 && f.stats.over_budget > 0;
            let beyond = f.exterior_skipped > 0;
            let many = f.drawable_triangles > 2_000_000;
            let one = |b: bool| -> int {
                if b {
                    1
                } else {
                    0
                }
            };
            &&& got.len() == one(lost) + one(several) + one(spent) + one(beyond) + one(many)
            &&& lost ==> got[0]
                == "warning: navmesh polygons are in world coordinates but the rest of the plan is in the interior's own; pass the .ymap that places it"@
            &&& several ==> got[one(lost)] == "warning: "@ + (decimal(f.mlo_count as nat)
                + " interiors loaded, drawing "@ + f.mlo_name->Some_0@
                + " (give the .ymap to pick one)"@)
            &&& spent ==> got[one(lost) + one(several)] == "warning: "@ + decimal(
                f.stats.over_budget as nat,
            ) + " archetypes past --props "@ + decimal(f.budget as nat) + "; drawn as boxes or marks"@
            &&& beyond ==> got[one(lost) + one(several) + one(spent)] == decimal(
                f.exterior_skipped as nat,
            )
                + " entities of the folder's exterior maps lie beyond the interior's surroundings; not drawn"@
            &&& many ==> got.last() == "warning: "@ + decimal(f.drawable_triangles as nat)
                + " drawable triangles; --region, --no-props or --layers can keep the page tractable"@
        }),
{
}

// ── Textures and types as they are read ─────────────────────────────────────

/// A texture is described by its own fields; its size is that of its pixels.
pub proof fn law_textures_are_described(p: PixelView, data: Seq<u8>, i: int)
    ensures
        ({
            let t = described(p);
            &&& t.name == p.name && t.name_hash == p.name_hash
            &&& t.width == p.width && t.height == p.height && t.depth == p.depth
            &&& t.format == p.format_name && t.levels == p.levels
            &&& p.data.len() <= usize::MAX ==> t.bytes == p.data.len()
        }),
        pixels_in(data) matches Ok(list) ==> dictionary(data) is Ok && dictionary(data)->Ok_0.len()
            == list.len() && (0 <= i < list.len() ==> dictionary(data)->Ok_0[i] == described(list[i])),
        pixels_in(data) matches Err(e) ==> dictionary(data) is Err && dictionary(data)->Err_0 == e,
{
}

/// The textures of drawables come drawable by drawable; one without any adds
/// none.
pub proof fn law_embedded_textures_come_in_order(
    groups: Seq<Option<Seq<PixelView>>>,
    list: Seq<PixelView>,
)
    ensures
        flattened(Seq::empty()).len() == 0,
        flattened(groups.push(None)) == flattened(groups),
        flattened(groups.push(Some(list))) == flattened(groups) + list,
{
    assert(groups.push(None).drop_last() =~= groups);
    assert(groups.push(Some(list)).drop_last() =~= groups);
    assert(flattened(groups) + Seq::<PixelView>::empty() =~= flattened(groups));
}

/// The model of an archetype is the dictionary it is in, where it is in one;
/// else the asset that it names; else its own name.
pub proof fn law_archetypes_have_models(a: Archetype)
    ensures
        a.in_dictionary() <==> a.asset_type == 3 && a.drawable_dictionary_hash != 0,
        a.in_dictionary() ==> a.model() == a.drawable_dictionary_hash,
        !a.in_dictionary() && a.asset_name_hash != 0 ==> a.model() == a.asset_name_hash,
        !a.in_dictionary() && a.asset_name_hash == 0 ==> a.model() == a.name_hash,
{
}

} // verus!
