//! Which props of an interior stand in the way.
use vstd::prelude::*;
use crate::bits::{is_above, is_at_least, is_nan, place_of};
use crate::commands::nav_build::{
    blocked_places, box_of, declared_boxes, first_fault, ignored_names, leaves, no_interior_text,
    placed_by, placed_in, placed_views, prop_lines, prop_name, slot_count, slot_of, stem_names,
    verdict_of, verdict_text, with_boxes, BuildReport, NavProp, PropInterior, PropTypes, Quad,
    RulesView, Verdict,
};
use crate::formats::types_in;
use crate::hash::joaat;
use crate::index::model::ArchetypeBox;
use crate::laws::wording::{lemma_says, says};
use crate::text::{decimal, has_text, hex_digits, lowercase, pad_left, pad_right};

verus! {

// ── Numbers ─────────────────────────────────────────────────────────────────

/// Fractional numbers compare as numbers: the sign decides, then the size; a
/// nought of either sign is the same, and a NaN is above and below nothing.
pub proof fn law_numbers_compare(a: u32, b: u32, c: u32)
    ensures
        is_above(a, b) <==> !is_nan(a) && !is_nan(b) && place_of(a) > place_of(b),
        is_at_least(a, b) <==> !is_nan(a) && !is_nan(b) && place_of(a) >= place_of(b),
        is_above(a, b) ==> !is_above(b, a),
        is_above(a, b) && is_above(b, c) ==> is_above(a, c),
        !is_nan(a) && !is_nan(b) ==> is_at_least(a, b) || is_at_least(b, a),
        a < 0x8000_0000 && b < 0x8000_0000 && !is_nan(a) && !is_nan(b) ==> (is_at_least(a, b) <==> a
            >= b),
        a >= 0x8000_0000 && b >= 0x8000_0000 && !is_nan(a) && !is_nan(b) ==> (is_at_least(a, b) <==> a
            <= b),
        a < 0x8000_0000 && b >= 0x8000_0000 && !is_nan(a) && !is_nan(b) ==> is_at_least(a, b),
        is_nan(a) <==> (a < 0x8000_0000 && a > 0x7f80_0000) || a > 0xff80_0000,
{
    assert(forall|x: u32|
        x < 0x8000_0000 ==> x & 0x7fff_ffff == x && #[trigger] (x & 0x8000_0000) == 0) by (bit_vector);
    assert(forall|x: u32|
        x >= 0x8000_0000 ==> x & 0x7fff_ffff == x - 0x8000_0000 && #[trigger] (x & 0x8000_0000)
            != 0) by (bit_vector);
    assert(a & 0x8000_0000 == a & 0x8000_0000);
    assert(b & 0x8000_0000 == b & 0x8000_0000);
}

// ── What is declared ────────────────────────────────────────────────────────

/// Of boxes that are declared for an archetype the last counts; all others are
/// left alone.
pub proof fn law_last_declared_box_counts(
    boxes: Map<u32, ArchetypeBox>,
    list: Seq<(u32, ArchetypeBox)>,
    one: (u32, ArchetypeBox),
    types: Seq<PropTypes>,
    file: PropTypes,
)
    ensures
        with_boxes(boxes, Seq::empty()) == boxes,
        with_boxes(boxes, list.push(one)) == with_boxes(boxes, list).insert(one.0, one.1),
        declared_boxes(Seq::empty()) == Map::<u32, ArchetypeBox>::empty(),
        declared_boxes(types.push(file)) == with_boxes(declared_boxes(types), file.archetypes@),
{
    assert(list.push(one).drop_last() =~= list);
    assert(types.push(file).drop_last() =~= types);
}

/// The box of an archetype is the declared one, else the game's, else none.
pub proof fn law_declared_boxes_go_first(
    types: Seq<PropTypes>,
    game: Map<u32, ArchetypeBox>,
    archetype: u32,
)
    ensures
        declared_boxes(types).contains_key(archetype) ==> box_of(types, game, archetype) == Some(
            declared_boxes(types)[archetype],
        ),
        !declared_boxes(types).contains_key(archetype) && game.contains_key(archetype) ==> box_of(
            types,
            game,
            archetype,
        ) == Some(game[archetype]),
        !declared_boxes(types).contains_key(archetype) && !game.contains_key(archetype) ==> box_of(
            types,
            game,
            archetype,
        ) is None,
{
}

/// What an interior places is what the first declaration of it says.
pub proof fn law_first_declaration_of_an_interior(
    interiors: Seq<PropInterior>,
    one: PropInterior,
    types: Seq<PropTypes>,
    file: PropTypes,
    name_hash: u32,
)
    ensures
        placed_by(Seq::empty(), name_hash) is None,
        placed_by(interiors, name_hash) is Some ==> placed_by(interiors.push(one), name_hash)
            == placed_by(interiors, name_hash),
        placed_by(interiors, name_hash) is None ==> placed_by(interiors.push(one), name_hash) == (
        if one.name_hash == name_hash {
            Some(one.entities@)
        } else {
            None
        }),
        placed_in(Seq::empty(), name_hash) is None,
        placed_in(types, name_hash) is Some ==> placed_in(types.push(file), name_hash) == placed_in(
            types,
            name_hash,
        ),
        placed_in(types, name_hash) is None ==> placed_in(types.push(file), name_hash) == placed_by(
            file.interiors@,
            name_hash,
        ),
        no_interior_text(name_hash) == "no CMloArchetypeDef with hash 0x"@ + hex_digits(
            name_hash as nat,
            8,
        ) + " (the .ymap's MLO) in the given .ytyp files"@,
{
    assert(interiors.push(one).drop_last() =~= interiors);
    assert(types.push(file).drop_last() =~= types);
}

/// A prop is named by a stem in lower case whose hash it has, else by its hash.
pub proof fn law_props_are_named_by_stems(stems: Seq<Seq<char>>, s: Seq<char>, archetype: u32)
    ensures
        stem_names(Seq::empty()) == Map::<u32, Seq<char>>::empty(),
        stem_names(stems.push(s)).contains_key(joaat(lowercase(s))),
        stem_names(stems.push(s))[joaat(lowercase(s))] == lowercase(s),
        archetype != joaat(lowercase(s)) ==> prop_name(stem_names(stems.push(s)), archetype)
            == prop_name(stem_names(stems), archetype),
        prop_name(stem_names(stems.push(s)), joaat(lowercase(s))) == lowercase(s),
        !stem_names(stems).contains_key(archetype) ==> prop_name(stem_names(stems), archetype) == "0x"@
            + hex_digits(archetype as nat, 8),
{
    assert(stems.push(s).drop_last() =~= stems);
}

/// Each entity of an interior is one prop, in order, with the name and the box
/// of its archetype.
pub proof fn law_each_entity_is_a_prop(
    entities: Seq<u32>,
    names: Map<u32, Seq<char>>,
    types: Seq<PropTypes>,
    game: Map<u32, ArchetypeBox>,
    i: int,
)
    requires
        0 <= i < entities.len(),
    ensures
        placed_views(entities, names, types, game).len() == entities.len(),
        placed_views(entities, names, types, game)[i].name == prop_name(names, entities[i]),
        placed_views(entities, names, types, game)[i].bounds == box_of(types, game, entities[i]),
{
}

/// Of type files that cannot be read the first is named.
pub proof fn law_first_fault_is_named(files: Seq<Vec<u8>>)
    ensures
        match first_fault(files) {
            Some(i) => 0 <= i < files.len() && types_in(files[i]@) is Err && forall|j: int|
                0 <= j < i ==> types_in((#[trigger] files[j])@) is Ok,
            None => forall|j: int| 0 <= j < files.len() ==> types_in((#[trigger] files[j])@) is Ok,
        },
    decreases files.len(),
{
    if files.len() > 0 {
        let front = files.drop_last();
        law_first_fault_is_named(front);
        assert(forall|j: int| 0 <= j < front.len() ==> front[j] == files[j]);
        assert(files.last() == files[files.len() - 1]);
    }
}

// ── Verdicts ────────────────────────────────────────────────────────────────

/// A prop is judged by the first rule that it meets: whether its box is known,
/// its name, whether it stands on the floor, whether it reaches above a step,
/// and its area.
pub proof fn law_props_are_judged_by_rules_in_turn(prop: NavProp, rules: RulesView)
    ensures
        prop.bounds is None <==> verdict_of(prop, rules) == Verdict::Unknown,
        prop.bounds matches Some(b) ==> {
            let v = verdict_of(prop, rules);
            let forced = rules.forced.contains(prop.name@);
            let named = exists|i: int|
                0 <= i < rules.ignored.len() && has_text(prop.name@, #[trigger] rules.ignored[i]);
            let on_floor = !is_above(b.z_lo.bits, rules.floor.floor_hi) && !is_above(
                rules.floor.floor_lo,
                b.z_lo.bits,
            );
            let low = is_above(rules.floor.step_top, b.z_hi.bits);
            let big = is_above(b.area.bits, rules.floor.max_area);
            let tiny = is_above(0x3ca3_d70a, b.area.bits);
            &&& v == Verdict::Forced <==> forced
            &&& v == Verdict::IgnoredName <==> !forced && named
            &&& v == Verdict::OffFloor <==> !forced && !named && !on_floor
            &&& v == Verdict::BelowStep <==> !forced && !named && on_floor && low
            &&& v == Verdict::TooBig <==> !forced && !named && on_floor && !low && big
            &&& v == Verdict::Tiny <==> !forced && !named && on_floor && !low && !big && tiny
            &&& v == Verdict::Blocked <==> !forced && !named && on_floor && !low && !big && !tiny
        },
{
}

/// The words of the verdicts.
pub proof fn law_verdicts_are_worded()
    ensures
        verdict_text(Verdict::Forced) == "blocked (--block-entity)"@,
        verdict_text(Verdict::IgnoredName) == "skipped: name"@,
        verdict_text(Verdict::OffFloor) == "skipped: not standing on the floor"@,
        verdict_text(Verdict::BelowStep) == "skipped: below step height"@,
        verdict_text(Verdict::TooBig) == "skipped: bigger than --max-prop-area"@,
        verdict_text(Verdict::Tiny) == "skipped: tiny"@,
        verdict_text(Verdict::Blocked) == "blocked"@,
        verdict_text(Verdict::Unknown) == "unknown archetype (try --game-props)"@,
{
}

/// A prop stands in the way exactly when it is blocked, by name or by the
/// rules; the places of those are listed in order. The others are counted by
/// why they do not.
pub proof fn law_one_more_prop(props: Seq<NavProp>, prop: NavProp, rules: RulesView, slot: nat)
    ensures
        blocked_places(Seq::empty(), rules).len() == 0,
        slot_count(Seq::empty(), rules, slot) == 0,
        ({
            let v = verdict_of(prop, rules);
            let own: nat = if v == Verdict::Forced || v == Verdict::Blocked {
                0
            } else if v == Verdict::IgnoredName {
                1
            } else if v == Verdict::TooBig {
                2
            } else if v == Verdict::OffFloor || v == Verdict::BelowStep || v == Verdict::Tiny {
                3
            } else {
                4
            };
            &&& slot_of(v) == own
            &&& slot_count(props.push(prop), rules, slot) == slot_count(props, rules, slot) + (if slot
                == own {
                1int
            } else {
                0
            })
            &&& blocked_places(props.push(prop), rules) == (if v == Verdict::Forced || v
                == Verdict::Blocked {
                blocked_places(props, rules).push(props.len() as int)
            } else {
                blocked_places(props, rules)
            })
        }),
{
    assert(props.push(prop).drop_last() =~= props);
}

/// Each prop has a line, in order: its name, height, area, heights above the
/// floor and verdict.
pub proof fn law_each_prop_has_a_line(props: Seq<NavProp>, rules: RulesView, i: int)
    requires
        0 <= i < props.len(),
    ensures
        prop_lines(props, rules).len() == props.len(),
        ({
            let p = props[i];
            let v = verdict_of(p, rules);
            let text = prop_lines(props, rules)[i];
            &&& p.bounds is None ==> text == pad_right(p.name@, ' ', 42)
                + "      ?       ?             ?  "@ + verdict_text(v)
            &&& p.bounds matches Some(b) ==> {
                &&& says(
                    text,
                    pad_right(p.name@, ' ', 42) + " "@ + pad_left(b.height@, ' ', 6),
                )
                &&& says(
                    text,
                    pad_left(b.height@, ' ', 6) + " "@ + pad_left(b.area.text@, ' ', 7),
                )
                &&& says(
                    text,
                    pad_left(b.area.text@, ' ', 7) + " "@ + pad_left(b.z_lo.text@, ' ', 6),
                )
                &&& says(
                    text,
                    pad_left(b.z_lo.text@, ' ', 6) + ".."@ + pad_right(b.z_hi.text@, ' ', 6),
                )
                &&& says(text, pad_right(b.z_hi.text@, ' ', 6) + "  "@ + verdict_text(v))
            }
        }),
{
    lemma_says();
}

/// Props are passed over by these parts of names, and by those that are given,
/// in lower case.
pub proof fn law_names_that_are_passed_over(extra: Seq<Seq<char>>, i: int)
    ensures
        ignored_names(extra).len() == extra.len() + 6,
        ignored_names(extra)[0] == "lproxy"@,
        ignored_names(extra)[1] == "_details"@,
        ignored_names(extra)[2] == "shell"@,
        ignored_names(extra)[3] == "door"@,
        ignored_names(extra)[4] == "window"@,
        ignored_names(extra)[5] == "carpet"@,
        0 <= i < extra.len() ==> ignored_names(extra)[6 + i] == lowercase(extra[i]),
{
}

// ── The build ───────────────────────────────────────────────────────────────

/// A clip leaves its cell when any of its four sides lies beyond the cell's.
pub proof fn law_clips_stay_in_their_cell(clip: Quad, cell: Quad)
    ensures
        leaves(clip, cell) <==> is_above(cell.x0.bits, clip.x0.bits) || is_above(
            cell.y0.bits,
            clip.y0.bits,
        ) || is_above(clip.x1.bits, cell.x1.bits) || is_above(clip.y1.bits, cell.y1.bits),
        !leaves(cell, cell),
        clip.words() == clip.x0.text@ + ","@ + clip.y0.text@ + ".."@ + clip.x1.text@ + ","@
            + clip.y1.text@,
{
}

/// The report counts each thing by its own noun.
pub proof fn law_build_is_reported(r: BuildReport, step: Seq<char>, before: nat, after: nat)
    ensures
        ({
            let text = r.grid_line(step);
            &&& says(text, "Grid:       "@ + decimal(r.grid_cells as nat) + " cells of "@)
            &&& says(text, " cells of "@ + step + " m ("@)
            &&& says(text, " m ("@ + decimal(r.floor_cells as nat) + " floor, "@)
            &&& says(text, " floor, "@ + decimal(r.blocked_cells as nat) + " blocked, "@)
            &&& says(text, " blocked, "@ + decimal(r.free_cells as nat) + " free)"@)
        }),
        ({
            let text = r.polygon_line(before, after);
            &&& says(text, "Polygons:   "@ + decimal(before) + " before, "@)
            &&& says(text, " before, "@ + decimal(r.sunk_polys as nat) + " sunk, "@)
            &&& says(text, " sunk, "@ + decimal(r.new_polys as nat) + " added ("@)
            &&& says(
                text,
                " added ("@ + decimal(r.internal_edges as nat) + " internal edges linked), "@,
            )
            &&& says(text, " internal edges linked), "@ + decimal(after) + " after"@)
        }),
{
    lemma_says();
}

} // verus!
