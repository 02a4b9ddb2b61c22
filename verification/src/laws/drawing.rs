//! What stands on the plan of an interior.
use vstd::prelude::*;
use crate::bits::{greatest, is_above, is_at_least, is_nan, least, Area};
use crate::commands::plot::{
    all_set_marks, beyond, beyond_total, drawn_maps, drawn_meshes, drawn_places, drawn_rooms,
    drawn_total, entity_marks, is_own, label_of, map_with_entity, map_with_instance, matching_map,
    mesh_reports, own_points, placement_of, portal_points, room_place, room_points, set_marks,
    stacked_rooms, EntitySet, ExteriorEntity, MarkSource, MarkView, MeshInfo, MeshPlan, Place,
    PlacedMap, RoomInfo, RoomPlan, RoomText,
};
use crate::commands::plot_geometry::{
    are_unpositioned, faces_of, interior_points, is_centred, is_middle_inside, nested_count,
    outline_points, Face, RoomSpan, SLACK_BITS,
};
use crate::formats::{Corner, PortalBits};
use crate::name_table::placeholder;

verus! {

// ── Rooms ───────────────────────────────────────────────────────────────────

/// The portals with their sides swapped.
pub open spec fn is_swapped(a: Seq<PortalBits>, b: Seq<PortalBits>) -> bool {
    &&& a.len() == b.len()
    &&& forall|i: int|
        0 <= i < a.len() ==> (#[trigger] a[i]).corners@ == b[i].corners@ && ((a[i].room_from
            == b[i].room_from && a[i].room_to == b[i].room_to) || (a[i].room_from == b[i].room_to
            && a[i].room_to == b[i].room_from))
}

/// Which side of a portal a room is on makes no difference to what vouches for
/// it: swapping the sides of any portals leaves the points of every room, and
/// so its box, unchanged.
pub proof fn law_portals_vouch_for_both_sides(
    attached: Seq<u32>,
    positions: Seq<Corner>,
    portals: Seq<PortalBits>,
    swapped: Seq<PortalBits>,
    room: nat,
)
    requires
        is_swapped(portals, swapped),
    ensures
        room_points(attached, positions, portals, room) == room_points(
            attached,
            positions,
            swapped,
            room,
        ),
        least(room_points(attached, positions, portals, room)) == least(
            room_points(attached, positions, swapped, room),
        ),
        greatest(room_points(attached, positions, portals, room)) == greatest(
            room_points(attached, positions, swapped, room),
        ),
{
    lemma_swapped(portals, swapped, room);
}

proof fn lemma_swapped(a: Seq<PortalBits>, b: Seq<PortalBits>, room: nat)
    requires
        is_swapped(a, b),
    ensures
        portal_points(a, room) == portal_points(b, room),
    decreases a.len(),
{
    if a.len() > 0 {
        let fa = a.drop_last();
        let fb = b.drop_last();
        assert forall|i: int| 0 <= i < fa.len() implies (#[trigger] fa[i]).corners@ == fb[i].corners@
            && ((fa[i].room_from == fb[i].room_from && fa[i].room_to == fb[i].room_to) || (
        fa[i].room_from == fb[i].room_to && fa[i].room_to == fb[i].room_from)) by {
            assert(fa[i] == a[i]);
        }
        lemma_swapped(fa, fb, room);
        assert(a.last() == a[a.len() - 1]);
    }
}

/// The points that vouch for a room are the places of the props attached to it
/// and all corners of all portals that lead from it or into it, and no others.
pub proof fn law_props_and_portals_vouch_for_a_room(
    attached: Seq<u32>,
    positions: Seq<Corner>,
    portals: Seq<PortalBits>,
    room: nat,
    c: Corner,
)
    ensures
        room_points(attached, positions, portals, room).contains(c) <==> (exists|i: int|
            0 <= i < attached.len() && (#[trigger] attached[i]) < positions.len()
                && positions[attached[i] as int] == c) || (exists|i: int|
            0 <= i < portals.len() && ((#[trigger] portals[i]).room_from == room || portals[i].room_to
                == room) && portals[i].corners@.contains(c)),
{
    lemma_own(attached, positions, c);
    lemma_portals(portals, room, c);
    let a = own_points(attached, positions);
    let b = portal_points(portals, room);
    lemma_either(a, b, c);
}

proof fn lemma_either<T>(a: Seq<T>, b: Seq<T>, c: T)
    ensures
        (a + b).contains(c) <==> a.contains(c) || b.contains(c),
{
    if a.contains(c) {
        let i = choose|i: int| 0 <= i < a.len() && a[i] == c;
        assert((a + b)[i] == c);
    }
    if b.contains(c) {
        let i = choose|i: int| 0 <= i < b.len() && b[i] == c;
        assert((a + b)[a.len() + i] == c);
    }
    if (a + b).contains(c) {
        let i = choose|i: int| 0 <= i < (a + b).len() && (a + b)[i] == c;
        if i < a.len() {
            assert(a[i] == c);
        } else {
            assert(b[i - a.len()] == c);
        }
    }
}

proof fn lemma_own(attached: Seq<u32>, positions: Seq<Corner>, c: Corner)
    ensures
        own_points(attached, positions).contains(c) <==> exists|i: int|
            0 <= i < attached.len() && (#[trigger] attached[i]) < positions.len()
                && positions[attached[i] as int] == c,
    decreases attached.len(),
{
    if attached.len() > 0 {
        let front = attached.drop_last();
        lemma_own(front, positions, c);
        assert(forall|i: int| 0 <= i < front.len() ==> front[i] == attached[i]);
        assert(attached.last() == attached[attached.len() - 1]);
        let before = own_points(front, positions);
        if attached.last() < positions.len() {
            lemma_either(before, seq![positions[attached.last() as int]], c);
            assert(before.push(positions[attached.last() as int]) =~= before
                + seq![positions[attached.last() as int]]);
            assert(seq![positions[attached.last() as int]][0] == positions[attached.last() as int]);
        }
    }
}

proof fn lemma_portals(portals: Seq<PortalBits>, room: nat, c: Corner)
    ensures
        portal_points(portals, room).contains(c) <==> exists|i: int|
            0 <= i < portals.len() && ((#[trigger] portals[i]).room_from == room || portals[i].room_to
                == room) && portals[i].corners@.contains(c),
    decreases portals.len(),
{
    if portals.len() > 0 {
        let front = portals.drop_last();
        lemma_portals(front, room, c);
        assert(forall|i: int| 0 <= i < front.len() ==> front[i] == portals[i]);
        assert(portals.last() == portals[portals.len() - 1]);
        lemma_either(portal_points(front, room), portals.last().corners@, c);
    }
}

/// Each attached prop that exists counts once, each portal of the room with all
/// its corners: three such points are needed to place a room.
pub proof fn law_points_are_counted(
    attached: Seq<u32>,
    positions: Seq<Corner>,
    portals: Seq<PortalBits>,
    room: nat,
    prop: u32,
    portal: PortalBits,
)
    ensures
        own_points(attached.push(prop), positions).len() == own_points(attached, positions).len() + (
        if prop < positions.len() {
            1int
        } else {
            0
        }),
        portal_points(portals.push(portal), room).len() == portal_points(portals, room).len() + (
        if portal.room_from == room || portal.room_to == room {
            portal.corners@.len() as int
        } else {
            0
        }),
        room_points(attached, positions, portals, room).len() == own_points(
            attached,
            positions,
        ).len() + portal_points(portals, room).len(),
{
    assert(attached.push(prop).drop_last() =~= attached);
    assert(portals.push(portal).drop_last() =~= portals);
}

/// The box around points has a point on each of its sides, where no coordinate
/// is a NaN.
pub proof fn law_box_is_tight(points: Seq<Corner>)
    requires
        points.len() > 0,
        forall|k: int|
            0 <= k < points.len() ==> !is_nan((#[trigger] points[k]).x) && !is_nan(points[k].y)
                && !is_nan(points[k].z),
    ensures
        exists|i: int| 0 <= i < points.len() && (#[trigger] points[i]).x == least(points).x,
        exists|i: int| 0 <= i < points.len() && (#[trigger] points[i]).y == least(points).y,
        exists|i: int| 0 <= i < points.len() && (#[trigger] points[i]).z == least(points).z,
        exists|i: int| 0 <= i < points.len() && (#[trigger] points[i]).x == greatest(points).x,
        exists|i: int| 0 <= i < points.len() && (#[trigger] points[i]).y == greatest(points).y,
        exists|i: int| 0 <= i < points.len() && (#[trigger] points[i]).z == greatest(points).z,
    decreases points.len(),
{
    let front = points.drop_last();
    let last = points.last();
    assert(points[points.len() - 1] == last);
    assert(is_nan(crate::bits::NAN_BITS)) by (bit_vector);
    if front.len() > 0 {
        assert forall|k: int| 0 <= k < front.len() implies !is_nan((#[trigger] front[k]).x) && !is_nan(
            front[k].y,
        ) && !is_nan(front[k].z) by {
            assert(front[k] == points[k]);
        }
        law_box_is_tight(front);
        let a = choose|i: int| 0 <= i < front.len() && (#[trigger] front[i]).x == least(front).x;
        let b = choose|i: int| 0 <= i < front.len() && (#[trigger] front[i]).y == least(front).y;
        let c = choose|i: int| 0 <= i < front.len() && (#[trigger] front[i]).z == least(front).z;
        let d = choose|i: int| 0 <= i < front.len() && (#[trigger] front[i]).x == greatest(front).x;
        let e = choose|i: int| 0 <= i < front.len() && (#[trigger] front[i]).y == greatest(front).y;
        let f = choose|i: int| 0 <= i < front.len() && (#[trigger] front[i]).z == greatest(front).z;
        assert(points[a] == front[a] && points[b] == front[b] && points[c] == front[c] && points[d]
            == front[d] && points[e] == front[e] && points[f] == front[f]);
    } else {
        assert(greatest(front) == least(front));
        assert(least(front) == (Corner {
            x: crate::bits::NAN_BITS,
            y: crate::bits::NAN_BITS,
            z: crate::bits::NAN_BITS,
        }));
    }
}

/// A room is on the page where it is positioned, or where enough vouches for
/// it; limbo always is. Only a room whose own position is not known is
/// estimated. The rooms come in their order.
pub proof fn law_rooms_on_the_page(rooms: Seq<RoomInfo>, unpositioned: bool, i: usize)
    requires
        rooms.len() <= usize::MAX,
    ensures
        ({
            let got = drawn_rooms(rooms, unpositioned);
            &&& i < rooms.len() ==> {
                &&& got.contains(RoomPlan { index: i, estimated: false }) <==> i == 0
                    || !unpositioned
                &&& got.contains(RoomPlan { index: i, estimated: true }) <==> i > 0 && unpositioned
                    && rooms[i as int].has_evidence
            }
            &&& forall|a: int, b: int|
                0 <= a < b < got.len() ==> (#[trigger] got[a]).index < (#[trigger] got[b]).index
            &&& forall|a: int| 0 <= a < got.len() ==> (#[trigger] got[a]).index < rooms.len()
        }),
    decreases rooms.len(),
{
    if rooms.len() > 0 {
        let front = rooms.drop_last();
        law_rooms_on_the_page(front, unpositioned, i);
        let before = drawn_rooms(front, unpositioned);
        let got = drawn_rooms(rooms, unpositioned);
        let n = (rooms.len() - 1) as usize;
        let plain = RoomPlan { index: i, estimated: false };
        let guess = RoomPlan { index: i, estimated: true };
        if got.len() > before.len() {
            lemma_either(before, seq![got.last()], plain);
            lemma_either(before, seq![got.last()], guess);
            assert(got =~= before + seq![got.last()]);
            assert(seq![got.last()][0] == got.last());
        }
        if i == n {
            if before.contains(plain) {
                let k = choose|k: int| 0 <= k < before.len() && before[k] == plain;
                assert(before[k].index < front.len());
            }
            if before.contains(guess) {
                let k = choose|k: int| 0 <= k < before.len() && before[k] == guess;
                assert(before[k].index < front.len());
            }
        } else if i < n {
            assert(front[i as int] == rooms[i as int]);
        }
    }
}

/// A room is looked up by its number: the first that has it is found.
pub proof fn law_room_is_found_by_number(rooms: Seq<RoomText>, index: usize)
    ensures
        match room_place(rooms, index) {
            Some(k) => 0 <= k < rooms.len() && rooms[k].index == index && forall|j: int|
                0 <= j < k ==> (#[trigger] rooms[j]).index != index,
            None => forall|j: int| 0 <= j < rooms.len() ==> (#[trigger] rooms[j]).index != index,
        },
    decreases rooms.len(),
{
    if rooms.len() > 0 {
        let front = rooms.drop_last();
        law_room_is_found_by_number(front, index);
        assert(forall|j: int| 0 <= j < front.len() ==> front[j] == rooms[j]);
        assert(rooms.last() == rooms[rooms.len() - 1]);
    }
}

/// The rooms that are named as stacked are the two of the first pair.
pub proof fn law_first_stacked_pair_is_named(rooms: Seq<RoomText>, stacked: Seq<(usize, usize)>)
    ensures
        stacked.len() == 0 ==> stacked_rooms(rooms, stacked) is None,
        match stacked_rooms(rooms, stacked) {
            Some((a, b)) => stacked.len() > 0 && 0 <= a < rooms.len() && 0 <= b < rooms.len()
                && rooms[a].index == stacked[0].0 && rooms[b].index == stacked[0].1,
            None => stacked.len() > 0 ==> (forall|j: int|
                0 <= j < rooms.len() ==> (#[trigger] rooms[j]).index != stacked[0].0) || (forall|j: int|
                0 <= j < rooms.len() ==> (#[trigger] rooms[j]).index != stacked[0].1),
        },
{
    if stacked.len() > 0 {
        law_room_is_found_by_number(rooms, stacked[0].0);
        law_room_is_found_by_number(rooms, stacked[0].1);
    }
}

// ── The placement ───────────────────────────────────────────────────────────

/// Map `i` places, by its instance `j`, the interior `k`.
pub open spec fn is_match(maps: Seq<PlacedMap>, mlos: Seq<u32>, i: int, j: int, k: int) -> bool {
    0 <= i < maps.len() && 0 <= j < maps[i].instances@.len() && 0 <= k < mlos.len()
        && maps[i].instances@[j] == mlos[k]
}

proof fn lemma_no_mlo(mlos: Seq<u32>, hash: u32)
    ensures
        match crate::commands::plot::mlo_place(mlos, hash) {
            Some(k) => 0 <= k < mlos.len() && mlos[k] == hash && forall|j: int|
                0 <= j < k ==> #[trigger] mlos[j] != hash,
            None => forall|j: int| 0 <= j < mlos.len() ==> #[trigger] mlos[j] != hash,
        },
    decreases mlos.len(),
{
    if mlos.len() > 0 {
        let front = mlos.drop_last();
        lemma_no_mlo(front, hash);
        assert(forall|j: int| 0 <= j < front.len() ==> front[j] == mlos[j]);
        assert(mlos.last() == mlos[mlos.len() - 1]);
    }
}

proof fn lemma_no_instance(instances: Seq<u32>, mlos: Seq<u32>)
    ensures
        match crate::commands::plot::matching_instance(instances, mlos) {
            Some((j, k)) => 0 <= j < instances.len() && 0 <= k < mlos.len() && instances[j] == mlos[k]
                && (forall|b: int| 0 <= b < k ==> #[trigger] mlos[b] != instances[j]) && forall|
                a: int,
                b: int,
            |
                0 <= a < j && 0 <= b < mlos.len() ==> #[trigger] instances[a] != #[trigger] mlos[b],
            None => forall|a: int, b: int|
                0 <= a < instances.len() && 0 <= b < mlos.len() ==> #[trigger] instances[a]
                    != #[trigger] mlos[b],
        },
    decreases instances.len(),
{
    if instances.len() > 0 {
        let front = instances.drop_last();
        lemma_no_instance(front, mlos);
        lemma_no_mlo(mlos, instances.last());
        assert(forall|j: int| 0 <= j < front.len() ==> front[j] == instances[j]);
        assert(instances.last() == instances[instances.len() - 1]);
    }
}

proof fn lemma_no_map(maps: Seq<PlacedMap>, mlos: Seq<u32>)
    ensures
        match matching_map(maps, mlos) {
            Some((i, j, k)) => is_match(maps, mlos, i, j, k) && (forall|a: int, b: int, c: int|
                is_match(maps, mlos, a, b, c) ==> i < a || (i == a && (j < b || (j == b && k <= c)))),
            None => forall|a: int, b: int, c: int| !is_match(maps, mlos, a, b, c),
        },
    decreases maps.len(),
{
    if maps.len() > 0 {
        let front = maps.drop_last();
        lemma_no_map(front, mlos);
        lemma_no_instance(maps.last().instances@, mlos);
        assert(forall|j: int| 0 <= j < front.len() ==> front[j] == maps[j]);
        assert(maps.last() == maps[maps.len() - 1]);
        assert forall|a: int, b: int, c: int| a < front.len() implies is_match(maps, mlos, a, b, c)
            == is_match(front, mlos, a, b, c) by {}
    }
}

proof fn lemma_first_maps(maps: Seq<PlacedMap>)
    ensures
        match map_with_instance(maps) {
            Some(i) => 0 <= i < maps.len() && maps[i].instances@.len() > 0 && forall|j: int|
                0 <= j < i ==> (#[trigger] maps[j]).instances@.len() == 0,
            None => forall|j: int| 0 <= j < maps.len() ==> (#[trigger] maps[j]).instances@.len() == 0,
        },
        match map_with_entity(maps) {
            Some(i) => 0 <= i < maps.len() && maps[i].entities > 0 && forall|j: int|
                0 <= j < i ==> (#[trigger] maps[j]).entities == 0,
            None => forall|j: int| 0 <= j < maps.len() ==> (#[trigger] maps[j]).entities == 0,
        },
    decreases maps.len(),
{
    if maps.len() > 0 {
        let front = maps.drop_last();
        lemma_first_maps(front);
        assert(forall|j: int| 0 <= j < front.len() ==> front[j] == maps[j]);
        assert(maps.last() == maps[maps.len() - 1]);
    }
}

/// The interior is placed by the first instance of a declared one, which is
/// then the one that is drawn. Failing that, the first declared interior is
/// drawn, placed by the first instance there is, or else, if there is such an
/// interior, by the first entity.
pub proof fn law_first_fitting_instance_places_the_interior(maps: Seq<PlacedMap>, mlos: Seq<u32>)
    requires
        maps.len() <= usize::MAX,
        mlos.len() <= usize::MAX,
        forall|i: int| 0 <= i < maps.len() ==> (#[trigger] maps[i]).instances@.len() <= usize::MAX,
    ensures
        ({
            let got = placement_of(maps, mlos);
            let fits = exists|a: int, b: int, c: int| is_match(maps, mlos, a, b, c);
            &&& got.mlo_count == mlos.len()
            &&& fits ==> match (got.place, got.mlo) {
                (Place::Instance { map, instance }, Some(k)) => is_match(
                    maps,
                    mlos,
                    map as int,
                    instance as int,
                    k as int,
                ) && forall|a: int, b: int, c: int|
                    is_match(maps, mlos, a, b, c) ==> map < a || (map == a && (instance < b || (
                    instance == b && k <= c))),
                _ => false,
            }
            &&& !fits ==> got.mlo == (if mlos.len() > 0 {
                Some(0usize)
            } else {
                None::<usize>
            })
            &&& !fits ==> match got.place {
                Place::Instance { map, instance } => map < maps.len() && instance == 0
                    && maps[map as int].instances@.len() > 0 && forall|j: int|
                    0 <= j < map ==> (#[trigger] maps[j]).instances@.len() == 0,
                Place::Entity { map } => mlos.len() > 0 && map < maps.len() && maps[map as int].entities
                    > 0 && (forall|j: int| 0 <= j < map ==> (#[trigger] maps[j]).entities == 0) && (
                forall|j: int| 0 <= j < maps.len() ==> (#[trigger] maps[j]).instances@.len() == 0),
                Place::Nowhere => (forall|j: int|
                    0 <= j < maps.len() ==> (#[trigger] maps[j]).instances@.len() == 0) && (mlos.len()
                    == 0 || forall|j: int| 0 <= j < maps.len() ==> (#[trigger] maps[j]).entities == 0),
            }
        }),
{
    lemma_no_map(maps, mlos);
    lemma_first_maps(maps);
}

// ── Meshes ──────────────────────────────────────────────────────────────────

/// Every mesh is drawn once, in its order, but for those that were drawn per
/// placement; the interior's own go through the placement.
pub proof fn law_meshes_on_the_page(
    meshes: Seq<MeshInfo>,
    matched: Set<usize>,
    mlo: Option<u32>,
    i: usize,
)
    requires
        meshes.len() <= usize::MAX,
    ensures
        ({
            let got = drawn_meshes(meshes, matched, mlo);
            &&& forall|placed: bool|
                #[trigger] got.contains(MeshPlan { index: i, placed }) <==> i < meshes.len()
                    && !matched.contains(i) && placed == is_own(
                    meshes[i as int].name@,
                    meshes[i as int].explicit,
                    mlo,
                )
            &&& forall|a: int, b: int|
                0 <= a < b < got.len() ==> (#[trigger] got[a]).index < (#[trigger] got[b]).index
            &&& forall|a: int| 0 <= a < got.len() ==> (#[trigger] got[a]).index < meshes.len()
        }),
    decreases meshes.len(),
{
    if meshes.len() > 0 {
        let front = meshes.drop_last();
        law_meshes_on_the_page(front, matched, mlo, i);
        let before = drawn_meshes(front, matched, mlo);
        let got = drawn_meshes(meshes, matched, mlo);
        let n = (meshes.len() - 1) as usize;
        assert(meshes.last() == meshes[n as int]);
        assert forall|placed: bool| #[trigger]
            got.contains(MeshPlan { index: i, placed }) <==> i < meshes.len() && !matched.contains(i)
                && placed == is_own(meshes[i as int].name@, meshes[i as int].explicit, mlo) by {
            let p = MeshPlan { index: i, placed };
            assert(before.contains(p) ==> i < front.len());
            if i < front.len() {
                assert(front[i as int] == meshes[i as int]);
            }
            if got.len() > before.len() {
                lemma_either(before, seq![got.last()], p);
                assert(got =~= before + seq![got.last()]);
                assert(seq![got.last()][0] == got.last());
            }
        }
    }
}

/// A mesh is the interior's own when it was named outright, or when its file
/// bears the interior's name; no other is.
pub proof fn law_own_meshes(name: Seq<char>, mlo: Option<u32>)
    ensures
        is_own(name, true, mlo),
        !is_own(name, false, None),
        forall|hash: u32| #[trigger]
            is_own(name, false, Some(hash)) <==> crate::hash::joaat(
                crate::props::without_detail(
                    crate::text::lowercase(crate::file_names::stem(name)),
                ),
            ) == hash,
{
}

/// What is reported of a mesh: only one that is not the interior's own, and
/// only where something places the interior.
pub proof fn law_only_world_space_meshes_are_reported(
    meshes: Seq<MeshInfo>,
    mesh: MeshInfo,
    matched: Set<usize>,
    mlo: Option<u32>,
    placed: bool,
    what: Seq<char>,
)
    ensures
        ({
            let before = mesh_reports(meshes, matched, mlo, placed, what);
            let got = mesh_reports(meshes.push(mesh), matched, mlo, placed, what);
            if placed && !matched.contains(meshes.len() as usize) && !is_own(
                mesh.name@,
                mesh.explicit,
                mlo,
            ) {
                got.drop_last() == before && got.last() == mesh.name@ + ": not the interior's own "@
                    + what + "; drawn in world space"@
            } else {
                got == before
            }
        }),
{
    assert(meshes.push(mesh).drop_last() =~= meshes);
    let before = mesh_reports(meshes, matched, mlo, placed, what);
    let got = mesh_reports(meshes.push(mesh), matched, mlo, placed, what);
    if got.len() > before.len() {
        assert(got.drop_last() =~= before);
    }
}

// ── Marks ───────────────────────────────────────────────────────────────────

/// Every entity of the interior is marked, by its own name where one is given,
/// else by the one that its hash is known by, else by its hash. The entities
/// of a set are faded where sets are named as being on and it is not among
/// them.
pub proof fn law_every_entity_is_marked(
    entities: Seq<u32>,
    sets: Seq<EntitySet>,
    defaults: Seq<u32>,
    names: Map<u32, Seq<char>>,
    known: Map<u32, Seq<char>>,
    s: int,
    i: int,
)
    requires
        sets.len() <= usize::MAX,
    ensures
        entity_marks(entities, names, known).len() == entities.len(),
        0 <= i < entities.len() && i <= usize::MAX ==> ({
            let m = entity_marks(entities, names, known)[i];
            &&& m.source == MarkSource::Entity(i as usize)
            &&& !m.faded
            &&& names.contains_key(entities[i]) ==> m.label == names[entities[i]]
            &&& !names.contains_key(entities[i]) && known.contains_key(entities[i]) ==> m.label
                == known[entities[i]]
            &&& !names.contains_key(entities[i]) && !known.contains_key(entities[i]) ==> m.label
                == placeholder(entities[i])
        }),
        0 <= s < sets.len() && 0 <= i < sets[s].entities@.len() && i <= usize::MAX
            ==> all_set_marks(sets, defaults, names, known).contains(
            MarkView {
                source: MarkSource::SetEntity { set: s as usize, entity: i as usize },
                label: label_of(names, known, sets[s].entities@[i]),
                faded: defaults.len() > 0 && !defaults.contains(sets[s].name_hash),
            },
        ),
    decreases sets.len(),
{
    if 0 <= s < sets.len() && 0 <= i < sets[s].entities@.len() && i <= usize::MAX {
        let front = sets.drop_last();
        let before = all_set_marks(front, defaults, names, known);
        let last = set_marks(sets.last(), sets.len() - 1, defaults, names, known);
        let m = MarkView {
            source: MarkSource::SetEntity { set: s as usize, entity: i as usize },
            label: label_of(names, known, sets[s].entities@[i]),
            faded: defaults.len() > 0 && !defaults.contains(sets[s].name_hash),
        };
        lemma_either(before, last, m);
        if s < front.len() {
            assert(front[s] == sets[s]);
            law_every_entity_is_marked(entities, front, defaults, names, known, s, i);
        } else {
            assert(last[i] == m);
        }
    }
}

/// There are as many marks of sets as their entities.
pub proof fn law_set_marks_are_as_many_as_entities(
    sets: Seq<EntitySet>,
    set: EntitySet,
    defaults: Seq<u32>,
    names: Map<u32, Seq<char>>,
    known: Map<u32, Seq<char>>,
)
    ensures
        all_set_marks(Seq::empty(), defaults, names, known).len() == 0,
        all_set_marks(sets.push(set), defaults, names, known).len() == all_set_marks(
            sets,
            defaults,
            names,
            known,
        ).len() + set.entities@.len(),
{
    assert(sets.push(set).drop_last() =~= sets);
}

// ── Surroundings ────────────────────────────────────────────────────────────

/// An entity of an exterior map is on the page exactly when it is no interior
/// and lies within the surroundings, where those bound the page; those beyond
/// are counted.
pub proof fn law_surroundings_are_drawn(
    entities: Seq<ExteriorEntity>,
    around: Option<Area>,
    i: int,
)
    ensures
        drawn_places(entities, around).contains(i) <==> 0 <= i < entities.len()
            && !entities[i].is_mlo_instance && (around is None || (is_at_least(
            entities[i].position.x,
            around->Some_0.x0,
        ) && is_at_least(around->Some_0.x1, entities[i].position.x) && is_at_least(
            entities[i].position.y,
            around->Some_0.y0,
        ) && is_at_least(around->Some_0.y1, entities[i].position.y))),
        forall|a: int, b: int|
            0 <= a < b < drawn_places(entities, around).len() ==> #[trigger] drawn_places(
                entities,
                around,
            )[a] < #[trigger] drawn_places(entities, around)[b],
        forall|a: int|
            0 <= a < drawn_places(entities, around).len() ==> 0 <= #[trigger] drawn_places(
                entities,
                around,
            )[a] < entities.len(),
    decreases entities.len(),
{
    if entities.len() > 0 {
        let front = entities.drop_last();
        law_surroundings_are_drawn(front, around, i);
        let before = drawn_places(front, around);
        let got = drawn_places(entities, around);
        assert(forall|j: int| 0 <= j < front.len() ==> front[j] == entities[j]);
        assert(entities.last() == entities[entities.len() - 1]);
        if got.len() > before.len() {
            lemma_either(before, seq![got.last()], i);
            assert(got =~= before + seq![got.last()]);
            assert(seq![got.last()][0] == got.last());
        }
    }
}

/// The entities on the page, the maps that have one there and those beyond are
/// counted over all maps.
pub proof fn law_exterior_maps_add_up(
    maps: Seq<Vec<ExteriorEntity>>,
    map: Vec<ExteriorEntity>,
    around: Option<Area>,
)
    ensures
        drawn_total(maps.push(map), around) == drawn_total(maps, around) + drawn_places(
            map@,
            around,
        ).len(),
        beyond_total(maps.push(map), around) == beyond_total(maps, around) + beyond(map@, around),
        drawn_maps(maps.push(map), around) == drawn_maps(maps, around) + (if (exists|i: int|
            0 <= i < map@.len() && drawn_places(map@, around).contains(i)) {
            1int
        } else {
            0
        }),
        drawn_total(Seq::empty(), around) == 0,
        beyond_total(Seq::empty(), around) == 0,
        drawn_maps(Seq::empty(), around) == 0,
{
    assert(maps.push(map).drop_last() =~= maps);
    let d = drawn_places(map@, around);
    if d.len() > 0 {
        law_surroundings_are_drawn(map@, around, d[0]);
        assert(d.contains(d[0]));
    }
}

/// The surroundings are taken around the corners of all rooms but limbo and of
/// all portals; where there are none, around where the interior is placed.
pub proof fn law_surroundings_are_those_of_rooms_and_portals(
    rooms: Seq<Vec<Corner>>,
    portals: Seq<Vec<Corner>>,
    placed: Corner,
    c: Corner,
)
    ensures
        ({
            let inside = (exists|i: int|
                1 <= i < rooms.len() && (#[trigger] rooms[i])@.contains(c)) || (exists|i: int|
                0 <= i < portals.len() && (#[trigger] portals[i])@.contains(c));
            let got = interior_points(rooms, portals, placed);
            &&& inside ==> got.contains(c)
            &&& got.contains(c) ==> inside || (c == placed && got.len() == 1)
            &&& (forall|i: int| 1 <= i < rooms.len() ==> (#[trigger] rooms[i])@.len() == 0) && (
            forall|i: int| 0 <= i < portals.len() ==> (#[trigger] portals[i])@.len() == 0) ==> got
                == seq![placed]
        }),
{
    let live = if rooms.len() == 0 {
        rooms
    } else {
        rooms.skip(1)
    };
    assert(forall|i: int| 0 <= i < live.len() ==> live[i] == rooms[i + 1]);
    lemma_outlines(live, c);
    lemma_outlines(portals, c);
    lemma_either(outline_points(live), outline_points(portals), c);
    assert((exists|i: int| 0 <= i < live.len() && (#[trigger] live[i])@.contains(c)) <==> (exists|i: int|
        1 <= i < rooms.len() && (#[trigger] rooms[i])@.contains(c))) by {
        if exists|i: int| 1 <= i < rooms.len() && (#[trigger] rooms[i])@.contains(c) {
            let i = choose|i: int| 1 <= i < rooms.len() && (#[trigger] rooms[i])@.contains(c);
            assert(live[i - 1]@.contains(c));
        }
        if exists|i: int| 0 <= i < live.len() && (#[trigger] live[i])@.contains(c) {
            let i = choose|i: int| 0 <= i < live.len() && (#[trigger] live[i])@.contains(c);
            assert(rooms[i + 1]@.contains(c));
        }
    }
    if (forall|i: int| 1 <= i < rooms.len() ==> (#[trigger] rooms[i])@.len() == 0) && (forall|i: int|
        0 <= i < portals.len() ==> (#[trigger] portals[i])@.len() == 0) {
        assert forall|i: int| 0 <= i < live.len() implies (#[trigger] live[i])@.len() == 0 by {
            assert(rooms[i + 1]@.len() == 0);
        }
        lemma_no_outlines(live);
        lemma_no_outlines(portals);
    }
}

proof fn lemma_outlines(list: Seq<Vec<Corner>>, c: Corner)
    ensures
        outline_points(list).contains(c) <==> exists|i: int|
            0 <= i < list.len() && (#[trigger] list[i])@.contains(c),
    decreases list.len(),
{
    if list.len() > 0 {
        let front = list.drop_last();
        lemma_outlines(front, c);
        assert(forall|i: int| 0 <= i < front.len() ==> front[i] == list[i]);
        assert(list.last() == list[list.len() - 1]);
        lemma_either(outline_points(front), list.last()@, c);
    }
}

proof fn lemma_no_outlines(list: Seq<Vec<Corner>>)
    requires
        forall|i: int| 0 <= i < list.len() ==> (#[trigger] list[i])@.len() == 0,
    ensures
        outline_points(list).len() == 0,
    decreases list.len(),
{
    if list.len() > 0 {
        let front = list.drop_last();
        assert(forall|i: int| 0 <= i < front.len() ==> front[i] == list[i]);
        assert(list[list.len() - 1]@.len() == 0);
        lemma_no_outlines(front);
    }
}

/// The triangles of a mesh are its triples of places, in order, without those
/// that name a vertex that is not there.
pub proof fn law_whole_triangles_are_drawn(places: Seq<u32>, vertices: nat, n: nat)
    ensures
        faces_of(places, vertices, 0).len() == 0,
        ({
            let a = places[3 * (n as int)];
            let b = places[3 * (n as int) + 1];
            let c = places[3 * (n as int) + 2];
            let before = faces_of(places, vertices, n);
            let got = faces_of(places, vertices, n + 1);
            if a < vertices && b < vertices && c < vertices {
                got.drop_last() == before && got.last() == (Face {
                    a: a as usize,
                    b: b as usize,
                    c: c as usize,
                })
            } else {
                got == before
            }
        }),
{
    let before = faces_of(places, vertices, n);
    let got = faces_of(places, vertices, n + 1);
    if got.len() > before.len() {
        assert(got.drop_last() =~= before);
    }
}

/// A room is nested when its middle is strictly inside the box of another, on
/// both axes; nested rooms are counted.
pub proof fn law_nested_rooms_are_counted(rooms: Seq<RoomSpan>, n: nat)
    requires
        n < rooms.len(),
    ensures
        nested_count(rooms, 0) == 0,
        nested_count(rooms, n + 1) == nested_count(rooms, n) + (if exists|j: int|
            0 <= j < rooms.len() && j != n && is_above(
                rooms[n as int].middle_x,
                (#[trigger] rooms[j]).bb_min.x,
            ) && is_above(rooms[j].bb_max.x, rooms[n as int].middle_x) && is_above(
                rooms[n as int].middle_y,
                rooms[j].bb_min.y,
            ) && is_above(rooms[j].bb_max.y, rooms[n as int].middle_y) {
            1int
        } else {
            0
        }),
{
    let k = n as int;
    assert(crate::commands::plot_geometry::is_nested(rooms, k) <==> exists|j: int|
        0 <= j < rooms.len() && j != n && is_above(rooms[k].middle_x, (#[trigger] rooms[j]).bb_min.x)
            && is_above(rooms[j].bb_max.x, rooms[k].middle_x) && is_above(
            rooms[k].middle_y,
            rooms[j].bb_min.y,
        ) && is_above(rooms[j].bb_max.y, rooms[k].middle_y)) by {
        assert forall|j: int| is_middle_inside(rooms[k], #[trigger] rooms[j]) == (is_above(
            rooms[k].middle_x,
            rooms[j].bb_min.x,
        ) && is_above(rooms[j].bb_max.x, rooms[k].middle_x) && is_above(
            rooms[k].middle_y,
            rooms[j].bb_min.y,
        ) && is_above(rooms[j].bb_max.y, rooms[k].middle_y)) by {}
    }
}

/// The box reaches as far to one side of the origin as to the other, or its
/// middle is within a quarter of its width, or a small slack, of the origin.
pub open spec fn is_about_zero(lo: u32, hi: u32, middle: u32, quarter: u32) -> bool {
    ||| (lo ^ hi == 0x8000_0000 && hi & 0x7fff_ffff < 0x7f80_0000)
    ||| is_at_least(SLACK_BITS, middle & 0x7fff_ffff)
    ||| (is_at_least(quarter, middle & 0x7fff_ffff) && is_at_least(quarter, SLACK_BITS))
}

/// Rooms store no positions when, limbo aside, there are at least two and all
/// are about the origin, or more than half are nested. Otherwise they do.
pub proof fn law_stacked_boxes_are_no_positions(rooms: Seq<RoomSpan>)
    ensures
        SLACK_BITS == 0x3ccc_cccd,
        are_unpositioned(rooms) <==> rooms.len() >= 3 && ((forall|i: int|
            1 <= i < rooms.len() ==> is_about_zero(
                (#[trigger] rooms[i]).bb_min.x,
                rooms[i].bb_max.x,
                rooms[i].middle_x,
                rooms[i].quarter_x,
            ) && is_about_zero(
                rooms[i].bb_min.y,
                rooms[i].bb_max.y,
                rooms[i].middle_y,
                rooms[i].quarter_y,
            )) || 2 * nested_count(rooms.skip(1), (rooms.len() - 1) as nat) > rooms.len() - 1),
{
    let live = rooms.skip(1);
    if rooms.len() >= 3 {
        assert(forall|i: int| 0 <= i < live.len() ==> live[i] == rooms[i + 1]);
        assert(!is_nan(SLACK_BITS)) by (bit_vector);
        assert forall|i: int| 1 <= i < rooms.len() implies (is_about_zero(
            (#[trigger] rooms[i]).bb_min.x,
            rooms[i].bb_max.x,
            rooms[i].middle_x,
            rooms[i].quarter_x,
        ) && is_about_zero(
            rooms[i].bb_min.y,
            rooms[i].bb_max.y,
            rooms[i].middle_y,
            rooms[i].quarter_y,
        )) == is_centred(live[i - 1]) by {
            assert(live[i - 1] == rooms[i]);
        }
        assert forall|i: int| 0 <= i < live.len() implies (is_about_zero(
            rooms[i + 1].bb_min.x,
            rooms[i + 1].bb_max.x,
            rooms[i + 1].middle_x,
            rooms[i + 1].quarter_x,
        ) && is_about_zero(
            rooms[i + 1].bb_min.y,
            rooms[i + 1].bb_max.y,
            rooms[i + 1].middle_y,
            rooms[i + 1].quarter_y,
        )) == #[trigger] is_centred(live[i]) by {
            assert(live[i] == rooms[i + 1]);
        }
    }
}

} // verus!
