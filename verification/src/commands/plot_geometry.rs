//! Where things lie on a plan. Coordinates are fractional numbers by their
//! bits.
use vstd::prelude::*;
use vstd::set_lib::{lemma_int_range, lemma_len_subset, lemma_map_size, set_int_range};
use crate::bits::{
    above, at_least, box_around, greater, greater_of, greatest, is_above, is_at_least, least,
    magnitude,
};
use crate::formats::Corner;

verus! {

// ── Rooms that were never positioned ────────────────────────────────────────

/// The bits of 0.025: a box this little off the origin is still about it.
pub const SLACK_BITS: u32 = 0x3ccc_cccd;

/// A room's box, with its middle and a quarter of its width along x and y.
#[derive(Debug, Clone, Copy)]
pub struct RoomSpan {
    pub bb_min: Corner,
    pub bb_max: Corner,
    pub middle_x: u32,
    pub middle_y: u32,
    pub quarter_x: u32,
    pub quarter_y: u32,
}

/// The middle of a stretch lies well inside its own half-width of the origin.
pub open spec fn is_about_origin(middle: u32, quarter: u32) -> bool {
    is_at_least(greater(SLACK_BITS, quarter), magnitude(middle))
}

/// A stretch from a finite number to its negative.
pub open spec fn is_symmetric(lo: u32, hi: u32) -> bool {
    lo ^ hi == 0x8000_0000 && magnitude(hi) < 0x7f80_0000
}

/// A stretch is about the origin: exactly, or by its middle.
pub open spec fn is_stretch_centred(lo: u32, hi: u32, middle: u32, quarter: u32) -> bool {
    is_symmetric(lo, hi) || is_about_origin(middle, quarter)
}

/// The room's box is about the origin.
pub open spec fn is_centred(room: RoomSpan) -> bool {
    &&& is_stretch_centred(room.bb_min.x, room.bb_max.x, room.middle_x, room.quarter_x)
    &&& is_stretch_centred(room.bb_min.y, room.bb_max.y, room.middle_y, room.quarter_y)
}

/// The middle of the first room lies inside the box of the second.
pub open spec fn is_middle_inside(room: RoomSpan, other: RoomSpan) -> bool {
    &&& is_above(room.middle_x, other.bb_min.x)
    &&& is_above(other.bb_max.x, room.middle_x)
    &&& is_above(room.middle_y, other.bb_min.y)
    &&& is_above(other.bb_max.y, room.middle_y)
}

/// The middle of room `i` lies inside another room.
pub open spec fn is_nested(rooms: Seq<RoomSpan>, i: int) -> bool {
    exists|j: int|
        0 <= j < rooms.len() && j != i && #[trigger] is_middle_inside(rooms[i], rooms[j])
}

/// How many of the first `n` rooms lie inside another room with their middle.
pub open spec fn nested_count(rooms: Seq<RoomSpan>, n: nat) -> nat
    decreases n,
{
    if n == 0 {
        0
    } else {
        nested_count(rooms, (n - 1) as nat) + (if is_nested(rooms, n - 1) {
            1nat
        } else {
            0
        })
    }
}

/// The rooms store their widths and not where they are: all boxes are about
/// the origin, or most of them nest in each other. The first room is limbo,
/// the world outside, and does not count; a single room is no pattern.
pub open spec fn are_unpositioned(rooms: Seq<RoomSpan>) -> bool {
    let live = rooms.skip(1);
    &&& rooms.len() >= 3
    &&& {
        ||| forall|i: int| 0 <= i < live.len() ==> #[trigger] is_centred(live[i])
        ||| nested_count(live, live.len()) * 2 > live.len()
    }
}

fn centred_on_origin(lo: u32, hi: u32, middle: u32, quarter: u32) -> (r: bool)
    ensures
        r == is_stretch_centred(lo, hi, middle, quarter),
{
    lo ^ hi == 0x8000_0000 && hi & 0x7fff_ffff < 0x7f80_0000 || at_least(
        greater_of(SLACK_BITS, quarter),
        middle & 0x7fff_ffff,
    )
}

fn middle_inside(room: &RoomSpan, other: &RoomSpan) -> (r: bool)
    ensures
        r == is_middle_inside(*room, *other),
{
    above(room.middle_x, other.bb_min.x) && above(other.bb_max.x, room.middle_x) && above(
        room.middle_y,
        other.bb_min.y,
    ) && above(other.bb_max.y, room.middle_y)
}

/// Whether room `i` lies inside another room with its middle, limbo aside.
fn nests(rooms: &Vec<RoomSpan>, i: usize) -> (r: bool)
    requires
        1 <= i < rooms.len(),
    ensures
        r == is_nested(rooms@.skip(1), i - 1),
{
    let ghost live = rooms@.skip(1);
    let mut j: usize = 1;
    while j < rooms.len()
        invariant
            1 <= i < rooms.len(),
            1 <= j <= rooms.len(),
            live == rooms@.skip(1),
            forall|k: int|
                0 <= k < j - 1 && k != i - 1 ==> !(#[trigger] is_middle_inside(live[i - 1], live[k])),
        decreases rooms.len() - j,
    {
        assert(live[j - 1] == rooms[j as int]);
        assert(live[i - 1] == rooms[i as int]);
        if j != i && middle_inside(&rooms[i], &rooms[j]) {
            assert(is_middle_inside(live[i - 1], live[j - 1]));
            return true;
        }
        j = j + 1;
    }
    false
}

/// Whether every room but limbo stores its box as widths about a point and
/// not where the room is, so that drawing the boxes would stack all rooms in
/// one place.
pub fn rooms_unpositioned(rooms: &Vec<RoomSpan>) -> (r: bool)
    ensures
        r == are_unpositioned(rooms@),
{
    if rooms.len() < 3 {
        return false;
    }
    let ghost live = rooms@.skip(1);
    let count: usize = rooms.len() - 1;
    let mut centred = true;
    let mut nested: usize = 0;
    let mut i: usize = 1;
    while i < rooms.len()
        invariant
            1 <= i <= rooms.len(),
            live == rooms@.skip(1),
            centred == (forall|k: int| 0 <= k < i - 1 ==> #[trigger] is_centred(live[k])),
            nested == nested_count(live, (i - 1) as nat),
            nested <= i - 1,
        decreases rooms.len() - i,
    {
        assert(live[i - 1] == rooms[i as int]);
        let room: RoomSpan = rooms[i];
        let about = centred_on_origin(room.bb_min.x, room.bb_max.x, room.middle_x, room.quarter_x)
            && centred_on_origin(room.bb_min.y, room.bb_max.y, room.middle_y, room.quarter_y);
        assert(about == is_centred(live[i - 1]));
        centred = centred && about;
        if nests(rooms, i) {
            nested = nested + 1;
        }
        i = i + 1;
    }
    centred || nested > count - nested
}

proof fn lemma_none_nested(rooms: Seq<RoomSpan>, n: nat)
    requires
        n <= rooms.len(),
        forall|i: int, j: int|
            0 <= i < rooms.len() && 0 <= j < rooms.len() && i != j ==> !(#[trigger] is_middle_inside(
                rooms[i],
                rooms[j],
            )),
    ensures
        nested_count(rooms, n) == 0,
    decreases n,
{
    if n > 0 {
        lemma_none_nested(rooms, (n - 1) as nat);
    }
}

/// A layout whose rooms lie side by side, with one room away from the origin,
/// is drawn as it is stored.
pub proof fn law_real_layouts_are_kept(rooms: Seq<RoomSpan>, away: int)
    requires
        1 <= away < rooms.len(),
        !is_centred(rooms[away]),
        forall|i: int, j: int|
            1 <= i < rooms.len() && 1 <= j < rooms.len() && i != j ==> !(#[trigger] is_middle_inside(
                rooms[i],
                rooms[j],
            )),
    ensures
        !are_unpositioned(rooms),
{
    let live = rooms.skip(1);
    assert(live[away - 1] == rooms[away]);
    assert forall|i: int, j: int|
        0 <= i < live.len() && 0 <= j < live.len() && i != j implies !(#[trigger] is_middle_inside(
        live[i],
        live[j],
    )) by {
        assert(live[i] == rooms[i + 1]);
        assert(live[j] == rooms[j + 1]);
    }
    lemma_none_nested(live, live.len());
}

/// Limbo has no say: only the other rooms decide.
pub proof fn law_limbo_has_no_say(rooms: Seq<RoomSpan>, others: Seq<RoomSpan>)
    requires
        rooms.len() == others.len(),
        rooms.skip(1) == others.skip(1),
    ensures
        are_unpositioned(rooms) == are_unpositioned(others),
{
}

/// The rooms take up the same ground.
pub open spec fn is_same_ground(a: RoomSpan, b: RoomSpan) -> bool {
    &&& a.bb_min.x == b.bb_min.x && a.bb_min.y == b.bb_min.y
    &&& a.bb_max.x == b.bb_max.x && a.bb_max.y == b.bb_max.y
    &&& a.middle_x == b.middle_x && a.middle_y == b.middle_y
    &&& a.quarter_x == b.quarter_x && a.quarter_y == b.quarter_y
}

/// `others` are `rooms` in the order that `order` gives, except for their
/// heights.
pub open spec fn is_reordered(rooms: Seq<RoomSpan>, others: Seq<RoomSpan>, order: Seq<int>) -> bool {
    &&& others.len() == rooms.len() == order.len()
    &&& forall|i: int|
        0 <= i < order.len() ==> 0 <= #[trigger] order[i] < rooms.len() && is_same_ground(
            others[i],
            rooms[order[i]],
        )
    &&& forall|i: int, j: int|
        0 <= i < j < order.len() ==> #[trigger] order[i] != #[trigger] order[j]
}

/// The rooms below `n` that lie inside another room with their middle.
spec fn nested_places(rooms: Seq<RoomSpan>, n: nat) -> Set<int> {
    Set::new(|i: int| 0 <= i < n && is_nested(rooms, i))
}

proof fn lemma_nested_places(rooms: Seq<RoomSpan>, n: nat)
    ensures
        nested_places(rooms, n).finite(),
        nested_places(rooms, n).len() == nested_count(rooms, n),
    decreases n,
{
    if n == 0 {
        assert(nested_places(rooms, n) =~= Set::empty());
    } else {
        lemma_nested_places(rooms, (n - 1) as nat);
        let before = nested_places(rooms, (n - 1) as nat);
        if is_nested(rooms, n - 1) {
            assert(nested_places(rooms, n) =~= before.insert(n - 1));
        } else {
            assert(nested_places(rooms, n) =~= before);
        }
    }
}

proof fn lemma_order_is_onto(order: Seq<int>, k: int)
    requires
        0 <= k < order.len(),
        forall|i: int| 0 <= i < order.len() ==> 0 <= #[trigger] order[i] < order.len(),
        forall|i: int, j: int| 0 <= i < j < order.len() ==> #[trigger] order[i] != #[trigger] order[j],
    ensures
        order.contains(k),
{
    let all = set_int_range(0, order.len() as int);
    lemma_int_range(0, order.len() as int);
    assert(order.no_duplicates());
    order.unique_seq_to_set();
    assert(order.to_set().subset_of(all)) by {
        assert forall|x: int| order.to_set().contains(x) implies all.contains(x) by {
            let i = choose|i: int| 0 <= i < order.len() && order[i] == x;
            assert(0 <= order[i] < order.len());
        }
    }
    if !order.contains(k) {
        assert(order.to_set().subset_of(all.remove(k)));
        lemma_len_subset(order.to_set(), all.remove(k));
    }
}

proof fn lemma_nested_moves(rooms: Seq<RoomSpan>, others: Seq<RoomSpan>, order: Seq<int>, i: int)
    requires
        is_reordered(rooms, others, order),
        0 <= i < order.len(),
    ensures
        is_nested(others, i) == is_nested(rooms, order[i]),
{
    assert(is_same_ground(others[i], rooms[order[i]]));
    if is_nested(others, i) {
        let j = choose|j: int|
            0 <= j < others.len() && j != i && #[trigger] is_middle_inside(others[i], others[j]);
        assert(is_same_ground(others[j], rooms[order[j]]));
        assert(order[i] != order[j]);
        assert(is_middle_inside(rooms[order[i]], rooms[order[j]]));
    }
    if is_nested(rooms, order[i]) {
        let k = choose|k: int|
            0 <= k < rooms.len() && k != order[i] && #[trigger] is_middle_inside(
                rooms[order[i]],
                rooms[k],
            );
        lemma_order_is_onto(order, k);
        let j = choose|j: int| 0 <= j < order.len() && order[j] == k;
        assert(is_same_ground(others[j], rooms[order[j]]));
        assert(is_middle_inside(others[i], others[j]));
    }
}

/// Neither the order of the rooms nor their heights change the answer.
pub proof fn law_order_and_heights_have_no_say(
    limbo: RoomSpan,
    rooms: Seq<RoomSpan>,
    others: Seq<RoomSpan>,
    order: Seq<int>,
)
    requires
        is_reordered(rooms, others, order),
    ensures
        are_unpositioned(seq![limbo] + rooms) == are_unpositioned(seq![limbo] + others),
{
    assert((seq![limbo] + rooms).skip(1) =~= rooms);
    assert((seq![limbo] + others).skip(1) =~= others);
    let n = rooms.len();
    lemma_nested_places(rooms, n);
    lemma_nested_places(others, n);
    let here = nested_places(others, n);
    let there = nested_places(rooms, n);
    let f = |i: int| order[i];
    assert forall|i: int| 0 <= i < n implies is_nested(others, i) == is_nested(rooms, #[trigger] order[i]) by {
        lemma_nested_moves(rooms, others, order, i);
    }
    assert forall|x: int, y: int|
        #![trigger f(x), f(y)]
        here.contains(x) && here.contains(y) && f(x) == f(y) implies x == y by {
        if x < y {
            assert(order[x] != order[y]);
        } else if y < x {
            assert(order[y] != order[x]);
        }
    }
    assert forall|i: int| #[trigger] here.contains(i) implies there.contains(f(i)) by {
        assert(0 <= order[i] < n);
    }
    assert forall|k: int| #[trigger] there.contains(k) implies exists|i: int|
        here.contains(i) && f(i) == k by {
        lemma_order_is_onto(order, k);
        let i = choose|i: int| 0 <= i < order.len() && order[i] == k;
        assert(here.contains(i) && f(i) == k);
    }
    assert(here.map(f) =~= there);
    lemma_map_size(here, there, f);
    assert forall|i: int| 0 <= i < n implies is_centred(others[i]) == is_centred(rooms[#[trigger] order[i]]) by {
        assert(is_same_ground(others[i], rooms[order[i]]));
    }
    if forall|i: int| 0 <= i < n ==> #[trigger] is_centred(rooms[i]) {
        assert forall|i: int| 0 <= i < n implies #[trigger] is_centred(others[i]) by {
            assert(is_centred(rooms[order[i]]));
        }
    }
    if forall|i: int| 0 <= i < n ==> #[trigger] is_centred(others[i]) {
        assert forall|k: int| 0 <= k < n implies #[trigger] is_centred(rooms[k]) by {
            lemma_order_is_onto(order, k);
            let i = choose|i: int| 0 <= i < order.len() && order[i] == k;
            assert(is_centred(others[i]));
            assert(is_centred(rooms[order[i]]));
        }
    }
}

/// Rooms whose boxes all run from a number to its negative, `min == -max`, were
/// never positioned, wherever limbo is and whatever their heights are.
pub proof fn law_symmetric_rooms_are_unpositioned(rooms: Seq<RoomSpan>)
    requires
        rooms.len() >= 3,
        forall|i: int|
            1 <= i < rooms.len() ==> is_symmetric((#[trigger] rooms[i]).bb_min.x, rooms[i].bb_max.x)
                && is_symmetric(rooms[i].bb_min.y, rooms[i].bb_max.y),
    ensures
        are_unpositioned(rooms),
{
    let live = rooms.skip(1);
    assert forall|i: int| 0 <= i < live.len() implies #[trigger] is_centred(live[i]) by {
        assert(live[i] == rooms[i + 1]);
    }
}

// ── The surroundings of an interior ─────────────────────────────────────────

/// All points of some outlines.
pub open spec fn outline_points(outlines: Seq<Vec<Corner>>) -> Seq<Corner>
    decreases outlines.len(),
{
    if outlines.len() == 0 {
        Seq::empty()
    } else {
        outline_points(outlines.drop_last()) + outlines.last()@
    }
}

/// The points that an interior takes up: its rooms without the first, which
/// is the world outside, and its portals; failing both, where it is placed.
pub open spec fn interior_points(
    rooms: Seq<Vec<Corner>>,
    portals: Seq<Vec<Corner>>,
    placed: Corner,
) -> Seq<Corner> {
    let points = outline_points(if rooms.len() == 0 {
        rooms
    } else {
        rooms.skip(1)
    }) + outline_points(portals);
    if points.len() == 0 {
        seq![placed]
    } else {
        points
    }
}

/// Adds the points of the outlines from `from` on.
fn push_outlines(points: &mut Vec<Corner>, outlines: &Vec<Vec<Corner>>, from: usize)
    requires
        from <= outlines.len(),
    ensures
        final(points)@ == old(points)@ + outline_points(outlines@.skip(from as int)),
{
    let ghost had = points@;
    let ghost all = outlines@.skip(from as int);
    let mut i: usize = from;
    assert(all.take(0) =~= Seq::empty());
    assert(points@ =~= had + outline_points(all.take(0)));
    while i < outlines.len()
        invariant
            from <= i <= outlines.len(),
            all == outlines@.skip(from as int),
            points@ == had + outline_points(all.take(i - from)),
        decreases outlines.len() - i,
    {
        proof {
            assert(all.take(i - from + 1).drop_last() =~= all.take(i - from));
            assert(all.take(i - from + 1).last() == outlines[i as int]);
        }
        let ghost before = points@;
        points.extend_from_slice(outlines[i].as_slice());
        assert(points@ =~= before + outlines[i as int]@);
        assert(points@ =~= had + outline_points(all.take(i - from + 1)));
        i = i + 1;
    }
    assert(all.take(outlines.len() - from) =~= all);
}

/// The box around what an interior takes up in the world.
pub fn interior_neighbourhood(rooms: &Vec<Vec<Corner>>, portals: &Vec<Vec<Corner>>, placed: Corner) -> (r: (
    Corner,
    Corner,
))
    ensures
        r.0 == least(interior_points(rooms@, portals@, placed)),
        r.1 == greatest(interior_points(rooms@, portals@, placed)),
{
    let mut points: Vec<Corner> = Vec::new();
    if rooms.len() > 0 {
        push_outlines(&mut points, rooms, 1);
    }
    let ghost own = points@;
    assert(own =~= outline_points(if rooms.len() == 0 {
        rooms@
    } else {
        rooms@.skip(1)
    }));
    push_outlines(&mut points, portals, 0);
    assert(portals@.skip(0) =~= portals@);
    if points.len() == 0 {
        points.push(placed);
        assert(points@ =~= seq![placed]);
    }
    box_around(&points)
}

// ── Triangles ───────────────────────────────────────────────────────────────

/// A triangle of vertices, by their places.
#[derive(Debug, Clone, Copy, PartialEq, Eq, Structural)]
pub struct Face {
    pub a: usize,
    pub b: usize,
    pub c: usize,
}

/// The triangles of the first `n` triples of places, without those that name a
/// vertex that is not there.
pub open spec fn faces_of(places: Seq<u32>, vertices: nat, n: nat) -> Seq<Face>
    decreases n,
{
    if n == 0 {
        Seq::empty()
    } else {
        let before = faces_of(places, vertices, (n - 1) as nat);
        let a = places[3 * n - 3];
        let b = places[3 * n - 2];
        let c = places[3 * n - 1];
        if a < vertices && b < vertices && c < vertices {
            before.push(Face { a: a as usize, b: b as usize, c: c as usize })
        } else {
            before
        }
    }
}

/// The triangles that an index buffer draws of `vertices` vertices; places
/// left over after the last triple draw nothing.
pub fn drawn_faces(places: &Vec<u32>, vertices: usize) -> (out: Vec<Face>)
    ensures
        out@ == faces_of(places@, vertices as nat, places@.len() / 3),
{
    let mut out: Vec<Face> = Vec::new();
    let total: usize = places.len() / 3;
    let mut n: usize = 0;
    while n < total
        invariant
            n <= total,
            total == places.len() / 3,
            out@ == faces_of(places@, vertices as nat, n as nat),
        decreases total - n,
    {
        let a: usize = places[3 * n] as usize;
        let b: usize = places[3 * n + 1] as usize;
        let c: usize = places[3 * n + 2] as usize;
        if a < vertices && b < vertices && c < vertices {
            out.push(Face { a, b, c });
        }
        n = n + 1;
    }
    out
}

/// The floor of a box as two triangles: what a prop takes up where its model
/// is not to hand.
pub fn box_footprint(lo: Corner, hi: Corner) -> (out: Vec<(Corner, Corner, Corner)>)
    ensures
        ({
            let b = Corner { x: hi.x, y: lo.y, z: lo.z };
            let c = Corner { x: hi.x, y: hi.y, z: lo.z };
            let d = Corner { x: lo.x, y: hi.y, z: lo.z };
            out@ == seq![(lo, b, c), (lo, c, d)]
        }),
{
    let b = Corner { x: hi.x, y: lo.y, z: lo.z };
    let c = Corner { x: hi.x, y: hi.y, z: lo.z };
    let d = Corner { x: lo.x, y: hi.y, z: lo.z };
    let mut out: Vec<(Corner, Corner, Corner)> = Vec::new();
    out.push((lo, b, c));
    out.push((lo, c, d));
    assert(out@ =~= seq![(lo, b, c), (lo, c, d)]);
    out
}

/// How a navmesh polygon is drawn.
#[derive(Debug, Clone, Copy, PartialEq, Eq, Structural)]
pub enum NavClass {
    Exterior,
    Interior,
    /// Pinned to the floor of its cell: nobody walks it.
    Sunk,
}

/// How a navmesh polygon is drawn; being sunk outweighs being inside.
pub fn nav_class(sunk: bool, interior: bool) -> (r: NavClass)
    ensures
        r is Sunk <==> sunk,
        r is Interior <==> interior && !sunk,
{
    if sunk {
        NavClass::Sunk
    } else if interior {
        NavClass::Interior
    } else {
        NavClass::Exterior
    }
}

} // verus!
