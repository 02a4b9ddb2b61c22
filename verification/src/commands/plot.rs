//! `rage plot`: what belongs on a top-down plan of an interior, and what its
//! caption says. The geometry itself is drawn elsewhere.
use std::collections::{HashMap, HashSet};
use vstd::prelude::*;
use vstd::string::*;
use crate::bits::{at_least, box_around, greatest, is_at_least, is_in, least, lies_in, Area};
use crate::file_names::stem;
use crate::formats::{Corner, PortalBits};
use crate::hash::joaat;
use crate::name_table::{resolve, resolved, table};
use crate::plot_inputs::{name_texts, skipped_views, SkipReason, Skipped, SkippedView};
use crate::props::{stem_hash, without_detail, PropStats};
use crate::text::{
    copy_texts, decimal, decimal_of, join, join_with, lowercase, same, texts, to_lowercase,
};
use rage_formats::NameTable;

verus! {

// ── Layers and formats ──────────────────────────────────────────────────────

/// The layers of a plan.
#[derive(Debug, Clone, Copy, PartialEq, Eq, Structural)]
pub enum LayerArg {
    /// Room boxes from the .ytyp, labelled with their names.
    Rooms,
    /// The doorways and openings joining rooms.
    Portals,
    /// The props the interior places, one dot each.
    Entities,
    /// Triangles from the .ybn: floors shaded by height, walls outlined.
    Collision,
    /// Triangles from the .ydr/.ydd shell.
    Drawable,
    /// Navmesh polygons: where the game lets pedestrians walk.
    Navmesh,
}

/// What a layer draws.
pub open spec fn layer_noun(layer: LayerArg) -> Seq<char> {
    match layer {
        LayerArg::Rooms => "rooms"@,
        LayerArg::Portals => "portals"@,
        LayerArg::Entities => "entities"@,
        LayerArg::Collision => "collision tris"@,
        LayerArg::Drawable => "drawable tris"@,
        LayerArg::Navmesh => "navmesh polys"@,
    }
}

impl LayerArg {
    /// What the layer draws.
    pub fn noun(&self) -> (out: &'static str)
        ensures
            out@ == layer_noun(*self),
    {
        match self {
            LayerArg::Rooms => "rooms",
            LayerArg::Portals => "portals",
            LayerArg::Entities => "entities",
            LayerArg::Collision => "collision tris",
            LayerArg::Drawable => "drawable tris",
            LayerArg::Navmesh => "navmesh polys",
        }
    }
}

/// What the output extension asks for.
#[derive(Debug, Clone, Copy, PartialEq, Eq, Structural)]
pub enum OutputFormat {
    Svg,
    Png,
    Jpeg,
    Webp,
}

/// The format of an extension in lowercase.
pub open spec fn format_of_extension(ext: Seq<char>) -> Option<OutputFormat> {
    if ext == "svg"@ {
        Some(OutputFormat::Svg)
    } else if ext == "png"@ {
        Some(OutputFormat::Png)
    } else if ext == "jpg"@ || ext == "jpeg"@ {
        Some(OutputFormat::Jpeg)
    } else if ext == "webp"@ {
        Some(OutputFormat::Webp)
    } else {
        None
    }
}

/// Decides the format of the output by its extension.
pub fn output_format(extension: &str) -> (r: Result<OutputFormat, String>)
    ensures
        match r {
            Ok(f) => format_of_extension(lowercase(extension@)) == Some(f),
            Err(e) => format_of_extension(lowercase(extension@)) is None && e@
                == "unsupported output extension '."@ + lowercase(extension@)
                + "'; use .png, .jpg, .webp or .svg"@,
        },
{
    let low = to_lowercase(extension);
    let ext = low.as_str();
    if same(ext, "svg") {
        Ok(OutputFormat::Svg)
    } else if same(ext, "png") {
        Ok(OutputFormat::Png)
    } else if same(ext, "jpg") || same(ext, "jpeg") {
        Ok(OutputFormat::Jpeg)
    } else if same(ext, "webp") {
        Ok(OutputFormat::Webp)
    } else {
        let mut e = String::from_str("unsupported output extension '.");
        e.append(ext);
        e.append("'; use .png, .jpg, .webp or .svg");
        Err(e)
    }
}

/// The counts of what was drawn, each with its noun.
pub open spec fn count_texts(drawn: Seq<(LayerArg, usize)>) -> Seq<Seq<char>> {
    drawn.map_values(|d: (LayerArg, usize)| decimal(d.1 as nat) + " "@ + layer_noun(d.0))
}

/// `620x540 px, region -585.0,-1070.0..-570.0,-1055.0; 5 rooms, 42 navmesh
/// polys`, where `region` is the text of the corners.
pub fn summary(width: u32, height: u32, region: &str, drawn: &Vec<(LayerArg, usize)>) -> (out: String)
    ensures
        out@ == decimal(width as nat) + "x"@ + decimal(height as nat) + " px, region "@ + region@
            + "; "@ + join(count_texts(drawn@), ", "@),
{
    let mut counts: Vec<String> = Vec::new();
    let ghost want = count_texts(drawn@);
    let mut i: usize = 0;
    while i < drawn.len()
        invariant
            i <= drawn.len(),
            counts.len() == i,
            want == count_texts(drawn@),
            forall|j: int| 0 <= j < i ==> (#[trigger] counts[j])@ == want[j],
        decreases drawn.len() - i,
    {
        let mut count = decimal_of(drawn[i].1 as u64);
        count.append(" ");
        count.append(drawn[i].0.noun());
        counts.push(count);
        i = i + 1;
    }
    assert(texts(counts@) =~= want);
    let mut out = decimal_of(width as u64);
    out.append("x");
    out.append(decimal_of(height as u64).as_str());
    out.append(" px, region ");
    out.append(region);
    out.append("; ");
    out.append(join_with(&counts, ", ").as_str());
    out
}

// ── Where the interior sits ─────────────────────────────────────────────────

/// A map among the inputs: the archetypes that its interior instances place,
/// and how many entities it has.
#[derive(Debug)]
pub struct PlacedMap {
    pub name: String,
    pub instances: Vec<u32>,
    pub entities: usize,
}

/// What places the interior in the world.
#[derive(Debug, Clone, Copy, PartialEq, Eq, Structural)]
pub enum Place {
    /// An interior instance of a map, which lists the entity sets that are on
    /// by default.
    Instance { map: usize, instance: usize },
    /// The first entity of a map.
    Entity { map: usize },
    /// Nothing: the plan stays in the interior's own coordinates.
    Nowhere,
}

/// Where the interior sits in the world, and which one it is.
#[derive(Debug, Clone, Copy, PartialEq, Eq, Structural)]
pub struct Placement {
    pub place: Place,
    /// The interior the plan is of, by its place among those declared.
    pub mlo: Option<usize>,
    /// How many interiors the type files between them declare: more than one
    /// and only a map can say which is meant.
    pub mlo_count: usize,
}

/// The place of the first interior of the given name.
pub open spec fn mlo_place(mlos: Seq<u32>, hash: u32) -> Option<int>
    decreases mlos.len(),
{
    if mlos.len() == 0 {
        None
    } else {
        match mlo_place(mlos.drop_last(), hash) {
            Some(k) => Some(k),
            None => if mlos.last() == hash {
                Some(mlos.len() - 1)
            } else {
                None
            },
        }
    }
}

/// The first instance of a declared interior, and which interior it is.
pub open spec fn matching_instance(instances: Seq<u32>, mlos: Seq<u32>) -> Option<(int, int)>
    decreases instances.len(),
{
    if instances.len() == 0 {
        None
    } else {
        match matching_instance(instances.drop_last(), mlos) {
            Some(m) => Some(m),
            None => match mlo_place(mlos, instances.last()) {
                Some(k) => Some((instances.len() - 1, k)),
                None => None,
            },
        }
    }
}

/// The first map with an instance of a declared interior: the map, the
/// instance, the interior.
pub open spec fn matching_map(maps: Seq<PlacedMap>, mlos: Seq<u32>) -> Option<(int, int, int)>
    decreases maps.len(),
{
    if maps.len() == 0 {
        None
    } else {
        match matching_map(maps.drop_last(), mlos) {
            Some(m) => Some(m),
            None => match matching_instance(maps.last().instances@, mlos) {
                Some((j, k)) => Some((maps.len() - 1, j, k)),
                None => None,
            },
        }
    }
}

/// The first map with any instance.
pub open spec fn map_with_instance(maps: Seq<PlacedMap>) -> Option<int>
    decreases maps.len(),
{
    if maps.len() == 0 {
        None
    } else {
        match map_with_instance(maps.drop_last()) {
            Some(i) => Some(i),
            None => if maps.last().instances.len() > 0 {
                Some(maps.len() - 1)
            } else {
                None
            },
        }
    }
}

/// The first map with any entity.
pub open spec fn map_with_entity(maps: Seq<PlacedMap>) -> Option<int>
    decreases maps.len(),
{
    if maps.len() == 0 {
        None
    } else {
        match map_with_entity(maps.drop_last()) {
            Some(i) => Some(i),
            None => if maps.last().entities > 0 {
                Some(maps.len() - 1)
            } else {
                None
            },
        }
    }
}

/// The instance that places a declared interior; failing that the first
/// instance, then, where there is an interior to place, the first entity of
/// the first map that has one.
pub open spec fn placement_of(maps: Seq<PlacedMap>, mlos: Seq<u32>) -> Placement {
    let mlo_count = mlos.len() as usize;
    match matching_map(maps, mlos) {
        Some((i, j, k)) => Placement {
            place: Place::Instance { map: i as usize, instance: j as usize },
            mlo: Some(k as usize),
            mlo_count,
        },
        None => {
            let mlo = if mlos.len() > 0 {
                Some(0usize)
            } else {
                None
            };
            match map_with_instance(maps) {
                Some(i) => Placement {
                    place: Place::Instance { map: i as usize, instance: 0 },
                    mlo,
                    mlo_count,
                },
                None => match map_with_entity(maps) {
                    Some(i) if mlo is Some => Placement {
                        place: Place::Entity { map: i as usize },
                        mlo,
                        mlo_count,
                    },
                    _ => Placement { place: Place::Nowhere, mlo, mlo_count },
                },
            }
        },
    }
}

fn find_mlo(mlos: &Vec<u32>, hash: u32) -> (r: Option<usize>)
    ensures
        match r {
            Some(k) => mlo_place(mlos@, hash) == Some(k as int),
            None => mlo_place(mlos@, hash) == None::<int>,
        },
{
    let mut found: Option<usize> = None;
    let mut k: usize = 0;
    assert(mlos@.take(0) =~= Seq::empty());
    while k < mlos.len()
        invariant
            k <= mlos.len(),
            match found {
                Some(f) => mlo_place(mlos@.take(k as int), hash) == Some(f as int),
                None => mlo_place(mlos@.take(k as int), hash) == None::<int>,
            },
        decreases mlos.len() - k,
    {
        proof {
            assert(mlos@.take(k + 1).drop_last() =~= mlos@.take(k as int));
            assert(mlos@.take(k + 1).last() == mlos[k as int]);
        }
        if found.is_none() && mlos[k] == hash {
            found = Some(k);
        }
        k = k + 1;
    }
    assert(mlos@.take(mlos.len() as int) =~= mlos@);
    found
}

fn find_instance(instances: &Vec<u32>, mlos: &Vec<u32>) -> (r: Option<(usize, usize)>)
    ensures
        match r {
            Some((j, k)) => matching_instance(instances@, mlos@) == Some((j as int, k as int)),
            None => matching_instance(instances@, mlos@) == None::<(int, int)>,
        },
{
    let mut found: Option<(usize, usize)> = None;
    let mut j: usize = 0;
    assert(instances@.take(0) =~= Seq::empty());
    while j < instances.len()
        invariant
            j <= instances.len(),
            match found {
                Some((a, b)) => matching_instance(instances@.take(j as int), mlos@) == Some(
                    (a as int, b as int),
                ),
                None => matching_instance(instances@.take(j as int), mlos@) == None::<(int, int)>,
            },
        decreases instances.len() - j,
    {
        proof {
            assert(instances@.take(j + 1).drop_last() =~= instances@.take(j as int));
            assert(instances@.take(j + 1).last() == instances[j as int]);
        }
        if found.is_none() {
            if let Some(k) = find_mlo(mlos, instances[j]) {
                found = Some((j, k));
            }
        }
        j = j + 1;
    }
    assert(instances@.take(instances.len() as int) =~= instances@);
    found
}

fn find_map(maps: &Vec<PlacedMap>, mlos: &Vec<u32>) -> (r: Option<(usize, usize, usize)>)
    ensures
        match r {
            Some((i, j, k)) => matching_map(maps@, mlos@) == Some((i as int, j as int, k as int)),
            None => matching_map(maps@, mlos@) == None::<(int, int, int)>,
        },
{
    let mut found: Option<(usize, usize, usize)> = None;
    let mut i: usize = 0;
    assert(maps@.take(0) =~= Seq::empty());
    while i < maps.len()
        invariant
            i <= maps.len(),
            match found {
                Some((a, b, c)) => matching_map(maps@.take(i as int), mlos@) == Some(
                    (a as int, b as int, c as int),
                ),
                None => matching_map(maps@.take(i as int), mlos@) == None::<(int, int, int)>,
            },
        decreases maps.len() - i,
    {
        proof {
            assert(maps@.take(i + 1).drop_last() =~= maps@.take(i as int));
            assert(maps@.take(i + 1).last() == maps[i as int]);
        }
        if found.is_none() {
            if let Some((j, k)) = find_instance(&maps[i].instances, mlos) {
                found = Some((i, j, k));
            }
        }
        i = i + 1;
    }
    assert(maps@.take(maps.len() as int) =~= maps@);
    found
}

fn find_any_instance(maps: &Vec<PlacedMap>) -> (r: Option<usize>)
    ensures
        match r {
            Some(i) => map_with_instance(maps@) == Some(i as int),
            None => map_with_instance(maps@) == None::<int>,
        },
{
    let mut found: Option<usize> = None;
    let mut i: usize = 0;
    assert(maps@.take(0) =~= Seq::empty());
    while i < maps.len()
        invariant
            i <= maps.len(),
            match found {
                Some(f) => map_with_instance(maps@.take(i as int)) == Some(f as int),
                None => map_with_instance(maps@.take(i as int)) == None::<int>,
            },
        decreases maps.len() - i,
    {
        proof {
            assert(maps@.take(i + 1).drop_last() =~= maps@.take(i as int));
            assert(maps@.take(i + 1).last() == maps[i as int]);
        }
        if found.is_none() && maps[i].instances.len() > 0 {
            found = Some(i);
        }
        i = i + 1;
    }
    assert(maps@.take(maps.len() as int) =~= maps@);
    found
}

fn find_any_entity(maps: &Vec<PlacedMap>) -> (r: Option<usize>)
    ensures
        match r {
            Some(i) => map_with_entity(maps@) == Some(i as int),
            None => map_with_entity(maps@) == None::<int>,
        },
{
    let mut found: Option<usize> = None;
    let mut i: usize = 0;
    assert(maps@.take(0) =~= Seq::empty());
    while i < maps.len()
        invariant
            i <= maps.len(),
            match found {
                Some(f) => map_with_entity(maps@.take(i as int)) == Some(f as int),
                None => map_with_entity(maps@.take(i as int)) == None::<int>,
            },
        decreases maps.len() - i,
    {
        proof {
            assert(maps@.take(i + 1).drop_last() =~= maps@.take(i as int));
            assert(maps@.take(i + 1).last() == maps[i as int]);
        }
        if found.is_none() && maps[i].entities > 0 {
            found = Some(i);
        }
        i = i + 1;
    }
    assert(maps@.take(maps.len() as int) =~= maps@);
    found
}

/// Decides what places the interior, and which interior the plan is of, where
/// `mlos` holds the names of the declared ones.
pub fn find_placement(maps: &Vec<PlacedMap>, mlos: &Vec<u32>) -> (r: Placement)
    ensures
        r == placement_of(maps@, mlos@),
{
    let mlo_count: usize = mlos.len();
    if let Some((map, instance, k)) = find_map(maps, mlos) {
        return Placement { place: Place::Instance { map, instance }, mlo: Some(k), mlo_count };
    }
    let mlo: Option<usize> = if mlos.len() > 0 {
        Some(0)
    } else {
        None
    };
    if let Some(map) = find_any_instance(maps) {
        return Placement { place: Place::Instance { map, instance: 0 }, mlo, mlo_count };
    }
    if mlo.is_some() {
        if let Some(map) = find_any_entity(maps) {
            return Placement { place: Place::Entity { map }, mlo, mlo_count };
        }
    }
    Placement { place: Place::Nowhere, mlo, mlo_count }
}

// ── Meshes ──────────────────────────────────────────────────────────────────

/// The file is named after the archetype: its last component, without the
/// extension and the mark of its level of detail.
pub open spec fn belongs_to(file_name: Seq<char>, hash: u32) -> bool {
    joaat(without_detail(lowercase(stem(file_name)))) == hash
}

/// True when `file_name` names the archetype `mlo_name_hash`. The name may
/// arrive as a path, so only the last component counts; and a resource may
/// ship the same mesh at several detail levels (`hi@name.ybn`), so the prefix
/// comes off before the name is hashed.
pub fn mesh_belongs_to(file_name: &str, mlo_name_hash: u32) -> (r: bool)
    ensures
        r == belongs_to(file_name@, mlo_name_hash),
{
    stem_hash(file_name) == mlo_name_hash
}

/// The mesh is the interior's own, and so has to go through the placement.
pub open spec fn is_own(name: Seq<char>, explicit: bool, mlo: Option<u32>) -> bool {
    explicit || (mlo matches Some(hash) && belongs_to(name, hash))
}

/// Whether a mesh file is the interior's own, and so has to go through the
/// placement, or a world-space map chunk shipped in the same folder, which is
/// already where it belongs. Reports every world-space file it decides on, but
/// only when a placement is in play: with nothing to transform, the
/// distinction makes no difference to the page.
pub fn is_interior_mesh(
    name: &str,
    explicit: bool,
    mlo: Option<u32>,
    placed: bool,
    what: &str,
) -> (r: (bool, Option<String>))
    ensures
        r.0 == is_own(name@, explicit, mlo),
        r.1 is Some <==> !r.0 && placed,
        r.1 matches Some(line) ==> line@ == name@ + ": not the interior's own "@ + what@
            + "; drawn in world space"@,
{
    if explicit {
        return (true, None);
    }
    let interior: bool = match mlo {
        Some(hash) => mesh_belongs_to(name, hash),
        None => false,
    };
    if !interior && placed {
        let mut line = name.to_owned();
        line.append(": not the interior's own ");
        line.append(what);
        line.append("; drawn in world space");
        return (false, Some(line));
    }
    (interior, None)
}

// ── Rooms ───────────────────────────────────────────────────────────────────
/// The positions of the objects of a room that are among the interior's
/// entities.
pub open spec fn own_points(attached: Seq<u32>, positions: Seq<Corner>) -> Seq<Corner>
    decreases attached.len(),
{
    if attached.len() == 0 {
        Seq::empty()
    } else {
        let before = own_points(attached.drop_last(), positions);
        if attached.last() < positions.len() {
            before.push(positions[attached.last() as int])
        } else {
            before
        }
    }
}

/// The corners of the portals opening into a room.
pub open spec fn portal_points(portals: Seq<PortalBits>, room: nat) -> Seq<Corner>
    decreases portals.len(),
{
    if portals.len() == 0 {
        Seq::empty()
    } else {
        let before = portal_points(portals.drop_last(), room);
        if portals.last().room_from == room || portals.last().room_to == room {
            before + portals.last().corners@
        } else {
            before
        }
    }
}

/// The points that say where a room is: the objects it owns and the corners of
/// the portals opening into it.
pub open spec fn room_points(
    attached: Seq<u32>,
    positions: Seq<Corner>,
    portals: Seq<PortalBits>,
    room: nat,
) -> Seq<Corner> {
    own_points(attached, positions) + portal_points(portals, room)
}

fn push_portal_points(points: &mut Vec<Corner>, portals: &Vec<PortalBits>, room: usize)
    ensures
        final(points)@ == old(points)@ + portal_points(portals@, room as nat),
{
    let ghost had = points@;
    let mut j: usize = 0;
    assert(portals@.take(0) =~= Seq::empty());
    assert(points@ =~= had + portal_points(portals@.take(0), room as nat));
    while j < portals.len()
        invariant
            j <= portals.len(),
            points@ == had + portal_points(portals@.take(j as int), room as nat),
        decreases portals.len() - j,
    {
        proof {
            assert(portals@.take(j + 1).drop_last() =~= portals@.take(j as int));
            assert(portals@.take(j + 1).last() == portals[j as int]);
        }
        let portal = &portals[j];
        if portal.room_from as usize == room || portal.room_to as usize == room {
            let ghost before = points@;
            points.extend_from_slice(portal.corners.as_slice());
            assert(points@ =~= before + portal.corners@);
            assert(points@ =~= had + portal_points(portals@.take(j + 1), room as nat));
        }
        j = j + 1;
    }
    assert(portals@.take(portals.len() as int) =~= portals@);
}

/// Where a room really is, taken from what is attached to it: the props it
/// owns and the corners of the portals opening into it. Nothing when fewer
/// than three points vouch for it, which is too little to call a footprint.
pub fn estimate_room_box(
    attached: &Vec<u32>,
    positions: &Vec<Corner>,
    portals: &Vec<PortalBits>,
    room: usize,
) -> (r: Option<(Corner, Corner)>)
    ensures
        ({
            let points = room_points(attached@, positions@, portals@, room as nat);
            &&& r is Some <==> points.len() >= 3
            &&& r matches Some(b) ==> b.0 == least(points) && b.1 == greatest(points)
        }),
{
    let mut points: Vec<Corner> = Vec::new();
    let mut i: usize = 0;
    assert(attached@.take(0) =~= Seq::empty());
    while i < attached.len()
        invariant
            i <= attached.len(),
            points@ == own_points(attached@.take(i as int), positions@),
        decreases attached.len() - i,
    {
        proof {
            assert(attached@.take(i + 1).drop_last() =~= attached@.take(i as int));
            assert(attached@.take(i + 1).last() == attached[i as int]);
        }
        let at: usize = attached[i] as usize;
        if at < positions.len() {
            points.push(positions[at]);
        }
        i = i + 1;
    }
    assert(attached@.take(attached.len() as int) =~= attached@);
    push_portal_points(&mut points, portals, room);
    if points.len() < 3 {
        return None;
    }
    Some(box_around(&points))
}

/// A room as the warning about stacked rooms shows it.
#[derive(Debug)]
pub struct RoomText {
    pub index: usize,
    pub name: String,
    /// The bits of the lower height.
    pub z: u32,
    /// The heights, as they are shown.
    pub z_lo: String,
    pub z_hi: String,
}

/// The place of the first room of the given number.
pub open spec fn room_place(rooms: Seq<RoomText>, index: usize) -> Option<int>
    decreases rooms.len(),
{
    if rooms.len() == 0 {
        None
    } else {
        match room_place(rooms.drop_last(), index) {
            Some(k) => Some(k),
            None => if rooms.last().index == index {
                Some(rooms.len() - 1)
            } else {
                None
            },
        }
    }
}

fn find_room(rooms: &Vec<RoomText>, index: usize) -> (r: Option<usize>)
    ensures
        match r {
            Some(k) => room_place(rooms@, index) == Some(k as int) && k < rooms.len(),
            None => room_place(rooms@, index) == None::<int>,
        },
{
    let mut found: Option<usize> = None;
    let mut k: usize = 0;
    assert(rooms@.take(0) =~= Seq::empty());
    while k < rooms.len()
        invariant
            k <= rooms.len(),
            match found {
                Some(f) => room_place(rooms@.take(k as int), index) == Some(f as int) && f < k,
                None => room_place(rooms@.take(k as int), index) == None::<int>,
            },
        decreases rooms.len() - k,
    {
        proof {
            assert(rooms@.take(k + 1).drop_last() =~= rooms@.take(k as int));
            assert(rooms@.take(k + 1).last() == rooms[k as int]);
        }
        if found.is_none() && rooms[k].index == index {
            found = Some(k);
        }
        k = k + 1;
    }
    assert(rooms@.take(rooms.len() as int) =~= rooms@);
    found
}

/// The two rooms that the warning is about: the first pair, where both rooms
/// are on the page.
pub open spec fn stacked_rooms(rooms: Seq<RoomText>, stacked: Seq<(usize, usize)>) -> Option<(int, int)> {
    if stacked.len() == 0 {
        None
    } else {
        match (room_place(rooms, stacked[0].0), room_place(rooms, stacked[0].1)) {
            (Some(a), Some(b)) => Some((a, b)),
            _ => None,
        }
    }
}

fn first_stacked(rooms: &Vec<RoomText>, stacked: &Vec<(usize, usize)>) -> (r: Option<(usize, usize)>)
    ensures
        match r {
            Some((a, b)) => stacked_rooms(rooms@, stacked@) == Some((a as int, b as int)) && a
                < rooms.len() && b < rooms.len(),
            None => stacked_rooms(rooms@, stacked@) == None::<(int, int)>,
        },
{
    if stacked.len() == 0 {
        return None;
    }
    match (find_room(rooms, stacked[0].0), find_room(rooms, stacked[0].1)) {
        (Some(a), Some(b)) => Some((a, b)),
        _ => None,
    }
}

/// A room with its heights.
pub open spec fn room_text(r: RoomText) -> Seq<char> {
    "r"@ + decimal(r.index as nat) + " '"@ + r.name@ + "' "@ + r.z_lo@ + ".."@ + r.z_hi@
}

fn write_room(r: &RoomText) -> (out: String)
    ensures
        out@ == room_text(*r),
{
    let mut out = String::from_str("r");
    out.append(decimal_of(r.index as u64).as_str());
    out.append(" '");
    out.append(r.name.as_str());
    out.append("' ");
    out.append(r.z_lo.as_str());
    out.append("..");
    out.append(r.z_hi.as_str());
    out
}

/// The note about one room sitting on top of another, where `pairs` pairs do.
pub open spec fn stacked_text(upper: RoomText, lower: RoomText, pairs: nat) -> Seq<char> {
    "warning: rooms stack vertically ("@ + room_text(upper) + " over "@ + room_text(lower) + (if pairs
        == 1 {
        ""@
    } else {
        " and "@ + decimal((pairs - 1) as nat) + " more"@
    }) + "); use --floor-z Z or --z-range LO,HI to draw one storey"@
}

fn write_stacked(upper: &RoomText, lower: &RoomText, pairs: usize) -> (out: String)
    requires
        pairs >= 1,
    ensures
        out@ == stacked_text(*upper, *lower, pairs as nat),
{
    let mut more = String::from_str("");
    if pairs != 1 {
        more = String::from_str(" and ");
        more.append(decimal_of((pairs - 1) as u64).as_str());
        more.append(" more");
    }
    let mut out = String::from_str("warning: rooms stack vertically (");
    out.append(write_room(upper).as_str());
    out.append(" over ");
    out.append(write_room(lower).as_str());
    out.append(more.as_str());
    out.append("); use --floor-z Z or --z-range LO,HI to draw one storey");
    out
}

/// The one-line note about rooms sitting on top of each other, or nothing when
/// none do. The pairs hold the interior's own room numbers, not places in
/// `rooms`, since a room whose footprint could not be estimated is left out.
pub fn stacked_rooms_warning(rooms: &Vec<RoomText>, stacked: &Vec<(usize, usize)>) -> (r: Option<String>)
    ensures
        match stacked_rooms(rooms@, stacked@) {
            None => r is None,
            Some((a, b)) => {
                let (upper, lower) = if is_at_least(rooms[a].z, rooms[b].z) {
                    (rooms[a], rooms[b])
                } else {
                    (rooms[b], rooms[a])
                };
                r matches Some(line) && line@ == stacked_text(upper, lower, stacked@.len())
            },
        },
{
    match first_stacked(rooms, stacked) {
        None => None,
        Some((a, b)) => if at_least(rooms[a].z, rooms[b].z) {
            Some(write_stacked(&rooms[a], &rooms[b], stacked.len()))
        } else {
            Some(write_stacked(&rooms[b], &rooms[a], stacked.len()))
        },
    }
}

// ── The interior ────────────────────────────────────────────────────────────

/// A room of the interior.
#[derive(Debug)]
pub struct RoomInfo {
    pub name: String,
    /// Enough points vouch for where it is.
    pub has_evidence: bool,
}

/// An optional set of props.
#[derive(Debug)]
pub struct EntitySet {
    pub name_hash: u32,
    /// The archetypes it places.
    pub entities: Vec<u32>,
}

/// The interior that the plan is of.
#[derive(Debug)]
pub struct Interior {
    pub rooms: Vec<RoomInfo>,
    /// The archetypes it places.
    pub entities: Vec<u32>,
    pub sets: Vec<EntitySet>,
}

/// A room on the page, and whether its box is estimated.
#[derive(Debug, Clone, Copy, PartialEq, Eq, Structural)]
pub struct RoomPlan {
    pub index: usize,
    pub estimated: bool,
}

/// The rooms on the page. Where the type file never recorded their positions
/// each is estimated, or left out; room 0 is limbo, the world outside, whose
/// box is meant to swallow the interior.
pub open spec fn drawn_rooms(rooms: Seq<RoomInfo>, unpositioned: bool) -> Seq<RoomPlan>
    decreases rooms.len(),
{
    if rooms.len() == 0 {
        Seq::empty()
    } else {
        let before = drawn_rooms(rooms.drop_last(), unpositioned);
        let index = (rooms.len() - 1) as usize;
        if !unpositioned || index == 0 {
            before.push(RoomPlan { index, estimated: false })
        } else if rooms.last().has_evidence {
            before.push(RoomPlan { index, estimated: true })
        } else {
            before
        }
    }
}

/// Decides which rooms are on the page, and how each is placed.
pub fn plan_rooms(rooms: &Vec<RoomInfo>, unpositioned: bool) -> (out: Vec<RoomPlan>)
    ensures
        out@ == drawn_rooms(rooms@, unpositioned),
{
    let mut out: Vec<RoomPlan> = Vec::new();
    let mut i: usize = 0;
    assert(rooms@.take(0) =~= Seq::empty());
    while i < rooms.len()
        invariant
            i <= rooms.len(),
            out@ == drawn_rooms(rooms@.take(i as int), unpositioned),
        decreases rooms.len() - i,
    {
        proof {
            assert(rooms@.take(i + 1).drop_last() =~= rooms@.take(i as int));
            assert(rooms@.take(i + 1).last() == rooms[i as int]);
        }
        if !unpositioned || i == 0 {
            out.push(RoomPlan { index: i, estimated: false });
        } else if rooms[i].has_evidence {
            out.push(RoomPlan { index: i, estimated: true });
        }
        i = i + 1;
    }
    assert(rooms@.take(rooms.len() as int) =~= rooms@);
    out
}

/// The name a hash is labelled with: the stem of a file among the inputs, else
/// the name of the hash, else its placeholder.
pub open spec fn label_of(names: Map<u32, Seq<char>>, known: Map<u32, Seq<char>>, hash: u32) -> Seq<char> {
    if names.contains_key(hash) {
        names[hash]
    } else {
        resolved(known, hash)
    }
}

/// The name a hash is labelled with.
pub fn label(names: &HashMap<u32, String>, known: &NameTable, hash: u32) -> (out: String)
    ensures
        out@ == label_of(name_texts(names@), table(*known), hash),
{
    match names.get(&hash) {
        Some(name) => name.clone(),
        None => resolve(known, hash),
    }
}

/// What a mark stands for.
#[derive(Debug, Clone, Copy, PartialEq, Eq, Structural)]
pub enum MarkSource {
    /// An entity of the interior.
    Entity(usize),
    /// An entity of one of its sets.
    SetEntity { set: usize, entity: usize },
}

/// An entity on the page.
#[derive(Debug)]
pub struct Mark {
    pub source: MarkSource,
    pub label: String,
    /// Drawn faded: its set is not switched on.
    pub faded: bool,
}

/// A `Mark` with its text.
pub struct MarkView {
    pub source: MarkSource,
    pub label: Seq<char>,
    pub faded: bool,
}

impl View for Mark {
    type V = MarkView;

    open spec fn view(&self) -> MarkView {
        MarkView { source: self.source, label: self.label@, faded: self.faded }
    }
}

/// The marks of a list, with their texts.
pub open spec fn mark_views(list: Seq<Mark>) -> Seq<MarkView> {
    list.map_values(|m: Mark| m@)
}

/// The marks of the interior's own entities.
pub open spec fn entity_marks(
    entities: Seq<u32>,
    names: Map<u32, Seq<char>>,
    known: Map<u32, Seq<char>>,
) -> Seq<MarkView> {
    Seq::new(
        entities.len(),
        |i: int|
            MarkView {
                source: MarkSource::Entity(i as usize),
                label: label_of(names, known, entities[i]),
                faded: false,
            },
    )
}

/// A set is drawn faded: the instance names its default sets, and this is none
/// of them.
pub open spec fn is_faded(defaults: Seq<u32>, name_hash: u32) -> bool {
    defaults.len() > 0 && !defaults.contains(name_hash)
}

/// The marks of the entities of a set.
pub open spec fn set_marks(
    set: EntitySet,
    k: int,
    defaults: Seq<u32>,
    names: Map<u32, Seq<char>>,
    known: Map<u32, Seq<char>>,
) -> Seq<MarkView> {
    Seq::new(
        set.entities@.len(),
        |i: int|
            MarkView {
                source: MarkSource::SetEntity { set: k as usize, entity: i as usize },
                label: label_of(names, known, set.entities[i]),
                faded: is_faded(defaults, set.name_hash),
            },
    )
}

/// The marks of the entities of all sets.
pub open spec fn all_set_marks(
    sets: Seq<EntitySet>,
    defaults: Seq<u32>,
    names: Map<u32, Seq<char>>,
    known: Map<u32, Seq<char>>,
) -> Seq<MarkView>
    decreases sets.len(),
{
    if sets.len() == 0 {
        Seq::empty()
    } else {
        all_set_marks(sets.drop_last(), defaults, names, known) + set_marks(
            sets.last(),
            sets.len() - 1,
            defaults,
            names,
            known,
        )
    }
}

fn holds(list: &Vec<u32>, n: u32) -> (r: bool)
    ensures
        r == list@.contains(n),
{
    let mut i: usize = 0;
    while i < list.len()
        invariant
            i <= list.len(),
            forall|j: int| 0 <= j < i ==> #[trigger] list[j] != n,
        decreases list.len() - i,
    {
        if list[i] == n {
            assert(list@[i as int] == n);
            return true;
        }
        i = i + 1;
    }
    false
}

fn push_entity_marks(
    out: &mut Vec<Mark>,
    entities: &Vec<u32>,
    names: &HashMap<u32, String>,
    known: &NameTable,
)
    ensures
        mark_views(final(out)@) == mark_views(old(out)@) + entity_marks(
            entities@,
            name_texts(names@),
            table(*known),
        ),
{
    let ghost want = entity_marks(entities@, name_texts(names@), table(*known));
    let ghost had = mark_views(out@);
    let mut i: usize = 0;
    assert(had + want.take(0) =~= had);
    while i < entities.len()
        invariant
            i <= entities.len(),
            want == entity_marks(entities@, name_texts(names@), table(*known)),
            mark_views(out@) == had + want.take(i as int),
        decreases entities.len() - i,
    {
        let ghost so_far = mark_views(out@);
        let text = label(names, known, entities[i]);
        let ghost next = MarkView { source: MarkSource::Entity(i), label: text@, faded: false };
        out.push(Mark { source: MarkSource::Entity(i), label: text, faded: false });
        proof {
            assert(mark_views(out@) =~= so_far.push(next));
            assert(want[i as int] == next);
            assert(want.take(i + 1) =~= want.take(i as int).push(next));
            assert(mark_views(out@) =~= had + want.take(i + 1));
        }
        i = i + 1;
    }
    assert(want.take(entities.len() as int) =~= want);
}

fn push_set_marks(
    out: &mut Vec<Mark>,
    set: &EntitySet,
    k: usize,
    defaults: &Vec<u32>,
    names: &HashMap<u32, String>,
    known: &NameTable,
)
    ensures
        mark_views(final(out)@) == mark_views(old(out)@) + set_marks(
            *set,
            k as int,
            defaults@,
            name_texts(names@),
            table(*known),
        ),
{
    let ghost want = set_marks(*set, k as int, defaults@, name_texts(names@), table(*known));
    let ghost had = mark_views(out@);
    let faded: bool = defaults.len() > 0 && !holds(defaults, set.name_hash);
    let mut i: usize = 0;
    assert(had + want.take(0) =~= had);
    while i < set.entities.len()
        invariant
            i <= set.entities.len(),
            faded == is_faded(defaults@, set.name_hash),
            want == set_marks(*set, k as int, defaults@, name_texts(names@), table(*known)),
            mark_views(out@) == had + want.take(i as int),
        decreases set.entities.len() - i,
    {
        let ghost so_far = mark_views(out@);
        let text = label(names, known, set.entities[i]);
        let source = MarkSource::SetEntity { set: k, entity: i };
        let ghost next = MarkView { source, label: text@, faded };
        out.push(Mark { source, label: text, faded });
        proof {
            assert(mark_views(out@) =~= so_far.push(next));
            assert(want[i as int] == next);
            assert(want.take(i + 1) =~= want.take(i as int).push(next));
            assert(mark_views(out@) =~= had + want.take(i + 1));
        }
        i = i + 1;
    }
    assert(want.take(set.entities.len() as int) =~= want);
}

/// The entities that the interior puts on the page: its own, then those of
/// each set. An instance that names its default sets tells which of the
/// optional ones are actually switched on; the rest are drawn faded rather
/// than dropped.
pub fn plan_marks(
    interior: &Interior,
    defaults: &Vec<u32>,
    names: &HashMap<u32, String>,
    known: &NameTable,
) -> (out: Vec<Mark>)
    ensures
        mark_views(out@) == entity_marks(interior.entities@, name_texts(names@), table(*known))
            + all_set_marks(interior.sets@, defaults@, name_texts(names@), table(*known)),
{
    let ghost n = name_texts(names@);
    let ghost t = table(*known);
    let mut out: Vec<Mark> = Vec::new();
    assert(mark_views(out@) =~= Seq::empty());
    push_entity_marks(&mut out, &interior.entities, names, known);
    let ghost own = entity_marks(interior.entities@, n, t);
    assert(mark_views(out@) =~= own);
    let ghost sets = interior.sets@;
    let mut k: usize = 0;
    assert(sets.take(0) =~= Seq::empty());
    assert(mark_views(out@) =~= own + all_set_marks(sets.take(0), defaults@, n, t));
    while k < interior.sets.len()
        invariant
            k <= interior.sets.len(),
            sets == interior.sets@,
            n == name_texts(names@),
            t == table(*known),
            mark_views(out@) == own + all_set_marks(sets.take(k as int), defaults@, n, t),
        decreases interior.sets.len() - k,
    {
        proof {
            assert(sets.take(k + 1).drop_last() =~= sets.take(k as int));
            assert(sets.take(k + 1).last() == sets[k as int]);
        }
        push_set_marks(&mut out, &interior.sets[k], k, defaults, names, known);
        assert(mark_views(out@) =~= own + all_set_marks(sets.take(k + 1), defaults@, n, t));
        k = k + 1;
    }
    assert(sets.take(sets.len() as int) =~= sets);
    out
}

// ── Exterior maps ───────────────────────────────────────────────────────────

/// An entity of a map.
#[derive(Debug, Clone, Copy, PartialEq, Eq, Structural)]
pub struct ExteriorEntity {
    pub archetype_hash: u32,
    pub is_mlo_instance: bool,
    pub position: Corner,
}

/// The entity is on the page: no interior itself and, where only the
/// surroundings of the interior are of interest, among them.
pub open spec fn is_drawn(e: ExteriorEntity, around: Option<Area>) -> bool {
    !e.is_mlo_instance && (around matches Some(area) ==> lies_in(e.position, area))
}

/// The entities of a map that are on the page, by their places.
pub open spec fn drawn_places(entities: Seq<ExteriorEntity>, around: Option<Area>) -> Seq<int>
    decreases entities.len(),
{
    if entities.len() == 0 {
        Seq::empty()
    } else {
        let before = drawn_places(entities.drop_last(), around);
        if is_drawn(entities.last(), around) {
            before.push(entities.len() - 1)
        } else {
            before
        }
    }
}

/// The number of entities of a map that lie beyond the surroundings.
pub open spec fn beyond(entities: Seq<ExteriorEntity>, around: Option<Area>) -> nat
    decreases entities.len(),
{
    if entities.len() == 0 {
        0
    } else {
        beyond(entities.drop_last(), around) + (if !entities.last().is_mlo_instance && !is_drawn(
            entities.last(),
            around,
        ) {
            1nat
        } else {
            0
        })
    }
}

/// What a map puts on the page.
#[derive(Debug)]
pub struct ExteriorMap {
    /// The entities on the page, by their places.
    pub drawn: Vec<usize>,
    /// How many lie beyond the surroundings.
    pub skipped: usize,
}

/// Decides which entities of a map are on the page. On a plot of an interior
/// only its surroundings are of interest: the vanilla chunks a resource ships
/// place hundreds of entities over a kilometre, which would frame the page
/// around the whole block.
pub fn plan_exterior(entities: &Vec<ExteriorEntity>, around: Option<Area>) -> (r: ExteriorMap)
    ensures
        r.drawn@.map_values(|i: usize| i as int) == drawn_places(entities@, around),
        r.skipped == beyond(entities@, around),
{
    let mut drawn: Vec<usize> = Vec::new();
    let mut skipped: usize = 0;
    let mut i: usize = 0;
    assert(entities@.take(0) =~= Seq::empty());
    assert(drawn@.map_values(|i: usize| i as int) =~= Seq::<int>::empty());
    while i < entities.len()
        invariant
            i <= entities.len(),
            skipped <= i,
            skipped == beyond(entities@.take(i as int), around),
            drawn@.map_values(|i: usize| i as int) == drawn_places(entities@.take(i as int), around),
        decreases entities.len() - i,
    {
        proof {
            assert(entities@.take(i + 1).drop_last() =~= entities@.take(i as int));
            assert(entities@.take(i + 1).last() == entities[i as int]);
        }
        let e = entities[i];
        if !e.is_mlo_instance {
            let inside: bool = match around {
                Some(area) => is_in(e.position, area),
                None => true,
            };
            if !inside {
                skipped = skipped + 1;
            } else {
                let ghost before = drawn@.map_values(|i: usize| i as int);
                drawn.push(i);
                assert(drawn@.map_values(|i: usize| i as int) =~= before.push(i as int));
            }
        }
        i = i + 1;
    }
    assert(entities@.take(entities.len() as int) =~= entities@);
    ExteriorMap { drawn, skipped }
}

/// The number of entities of some maps.
pub open spec fn entity_total(maps: Seq<Vec<ExteriorEntity>>) -> nat
    decreases maps.len(),
{
    if maps.len() == 0 {
        0
    } else {
        entity_total(maps.drop_last()) + maps.last()@.len()
    }
}

/// How many entities of some maps are on the page.
pub open spec fn drawn_total(maps: Seq<Vec<ExteriorEntity>>, around: Option<Area>) -> nat
    decreases maps.len(),
{
    if maps.len() == 0 {
        0
    } else {
        drawn_total(maps.drop_last(), around) + drawn_places(maps.last()@, around).len()
    }
}

/// How many maps have an entity on the page.
pub open spec fn drawn_maps(maps: Seq<Vec<ExteriorEntity>>, around: Option<Area>) -> nat
    decreases maps.len(),
{
    if maps.len() == 0 {
        0
    } else {
        drawn_maps(maps.drop_last(), around) + (if drawn_places(maps.last()@, around).len() > 0 {
            1nat
        } else {
            0
        })
    }
}

/// How many entities of some maps lie beyond the surroundings.
pub open spec fn beyond_total(maps: Seq<Vec<ExteriorEntity>>, around: Option<Area>) -> nat
    decreases maps.len(),
{
    if maps.len() == 0 {
        0
    } else {
        beyond_total(maps.drop_last(), around) + beyond(maps.last()@, around)
    }
}

/// What the exterior maps put on the page.
#[derive(Debug)]
pub struct ExteriorPlan {
    pub maps: Vec<ExteriorMap>,
    /// How many entities are on the page, and from how many maps.
    pub entities: usize,
    pub drawn_maps: usize,
    /// How many lie beyond the surroundings.
    pub skipped: usize,
}

proof fn lemma_entity_totals(maps: Seq<Vec<ExteriorEntity>>, around: Option<Area>, n: int)
    requires
        0 <= n <= maps.len(),
    ensures
        drawn_total(maps.take(n), around) + beyond_total(maps.take(n), around) <= entity_total(maps),
    decreases maps.len(),
{
    if n < maps.len() {
        assert(maps.drop_last().take(n) =~= maps.take(n));
        lemma_entity_totals(maps.drop_last(), around, n);
    } else {
        assert(maps.take(n) =~= maps);
        if n > 0 {
            assert(maps.drop_last().take(n - 1) =~= maps.drop_last());
            lemma_entity_totals(maps.drop_last(), around, n - 1);
            lemma_each_entity_once(maps.last()@, around);
        }
    }
}

proof fn lemma_each_entity_once(entities: Seq<ExteriorEntity>, around: Option<Area>)
    ensures
        drawn_places(entities, around).len() + beyond(entities, around) <= entities.len(),
    decreases entities.len(),
{
    if entities.len() > 0 {
        lemma_each_entity_once(entities.drop_last(), around);
    }
}

/// Decides which entities of the exterior maps are on the page, and counts
/// them.
pub fn plan_exteriors(maps: &Vec<Vec<ExteriorEntity>>, around: Option<Area>) -> (r: ExteriorPlan)
    requires
        entity_total(maps@) <= usize::MAX,
    ensures
        r.maps.len() == maps.len(),
        forall|i: int|
            0 <= i < maps.len() ==> {
                &&& (#[trigger] r.maps[i]).drawn@.map_values(|k: usize| k as int) == drawn_places(
                    maps[i]@,
                    around,
                )
                &&& r.maps[i].skipped == beyond(maps[i]@, around)
            },
        r.entities == drawn_total(maps@, around),
        r.drawn_maps == drawn_maps(maps@, around),
        r.skipped == beyond_total(maps@, around),
{
    let mut list: Vec<ExteriorMap> = Vec::new();
    let mut entities: usize = 0;
    let mut drawn: usize = 0;
    let mut skipped: usize = 0;
    let mut i: usize = 0;
    assert(maps@.take(0) =~= Seq::empty());
    while i < maps.len()
        invariant
            i <= maps.len(),
            entity_total(maps@) <= usize::MAX,
            list.len() == i,
            forall|k: int|
                0 <= k < i ==> {
                    &&& (#[trigger] list[k]).drawn@.map_values(|k: usize| k as int) == drawn_places(
                        maps[k]@,
                        around,
                    )
                    &&& list[k].skipped == beyond(maps[k]@, around)
                },
            entities == drawn_total(maps@.take(i as int), around),
            drawn == drawn_maps(maps@.take(i as int), around),
            drawn <= i,
            skipped == beyond_total(maps@.take(i as int), around),
        decreases maps.len() - i,
    {
        let map = plan_exterior(&maps[i], around);
        proof {
            assert(maps@.take(i + 1).drop_last() =~= maps@.take(i as int));
            assert(maps@.take(i + 1).last() == maps[i as int]);
            assert(map.drawn@.map_values(|k: usize| k as int).len() == map.drawn@.len());
            lemma_entity_totals(maps@, around, i + 1);
        }
        entities = entities + map.drawn.len();
        if map.drawn.len() > 0 {
            drawn = drawn + 1;
        }
        skipped = skipped + map.skipped;
        list.push(map);
        i = i + 1;
    }
    assert(maps@.take(maps.len() as int) =~= maps@);
    ExteriorPlan { maps: list, entities, drawn_maps: drawn, skipped }
}

// ── Mesh layers ─────────────────────────────────────────────────────────────

/// A mesh among the inputs.
#[derive(Debug)]
pub struct MeshInfo {
    pub name: String,
    pub explicit: bool,
}

/// A mesh on the page.
#[derive(Debug, Clone, Copy, PartialEq, Eq, Structural)]
pub struct MeshPlan {
    pub index: usize,
    /// It goes through the placement.
    pub placed: bool,
}

/// The meshes that are drawn once: all but those that stand for an archetype
/// and were drawn per placement, which would only ghost at the origin.
pub open spec fn drawn_meshes(meshes: Seq<MeshInfo>, matched: Set<usize>, mlo: Option<u32>) -> Seq<MeshPlan>
    decreases meshes.len(),
{
    if meshes.len() == 0 {
        Seq::empty()
    } else {
        let before = drawn_meshes(meshes.drop_last(), matched, mlo);
        let index = (meshes.len() - 1) as usize;
        let mesh = meshes.last();
        if matched.contains(index) {
            before
        } else {
            before.push(MeshPlan { index, placed: is_own(mesh.name@, mesh.explicit, mlo) })
        }
    }
}

/// The lines about the meshes drawn in world space.
pub open spec fn mesh_reports(
    meshes: Seq<MeshInfo>,
    matched: Set<usize>,
    mlo: Option<u32>,
    placed: bool,
    what: Seq<char>,
) -> Seq<Seq<char>>
    decreases meshes.len(),
{
    if meshes.len() == 0 {
        Seq::empty()
    } else {
        let before = mesh_reports(meshes.drop_last(), matched, mlo, placed, what);
        let mesh = meshes.last();
        if !matched.contains((meshes.len() - 1) as usize) && placed && !is_own(
            mesh.name@,
            mesh.explicit,
            mlo,
        ) {
            before.push(mesh.name@ + ": not the interior's own "@ + what + "; drawn in world space"@)
        } else {
            before
        }
    }
}

/// Decides which meshes are drawn once, and which of them go through the
/// placement.
pub fn plan_meshes(
    meshes: &Vec<MeshInfo>,
    matched: &HashSet<usize>,
    mlo: Option<u32>,
    placed: bool,
    what: &str,
) -> (r: (Vec<MeshPlan>, Vec<String>))
    ensures
        r.0@ == drawn_meshes(meshes@, matched@, mlo),
        texts(r.1@) == mesh_reports(meshes@, matched@, mlo, placed, what@),
{
    let mut out: Vec<MeshPlan> = Vec::new();
    let mut reports: Vec<String> = Vec::new();
    let mut i: usize = 0;
    assert(meshes@.take(0) =~= Seq::empty());
    assert(texts(reports@) =~= Seq::empty());
    while i < meshes.len()
        invariant
            i <= meshes.len(),
            out@ == drawn_meshes(meshes@.take(i as int), matched@, mlo),
            texts(reports@) == mesh_reports(meshes@.take(i as int), matched@, mlo, placed, what@),
        decreases meshes.len() - i,
    {
        proof {
            assert(meshes@.take(i + 1).drop_last() =~= meshes@.take(i as int));
            assert(meshes@.take(i + 1).last() == meshes[i as int]);
        }
        if !matched.contains(&i) {
            let mesh = &meshes[i];
            let (own, report) = is_interior_mesh(
                mesh.name.as_str(),
                mesh.explicit,
                mlo,
                placed,
                what,
            );
            out.push(MeshPlan { index: i, placed: own });
            if let Some(line) = report {
                let ghost before = texts(reports@);
                reports.push(line);
                assert(texts(reports@) =~= before.push(line@));
            }
        }
        i = i + 1;
    }
    assert(meshes@.take(meshes.len() as int) =~= meshes@);
    (out, reports)
}

// ── The caption ─────────────────────────────────────────────────────────────

/// What the caption and the warnings of a page speak of.
#[derive(Debug)]
pub struct SceneFacts {
    /// The map that places the interior.
    pub source: Option<String>,
    /// Something on the page is in the interior's own coordinates.
    pub needs_placing: bool,
    pub has_navmesh: bool,
    pub mlo_count: usize,
    /// The name of the interior the plan is of.
    pub mlo_name: Option<String>,
    /// The heights that are drawn.
    pub band: String,
    pub exterior_entities: usize,
    pub exterior_maps: usize,
    pub exterior_skipped: usize,
    /// Only the surroundings of an interior are drawn.
    pub bounded: bool,
    pub stats: PropStats,
    pub no_props: bool,
    /// How many prop models may be drawn.
    pub budget: usize,
    pub drawable_triangles: usize,
    pub estimated_rooms: bool,
    pub skipped: Vec<Skipped>,
    pub notes: Vec<String>,
}

/// One text, if there is one.
pub open spec fn if_so(so: bool, line: Seq<char>) -> Seq<Seq<char>> {
    if so {
        seq![line]
    } else {
        Seq::empty()
    }
}

/// The files that were left out because they are encrypted.
pub open spec fn escrow_count(list: Seq<SkippedView>) -> nat
    decreases list.len(),
{
    if list.len() == 0 {
        0
    } else {
        escrow_count(list.drop_last()) + (if list.last().reason == SkipReason::Escrow {
            1nat
        } else {
            0
        })
    }
}

/// The line that says which of several interiors is drawn.
pub open spec fn several_text(count: nat, name: Seq<char>) -> Seq<char> {
    decimal(count) + " interiors loaded, drawing "@ + name + " (give the .ymap to pick one)"@
}

impl SceneFacts {
    /// Nothing says which of several declared interiors was meant.
    pub open spec fn is_ambiguous(self) -> bool {
        self.source is None && self.mlo_count > 1 && self.mlo_name is Some
    }

    /// The line about the placement.
    pub open spec fn placement_lines(self) -> Seq<Seq<char>> {
        match self.source {
            Some(map) => seq!["placement: "@ + map@],
            None => if_so(self.needs_placing, "MLO-local coordinates (no ymap given)"@),
        }
    }

    /// The lines about the exterior maps.
    pub open spec fn exterior_lines(self) -> Seq<Seq<char>> {
        if self.exterior_entities == 0 {
            Seq::empty()
        } else {
            seq![
                decimal(self.exterior_entities as nat) + " entities from "@ + decimal(
                    self.exterior_maps as nat,
                ) + (if self.exterior_maps == 1 {
                    " ymap"@
                } else {
                    " ymaps"@
                }) + (if self.bounded {
                    " around the interior"@
                } else {
                    ""@
                }),
            ] + if_so(
                self.stats.archetypes > 0 && !self.no_props,
                "props: "@ + join(self.stats.parts(), ", "@),
            )
        }
    }

    /// The line about the files that were left out.
    pub open spec fn skipped_lines(self) -> Seq<Seq<char>> {
        let escrow = escrow_count(skipped_views(self.skipped@));
        let unreadable = (self.skipped@.len() - escrow) as nat;
        if_so(
            self.skipped@.len() > 0,
            "not drawn: "@ + join(
                if_so(
                    escrow > 0,
                    decimal(escrow) + " escrow-encrypted "@ + (if escrow == 1 {
                        "file"@
                    } else {
                        "files"@
                    }),
                ) + if_so(unreadable > 0, decimal(unreadable) + " unreadable"@),
                ", "@,
            ),
        )
    }

    /// The caption of the page.
    pub open spec fn caption(self) -> Seq<Seq<char>> {
        self.placement_lines() + if_so(
            self.is_ambiguous(),
            several_text(self.mlo_count as nat, self.mlo_name->Some_0@),
        ) + seq![self.band@] + self.exterior_lines() + if_so(
            self.estimated_rooms,
            "room boxes estimated from props and portals (ytyp boxes are unpositioned)"@,
        ) + self.skipped_lines() + texts(self.notes@)
    }

    /// What is warned of.
    pub open spec fn warnings(self) -> Seq<Seq<char>> {
        if_so(
            self.has_navmesh && self.source is None && self.needs_placing,
            "warning: navmesh polygons are in world coordinates but the rest of the plan is in the interior's own; pass the .ymap that places it"@,
        ) + if_so(
            self.is_ambiguous(),
            "warning: "@ + several_text(self.mlo_count as nat, self.mlo_name->Some_0@),
        ) + if_so(
            self.exterior_entities > 0 && self.stats.over_budget > 0,
            "warning: "@ + decimal(self.stats.over_budget as nat) + " archetypes past --props "@ + decimal(
                self.budget as nat,
            ) + "; drawn as boxes or marks"@,
        ) + if_so(
            self.exterior_skipped > 0,
            decimal(self.exterior_skipped as nat)
                + " entities of the folder's exterior maps lie beyond the interior's surroundings; not drawn"@,
        ) + if_so(
            self.drawable_triangles > 2_000_000,
            "warning: "@ + decimal(self.drawable_triangles as nat)
                + " drawable triangles; --region, --no-props or --layers can keep the page tractable"@,
        )
    }
}

/// Whether something on the page is in the interior's own coordinates; a
/// navmesh cell on its own is already in world coordinates.
pub fn needs_placing(rooms: usize, portals: usize, interior_marks: usize, placed_meshes: usize) -> (r: bool)
    ensures
        r <==> rooms > 0 || portals > 0 || interior_marks > 0 || placed_meshes > 0,
{
    rooms > 0 || portals > 0 || interior_marks > 0 || placed_meshes > 0
}

fn push_if(out: &mut Vec<String>, so: bool, line: String)
    ensures
        texts(final(out)@) == texts(old(out)@) + if_so(so, line@),
{
    if so {
        out.push(line);
    }
    assert(texts(out@) =~= texts(old(out)@) + if_so(so, line@));
}

fn several_line(count: usize, name: &Option<String>) -> (out: String)
    ensures
        name is Some ==> out@ == several_text(count as nat, name->Some_0@),
{
    let mut out = decimal_of(count as u64);
    out.append(" interiors loaded, drawing ");
    if let Some(n) = name {
        out.append(n.as_str());
    }
    out.append(" (give the .ymap to pick one)");
    out
}

fn count_escrow(list: &Vec<Skipped>) -> (n: usize)
    ensures
        n == escrow_count(skipped_views(list@)),
        n <= list.len(),
{
    let ghost all = skipped_views(list@);
    let mut n: usize = 0;
    let mut i: usize = 0;
    assert(all.take(0) =~= Seq::empty());
    while i < list.len()
        invariant
            i <= list.len(),
            n <= i,
            all == skipped_views(list@),
            n == escrow_count(all.take(i as int)),
        decreases list.len() - i,
    {
        proof {
            assert(all.take(i + 1).drop_last() =~= all.take(i as int));
            assert(all.take(i + 1).last() == list[i as int]@);
        }
        match list[i].reason {
            SkipReason::Escrow => {
                n = n + 1;
            },
            SkipReason::Unreadable => {},
        }
        i = i + 1;
    }
    assert(all.take(all.len() as int) =~= all);
    n
}

fn placement_line(facts: &SceneFacts, out: &mut Vec<String>)
    ensures
        texts(final(out)@) == texts(old(out)@) + facts.placement_lines(),
{
    match &facts.source {
        Some(map) => {
            let mut line = String::from_str("placement: ");
            line.append(map.as_str());
            push_if(out, true, line);
        },
        None => {
            push_if(
                out,
                facts.needs_placing,
                String::from_str("MLO-local coordinates (no ymap given)"),
            );
        },
    }
    assert(texts(out@) =~= texts(old(out)@) + facts.placement_lines());
}

fn exterior_line(facts: &SceneFacts, out: &mut Vec<String>)
    ensures
        texts(final(out)@) == texts(old(out)@) + facts.exterior_lines(),
{
    if facts.exterior_entities > 0 {
        let mut line = decimal_of(facts.exterior_entities as u64);
        line.append(" entities from ");
        line.append(decimal_of(facts.exterior_maps as u64).as_str());
        if facts.exterior_maps == 1 {
            line.append(" ymap");
        } else {
            line.append(" ymaps");
        }
        if facts.bounded {
            line.append(" around the interior");
        } else {
            line.append("");
        }
        push_if(out, true, line);
        let props = facts.stats.line();
        push_if(out, facts.stats.archetypes > 0 && !facts.no_props, props);
    }
    assert(texts(out@) =~= texts(old(out)@) + facts.exterior_lines());
}

fn skipped_line(facts: &SceneFacts, out: &mut Vec<String>)
    ensures
        texts(final(out)@) == texts(old(out)@) + facts.skipped_lines(),
{
    let escrow: usize = count_escrow(&facts.skipped);
    let unreadable: usize = facts.skipped.len() - escrow;
    let mut parts: Vec<String> = Vec::new();
    assert(texts(parts@) =~= Seq::empty());
    let mut part = decimal_of(escrow as u64);
    part.append(" escrow-encrypted ");
    if escrow == 1 {
        part.append("file");
    } else {
        part.append("files");
    }
    push_if(&mut parts, escrow > 0, part);
    let mut part = decimal_of(unreadable as u64);
    part.append(" unreadable");
    push_if(&mut parts, unreadable > 0, part);
    assert(texts(parts@) =~= if_so(
        escrow > 0,
        decimal(escrow as nat) + " escrow-encrypted "@ + (if escrow == 1 {
            "file"@
        } else {
            "files"@
        }),
    ) + if_so(unreadable > 0, decimal(unreadable as nat) + " unreadable"@));
    let mut line = String::from_str("not drawn: ");
    line.append(join_with(&parts, ", ").as_str());
    push_if(out, facts.skipped.len() > 0, line);
}

/// The caption of a page: where the interior is placed, which one it is, the
/// heights, the exterior maps, and what could not be drawn.
pub fn write_caption(facts: &SceneFacts) -> (out: Vec<String>)
    ensures
        texts(out@) == facts.caption(),
{
    let mut out: Vec<String> = Vec::new();
    assert(texts(out@) =~= Seq::empty());
    placement_line(facts, &mut out);
    assert(texts(out@) =~= facts.placement_lines());
    let ambiguous: bool = facts.source.is_none() && facts.mlo_count > 1 && facts.mlo_name.is_some();
    push_if(&mut out, ambiguous, several_line(facts.mlo_count, &facts.mlo_name));
    push_if(&mut out, true, facts.band.clone());
    exterior_line(facts, &mut out);
    push_if(
        &mut out,
        facts.estimated_rooms,
        String::from_str("room boxes estimated from props and portals (ytyp boxes are unpositioned)"),
    );
    skipped_line(facts, &mut out);
    let ghost before = texts(out@);
    let mut notes = copy_texts(&facts.notes);
    let ghost more = texts(notes@);
    let ghost first = out@;
    out.append(&mut notes);
    assert(texts(out@) =~= before + more);
    assert(texts(out@) =~= facts.caption());
    out
}

/// What is warned of on a page.
pub fn write_warnings(facts: &SceneFacts) -> (out: Vec<String>)
    ensures
        texts(out@) == facts.warnings(),
{
    let mut out: Vec<String> = Vec::new();
    assert(texts(out@) =~= Seq::empty());
    push_if(
        &mut out,
        facts.has_navmesh && facts.source.is_none() && facts.needs_placing,
        String::from_str(
            "warning: navmesh polygons are in world coordinates but the rest of the plan is in the interior's own; pass the .ymap that places it",
        ),
    );
    let ambiguous: bool = facts.source.is_none() && facts.mlo_count > 1 && facts.mlo_name.is_some();
    let mut line = String::from_str("warning: ");
    line.append(several_line(facts.mlo_count, &facts.mlo_name).as_str());
    push_if(&mut out, ambiguous, line);
    let mut line = String::from_str("warning: ");
    line.append(decimal_of(facts.stats.over_budget as u64).as_str());
    line.append(" archetypes past --props ");
    line.append(decimal_of(facts.budget as u64).as_str());
    line.append("; drawn as boxes or marks");
    push_if(&mut out, facts.exterior_entities > 0 && facts.stats.over_budget > 0, line);
    let mut line = decimal_of(facts.exterior_skipped as u64);
    line.append(
        " entities of the folder's exterior maps lie beyond the interior's surroundings; not drawn",
    );
    push_if(&mut out, facts.exterior_skipped > 0, line);
    let mut line = String::from_str("warning: ");
    line.append(decimal_of(facts.drawable_triangles as u64).as_str());
    line.append(
        " drawable triangles; --region, --no-props or --layers can keep the page tractable",
    );
    push_if(&mut out, facts.drawable_triangles > 2_000_000, line);
    assert(texts(out@) =~= facts.warnings());
    out
}

/// The heading of the page, where the caller gives none.
pub fn scene_title(title: &Option<String>, label: &str, region: &Option<String>, band: &str) -> (out: String)
    ensures
        out@ == (match (*title, *region) {
            (Some(t), _) => t@,
            (None, Some(r)) => label@ + " \u{2014} "@ + r@ + " \u{2014} "@ + band@,
            (None, None) => label@ + " \u{2014} "@ + band@,
        }),
{
    if let Some(t) = title {
        return t.clone();
    }
    let mut out = label.to_owned();
    out.append(" \u{2014} ");
    if let Some(r) = region {
        out.append(r.as_str());
        out.append(" \u{2014} ");
    }
    out.append(band);
    out
}

// ── Laws ────────────────────────────────────────────────────────────────────

/// An instance of a declared interior places that interior, however many
/// others are declared.
pub proof fn law_instance_picks_its_interior(maps: Seq<PlacedMap>, mlos: Seq<u32>)
    requires
        matching_map(maps, mlos) is Some,
    ensures
        ({
            let (i, j, k) = matching_map(maps, mlos)->Some_0;
            0 <= i < maps.len() && 0 <= j < maps[i].instances.len() && 0 <= k < mlos.len() && mlos[k]
                == maps[i].instances[j]
        }),
    decreases maps.len(),
{
    if matching_map(maps.drop_last(), mlos) is Some {
        law_instance_picks_its_interior(maps.drop_last(), mlos);
    } else {
        lemma_matching_instance(maps.last().instances@, mlos);
    }
}

proof fn lemma_matching_instance(instances: Seq<u32>, mlos: Seq<u32>)
    requires
        matching_instance(instances, mlos) is Some,
    ensures
        ({
            let (j, k) = matching_instance(instances, mlos)->Some_0;
            0 <= j < instances.len() && 0 <= k < mlos.len() && mlos[k] == instances[j]
        }),
    decreases instances.len(),
{
    if matching_instance(instances.drop_last(), mlos) is Some {
        lemma_matching_instance(instances.drop_last(), mlos);
    } else {
        lemma_mlo_place(mlos, instances.last());
    }
}

proof fn lemma_mlo_place(mlos: Seq<u32>, hash: u32)
    requires
        mlo_place(mlos, hash) is Some,
    ensures
        0 <= mlo_place(mlos, hash)->Some_0 < mlos.len(),
        mlos[mlo_place(mlos, hash)->Some_0] == hash,
    decreases mlos.len(),
{
    if mlo_place(mlos.drop_last(), hash) is Some {
        lemma_mlo_place(mlos.drop_last(), hash);
    }
}

/// Every entity of an exterior map that is no interior is either on the page
/// or counted as lying beyond; without an interior none is left out.
pub proof fn law_exterior_entities_are_drawn_or_counted(entities: Seq<ExteriorEntity>, around: Option<Area>)
    ensures
        drawn_places(entities, around).len() + beyond(entities, around) == drawn_places(
            entities,
            None,
        ).len(),
        around is None ==> beyond(entities, around) == 0,
    decreases entities.len(),
{
    if entities.len() > 0 {
        law_exterior_entities_are_drawn_or_counted(entities.drop_last(), around);
    }
}

} // verus!
