//! Maps (`.ymap`): the header and the entities.
use vstd::prelude::*;
use vstd::string::*;
use crate::bits::{is_box, is_finite_box};
use crate::commands::resource::checks::Checks;
use crate::commands::resource::numbers::{count_shown, shown_count, Extents, Number, Point};
use crate::formats::{
    instance_views, map_entities, map_header, map_instances, parse_ymap_entities, parse_ymap_header,
    parse_ymap_mlo_instances, EntityBits, HeaderBits, InstanceBits, InstanceView,
};
use crate::json_text::{array, array_of, json_hash_name, json_name, quote, quoted};
use crate::name_table::{resolve, resolved, table};
use crate::names::{in_order, NameSet};
use crate::text::{
    bool_of, bool_text, copy_texts, decimal, decimal_of, hex_digits_upper, hex_upper, hex_upper_of,
    hex_upper_short, join, join_with, pad_left, pad_right, padded_left, padded_right,
    signed_decimal, signed_of, texts, unlines,
};
use crate::writer::{unlines_of, write_each, write_first, written, Writes};
use rage_formats::NameTable;

verus! {

// ── What a map holds ────────────────────────────────────────────────────────

/// What is read of a map, its fractional numbers as bits.
#[derive(Debug)]
pub struct RawMap {
    pub header: HeaderBits,
    pub entities: Vec<EntityBits>,
    pub instances: Vec<InstanceBits>,
}

/// What a map says of itself.
#[derive(Debug)]
pub struct MapHeader {
    pub bits: HeaderBits,
    pub streaming: Extents,
    pub extents: Extents,
}

/// The fractional numbers of an entity, as they are shown.
#[derive(Debug)]
pub struct EntityShown {
    pub position: Point,
    /// The stored rotation, as JSON writes its four numbers.
    pub rotation: Vec<String>,
    /// The heading in degrees.
    pub yaw: Number,
    pub scale_xy: Number,
    pub scale_z: Number,
    pub lod_dist: Number,
}

/// Something that a map places.
#[derive(Debug)]
pub struct MapEntity {
    pub bits: EntityBits,
    pub shown: EntityShown,
}

/// An interior that a map places.
#[derive(Debug)]
pub struct MapInstance {
    pub bits: InstanceBits,
    pub position: Point,
}

/// The contents of a map.
#[derive(Debug)]
pub struct MapFile {
    pub header: MapHeader,
    pub entities: Vec<MapEntity>,
    pub instances: Vec<MapInstance>,
}

// ── Reading ─────────────────────────────────────────────────────────────────

/// What is read of a map: its header, its entities and its interiors, or the
/// first thing that is wrong with it.
pub open spec fn map_failure(data: Seq<u8>) -> Option<Seq<char>> {
    match (map_header(data), map_entities(data), map_instances(data)) {
        (Err(e), _, _) => Some(e),
        (Ok(_), Err(e), _) => Some(e),
        (Ok(_), Ok(_), Err(e)) => Some(e),
        (Ok(_), Ok(_), Ok(_)) => None,
    }
}

fn map_error(reason: &str) -> (e: String)
    ensures
        e@ == "failed to parse map: "@ + reason@,
{
    let mut e = String::from_str("failed to parse map: ");
    e.append(reason);
    e
}

/// Reads a map.
pub fn read_map(data: &[u8]) -> (r: Result<RawMap, String>)
    ensures
        match r {
            Ok(map) => {
                &&& map_header(data@) == Ok::<HeaderBits, Seq<char>>(map.header)
                &&& map_entities(data@) == Ok::<Seq<EntityBits>, Seq<char>>(map.entities@)
                &&& map_instances(data@) == Ok::<Seq<InstanceView>, Seq<char>>(
                    instance_views(map.instances@),
                )
            },
            Err(e) => map_failure(data@) is Some && e@ == "failed to parse map: "@ + map_failure(
                data@,
            )->Some_0,
        },
{
    let header = match parse_ymap_header(data) {
        Ok(h) => h,
        Err(e) => {
            return Err(map_error(e.as_str()));
        },
    };
    let entities = match parse_ymap_entities(data) {
        Ok(list) => list,
        Err(e) => {
            return Err(map_error(e.as_str()));
        },
    };
    match parse_ymap_mlo_instances(data) {
        Ok(instances) => Ok(RawMap { header, entities, instances }),
        Err(e) => Err(map_error(e.as_str())),
    }
}

/// The fractional numbers of a map, as they are shown.
#[derive(Debug)]
pub struct MapShown {
    pub streaming: Extents,
    pub extents: Extents,
    pub entities: Vec<EntityShown>,
    /// The positions of the interiors.
    pub instances: Vec<Point>,
}

impl EntityShown {
    /// The texts.
    pub open spec fn texts(self) -> (
        Seq<(Seq<char>, Seq<char>)>,
        Seq<Seq<char>>,
        Seq<(Seq<char>, Seq<char>)>,
    ) {
        (
            self.position.texts(),
            texts(self.rotation@),
            seq![
                self.yaw.texts(),
                self.scale_xy.texts(),
                self.scale_z.texts(),
                self.lod_dist.texts(),
            ],
        )
    }

    fn copy(&self) -> (out: EntityShown)
        ensures
            out.texts() == self.texts(),
    {
        let out = EntityShown {
            position: self.position.copy(),
            rotation: copy_texts(&self.rotation),
            yaw: self.yaw.copy(),
            scale_xy: self.scale_xy.copy(),
            scale_z: self.scale_z.copy(),
            lod_dist: self.lod_dist.copy(),
        };
        assert(out.texts().2 =~= self.texts().2);
        out
    }
}

fn copy_instance(i: &InstanceBits) -> (out: InstanceBits)
    ensures
        out@ == i@,
{
    let mut sets: Vec<u32> = Vec::new();
    let mut k: usize = 0;
    assert(sets@ =~= i.default_entity_sets@.take(0));
    while k < i.default_entity_sets.len()
        invariant
            k <= i.default_entity_sets.len(),
            sets@ == i.default_entity_sets@.take(k as int),
        decreases i.default_entity_sets.len() - k,
    {
        sets.push(i.default_entity_sets[k]);
        k = k + 1;
        assert(sets@ =~= i.default_entity_sets@.take(k as int));
    }
    assert(i.default_entity_sets@.take(k as int) =~= i.default_entity_sets@);
    InstanceBits {
        archetype_hash: i.archetype_hash,
        position: i.position,
        rotation: i.rotation,
        scale_xy: i.scale_xy,
        scale_z: i.scale_z,
        group_id: i.group_id,
        floor_id: i.floor_id,
        default_entity_sets: sets,
        num_exit_portals: i.num_exit_portals,
    }
}

/// The map is the one that was read, with each number as it is shown.
pub open spec fn is_shown(map: MapFile, raw: RawMap, shown: MapShown) -> bool {
    &&& map.header.bits == raw.header
    &&& map.header.streaming.texts() == shown.streaming.texts()
    &&& map.header.extents.texts() == shown.extents.texts()
    &&& map.entities.len() == raw.entities.len()
    &&& forall|i: int|
        0 <= i < raw.entities.len() ==> (#[trigger] map.entities[i]).bits == raw.entities[i]
            && map.entities[i].shown.texts() == shown.entities[i].texts()
    &&& map.instances.len() == raw.instances.len()
    &&& forall|i: int|
        0 <= i < raw.instances.len() ==> (#[trigger] map.instances[i]).bits@ == raw.instances[i]@
            && map.instances[i].position.texts() == shown.instances[i].texts()
}

/// Puts each number of a map that was read beside the way it is shown; nothing
/// where the numbers are not those of the map.
pub fn show_map(raw: &RawMap, shown: &MapShown) -> (r: Option<MapFile>)
    ensures
        r is Some <==> shown.entities.len() == raw.entities.len() && shown.instances.len()
            == raw.instances.len(),
        r matches Some(map) ==> is_shown(map, *raw, *shown),
{
    if shown.entities.len() != raw.entities.len() || shown.instances.len() != raw.instances.len() {
        return None;
    }
    let mut entities: Vec<MapEntity> = Vec::new();
    let mut i: usize = 0;
    while i < raw.entities.len()
        invariant
            i <= raw.entities.len(),
            shown.entities.len() == raw.entities.len(),
            entities.len() == i,
            forall|k: int|
                0 <= k < i ==> (#[trigger] entities[k]).bits == raw.entities[k]
                    && entities[k].shown.texts() == shown.entities[k].texts(),
        decreases raw.entities.len() - i,
    {
        entities.push(MapEntity { bits: raw.entities[i], shown: shown.entities[i].copy() });
        i = i + 1;
    }
    let mut instances: Vec<MapInstance> = Vec::new();
    let mut j: usize = 0;
    while j < raw.instances.len()
        invariant
            j <= raw.instances.len(),
            shown.instances.len() == raw.instances.len(),
            instances.len() == j,
            forall|k: int|
                0 <= k < j ==> (#[trigger] instances[k]).bits@ == raw.instances[k]@
                    && instances[k].position.texts() == shown.instances[k].texts(),
        decreases raw.instances.len() - j,
    {
        instances.push(
            MapInstance {
                bits: copy_instance(&raw.instances[j]),
                position: shown.instances[j].copy(),
            },
        );
        j = j + 1;
    }
    let header = MapHeader {
        bits: raw.header,
        streaming: shown.streaming.copy(),
        extents: shown.extents.copy(),
    };
    Some(MapFile { header, entities, instances })
}

// ── Flags ───────────────────────────────────────────────────────────────────

/// The name of a bit of an entity's flags.
pub open spec fn entity_flag(i: nat) -> Seq<char> {
    if i == 0 { "allow full rotation"@ }
    else if i == 1 { "stream low priority"@ }
    else if i == 2 { "disable embedded collision"@ }
    else if i == 3 { "lod in parent map"@ }
    else if i == 4 { "lod adopt me"@ }
    else if i == 5 { "static entity"@ }
    else if i == 6 { "interior lod"@ }
    else if i == 7 { "lod use alt fade"@ }
    else if i == 8 { "under water"@ }
    else if i == 9 { "doesn't touch water"@ }
    else if i == 10 { "doesn't spawn peds"@ }
    else if i == 11 { "cast static shadows"@ }
    else if i == 12 { "cast dynamic shadows"@ }
    else if i == 13 { "ignore time in child rendering"@ }
    else if i == 14 { "don't render in shadows"@ }
    else if i == 15 { "only render in shadows"@ }
    else if i == 16 { "don't render in reflections"@ }
    else if i == 17 { "only render in reflections"@ }
    else if i == 18 { "don't render in water reflections"@ }
    else if i == 19 { "only render in water reflections"@ }
    else if i == 20 { "don't render in mirror reflections"@ }
    else if i == 21 { "only render in mirror reflections"@ }
    else if i == 22 { "don't render in stream"@ }
    else if i == 23 { "streaming ignore"@ }
    else if i == 24 { "don't cast shadows"@ }
    else { "unk"@ + decimal(i) }
}

fn name_of_flag(i: u32) -> (out: String)
    ensures
        out@ == entity_flag(i as nat),
{
    if i < 16 {
        name_of_low_flag(i)
    } else {
        name_of_high_flag(i)
    }
}

fn name_of_low_flag(i: u32) -> (out: String)
    requires
        i < 16,
    ensures
        out@ == entity_flag(i as nat),
{
    if i == 0 { String::from_str("allow full rotation") }
    else if i == 1 { String::from_str("stream low priority") }
    else if i == 2 { String::from_str("disable embedded collision") }
    else if i == 3 { String::from_str("lod in parent map") }
    else if i == 4 { String::from_str("lod adopt me") }
    else if i == 5 { String::from_str("static entity") }
    else if i == 6 { String::from_str("interior lod") }
    else if i == 7 { String::from_str("lod use alt fade") }
    else if i == 8 { String::from_str("under water") }
    else if i == 9 { String::from_str("doesn't touch water") }
    else if i == 10 { String::from_str("doesn't spawn peds") }
    else if i == 11 { String::from_str("cast static shadows") }
    else if i == 12 { String::from_str("cast dynamic shadows") }
    else if i == 13 { String::from_str("ignore time in child rendering") }
    else if i == 14 { String::from_str("don't render in shadows") }
    else { String::from_str("only render in shadows") }
}

fn name_of_high_flag(i: u32) -> (out: String)
    requires
        i >= 16,
    ensures
        out@ == entity_flag(i as nat),
{
    if i == 16 { String::from_str("don't render in reflections") }
    else if i == 17 { String::from_str("only render in reflections") }
    else if i == 18 { String::from_str("don't render in water reflections") }
    else if i == 19 { String::from_str("only render in water reflections") }
    else if i == 20 { String::from_str("don't render in mirror reflections") }
    else if i == 21 { String::from_str("only render in mirror reflections") }
    else if i == 22 { String::from_str("don't render in stream") }
    else if i == 23 { String::from_str("streaming ignore") }
    else if i == 24 { String::from_str("don't cast shadows") }
    else {
        let mut out = String::from_str("unk");
        out.append(decimal_of(i as u64).as_str());
        out
    }
}

/// The names of the bits below `n` that are set, from the lowest up.
pub open spec fn flag_names_below(flags: u32, n: nat) -> Seq<Seq<char>>
    decreases n,
{
    if n == 0 {
        Seq::empty()
    } else {
        let before = flag_names_below(flags, (n - 1) as nat);
        if flags & (1u32 << ((n - 1) as u32)) != 0 {
            before.push(entity_flag((n - 1) as nat))
        } else {
            before
        }
    }
}

/// The names of an entity's flags.
pub open spec fn entity_flags(flags: u32) -> Seq<Seq<char>> {
    flag_names_below(flags, 32)
}

/// The names of the bits of an entity's flags that are set.
pub fn entity_flag_names(flags: u32) -> (out: Vec<String>)
    ensures
        texts(out@) == entity_flags(flags),
{
    let mut out: Vec<String> = Vec::new();
    let mut i: u32 = 0;
    assert(texts(out@) =~= Seq::empty());
    while i < 32
        invariant
            i <= 32,
            texts(out@) == flag_names_below(flags, i as nat),
        decreases 32 - i,
    {
        if flags & (1u32 << i) != 0 {
            let ghost before = texts(out@);
            out.push(name_of_flag(i));
            assert(texts(out@) =~= before.push(entity_flag(i as nat)));
        }
        i = i + 1;
    }
    out
}

/// The names of a map's own flags.
pub open spec fn header_flags(flags: u32) -> Seq<Seq<char>> {
    (if flags & 1 != 0 {
        seq!["SCRIPTED"@]
    } else {
        Seq::empty()
    }) + (if flags & 2 != 0 {
        seq!["LOD"@]
    } else {
        Seq::empty()
    })
}

/// The names of a map's own flags that are set.
pub fn header_flag_names(flags: u32) -> (out: Vec<String>)
    ensures
        texts(out@) == header_flags(flags),
{
    let mut out: Vec<String> = Vec::new();
    if flags & 1 != 0 {
        out.push(String::from_str("SCRIPTED"));
    }
    if flags & 2 != 0 {
        out.push(String::from_str("LOD"));
    }
    assert(texts(out@) =~= header_flags(flags));
    out
}

/// The name of a bit of a map's content flags.
pub open spec fn content_flag(i: nat) -> Seq<char> {
    if i == 0 { "HD"@ }
    else if i == 1 { "LOD"@ }
    else if i == 2 { "SLOD2+"@ }
    else if i == 3 { "Interior"@ }
    else if i == 4 { "SLOD"@ }
    else if i == 5 { "Occlusion"@ }
    else if i == 6 { "Physics"@ }
    else if i == 7 { "LOD lights"@ }
    else if i == 8 { "Distant lights"@ }
    else if i == 9 { "Critical"@ }
    else { "Grass"@ }
}

fn name_of_content(i: u32) -> (out: String)
    ensures
        out@ == content_flag(i as nat),
{
    if i == 0 { String::from_str("HD") }
    else if i == 1 { String::from_str("LOD") }
    else if i == 2 { String::from_str("SLOD2+") }
    else if i == 3 { String::from_str("Interior") }
    else if i == 4 { String::from_str("SLOD") }
    else if i == 5 { String::from_str("Occlusion") }
    else if i == 6 { String::from_str("Physics") }
    else if i == 7 { String::from_str("LOD lights") }
    else if i == 8 { String::from_str("Distant lights") }
    else if i == 9 { String::from_str("Critical") }
    else { String::from_str("Grass") }
}

/// The names of the content flags below the bit `n` that are set.
pub open spec fn content_flags_below(flags: u32, n: nat) -> Seq<Seq<char>>
    decreases n,
{
    if n == 0 {
        Seq::empty()
    } else {
        let before = content_flags_below(flags, (n - 1) as nat);
        if flags & (1u32 << ((n - 1) as u32)) != 0 {
            before.push(content_flag((n - 1) as nat))
        } else {
            before
        }
    }
}

/// The names of a map's content flags, of which eleven are known.
pub open spec fn content_flags(flags: u32) -> Seq<Seq<char>> {
    content_flags_below(flags, 11)
}

/// The names of a map's content flags that are set.
pub fn content_flag_names(flags: u32) -> (out: Vec<String>)
    ensures
        texts(out@) == content_flags(flags),
{
    let mut out: Vec<String> = Vec::new();
    let mut i: u32 = 0;
    assert(texts(out@) =~= Seq::empty());
    while i < 11
        invariant
            i <= 11,
            texts(out@) == content_flags_below(flags, i as nat),
        decreases 11 - i,
    {
        if flags & (1u32 << i) != 0 {
            let ghost before = texts(out@);
            out.push(name_of_content(i));
            assert(texts(out@) =~= before.push(content_flag(i as nat)));
        }
        i = i + 1;
    }
    out
}

/// A set of names with those of a list.
pub open spec fn with_names(set: Set<Seq<char>>, list: Seq<Seq<char>>) -> Set<Seq<char>>
    decreases list.len(),
{
    if list.len() == 0 {
        set
    } else {
        with_names(set, list.drop_last()).insert(list.last())
    }
}

/// The names of the flags that any of some entities has.
pub open spec fn flags_seen(entities: Seq<MapEntity>) -> Set<Seq<char>>
    decreases entities.len(),
{
    if entities.len() == 0 {
        Set::empty()
    } else {
        with_names(flags_seen(entities.drop_last()), entity_flags(entities.last().bits.flags))
    }
}

fn add_flag_names(seen: &mut NameSet, flags: u32)
    requires
        old(seen).wf(),
    ensures
        final(seen).wf(),
        final(seen)@ == with_names(old(seen)@, entity_flags(flags)),
{
    let list = entity_flag_names(flags);
    let ghost all = texts(list@);
    let mut i: usize = 0;
    assert(all.take(0) =~= Seq::empty());
    while i < list.len()
        invariant
            i <= list.len(),
            all == texts(list@),
            seen.wf(),
            seen@ == with_names(old(seen)@, all.take(i as int)),
        decreases list.len() - i,
    {
        proof {
            assert(all.take(i + 1).drop_last() =~= all.take(i as int));
            assert(all.take(i + 1).last() == list[i as int]@);
        }
        seen.insert(list[i].as_str());
        i = i + 1;
    }
    assert(all.take(all.len() as int) =~= all);
}

/// The names of the flags that any of some entities has, in dictionary order.
pub fn seen_flag_names(entities: &Vec<MapEntity>) -> (out: Vec<String>)
    ensures
        texts(out@) == in_order(flags_seen(entities@)),
{
    let mut seen = NameSet::new();
    let mut i: usize = 0;
    assert(entities@.take(0) =~= Seq::empty());
    while i < entities.len()
        invariant
            i <= entities.len(),
            seen.wf(),
            seen@ == flags_seen(entities@.take(i as int)),
        decreases entities.len() - i,
    {
        proof {
            assert(entities@.take(i + 1).drop_last() =~= entities@.take(i as int));
            assert(entities@.take(i + 1).last() == entities[i as int]);
        }
        add_flag_names(&mut seen, entities[i].bits.flags);
        i = i + 1;
    }
    assert(entities@.take(entities.len() as int) =~= entities@);
    seen.sorted()
}

// ── Text ────────────────────────────────────────────────────────────────────

/// Writes an item of a map as a line.
pub struct MapLine<'a> {
    pub names: &'a NameTable,
}

/// What is said of an interior.
pub open spec fn mlo_note(is_mlo: bool) -> Seq<char> {
    if is_mlo {
        " (MLO)"@
    } else {
        ""@
    }
}

/// What is said of an interior.
pub fn write_mlo_note(is_mlo: bool) -> (out: &'static str)
    ensures
        out@ == mlo_note(is_mlo),
{
    if is_mlo {
        " (MLO)"
    } else {
        ""
    }
}

impl<'a> Writes<MapEntity> for MapLine<'a> {
    open spec fn text_of(&self, i: nat, item: &MapEntity) -> Seq<char> {
        "  "@ + pad_left(decimal(i), ' ', 4) + "  "@ + pad_right(
            resolved(table(*self.names), item.bits.archetype_hash),
            ' ',
            32,
        ) + " "@ + pad_left(item.shown.position.x.shown@, ' ', 10) + " "@ + pad_left(
            item.shown.position.y.shown@,
            ' ',
            10,
        ) + " "@ + pad_left(item.shown.position.z.shown@, ' ', 8) + " "@ + pad_left(item.shown.yaw.shown@, ' ', 6)
            + "\u{b0} "@ + pad_left(item.shown.scale_xy.shown@, ' ', 5) + " "@ + pad_left(
            item.shown.lod_dist.shown@,
            ' ',
            6,
        ) + "  0x"@ + hex_upper(item.bits.flags as nat) + mlo_note(item.bits.is_mlo_instance)
    }

    fn write(&self, i: usize, item: &MapEntity) -> (out: String) {
        let mut out = String::from_str("  ");
        out.append(padded_left(decimal_of(i as u64).as_str(), ' ', 4).as_str());
        out.append("  ");
        out.append(padded_right(resolve(self.names, item.bits.archetype_hash).as_str(), ' ', 32).as_str());
        out.append(" ");
        out.append(padded_left(item.shown.position.x.shown.as_str(), ' ', 10).as_str());
        out.append(" ");
        out.append(padded_left(item.shown.position.y.shown.as_str(), ' ', 10).as_str());
        out.append(" ");
        out.append(padded_left(item.shown.position.z.shown.as_str(), ' ', 8).as_str());
        out.append(" ");
        out.append(padded_left(item.shown.yaw.shown.as_str(), ' ', 6).as_str());
        out.append("\u{b0} ");
        out.append(padded_left(item.shown.scale_xy.shown.as_str(), ' ', 5).as_str());
        out.append(" ");
        out.append(padded_left(item.shown.lod_dist.shown.as_str(), ' ', 6).as_str());
        out.append("  0x");
        out.append(hex_upper_short(item.bits.flags).as_str());
        out.append(write_mlo_note(item.bits.is_mlo_instance));
        out
    }
}

/// The lines about a map whose file is called otherwise.
pub open spec fn mismatch_text(
    stem: Option<Seq<char>>,
    name_hash: u32,
    names: Map<u32, Seq<char>>,
) -> Seq<char> {
    match stem {
        Some(s) => "           warning: the file is called "@ + s + " but the map calls itself "@
            + resolved(names, name_hash) + " (0x"@ + hex_digits_upper(name_hash as nat, 8)
            + "); the game registers it as "@ + s
            + ",\n           so parent links and _manifest.ymf imapName entries that say "@ + resolved(
            names,
            name_hash,
        ) + " will not bind (renamed outside CodeWalker?)\n"@,
        None => ""@,
    }
}

fn write_mismatch(stem: &Option<String>, name_hash: u32, names: &NameTable) -> (out: String)
    ensures
        out@ == mismatch_text(
            match *stem {
                Some(s) => Some(s@),
                None => None,
            },
            name_hash,
            table(*names),
        ),
{
    match stem {
        Some(s) => {
            let internal = resolve(names, name_hash);
            let mut out = String::from_str("           warning: the file is called ");
            out.append(s.as_str());
            out.append(" but the map calls itself ");
            out.append(internal.as_str());
            out.append(" (0x");
            out.append(hex_upper_of(name_hash, 8).as_str());
            out.append("); the game registers it as ");
            out.append(s.as_str());
            out.append(",\n           so parent links and _manifest.ymf imapName entries that say ");
            out.append(internal.as_str());
            out.append(" will not bind (renamed outside CodeWalker?)\n");
            out
        },
        None => String::from_str(""),
    }
}

/// The name of a map's parent.
pub open spec fn parent_text(hash: u32, names: Map<u32, Seq<char>>) -> Seq<char> {
    if hash == 0 {
        "-"@
    } else {
        resolved(names, hash)
    }
}

/// The name of a map's parent, or of a texture dictionary: a dash for none.
pub fn write_parent(hash: u32, names: &NameTable) -> (out: String)
    ensures
        out@ == parent_text(hash, table(*names)),
{
    if hash == 0 {
        String::from_str("-")
    } else {
        resolve(names, hash)
    }
}

/// What is printed of a map's header.
pub open spec fn map_head_text(map: MapFile, names: NameTable, checks: Checks) -> Seq<char> {
    let h = map.header;
    let t = table(names);
    "Map:       "@ + resolved(t, h.bits.name_hash) + "  parent "@ + parent_text(h.bits.parent_hash, t) + "\n"@
        + mismatch_text(checks@.mismatch, h.bits.name_hash, t) + "Flags:     0x"@ + hex_upper(h.bits.flags as nat)
        + " "@ + join(header_flags(h.bits.flags), "|"@) + "  content 0x"@ + hex_upper(
        h.bits.content_flags as nat,
    ) + " "@ + join(content_flags(h.bits.content_flags), "|"@) + "\n"@ + (if is_box(h.bits.streaming_min, h.bits.streaming_max) {
        "Streaming: "@ + h.streaming.text() + "\n"@
    } else {
        ""@
    }) + (if is_box(h.bits.entities_min, h.bits.entities_max) && map.entities.len() > 0 {
        "Extents:   "@ + h.extents.text() + "\n"@
    } else {
        ""@
    }) + "Entities:  "@ + decimal(map.entities.len() as nat) + " ("@ + decimal(
        map.instances.len() as nat,
    ) + " MLO instances)\n"@
}

fn write_map_head(map: &MapFile, names: &NameTable, checks: &Checks) -> (out: String)
    ensures
        out@ == map_head_text(*map, *names, *checks),
{
    let h = &map.header;
    let mut out = String::from_str("Map:       ");
    out.append(resolve(names, h.bits.name_hash).as_str());
    out.append("  parent ");
    out.append(write_parent(h.bits.parent_hash, names).as_str());
    out.append("\n");
    out.append(write_mismatch(&checks.map_name_mismatch, h.bits.name_hash, names).as_str());
    out.append("Flags:     0x");
    out.append(hex_upper_short(h.bits.flags).as_str());
    out.append(" ");
    out.append(join_with(&header_flag_names(h.bits.flags), "|").as_str());
    out.append("  content 0x");
    out.append(hex_upper_short(h.bits.content_flags).as_str());
    out.append(" ");
    out.append(join_with(&content_flag_names(h.bits.content_flags), "|").as_str());
    out.append("\n");
    let mut streaming = String::from_str("");
    if is_finite_box(h.bits.streaming_min, h.bits.streaming_max) {
        streaming = String::from_str("Streaming: ");
        streaming.append(h.streaming.show().as_str());
        streaming.append("\n");
    }
    out.append(streaming.as_str());
    let mut extents = String::from_str("");
    if is_finite_box(h.bits.entities_min, h.bits.entities_max) && map.entities.len() > 0 {
        extents = String::from_str("Extents:   ");
        extents.append(h.extents.show().as_str());
        extents.append("\n");
    }
    out.append(extents.as_str());
    out.append("Entities:  ");
    out.append(decimal_of(map.entities.len() as u64).as_str());
    out.append(" (");
    out.append(decimal_of(map.instances.len() as u64).as_str());
    out.append(" MLO instances)\n");
    out
}

/// What is said of the items that a limit leaves out.
pub open spec fn more_text(left: nat) -> Seq<char> {
    if left == 0 {
        ""@
    } else {
        "  ... "@ + decimal(left) + " more (--limit 0 for all)\n"@
    }
}

/// What is said of the items that a limit leaves out.
pub fn write_more(left: usize) -> (out: String)
    ensures
        out@ == more_text(left as nat),
{
    if left == 0 {
        return String::from_str("");
    }
    let mut out = String::from_str("  ... ");
    out.append(decimal_of(left as u64).as_str());
    out.append(" more (--limit 0 for all)\n");
    out
}

/// The line that lists the flags of the entities.
pub open spec fn seen_text(seen: Seq<Seq<char>>) -> Seq<char> {
    if seen.len() == 0 {
        ""@
    } else {
        "Entity flags seen: "@ + join(seen, ", "@) + "\n"@
    }
}

/// What is printed of a map: its header, then as many entities as the limit
/// allows, then the flags of all of them.
pub open spec fn map_text(map: MapFile, names: NameTable, checks: Checks, limit: nat) -> Seq<char> {
    let head = map_head_text(map, names, checks);
    let count = shown_count(map.entities@.len(), limit);
    if map.entities.len() == 0 {
        head
    } else {
        head
            + "     #  archetype                                 x          y        z     yaw scale    lod  flags\n"@
            + unlines(written(MapLine { names: &names }, map.entities@.take(count as int)))
            + more_text((map.entities@.len() - count) as nat) + seen_text(
            in_order(flags_seen(map.entities@)),
        )
    }
}

/// Prints a map.
pub fn write_map(map: &MapFile, names: &NameTable, checks: &Checks, limit: usize) -> (out: String)
    ensures
        out@ == map_text(*map, *names, *checks, limit as nat),
{
    let mut out = write_map_head(map, names, checks);
    if map.entities.len() == 0 {
        return out;
    }
    let count: usize = count_shown(map.entities.len(), limit);
    out.append(
        "     #  archetype                                 x          y        z     yaw scale    lod  flags\n",
    );
    out.append(unlines_of(&write_first(&MapLine { names }, &map.entities, count)).as_str());
    out.append(write_more(map.entities.len() - count).as_str());
    let seen = seen_flag_names(&map.entities);
    let mut line = String::from_str("");
    if seen.len() > 0 {
        line = String::from_str("Entity flags seen: ");
        line.append(join_with(&seen, ", ").as_str());
        line.append("\n");
    }
    out.append(line.as_str());
    out
}

// ── JSON ────────────────────────────────────────────────────────────────────

/// Writes a text as a JSON value.
pub struct QuotedText;

impl Writes<String> for QuotedText {
    open spec fn text_of(&self, i: nat, item: &String) -> Seq<char> {
        quoted(item@)
    }

    fn write(&self, i: usize, item: &String) -> (out: String) {
        quote(item.as_str())
    }
}

/// The texts as JSON values.
pub open spec fn quoted_all(list: Seq<Seq<char>>) -> Seq<Seq<char>> {
    list.map_values(|s: Seq<char>| quoted(s))
}

fn quote_all(list: &Vec<String>) -> (out: String)
    ensures
        out@ == array(quoted_all(texts(list@))),
{
    assert(written(QuotedText, list@) =~= quoted_all(texts(list@)));
    array_of(&write_each(&QuotedText, list))
}

/// A hash as a JSON text, `"0x"` and eight digits.
pub open spec fn hash_json(hash: u32) -> Seq<char> {
    "\"0x"@ + hex_digits_upper(hash as nat, 8) + "\""@
}

/// A hash as a JSON text, `"0x"` and eight digits.
pub fn json_hash(hash: u32) -> (out: String)
    ensures
        out@ == hash_json(hash),
{
    let mut out = String::from_str("\"0x");
    out.append(hex_upper_of(hash, 8).as_str());
    out.append("\"");
    out
}

/// Writes an item of a map as a JSON value.
pub struct MapJson<'a> {
    pub names: &'a NameTable,
}

impl<'a> Writes<u32> for MapJson<'a> {
    open spec fn text_of(&self, i: nat, item: &u32) -> Seq<char> {
        json_hash_name(*item, table(*self.names))
    }

    fn write(&self, i: usize, item: &u32) -> (out: String) {
        json_name(*item, self.names)
    }
}

impl<'a> Writes<MapEntity> for MapJson<'a> {
    open spec fn text_of(&self, i: nat, item: &MapEntity) -> Seq<char> {
        "{\"archetype\":"@ + json_hash_name(item.bits.archetype_hash, table(*self.names))
            + ",\"archetype_hash\":"@ + hash_json(item.bits.archetype_hash) + ",\"position\":"@
            + item.shown.position.as_json() + ",\"rotation\":"@ + array(texts(item.shown.rotation@))
            + ",\"yaw_degrees\":"@ + item.shown.yaw.json@ + ",\"scale_xy\":"@ + item.shown.scale_xy.json@
            + ",\"scale_z\":"@ + item.shown.scale_z.json@ + ",\"lod_dist\":"@ + item.shown.lod_dist.json@
            + ",\"parent_index\":"@ + signed_decimal(item.bits.parent_index as int) + ",\"flags\":"@ + decimal(
            item.bits.flags as nat,
        ) + ",\"flag_names\":"@ + array(quoted_all(entity_flags(item.bits.flags))) + ",\"guid\":"@ + decimal(
            item.bits.guid as nat,
        ) + ",\"mlo_instance\":"@ + bool_text(item.bits.is_mlo_instance) + "}"@
    }

    fn write(&self, i: usize, item: &MapEntity) -> (out: String) {
        let mut out = String::from_str("{\"archetype\":");
        out.append(json_name(item.bits.archetype_hash, self.names).as_str());
        out.append(",\"archetype_hash\":");
        out.append(json_hash(item.bits.archetype_hash).as_str());
        out.append(",\"position\":");
        out.append(item.shown.position.json().as_str());
        out.append(",\"rotation\":");
        out.append(array_of(&item.shown.rotation).as_str());
        out.append(",\"yaw_degrees\":");
        out.append(item.shown.yaw.json.as_str());
        out.append(",\"scale_xy\":");
        out.append(item.shown.scale_xy.json.as_str());
        out.append(",\"scale_z\":");
        out.append(item.shown.scale_z.json.as_str());
        out.append(",\"lod_dist\":");
        out.append(item.shown.lod_dist.json.as_str());
        out.append(",\"parent_index\":");
        out.append(signed_of(item.bits.parent_index).as_str());
        out.append(",\"flags\":");
        out.append(decimal_of(item.bits.flags as u64).as_str());
        out.append(",\"flag_names\":");
        out.append(quote_all(&entity_flag_names(item.bits.flags)).as_str());
        out.append(",\"guid\":");
        out.append(decimal_of(item.bits.guid as u64).as_str());
        out.append(",\"mlo_instance\":");
        out.append(bool_of(item.bits.is_mlo_instance));
        out.append("}");
        out
    }
}

impl<'a> Writes<MapInstance> for MapJson<'a> {
    open spec fn text_of(&self, i: nat, item: &MapInstance) -> Seq<char> {
        "{\"archetype\":"@ + json_hash_name(item.bits.archetype_hash, table(*self.names))
            + ",\"position\":"@ + item.position.as_json() + ",\"group_id\":"@ + decimal(
            item.bits.group_id as nat,
        ) + ",\"floor_id\":"@ + decimal(item.bits.floor_id as nat) + ",\"default_entity_sets\":"@ + array(
            written(MapJson { names: self.names }, item.bits.default_entity_sets@),
        ) + ",\"num_exit_portals\":"@ + decimal(item.bits.num_exit_portals as nat) + "}"@
    }

    fn write(&self, i: usize, item: &MapInstance) -> (out: String) {
        let mut out = String::from_str("{\"archetype\":");
        out.append(json_name(item.bits.archetype_hash, self.names).as_str());
        out.append(",\"position\":");
        out.append(item.position.json().as_str());
        out.append(",\"group_id\":");
        out.append(decimal_of(item.bits.group_id as u64).as_str());
        out.append(",\"floor_id\":");
        out.append(decimal_of(item.bits.floor_id as u64).as_str());
        out.append(",\"default_entity_sets\":");
        let w = MapJson { names: self.names };
        out.append(array_of(&write_each(&w, &item.bits.default_entity_sets)).as_str());
        out.append(",\"num_exit_portals\":");
        out.append(decimal_of(item.bits.num_exit_portals as u64).as_str());
        out.append("}");
        out
    }
}

/// The stem that a map's file is called by, as a JSON value.
pub open spec fn mismatch_json(stem: Option<Seq<char>>) -> Seq<char> {
    match stem {
        Some(s) => quoted(s),
        None => "null"@,
    }
}

/// A map as a JSON value.
pub open spec fn map_json(map: MapFile, names: NameTable, checks: Checks) -> Seq<char> {
    let h = map.header;
    let t = table(names);
    let w = MapJson { names: &names };
    "{\"name\":"@ + json_hash_name(h.bits.name_hash, t) + ",\"name_hash\":"@ + hash_json(h.bits.name_hash)
        + ",\"file_name_mismatch\":"@ + mismatch_json(checks@.mismatch) + ",\"parent\":"@ + json_hash_name(
        h.bits.parent_hash,
        t,
    ) + ",\"flags\":"@ + decimal(h.bits.flags as nat) + ",\"flag_names\":"@ + array(
        quoted_all(header_flags(h.bits.flags)),
    ) + ",\"content_flags\":"@ + decimal(h.bits.content_flags as nat) + ",\"content_flag_names\":"@ + array(
        quoted_all(content_flags(h.bits.content_flags)),
    ) + ",\"streaming_extents\":"@ + h.streaming.as_json() + ",\"entities_extents\":"@
        + h.extents.as_json() + ",\"entities\":"@ + array(written(w, map.entities@))
        + ",\"mlo_instances\":"@ + array(written(w, map.instances@)) + "}"@
}

/// A map as a JSON value.
pub fn json_map(map: &MapFile, names: &NameTable, checks: &Checks) -> (out: String)
    ensures
        out@ == map_json(*map, *names, *checks),
{
    let h = &map.header;
    let w = MapJson { names };
    let mut out = String::from_str("{\"name\":");
    out.append(json_name(h.bits.name_hash, names).as_str());
    out.append(",\"name_hash\":");
    out.append(json_hash(h.bits.name_hash).as_str());
    out.append(",\"file_name_mismatch\":");
    match &checks.map_name_mismatch {
        Some(s) => {
            out.append(quote(s.as_str()).as_str());
        },
        None => {
            out.append("null");
        },
    }
    out.append(",\"parent\":");
    out.append(json_name(h.bits.parent_hash, names).as_str());
    out.append(",\"flags\":");
    out.append(decimal_of(h.bits.flags as u64).as_str());
    out.append(",\"flag_names\":");
    out.append(quote_all(&header_flag_names(h.bits.flags)).as_str());
    out.append(",\"content_flags\":");
    out.append(decimal_of(h.bits.content_flags as u64).as_str());
    out.append(",\"content_flag_names\":");
    out.append(quote_all(&content_flag_names(h.bits.content_flags)).as_str());
    out.append(",\"streaming_extents\":");
    out.append(h.streaming.json().as_str());
    out.append(",\"entities_extents\":");
    out.append(h.extents.json().as_str());
    out.append(",\"entities\":");
    out.append(array_of(&write_each(&w, &map.entities)).as_str());
    out.append(",\"mlo_instances\":");
    out.append(array_of(&write_each(&w, &map.instances)).as_str());
    out.append("}");
    out
}

} // verus!
