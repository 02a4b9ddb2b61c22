//! Type files (`.ytyp`): archetypes and interiors.
use vstd::prelude::*;
use vstd::string::*;
use crate::commands::resource::maps::{
    hash_json, json_hash, mlo_note, more_text, parent_text, write_mlo_note, write_more,
    write_parent,
};
use crate::commands::resource::numbers::{count_shown, shown_count, Extents, Number, Point};
use crate::formats::{
    interior_views, parse_ytyp, parse_ytyp_interiors, types_in, Archetype, InteriorBits,
    SetBits,
};
use crate::json_text::{array, array_of, json_hash_name, json_name, quote, quoted};
use crate::name_table::{resolve, resolved, table};
use crate::text::{
    bool_of, bool_text, decimal, decimal_of, pad_left, pad_right, padded_left, padded_right, texts,
    unlines,
};
use crate::writer::{unlines_of, write_each, write_first, written, Writes};
use rage_formats::NameTable;

verus! {

/// What is read of a type file, its fractional numbers as bits.
#[derive(Debug)]
pub struct RawTypes {
    pub archetypes: Vec<Archetype>,
    pub mlos: Vec<InteriorBits>,
}

/// The fractional numbers of an archetype, as they are shown.
#[derive(Debug)]
pub struct ArchetypeShown {
    pub lod_dist: Number,
    pub bb_min: Point,
    pub bb_max: Point,
}

/// The fractional numbers of a type file, as they are shown.
#[derive(Debug)]
pub struct TypesShown {
    pub archetypes: Vec<ArchetypeShown>,
    /// The boxes of the rooms of each interior.
    pub rooms: Vec<Vec<Extents>>,
}

/// An archetype of a type file.
#[derive(Debug)]
pub struct TypeArchetype {
    pub bits: Archetype,
    pub shown: ArchetypeShown,
}

/// A room of an interior.
#[derive(Debug)]
pub struct Room {
    pub name: String,
    /// The number of objects attached to the room.
    pub props: usize,
    pub bounds: Extents,
}

/// An interior of a type file.
#[derive(Debug)]
pub struct MloType {
    pub name_hash: u32,
    pub rooms: Vec<Room>,
    pub portals: usize,
    pub entities: usize,
    /// The hashes of the names of the entity sets.
    pub entity_sets: Vec<u32>,
}

/// The contents of a type file.
#[derive(Debug)]
pub struct TypeFile {
    pub archetypes: Vec<TypeArchetype>,
    pub mlos: Vec<MloType>,
}

// ── Reading ─────────────────────────────────────────────────────────────────

/// Reads a type file.
pub fn read_types(data: &[u8]) -> (r: Result<RawTypes, String>)
    ensures
        match r {
            Ok(types) => {
                &&& types_in(data@) is Ok
                &&& types.archetypes@ == types_in(data@)->Ok_0.archetypes
                &&& interior_views(types.mlos@) == types_in(data@)->Ok_0.interiors
            },
            Err(e) => types_in(data@) is Err && e@ == "failed to parse type file: "@ + types_in(
                data@,
            )->Err_0,
        },
{
    match (parse_ytyp(data), parse_ytyp_interiors(data)) {
        (Ok(archetypes), Ok(mlos)) => Ok(RawTypes { archetypes, mlos }),
        (Err(reason), _) | (_, Err(reason)) => {
            let mut e = String::from_str("failed to parse type file: ");
            e.append(reason.as_str());
            Err(e)
        },
    }
}

impl ArchetypeShown {
    /// The texts.
    pub open spec fn texts(self) -> (
        (Seq<char>, Seq<char>),
        Seq<(Seq<char>, Seq<char>)>,
        Seq<(Seq<char>, Seq<char>)>,
    ) {
        (self.lod_dist.texts(), self.bb_min.texts(), self.bb_max.texts())
    }
}

/// The interior is the one that was read, with the box of each room as it is
/// shown.
pub open spec fn is_interior_shown(mlo: MloType, raw: InteriorBits, rooms: Seq<Extents>) -> bool {
    &&& mlo.name_hash == raw.name_hash
    &&& mlo.portals == raw.portals.len()
    &&& mlo.entities == raw.entities.len()
    &&& mlo.entity_sets@ == raw.entity_sets@.map_values(|s: SetBits| s.name_hash)
    &&& mlo.rooms.len() == raw.rooms.len()
    &&& forall|i: int|
        0 <= i < raw.rooms.len() ==> (#[trigger] mlo.rooms[i]).name@ == raw.rooms[i].name@
            && mlo.rooms[i].props == raw.rooms[i].attached.len() && mlo.rooms[i].bounds.texts()
            == rooms[i].texts()
}

/// The type file is the one that was read, with each number as it is shown.
pub open spec fn is_types_shown(types: TypeFile, raw: RawTypes, shown: TypesShown) -> bool {
    &&& types.archetypes.len() == raw.archetypes.len()
    &&& forall|i: int|
        0 <= i < raw.archetypes.len() ==> (#[trigger] types.archetypes[i]).bits == raw.archetypes[i]
            && types.archetypes[i].shown.texts() == shown.archetypes[i].texts()
    &&& types.mlos.len() == raw.mlos.len()
    &&& forall|i: int|
        0 <= i < raw.mlos.len() ==> is_interior_shown(
            #[trigger] types.mlos[i],
            raw.mlos[i],
            shown.rooms[i]@,
        )
}

/// The numbers are those of the type file.
pub open spec fn fits(raw: RawTypes, shown: TypesShown) -> bool {
    &&& shown.archetypes.len() == raw.archetypes.len()
    &&& shown.rooms.len() == raw.mlos.len()
    &&& forall|i: int|
        0 <= i < raw.mlos.len() ==> (#[trigger] shown.rooms[i]).len() == raw.mlos[i].rooms.len()
}

fn show_interior(raw: &InteriorBits, rooms: &Vec<Extents>) -> (r: MloType)
    requires
        rooms.len() == raw.rooms.len(),
    ensures
        is_interior_shown(r, *raw, rooms@),
{
    let mut sets: Vec<u32> = Vec::new();
    let mut k: usize = 0;
    while k < raw.entity_sets.len()
        invariant
            k <= raw.entity_sets.len(),
            sets.len() == k,
            forall|j: int| 0 <= j < k ==> sets[j] == (#[trigger] raw.entity_sets[j]).name_hash,
        decreases raw.entity_sets.len() - k,
    {
        sets.push(raw.entity_sets[k].name_hash);
        k = k + 1;
    }
    assert(sets@ =~= raw.entity_sets@.map_values(|s: SetBits| s.name_hash));
    let mut list: Vec<Room> = Vec::new();
    let mut i: usize = 0;
    while i < raw.rooms.len()
        invariant
            i <= raw.rooms.len(),
            rooms.len() == raw.rooms.len(),
            list.len() == i,
            forall|k: int|
                0 <= k < i ==> (#[trigger] list[k]).name@ == raw.rooms[k].name@ && list[k].props
                    == raw.rooms[k].attached.len() && list[k].bounds.texts() == rooms[k].texts(),
        decreases raw.rooms.len() - i,
    {
        list.push(
            Room {
                name: raw.rooms[i].name.clone(),
                props: raw.rooms[i].attached.len(),
                bounds: rooms[i].copy(),
            },
        );
        i = i + 1;
    }
    MloType {
        name_hash: raw.name_hash,
        rooms: list,
        portals: raw.portals.len(),
        entities: raw.entities.len(),
        entity_sets: sets,
    }
}

/// Puts each number of a type file that was read beside the way it is shown;
/// nothing where the numbers are not those of the file.
pub fn show_types(raw: &RawTypes, shown: &TypesShown) -> (r: Option<TypeFile>)
    ensures
        r is Some <==> fits(*raw, *shown),
        r matches Some(types) ==> is_types_shown(types, *raw, *shown),
{
    if shown.archetypes.len() != raw.archetypes.len() || shown.rooms.len() != raw.mlos.len() {
        return None;
    }
    let mut list: Vec<TypeArchetype> = Vec::new();
    let mut i: usize = 0;
    while i < raw.archetypes.len()
        invariant
            i <= raw.archetypes.len(),
            shown.archetypes.len() == raw.archetypes.len(),
            list.len() == i,
            forall|k: int|
                0 <= k < i ==> (#[trigger] list[k]).bits == raw.archetypes[k] && list[k].shown.texts()
                    == shown.archetypes[k].texts(),
        decreases raw.archetypes.len() - i,
    {
        let a = &shown.archetypes[i];
        let copy = ArchetypeShown {
            lod_dist: a.lod_dist.copy(),
            bb_min: a.bb_min.copy(),
            bb_max: a.bb_max.copy(),
        };
        list.push(TypeArchetype { bits: raw.archetypes[i], shown: copy });
        i = i + 1;
    }
    let mut mlos: Vec<MloType> = Vec::new();
    let mut j: usize = 0;
    while j < raw.mlos.len()
        invariant
            j <= raw.mlos.len(),
            shown.archetypes.len() == raw.archetypes.len(),
            shown.rooms.len() == raw.mlos.len(),
            mlos.len() == j,
            forall|k: int| 0 <= k < j ==> (#[trigger] shown.rooms[k]).len() == raw.mlos[k].rooms.len(),
            forall|k: int|
                0 <= k < j ==> is_interior_shown(#[trigger] mlos[k], raw.mlos[k], shown.rooms[k]@),
        decreases raw.mlos.len() - j,
    {
        if shown.rooms[j].len() != raw.mlos[j].rooms.len() {
            return None;
        }
        mlos.push(show_interior(&raw.mlos[j], &shown.rooms[j]));
        j = j + 1;
    }
    Some(TypeFile { archetypes: list, mlos })
}

// ── Text ────────────────────────────────────────────────────────────────────

/// Writes an item of a type file as a line.
pub struct TypeLine<'a> {
    pub names: &'a NameTable,
}

impl<'a> Writes<TypeArchetype> for TypeLine<'a> {
    open spec fn text_of(&self, i: nat, item: &TypeArchetype) -> Seq<char> {
        let t = table(*self.names);
        "  "@ + pad_right(resolved(t, item.bits.name_hash), ' ', 32) + " "@ + pad_right(
            parent_text(item.bits.texture_dict_hash, t),
            ' ',
            24,
        ) + " "@ + pad_left(item.shown.lod_dist.shown@, ' ', 7) + "  "@ + item.shown.bb_min.text() + ".."@
            + item.shown.bb_max.text() + mlo_note(item.bits.is_mlo)
    }

    fn write(&self, i: usize, item: &TypeArchetype) -> (out: String) {
        let mut out = String::from_str("  ");
        out.append(padded_right(resolve(self.names, item.bits.name_hash).as_str(), ' ', 32).as_str());
        out.append(" ");
        out.append(
            padded_right(write_parent(item.bits.texture_dict_hash, self.names).as_str(), ' ', 24).as_str(),
        );
        out.append(" ");
        out.append(padded_left(item.shown.lod_dist.shown.as_str(), ' ', 7).as_str());
        out.append("  ");
        out.append(item.shown.bb_min.show().as_str());
        out.append("..");
        out.append(item.shown.bb_max.show().as_str());
        out.append(write_mlo_note(item.bits.is_mlo));
        out
    }
}

impl<'a> Writes<Room> for TypeLine<'a> {
    open spec fn text_of(&self, i: nat, item: &Room) -> Seq<char> {
        "  room "@ + pad_left(decimal(i), ' ', 2) + " "@ + pad_right(item.name@, ' ', 24) + " "@ + decimal(
            item.props as nat,
        ) + " props"@
    }

    fn write(&self, i: usize, item: &Room) -> (out: String) {
        let mut out = String::from_str("  room ");
        out.append(padded_left(decimal_of(i as u64).as_str(), ' ', 2).as_str());
        out.append(" ");
        out.append(padded_right(item.name.as_str(), ' ', 24).as_str());
        out.append(" ");
        out.append(decimal_of(item.props as u64).as_str());
        out.append(" props");
        out
    }
}

/// What is printed of an interior: a line of counts, then its rooms.
pub open spec fn mlo_text(mlo: MloType, names: NameTable) -> Seq<char> {
    "MLO "@ + resolved(table(names), mlo.name_hash) + ": "@ + decimal(mlo.rooms.len() as nat)
        + " rooms, "@ + decimal(mlo.portals as nat) + " portals, "@ + decimal(mlo.entities as nat)
        + " entities, "@ + decimal(mlo.entity_sets.len() as nat) + " entity sets\n"@ + unlines(
        written(TypeLine { names: &names }, mlo.rooms@),
    )
}

fn write_mlo(mlo: &MloType, names: &NameTable) -> (out: String)
    ensures
        out@ == mlo_text(*mlo, *names),
{
    let mut out = String::from_str("MLO ");
    out.append(resolve(names, mlo.name_hash).as_str());
    out.append(": ");
    out.append(decimal_of(mlo.rooms.len() as u64).as_str());
    out.append(" rooms, ");
    out.append(decimal_of(mlo.portals as u64).as_str());
    out.append(" portals, ");
    out.append(decimal_of(mlo.entities as u64).as_str());
    out.append(" entities, ");
    out.append(decimal_of(mlo.entity_sets.len() as u64).as_str());
    out.append(" entity sets\n");
    out.append(unlines_of(&write_each(&TypeLine { names }, &mlo.rooms)).as_str());
    out
}

/// What is printed of some interiors.
pub open spec fn mlos_text(list: Seq<MloType>, names: NameTable) -> Seq<char>
    decreases list.len(),
{
    if list.len() == 0 {
        ""@
    } else {
        mlos_text(list.drop_last(), names) + mlo_text(list.last(), names)
    }
}

fn write_mlos(list: &Vec<MloType>, names: &NameTable) -> (out: String)
    ensures
        out@ == mlos_text(list@, *names),
{
    let mut out = String::from_str("");
    let mut i: usize = 0;
    assert(list@.take(0) =~= Seq::empty());
    while i < list.len()
        invariant
            i <= list.len(),
            out@ == mlos_text(list@.take(i as int), *names),
        decreases list.len() - i,
    {
        proof {
            assert(list@.take(i + 1).drop_last() =~= list@.take(i as int));
            assert(list@.take(i + 1).last() == list[i as int]);
        }
        out.append(write_mlo(&list[i], names).as_str());
        i = i + 1;
    }
    assert(list@.take(list.len() as int) =~= list@);
    out
}

/// What is printed of a type file: as many archetypes as the limit allows,
/// then every interior.
pub open spec fn types_text(types: TypeFile, names: NameTable, limit: nat) -> Seq<char> {
    let count = shown_count(types.archetypes@.len(), limit);
    "Archetypes: "@ + decimal(types.archetypes@.len()) + " ("@ + decimal(types.mlos@.len())
        + " MLO)\n"@ + "  name                             texture dictionary           lod  bounds\n"@
        + unlines(written(TypeLine { names: &names }, types.archetypes@.take(count as int)))
        + more_text((types.archetypes@.len() - count) as nat) + mlos_text(types.mlos@, names)
}

/// Prints a type file.
pub fn write_types(types: &TypeFile, names: &NameTable, limit: usize) -> (out: String)
    ensures
        out@ == types_text(*types, *names, limit as nat),
{
    let count: usize = count_shown(types.archetypes.len(), limit);
    let mut out = String::from_str("Archetypes: ");
    out.append(decimal_of(types.archetypes.len() as u64).as_str());
    out.append(" (");
    out.append(decimal_of(types.mlos.len() as u64).as_str());
    out.append(" MLO)\n");
    out.append("  name                             texture dictionary           lod  bounds\n");
    out.append(unlines_of(&write_first(&TypeLine { names }, &types.archetypes, count)).as_str());
    out.append(write_more(types.archetypes.len() - count).as_str());
    out.append(write_mlos(&types.mlos, names).as_str());
    out
}

// ── JSON ────────────────────────────────────────────────────────────────────

/// Writes an item of a type file as a JSON value.
pub struct TypeJson<'a> {
    pub names: &'a NameTable,
}

impl<'a> Writes<TypeArchetype> for TypeJson<'a> {
    open spec fn text_of(&self, i: nat, item: &TypeArchetype) -> Seq<char> {
        let t = table(*self.names);
        "{\"name\":"@ + json_hash_name(item.bits.name_hash, t) + ",\"name_hash\":"@ + hash_json(
            item.bits.name_hash,
        ) + ",\"texture_dictionary\":"@ + json_hash_name(item.bits.texture_dict_hash, t) + ",\"lod_dist\":"@
            + item.shown.lod_dist.json@ + ",\"bb_min\":"@ + item.shown.bb_min.as_json() + ",\"bb_max\":"@
            + item.shown.bb_max.as_json() + ",\"mlo\":"@ + bool_text(item.bits.is_mlo) + "}"@
    }

    fn write(&self, i: usize, item: &TypeArchetype) -> (out: String) {
        let mut out = String::from_str("{\"name\":");
        out.append(json_name(item.bits.name_hash, self.names).as_str());
        out.append(",\"name_hash\":");
        out.append(json_hash(item.bits.name_hash).as_str());
        out.append(",\"texture_dictionary\":");
        out.append(json_name(item.bits.texture_dict_hash, self.names).as_str());
        out.append(",\"lod_dist\":");
        out.append(item.shown.lod_dist.json.as_str());
        out.append(",\"bb_min\":");
        out.append(item.shown.bb_min.json().as_str());
        out.append(",\"bb_max\":");
        out.append(item.shown.bb_max.json().as_str());
        out.append(",\"mlo\":");
        out.append(bool_of(item.bits.is_mlo));
        out.append("}");
        out
    }
}

impl<'a> Writes<Room> for TypeJson<'a> {
    open spec fn text_of(&self, i: nat, item: &Room) -> Seq<char> {
        "{\"name\":"@ + quoted(item.name@) + ",\"props\":"@ + decimal(item.props as nat)
            + ",\"bb_min\":"@ + item.bounds.min.as_json() + ",\"bb_max\":"@ + item.bounds.max.as_json() + "}"@
    }

    fn write(&self, i: usize, item: &Room) -> (out: String) {
        let mut out = String::from_str("{\"name\":");
        out.append(quote(item.name.as_str()).as_str());
        out.append(",\"props\":");
        out.append(decimal_of(item.props as u64).as_str());
        out.append(",\"bb_min\":");
        out.append(item.bounds.min.json().as_str());
        out.append(",\"bb_max\":");
        out.append(item.bounds.max.json().as_str());
        out.append("}");
        out
    }
}

impl<'a> Writes<u32> for TypeJson<'a> {
    open spec fn text_of(&self, i: nat, item: &u32) -> Seq<char> {
        json_hash_name(*item, table(*self.names))
    }

    fn write(&self, i: usize, item: &u32) -> (out: String) {
        json_name(*item, self.names)
    }
}

impl<'a> Writes<MloType> for TypeJson<'a> {
    open spec fn text_of(&self, i: nat, item: &MloType) -> Seq<char> {
        "{\"name\":"@ + json_hash_name(item.name_hash, table(*self.names)) + ",\"rooms\":"@ + array(
            written(TypeJson { names: self.names }, item.rooms@),
        ) + ",\"portals\":"@ + decimal(item.portals as nat) + ",\"entities\":"@ + decimal(
            item.entities as nat,
        ) + ",\"entity_sets\":"@ + array(
            written(TypeJson { names: self.names }, item.entity_sets@),
        ) + "}"@
    }

    fn write(&self, i: usize, item: &MloType) -> (out: String) {
        let w = TypeJson { names: self.names };
        let mut out = String::from_str("{\"name\":");
        out.append(json_name(item.name_hash, self.names).as_str());
        out.append(",\"rooms\":");
        out.append(array_of(&write_each(&w, &item.rooms)).as_str());
        out.append(",\"portals\":");
        out.append(decimal_of(item.portals as u64).as_str());
        out.append(",\"entities\":");
        out.append(decimal_of(item.entities as u64).as_str());
        out.append(",\"entity_sets\":");
        out.append(array_of(&write_each(&w, &item.entity_sets)).as_str());
        out.append("}");
        out
    }
}

/// A type file as a JSON value.
pub open spec fn types_json(types: TypeFile, names: NameTable) -> Seq<char> {
    let w = TypeJson { names: &names };
    "{\"archetypes\":"@ + array(written(w, types.archetypes@)) + ",\"mlos\":"@ + array(
        written(w, types.mlos@),
    ) + "}"@
}

/// A type file as a JSON value.
pub fn json_types(types: &TypeFile, names: &NameTable) -> (out: String)
    ensures
        out@ == types_json(*types, *names),
{
    let w = TypeJson { names };
    let mut out = String::from_str("{\"archetypes\":");
    out.append(array_of(&write_each(&w, &types.archetypes)).as_str());
    out.append(",\"mlos\":");
    out.append(array_of(&write_each(&w, &types.mlos)).as_str());
    out.append("}");
    out
}

} // verus!
