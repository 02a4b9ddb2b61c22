//! One part of the index as the bytes of its cache file, and back.
use std::collections::HashMap;
use vstd::prelude::*;
use crate::index::bytes::{
    keyed, le32, le64, lemma_join2, lemma_join3, lemma_join4, lemma_join_end, lemma_read_list,
    lemma_read_list_extends, lemma_read_list_fails, lemma_read_map, lemma_read_map_extends,
    lemma_read_text, lemma_read_text_extends, lemma_read_u32, lemma_read_u32_extends,
    lemma_read_u64, list_bytes, map_bytes, map_of, read_list, read_map, read_text, read_u32,
    read_u64, text_bytes, text_fits, write_str, write_u32, write_u64, Cursor, IndexError, Read,
};
use crate::index::model::{
    ascending_keys, location_list, location_lists, locations, ArchetypeBox, Asset, EntryLoc,
    GameIndex, IndexView, Location,
};
use crate::index::parts::Parts;
use crate::text::texts;

verus! {

/// What every part's file starts with: "RFPX" in byte order.
pub const MAGIC: u32 = 0x5850_4652;

/// The version of the file format. Every change to what a build produces
/// raises it, so that a file written before is not read.
pub const FORMAT_VERSION: u32 = 8;

// ── Locations ───────────────────────────────────────────────────────────────

pub open spec fn text_coder() -> spec_fn(Seq<char>) -> Seq<u8> {
    |s: Seq<char>| text_bytes(s)
}

pub open spec fn text_reader() -> spec_fn(Seq<u8>) -> Read<Seq<char>> {
    |s: Seq<u8>| read_text(s)
}

/// A location: the archive, the nested archives with their number before
/// them, and the path inside.
pub open spec fn loc_bytes(l: Location) -> Seq<u8> {
    text_bytes(l.top_archive) + le32(l.nested_rpfs.len() as u32) + list_bytes(
        l.nested_rpfs,
        text_coder(),
    ) + text_bytes(l.inner_path)
}

/// A number of texts, then the texts.
pub open spec fn read_texts(s: Seq<u8>) -> Read<Seq<Seq<char>>> {
    match read_u32(s) {
        Err(e) => Err(e),
        Ok((n, rest)) => read_list(rest, n as nat, text_reader()),
    }
}

pub open spec fn read_location(s: Seq<u8>) -> Read<Location> {
    match read_text(s) {
        Err(e) => Err(e),
        Ok((top_archive, rest)) => match read_texts(rest) {
            Err(e) => Err(e),
            Ok((nested_rpfs, rest)) => match read_text(rest) {
                Err(e) => Err(e),
                Ok((inner_path, rest)) => Ok(
                    (Location { top_archive, nested_rpfs, inner_path }, rest),
                ),
            },
        },
    }
}

/// The lengths in a location fit the space they are written in.
pub open spec fn loc_fits(l: Location) -> bool {
    &&& text_fits(l.top_archive)
    &&& l.nested_rpfs.len() <= u32::MAX
    &&& forall|i: int| 0 <= i < l.nested_rpfs.len() ==> text_fits(#[trigger] l.nested_rpfs[i])
    &&& text_fits(l.inner_path)
}

/// A location written and read back is the same location, and exactly what
/// was written is consumed.
pub proof fn law_location_round_trip(l: Location, rest: Seq<u8>)
    requires
        loc_fits(l),
    ensures
        read_location(loc_bytes(l) + rest) == Ok::<(Location, Seq<u8>), IndexError>((l, rest)),
{
    let inner = text_bytes(l.inner_path) + rest;
    let nested = list_bytes(l.nested_rpfs, text_coder()) + inner;
    let count = le32(l.nested_rpfs.len() as u32) + nested;
    lemma_join4(
        text_bytes(l.top_archive),
        le32(l.nested_rpfs.len() as u32),
        list_bytes(l.nested_rpfs, text_coder()),
        text_bytes(l.inner_path),
        rest,
    );
    lemma_read_text(l.top_archive, count);
    lemma_read_u32(l.nested_rpfs.len() as u32, nested);
    assert forall|i: int, r: Seq<u8>| 0 <= i < l.nested_rpfs.len() implies #[trigger] text_reader()(
        text_coder()(l.nested_rpfs[i]) + r,
    ) == Ok::<(Seq<char>, Seq<u8>), IndexError>((l.nested_rpfs[i], r)) by {
        lemma_read_text(l.nested_rpfs[i], r);
    }
    lemma_read_list(l.nested_rpfs, text_coder(), text_reader(), inner);
    lemma_read_text(l.inner_path, rest);
}

proof fn lemma_read_texts_extends(s: Seq<u8>, more: Seq<u8>)
    requires
        read_texts(s) is Ok,
    ensures
        read_texts(s + more) == Ok::<(Seq<Seq<char>>, Seq<u8>), IndexError>(
            (read_texts(s)->Ok_0.0, read_texts(s)->Ok_0.1 + more),
        ),
{
    lemma_read_u32_extends(s, more);
    let read = text_reader();
    assert forall|x: Seq<u8>| (#[trigger] read(x)) is Ok implies read(x + more) == Ok::<
        (Seq<char>, Seq<u8>),
        IndexError,
    >((read(x)->Ok_0.0, read(x)->Ok_0.1 + more)) by {
        lemma_read_text_extends(x, more);
    }
    lemma_read_list_extends(read_u32(s)->Ok_0.1, read_u32(s)->Ok_0.0 as nat, read, more);
}

proof fn lemma_read_location_extends(s: Seq<u8>, more: Seq<u8>)
    requires
        read_location(s) is Ok,
    ensures
        read_location(s + more) == Ok::<(Location, Seq<u8>), IndexError>(
            (read_location(s)->Ok_0.0, read_location(s)->Ok_0.1 + more),
        ),
{
    lemma_read_text_extends(s, more);
    let r1 = read_text(s)->Ok_0.1;
    lemma_read_texts_extends(r1, more);
    let r2 = read_texts(r1)->Ok_0.1;
    lemma_read_text_extends(r2, more);
}

/// Appends a location.
pub fn write_loc(buf: &mut Vec<u8>, loc: &EntryLoc)
    ensures
        final(buf)@ == old(buf)@ + loc_bytes(loc@),
{
    let ghost start = buf@;
    write_str(buf, loc.top_archive.as_str());
    write_u32(buf, loc.nested_rpfs.len() as u32);
    let ghost head = buf@;
    let ghost nested = texts(loc.nested_rpfs@);
    let mut i: usize = 0;
    assert(nested.take(0) =~= Seq::empty());
    while i < loc.nested_rpfs.len()
        invariant
            i <= loc.nested_rpfs.len(),
            nested == texts(loc.nested_rpfs@),
            buf@ == head + list_bytes(nested.take(i as int), text_coder()),
        decreases loc.nested_rpfs.len() - i,
    {
        write_str(buf, loc.nested_rpfs[i].as_str());
        proof {
            assert(nested.take(i + 1).drop_last() =~= nested.take(i as int));
            assert(nested.take(i + 1).last() == loc.nested_rpfs[i as int]@);
        }
        i = i + 1;
    }
    assert(nested.take(nested.len() as int) =~= nested);
    write_str(buf, loc.inner_path.as_str());
    assert(buf@ =~= start + loc_bytes(loc@));
}

/// Reads a location.
pub fn read_loc(c: &mut Cursor) -> (r: Result<EntryLoc, IndexError>)
    requires
        old(c).wf(),
    ensures
        final(c).wf(),
        final(c).data == old(c).data,
        match r {
            Ok(l) => read_location(old(c).rest()) == Ok::<(Location, Seq<u8>), IndexError>(
                (l@, final(c).rest()),
            ),
            Err(e) => read_location(old(c).rest()) == Err::<(Location, Seq<u8>), IndexError>(e),
        },
{
    let top_archive = match c.string() {
        Ok(s) => s,
        Err(e) => return Err(e),
    };
    let n: u32 = match c.u32() {
        Ok(n) => n,
        Err(e) => return Err(e),
    };
    let ghost first = c.rest();
    let ghost data = c.data;
    let mut nested_rpfs: Vec<String> = Vec::new();
    let mut i: u32 = 0;
    assert(texts(nested_rpfs@) =~= Seq::empty());
    while i < n
        invariant
            i <= n,
            c.wf(),
            c.data == data,
            read_list(first, i as nat, text_reader()) == Ok::<
                (Seq<Seq<char>>, Seq<u8>),
                IndexError,
            >((texts(nested_rpfs@), c.rest())),
            read_list(first, n as nat, text_reader()) is Err ==> read_location(old(c).rest())
                == Err::<(Location, Seq<u8>), IndexError>(
                read_list(first, n as nat, text_reader())->Err_0,
            ),
            data == old(c).data,
        decreases n - i,
    {
        match c.string() {
            Ok(s) => {
                let ghost before = texts(nested_rpfs@);
                nested_rpfs.push(s);
                assert(texts(nested_rpfs@) =~= before.push(s@));
            },
            Err(e) => {
                proof {
                    assert(read_list(first, (i + 1) as nat, text_reader()) is Err);
                    lemma_read_list_fails(first, (i + 1) as nat, n as nat, text_reader());
                }
                return Err(e);
            },
        }
        i = i + 1;
    }
    let inner_path = match c.string() {
        Ok(s) => s,
        Err(e) => return Err(e),
    };
    Ok(EntryLoc { top_archive, nested_rpfs, inner_path })
}

// ── Entries ─────────────────────────────────────────────────────────────────

pub open spec fn loc_entry_coder() -> spec_fn((u32, Location)) -> Seq<u8> {
    |e: (u32, Location)| le32(e.0) + loc_bytes(e.1)
}

pub open spec fn read_loc_entry(s: Seq<u8>) -> Read<(u32, Location)> {
    match read_u32(s) {
        Err(e) => Err(e),
        Ok((k, rest)) => match read_location(rest) {
            Err(e) => Err(e),
            Ok((l, rest)) => Ok(((k, l), rest)),
        },
    }
}

pub open spec fn loc_entry_reader() -> spec_fn(Seq<u8>) -> Read<(u32, Location)> {
    |s: Seq<u8>| read_loc_entry(s)
}

pub open spec fn pair_coder() -> spec_fn((u32, u32)) -> Seq<u8> {
    |e: (u32, u32)| le32(e.0) + le32(e.1)
}

pub open spec fn read_pair(s: Seq<u8>) -> Read<(u32, u32)> {
    match read_u32(s) {
        Err(e) => Err(e),
        Ok((k, rest)) => match read_u32(rest) {
            Err(e) => Err(e),
            Ok((v, rest)) => Ok(((k, v), rest)),
        },
    }
}

pub open spec fn pair_reader() -> spec_fn(Seq<u8>) -> Read<(u32, u32)> {
    |s: Seq<u8>| read_pair(s)
}

pub open spec fn loc_coder() -> spec_fn(Location) -> Seq<u8> {
    |l: Location| loc_bytes(l)
}

pub open spec fn loc_reader() -> spec_fn(Seq<u8>) -> Read<Location> {
    |s: Seq<u8>| read_location(s)
}

pub open spec fn placing_coder() -> spec_fn((u32, Seq<Location>)) -> Seq<u8> {
    |e: (u32, Seq<Location>)|
        le32(e.0) + le32(e.1.len() as u32) + list_bytes(e.1, loc_coder())
}

pub open spec fn read_placing(s: Seq<u8>) -> Read<(u32, Seq<Location>)> {
    match read_u32(s) {
        Err(e) => Err(e),
        Ok((k, rest)) => match read_u32(rest) {
            Err(e) => Err(e),
            Ok((n, rest)) => match read_list(rest, n as nat, loc_reader()) {
                Err(e) => Err(e),
                Ok((list, rest)) => Ok(((k, list), rest)),
            },
        },
    }
}

pub open spec fn placing_reader() -> spec_fn(Seq<u8>) -> Read<(u32, Seq<Location>)> {
    |s: Seq<u8>| read_placing(s)
}

pub open spec fn box_words(b: ArchetypeBox) -> Seq<u32> {
    seq![b.min_x, b.min_y, b.min_z, b.max_x, b.max_y, b.max_z]
}

pub open spec fn word_coder() -> spec_fn(u32) -> Seq<u8> {
    |w: u32| le32(w)
}

pub open spec fn word_reader() -> spec_fn(Seq<u8>) -> Read<u32> {
    |s: Seq<u8>| read_u32(s)
}

pub open spec fn box_coder() -> spec_fn((u32, ArchetypeBox)) -> Seq<u8> {
    |e: (u32, ArchetypeBox)| le32(e.0) + list_bytes(box_words(e.1), word_coder())
}

pub open spec fn read_box(s: Seq<u8>) -> Read<(u32, ArchetypeBox)> {
    match read_u32(s) {
        Err(e) => Err(e),
        Ok((k, rest)) => match read_list(rest, 6, word_reader()) {
            Err(e) => Err(e),
            Ok((w, rest)) => Ok(
                (
                    (
                        k,
                        ArchetypeBox {
                            min_x: w[0],
                            min_y: w[1],
                            min_z: w[2],
                            max_x: w[3],
                            max_y: w[4],
                            max_z: w[5],
                        },
                    ),
                    rest,
                ),
            ),
        },
    }
}

pub open spec fn box_reader() -> spec_fn(Seq<u8>) -> Read<(u32, ArchetypeBox)> {
    |s: Seq<u8>| read_box(s)
}

pub open spec fn asset_coder() -> spec_fn((u32, Asset)) -> Seq<u8> {
    |e: (u32, Asset)| le32(e.0) + le32(e.1.kind) + le32(e.1.model)
}

pub open spec fn read_asset(s: Seq<u8>) -> Read<(u32, Asset)> {
    match read_u32(s) {
        Err(e) => Err(e),
        Ok((k, rest)) => match read_u32(rest) {
            Err(e) => Err(e),
            Ok((kind, rest)) => match read_u32(rest) {
                Err(e) => Err(e),
                Ok((model, rest)) => Ok(((k, Asset { kind, model }), rest)),
            },
        },
    }
}

pub open spec fn asset_reader() -> spec_fn(Seq<u8>) -> Read<(u32, Asset)> {
    |s: Seq<u8>| read_asset(s)
}

// ── Whole files ─────────────────────────────────────────────────────────────

/// `part` is exactly one part.
pub open spec fn is_single(part: Parts) -> bool {
    part == Parts::textures() || part == Parts::interiors() || part == Parts::models()
}

/// The maps of one part.
pub open spec fn body_bytes(v: IndexView, part: Parts) -> Seq<u8> {
    if part == Parts::textures() {
        map_bytes(v.ytd_by_name, loc_entry_coder()) + map_bytes(v.archetype_txd, pair_coder())
            + map_bytes(v.resident_textures, pair_coder()) + map_bytes(v.parent_txds, pair_coder())
    } else if part == Parts::interiors() {
        map_bytes(v.mlo_ytyp, loc_entry_coder()) + map_bytes(v.mlo_instances, placing_coder())
            + map_bytes(v.ybn_by_name, loc_entry_coder())
    } else {
        map_bytes(v.archetype_box, box_coder()) + map_bytes(v.drawable_by_name, loc_entry_coder())
            + map_bytes(v.archetype_asset, asset_coder())
    }
}

/// What a part's file starts with.
pub open spec fn head_bytes(part: Parts, fingerprint: u64) -> Seq<u8> {
    le32(MAGIC) + le32(FORMAT_VERSION) + le32(part.bits as u32) + le64(fingerprint)
}

/// The file of one part, written for archives with the given fingerprint.
pub open spec fn part_bytes(v: IndexView, part: Parts, fingerprint: u64) -> Seq<u8> {
    head_bytes(part, fingerprint) + body_bytes(v, part)
}

pub open spec fn read_textures(s: Seq<u8>) -> Read<IndexView> {
    match read_map(s, loc_entry_reader()) {
        Err(e) => Err(e),
        Ok((ytd_by_name, s)) => match read_map(s, pair_reader()) {
            Err(e) => Err(e),
            Ok((archetype_txd, s)) => match read_map(s, pair_reader()) {
                Err(e) => Err(e),
                Ok((resident_textures, s)) => match read_map(s, pair_reader()) {
                    Err(e) => Err(e),
                    Ok((parent_txds, s)) => Ok(
                        (
                            IndexView {
                                ytd_by_name,
                                archetype_txd,
                                resident_textures,
                                parent_txds,
                                ..IndexView::nothing(Parts::textures())
                            },
                            s,
                        ),
                    ),
                },
            },
        },
    }
}

pub open spec fn read_interiors(s: Seq<u8>) -> Read<IndexView> {
    match read_map(s, loc_entry_reader()) {
        Err(e) => Err(e),
        Ok((mlo_ytyp, s)) => match read_map(s, placing_reader()) {
            Err(e) => Err(e),
            Ok((mlo_instances, s)) => match read_map(s, loc_entry_reader()) {
                Err(e) => Err(e),
                Ok((ybn_by_name, s)) => Ok(
                    (
                        IndexView {
                            mlo_ytyp,
                            mlo_instances,
                            ybn_by_name,
                            ..IndexView::nothing(Parts::interiors())
                        },
                        s,
                    ),
                ),
            },
        },
    }
}

pub open spec fn read_models(s: Seq<u8>) -> Read<IndexView> {
    match read_map(s, box_reader()) {
        Err(e) => Err(e),
        Ok((archetype_box, s)) => match read_map(s, loc_entry_reader()) {
            Err(e) => Err(e),
            Ok((drawable_by_name, s)) => match read_map(s, asset_reader()) {
                Err(e) => Err(e),
                Ok((archetype_asset, s)) => Ok(
                    (
                        IndexView {
                            archetype_box,
                            drawable_by_name,
                            archetype_asset,
                            ..IndexView::nothing(Parts::models())
                        },
                        s,
                    ),
                ),
            },
        },
    }
}

/// The maps of one part, read.
pub open spec fn read_body(s: Seq<u8>, part: Parts) -> Read<IndexView> {
    if part == Parts::textures() {
        read_textures(s)
    } else if part == Parts::interiors() {
        read_interiors(s)
    } else if part == Parts::models() {
        read_models(s)
    } else {
        Err(IndexError::NotSinglePart { bits: part.bits })
    }
}

/// The fingerprint in what a part's file starts with.
pub open spec fn read_head(s: Seq<u8>, part: Parts) -> Read<u64> {
    match read_u32(s) {
        Err(e) => Err(e),
        Ok((magic, s)) => if magic != MAGIC {
            Err(IndexError::BadMagic)
        } else {
            match read_u32(s) {
                Err(e) => Err(e),
                Ok((version, s)) => if version != FORMAT_VERSION {
                    Err(IndexError::UnsupportedVersion { version })
                } else {
                    match read_u32(s) {
                        Err(e) => Err(e),
                        Ok((stored, s)) => if stored != part.bits {
                            Err(IndexError::OtherPart { stored, expected: part.bits })
                        } else {
                            read_u64(s)
                        },
                    }
                },
            }
        },
    }
}

/// What the file of `part` holds: the fingerprint it was written for, and an
/// index of just that part.
pub open spec fn part_of(s: Seq<u8>, part: Parts) -> Result<(u64, IndexView), IndexError> {
    match read_head(s, part) {
        Err(e) => Err(e),
        Ok((fingerprint, rest)) => match read_body(rest, part) {
            Err(e) => Err(e),
            Ok((v, rest)) => if rest.len() > 0 {
                Err(IndexError::TrailingBytes { count: rest.len() as usize })
            } else {
                Ok((fingerprint, v))
            },
        },
    }
}

// ── Writing ─────────────────────────────────────────────────────────────────

proof fn lemma_keyed_grows<V>(m: Map<u32, V>, keys: Seq<u32>, i: int)
    requires
        0 <= i < keys.len(),
    ensures
        keyed(m, keys.take(i + 1)).drop_last() == keyed(m, keys.take(i)),
        keyed(m, keys.take(i + 1)).last() == (keys[i], m[keys[i]]),
        keyed(m, keys.take(i + 1)).len() == i + 1,
{
    assert(keyed(m, keys.take(i + 1)).drop_last() =~= keyed(m, keys.take(i)));
}

/// Appends a map of locations, in ascending order of its keys.
pub fn write_locs(buf: &mut Vec<u8>, map: &HashMap<u32, EntryLoc>)
    ensures
        final(buf)@ == old(buf)@ + map_bytes(locations(map@), loc_entry_coder()),
{
    let keys = ascending_keys(map);
    write_u32(buf, map.len() as u32);
    let ghost m = locations(map@);
    let ghost head = buf@;
    assert(m.dom() =~= map@.dom());
    assert(keyed(m, keys@.take(0)) =~= Seq::empty());
    let mut i: usize = 0;
    while i < keys.len()
        invariant
            i <= keys.len(),
            m == locations(map@),
            forall|k: u32| map@.contains_key(k) <==> #[trigger] keys@.contains(k),
            buf@ == head + list_bytes(keyed(m, keys@.take(i as int)), loc_entry_coder()),
        decreases keys.len() - i,
    {
        let k: u32 = keys[i];
        let ghost before = buf@;
        assert(keys@.contains(k));
        if let Some(loc) = map.get(&k) {
            write_u32(buf, k);
            write_loc(buf, loc);
            proof {
                assert(m[k] == loc@);
                lemma_join2(before, le32(k), loc_bytes(loc@));
            }
        }
        proof {
            lemma_keyed_grows(m, keys@, i as int);
            let written = list_bytes(keyed(m, keys@.take(i as int)), loc_entry_coder());
            let entry = loc_entry_coder()((k, m[k]));
            assert(buf@ == before + entry);
            lemma_join2(head, written, entry);
        }
        i = i + 1;
    }
    proof {
        assert(keys@.take(keys.len() as int) =~= keys@);
        lemma_join2(
            old(buf)@,
            le32(m.dom().len() as u32),
            list_bytes(keyed(m, keys@), loc_entry_coder()),
        );
    }
}

/// Appends a map of numbers, in ascending order of its keys.
pub fn write_pairs(buf: &mut Vec<u8>, map: &HashMap<u32, u32>)
    ensures
        final(buf)@ == old(buf)@ + map_bytes(map@, pair_coder()),
{
    let keys = ascending_keys(map);
    write_u32(buf, map.len() as u32);
    let ghost m = map@;
    let ghost head = buf@;
    assert(m.dom() =~= map@.dom());
    assert(keyed(m, keys@.take(0)) =~= Seq::empty());
    let mut i: usize = 0;
    while i < keys.len()
        invariant
            i <= keys.len(),
            m == map@,
            forall|k: u32| map@.contains_key(k) <==> #[trigger] keys@.contains(k),
            buf@ == head + list_bytes(keyed(m, keys@.take(i as int)), pair_coder()),
        decreases keys.len() - i,
    {
        let k: u32 = keys[i];
        let ghost before = buf@;
        assert(keys@.contains(k));
        if let Some(v) = map.get(&k) {
            write_u32(buf, k);
            write_u32(buf, *v);
            proof {
                lemma_join2(before, le32(k), le32(*v));
            }
        }
        proof {
            lemma_keyed_grows(m, keys@, i as int);
            let written = list_bytes(keyed(m, keys@.take(i as int)), pair_coder());
            let entry = pair_coder()((k, m[k]));
            assert(buf@ == before + entry);
            lemma_join2(head, written, entry);
        }
        i = i + 1;
    }
    proof {
        assert(keys@.take(keys.len() as int) =~= keys@);
        lemma_join2(
            old(buf)@,
            le32(m.dom().len() as u32),
            list_bytes(keyed(m, keys@), pair_coder()),
        );
    }
}

/// Appends a list of locations.
fn write_loc_list(buf: &mut Vec<u8>, list: &Vec<EntryLoc>)
    ensures
        final(buf)@ == old(buf)@ + list_bytes(location_list(list@), loc_coder()),
{
    let ghost all = location_list(list@);
    let ghost head = buf@;
    let mut i: usize = 0;
    assert(all.take(0) =~= Seq::empty());
    while i < list.len()
        invariant
            i <= list.len(),
            all == location_list(list@),
            buf@ == head + list_bytes(all.take(i as int), loc_coder()),
        decreases list.len() - i,
    {
        write_loc(buf, &list[i]);
        proof {
            assert(all.take(i + 1).drop_last() =~= all.take(i as int));
            assert(all.take(i + 1).last() == list[i as int]@);
            lemma_join2(head, list_bytes(all.take(i as int), loc_coder()), loc_bytes(list[i as int]@));
        }
        i = i + 1;
    }
    assert(all.take(list.len() as int) =~= all);
}

/// Appends a map of lists of locations, in ascending order of its keys.
pub fn write_placings(buf: &mut Vec<u8>, map: &HashMap<u32, Vec<EntryLoc>>)
    ensures
        final(buf)@ == old(buf)@ + map_bytes(location_lists(map@), placing_coder()),
{
    let keys = ascending_keys(map);
    write_u32(buf, map.len() as u32);
    let ghost m = location_lists(map@);
    let ghost head = buf@;
    assert(m.dom() =~= map@.dom());
    assert(keyed(m, keys@.take(0)) =~= Seq::empty());
    let mut i: usize = 0;
    while i < keys.len()
        invariant
            i <= keys.len(),
            m == location_lists(map@),
            forall|k: u32| map@.contains_key(k) <==> #[trigger] keys@.contains(k),
            buf@ == head + list_bytes(keyed(m, keys@.take(i as int)), placing_coder()),
        decreases keys.len() - i,
    {
        let k: u32 = keys[i];
        let ghost before = buf@;
        assert(keys@.contains(k));
        if let Some(list) = map.get(&k) {
            write_u32(buf, k);
            write_u32(buf, list.len() as u32);
            write_loc_list(buf, list);
            proof {
                let items = location_list(list@);
                assert(m[k] == items);
                assert(items.len() == list.len());
                lemma_join3(
                    before,
                    le32(k),
                    le32(items.len() as u32),
                    list_bytes(items, loc_coder()),
                );
                lemma_join2(le32(k), le32(items.len() as u32), list_bytes(items, loc_coder()));
            }
        }
        proof {
            lemma_keyed_grows(m, keys@, i as int);
            let written = list_bytes(keyed(m, keys@.take(i as int)), placing_coder());
            let entry = placing_coder()((k, m[k]));
            assert(buf@ == before + entry);
            lemma_join2(head, written, entry);
        }
        i = i + 1;
    }
    proof {
        assert(keys@.take(keys.len() as int) =~= keys@);
        lemma_join2(
            old(buf)@,
            le32(m.dom().len() as u32),
            list_bytes(keyed(m, keys@), placing_coder()),
        );
    }
}

/// Appends the six words of a box.
fn write_box(buf: &mut Vec<u8>, b: &ArchetypeBox)
    ensures
        final(buf)@ == old(buf)@ + list_bytes(box_words(*b), word_coder()),
{
    write_u32(buf, b.min_x);
    write_u32(buf, b.min_y);
    write_u32(buf, b.min_z);
    write_u32(buf, b.max_x);
    write_u32(buf, b.max_y);
    write_u32(buf, b.max_z);
    proof {
        let w = box_words(*b);
        let start = old(buf)@;
        let c = word_coder();
        assert(w.take(0) =~= Seq::empty());
        assert(start + list_bytes(w.take(0), c) =~= start);
        lemma_words_grow(start, w, 0);
        lemma_words_grow(start, w, 1);
        lemma_words_grow(start, w, 2);
        lemma_words_grow(start, w, 3);
        lemma_words_grow(start, w, 4);
        lemma_words_grow(start, w, 5);
        assert(w.take(6) =~= w);
    }
}

proof fn lemma_words_grow(start: Seq<u8>, w: Seq<u32>, i: int)
    requires
        0 <= i < w.len(),
    ensures
        start + list_bytes(w.take(i + 1), word_coder()) == start + list_bytes(
            w.take(i),
            word_coder(),
        ) + le32(w[i]),
{
    assert(w.take(i + 1).drop_last() =~= w.take(i));
    assert(w.take(i + 1).last() == w[i]);
    lemma_join2(start, list_bytes(w.take(i), word_coder()), le32(w[i]));
}

/// Appends a map of boxes, in ascending order of its keys.
pub fn write_boxes(buf: &mut Vec<u8>, map: &HashMap<u32, ArchetypeBox>)
    ensures
        final(buf)@ == old(buf)@ + map_bytes(map@, box_coder()),
{
    let keys = ascending_keys(map);
    write_u32(buf, map.len() as u32);
    let ghost m = map@;
    let ghost head = buf@;
    assert(m.dom() =~= map@.dom());
    assert(keyed(m, keys@.take(0)) =~= Seq::empty());
    let mut i: usize = 0;
    while i < keys.len()
        invariant
            i <= keys.len(),
            m == map@,
            forall|k: u32| map@.contains_key(k) <==> #[trigger] keys@.contains(k),
            buf@ == head + list_bytes(keyed(m, keys@.take(i as int)), box_coder()),
        decreases keys.len() - i,
    {
        let k: u32 = keys[i];
        let ghost before = buf@;
        assert(keys@.contains(k));
        if let Some(b) = map.get(&k) {
            write_u32(buf, k);
            write_box(buf, b);
            proof {
                lemma_join2(before, le32(k), list_bytes(box_words(*b), word_coder()));
            }
        }
        proof {
            lemma_keyed_grows(m, keys@, i as int);
            let written = list_bytes(keyed(m, keys@.take(i as int)), box_coder());
            let entry = box_coder()((k, m[k]));
            assert(buf@ == before + entry);
            lemma_join2(head, written, entry);
        }
        i = i + 1;
    }
    proof {
        assert(keys@.take(keys.len() as int) =~= keys@);
        lemma_join2(
            old(buf)@,
            le32(m.dom().len() as u32),
            list_bytes(keyed(m, keys@), box_coder()),
        );
    }
}

/// Appends a map of assets, in ascending order of its keys.
pub fn write_assets(buf: &mut Vec<u8>, map: &HashMap<u32, Asset>)
    ensures
        final(buf)@ == old(buf)@ + map_bytes(map@, asset_coder()),
{
    let keys = ascending_keys(map);
    write_u32(buf, map.len() as u32);
    let ghost m = map@;
    let ghost head = buf@;
    assert(m.dom() =~= map@.dom());
    assert(keyed(m, keys@.take(0)) =~= Seq::empty());
    let mut i: usize = 0;
    while i < keys.len()
        invariant
            i <= keys.len(),
            m == map@,
            forall|k: u32| map@.contains_key(k) <==> #[trigger] keys@.contains(k),
            buf@ == head + list_bytes(keyed(m, keys@.take(i as int)), asset_coder()),
        decreases keys.len() - i,
    {
        let k: u32 = keys[i];
        let ghost before = buf@;
        assert(keys@.contains(k));
        if let Some(a) = map.get(&k) {
            write_u32(buf, k);
            write_u32(buf, a.kind);
            write_u32(buf, a.model);
            proof {
                lemma_join3(before, le32(k), le32(a.kind), le32(a.model));
                lemma_join2(le32(k), le32(a.kind), le32(a.model));
            }
        }
        proof {
            lemma_keyed_grows(m, keys@, i as int);
            let written = list_bytes(keyed(m, keys@.take(i as int)), asset_coder());
            let entry = asset_coder()((k, m[k]));
            assert(buf@ == before + entry);
            lemma_join2(head, written, entry);
        }
        i = i + 1;
    }
    proof {
        assert(keys@.take(keys.len() as int) =~= keys@);
        lemma_join2(
            old(buf)@,
            le32(m.dom().len() as u32),
            list_bytes(keyed(m, keys@), asset_coder()),
        );
    }
}

/// The file of one part of `index`, written for archives with the given
/// fingerprint.
pub fn encode_part(index: &GameIndex, part: Parts, fingerprint: u64) -> (buf: Vec<u8>)
    requires
        is_single(part),
    ensures
        buf@ == part_bytes(index@, part, fingerprint),
{
    let mut buf: Vec<u8> = Vec::new();
    write_u32(&mut buf, MAGIC);
    write_u32(&mut buf, FORMAT_VERSION);
    write_u32(&mut buf, part.bits as u32);
    write_u64(&mut buf, fingerprint);
    let ghost head = head_bytes(part, fingerprint);
    assert(Seq::<u8>::empty() + le32(MAGIC) =~= le32(MAGIC));
    assert(buf@ == head);
    let ghost v = index@;
    if part == Parts::textures() {
        write_locs(&mut buf, &index.ytd_by_name);
        write_pairs(&mut buf, &index.archetype_txd);
        write_pairs(&mut buf, &index.resident_textures);
        write_pairs(&mut buf, &index.parent_txds);
        proof {
            lemma_join4(
                head,
                map_bytes(v.ytd_by_name, loc_entry_coder()),
                map_bytes(v.archetype_txd, pair_coder()),
                map_bytes(v.resident_textures, pair_coder()),
                map_bytes(v.parent_txds, pair_coder()),
            );
            lemma_join3(
                map_bytes(v.ytd_by_name, loc_entry_coder()),
                map_bytes(v.archetype_txd, pair_coder()),
                map_bytes(v.resident_textures, pair_coder()),
                map_bytes(v.parent_txds, pair_coder()),
            );
        }
    } else if part == Parts::interiors() {
        write_locs(&mut buf, &index.mlo_ytyp);
        write_placings(&mut buf, &index.mlo_instances);
        write_locs(&mut buf, &index.ybn_by_name);
        proof {
            lemma_join3(
                head,
                map_bytes(v.mlo_ytyp, loc_entry_coder()),
                map_bytes(v.mlo_instances, placing_coder()),
                map_bytes(v.ybn_by_name, loc_entry_coder()),
            );
            lemma_join2(
                map_bytes(v.mlo_ytyp, loc_entry_coder()),
                map_bytes(v.mlo_instances, placing_coder()),
                map_bytes(v.ybn_by_name, loc_entry_coder()),
            );
        }
    } else {
        write_boxes(&mut buf, &index.archetype_box);
        write_locs(&mut buf, &index.drawable_by_name);
        write_assets(&mut buf, &index.archetype_asset);
        proof {
            lemma_join3(
                head,
                map_bytes(v.archetype_box, box_coder()),
                map_bytes(v.drawable_by_name, loc_entry_coder()),
                map_bytes(v.archetype_asset, asset_coder()),
            );
            lemma_join2(
                map_bytes(v.archetype_box, box_coder()),
                map_bytes(v.drawable_by_name, loc_entry_coder()),
                map_bytes(v.archetype_asset, asset_coder()),
            );
        }
    }
    buf
}

// ── Reading ─────────────────────────────────────────────────────────────────

/// Reads a hash and a location.
fn loc_entry(c: &mut Cursor) -> (r: Result<(u32, EntryLoc), IndexError>)
    requires
        old(c).wf(),
    ensures
        final(c).wf(),
        final(c).data == old(c).data,
        match r {
            Ok(e) => read_loc_entry(old(c).rest()) == Ok::<((u32, Location), Seq<u8>), IndexError>(
                ((e.0, e.1@), final(c).rest()),
            ),
            Err(e) => read_loc_entry(old(c).rest()) == Err::<((u32, Location), Seq<u8>), IndexError>(e),
        },
{
    let k: u32 = match c.u32() {
        Ok(n) => n,
        Err(e) => return Err(e),
    };
    match read_loc(c) {
        Ok(l) => Ok((k, l)),
        Err(e) => Err(e),
    }
}

/// Reads a map of locations.
pub fn read_locs(c: &mut Cursor) -> (r: Result<HashMap<u32, EntryLoc>, IndexError>)
    requires
        old(c).wf(),
    ensures
        final(c).wf(),
        final(c).data == old(c).data,
        match r {
            Ok(m) => read_map(old(c).rest(), loc_entry_reader()) == Ok::<
                (Map<u32, Location>, Seq<u8>),
                IndexError,
            >((locations(m@), final(c).rest())),
            Err(e) => read_map(old(c).rest(), loc_entry_reader()) == Err::<
                (Map<u32, Location>, Seq<u8>),
                IndexError,
            >(e),
        },
{
    let n: u32 = match c.u32() {
        Ok(n) => n,
        Err(e) => return Err(e),
    };
    let ghost first = c.rest();
    let ghost mut list: Seq<(u32, Location)> = Seq::empty();
    let mut map: HashMap<u32, EntryLoc> = HashMap::new();
    let mut i: u32 = 0;
    assert(locations(map@) =~= Map::empty());
    while i < n
        invariant
            i <= n,
            c.wf(),
            c.data == old(c).data,
            read_u32(old(c).rest()) == Ok::<(u32, Seq<u8>), IndexError>((n, first)),
            read_list(first, i as nat, loc_entry_reader()) == Ok::<
                (Seq<(u32, Location)>, Seq<u8>),
                IndexError,
            >((list, c.rest())),
            locations(map@) == map_of(list),
        decreases n - i,
    {
        let ghost before = map@;
        match loc_entry(c) {
            Ok((k, v)) => {
                map.insert(k, v);
                proof {
                    let longer = list.push((k, v@));
                    assert(longer.drop_last() =~= list);
                    assert(locations(map@) =~= locations(before).insert(k, v@));
                    list = longer;
                }
            },
            Err(e) => {
                proof {
                    assert(read_list(first, (i + 1) as nat, loc_entry_reader()) is Err);
                    lemma_read_list_fails(first, (i + 1) as nat, n as nat, loc_entry_reader());
                }
                return Err(e);
            },
        }
        i = i + 1;
    }
    Ok(map)
}

/// Reads two numbers.
fn pair_entry(c: &mut Cursor) -> (r: Result<(u32, u32), IndexError>)
    requires
        old(c).wf(),
    ensures
        final(c).wf(),
        final(c).data == old(c).data,
        match r {
            Ok(e) => read_pair(old(c).rest()) == Ok::<((u32, u32), Seq<u8>), IndexError>(
                ((e.0, e.1), final(c).rest()),
            ),
            Err(e) => read_pair(old(c).rest()) == Err::<((u32, u32), Seq<u8>), IndexError>(e),
        },
{
    let k: u32 = match c.u32() {
        Ok(n) => n,
        Err(e) => return Err(e),
    };
    match c.u32() {
        Ok(v) => Ok((k, v)),
        Err(e) => Err(e),
    }
}

/// Reads a map of numbers.
pub fn read_pairs(c: &mut Cursor) -> (r: Result<HashMap<u32, u32>, IndexError>)
    requires
        old(c).wf(),
    ensures
        final(c).wf(),
        final(c).data == old(c).data,
        match r {
            Ok(m) => read_map(old(c).rest(), pair_reader()) == Ok::<
                (Map<u32, u32>, Seq<u8>),
                IndexError,
            >((m@, final(c).rest())),
            Err(e) => read_map(old(c).rest(), pair_reader()) == Err::<
                (Map<u32, u32>, Seq<u8>),
                IndexError,
            >(e),
        },
{
    let n: u32 = match c.u32() {
        Ok(n) => n,
        Err(e) => return Err(e),
    };
    let ghost first = c.rest();
    let ghost mut list: Seq<(u32, u32)> = Seq::empty();
    let mut map: HashMap<u32, u32> = HashMap::new();
    let mut i: u32 = 0;
    assert(map@ =~= Map::empty());
    while i < n
        invariant
            i <= n,
            c.wf(),
            c.data == old(c).data,
            read_u32(old(c).rest()) == Ok::<(u32, Seq<u8>), IndexError>((n, first)),
            read_list(first, i as nat, pair_reader()) == Ok::<
                (Seq<(u32, u32)>, Seq<u8>),
                IndexError,
            >((list, c.rest())),
            map@ == map_of(list),
        decreases n - i,
    {
        let ghost before = map@;
        match pair_entry(c) {
            Ok((k, v)) => {
                map.insert(k, v);
                proof {
                    let longer = list.push((k, v));
                    assert(longer.drop_last() =~= list);
                    assert(map@ =~= before.insert(k, v));
                    list = longer;
                }
            },
            Err(e) => {
                proof {
                    assert(read_list(first, (i + 1) as nat, pair_reader()) is Err);
                    lemma_read_list_fails(first, (i + 1) as nat, n as nat, pair_reader());
                }
                return Err(e);
            },
        }
        i = i + 1;
    }
    Ok(map)
}

/// Reads a hash and a list of locations.
fn placing_entry(c: &mut Cursor) -> (r: Result<(u32, Vec<EntryLoc>), IndexError>)
    requires
        old(c).wf(),
    ensures
        final(c).wf(),
        final(c).data == old(c).data,
        match r {
            Ok(e) => read_placing(old(c).rest()) == Ok::<((u32, Seq<Location>), Seq<u8>), IndexError>(
                ((e.0, location_list(e.1@)), final(c).rest()),
            ),
            Err(e) => read_placing(old(c).rest()) == Err::<((u32, Seq<Location>), Seq<u8>), IndexError>(e),
        },
{
    let k: u32 = match c.u32() {
        Ok(n) => n,
        Err(e) => return Err(e),
    };
    let n: u32 = match c.u32() {
        Ok(n) => n,
        Err(e) => return Err(e),
    };
    let ghost first = c.rest();
    let ghost data = c.data;
    let mut list: Vec<EntryLoc> = Vec::new();
    let mut i: u32 = 0;
    assert(location_list(list@) =~= Seq::empty());
    while i < n
        invariant
            i <= n,
            c.wf(),
            c.data == data,
            data == old(c).data,
            read_list(first, i as nat, loc_reader()) == Ok::<(Seq<Location>, Seq<u8>), IndexError>(
                (location_list(list@), c.rest()),
            ),
            read_list(first, n as nat, loc_reader()) is Err ==> read_placing(old(c).rest())
                == Err::<((u32, Seq<Location>), Seq<u8>), IndexError>(
                read_list(first, n as nat, loc_reader())->Err_0,
            ),
        decreases n - i,
    {
        match read_loc(c) {
            Ok(l) => {
                let ghost before = location_list(list@);
                list.push(l);
                assert(location_list(list@) =~= before.push(l@));
            },
            Err(e) => {
                proof {
                    assert(read_list(first, (i + 1) as nat, loc_reader()) is Err);
                    lemma_read_list_fails(first, (i + 1) as nat, n as nat, loc_reader());
                }
                return Err(e);
            },
        }
        i = i + 1;
    }
    Ok((k, list))
}

/// Reads a map of lists of locations.
pub fn read_placings(c: &mut Cursor) -> (r: Result<HashMap<u32, Vec<EntryLoc>>, IndexError>)
    requires
        old(c).wf(),
    ensures
        final(c).wf(),
        final(c).data == old(c).data,
        match r {
            Ok(m) => read_map(old(c).rest(), placing_reader()) == Ok::<
                (Map<u32, Seq<Location>>, Seq<u8>),
                IndexError,
            >((location_lists(m@), final(c).rest())),
            Err(e) => read_map(old(c).rest(), placing_reader()) == Err::<
                (Map<u32, Seq<Location>>, Seq<u8>),
                IndexError,
            >(e),
        },
{
    let n: u32 = match c.u32() {
        Ok(n) => n,
        Err(e) => return Err(e),
    };
    let ghost first = c.rest();
    let ghost mut list: Seq<(u32, Seq<Location>)> = Seq::empty();
    let mut map: HashMap<u32, Vec<EntryLoc>> = HashMap::new();
    let mut i: u32 = 0;
    assert(location_lists(map@) =~= Map::empty());
    while i < n
        invariant
            i <= n,
            c.wf(),
            c.data == old(c).data,
            read_u32(old(c).rest()) == Ok::<(u32, Seq<u8>), IndexError>((n, first)),
            read_list(first, i as nat, placing_reader()) == Ok::<
                (Seq<(u32, Seq<Location>)>, Seq<u8>),
                IndexError,
            >((list, c.rest())),
            location_lists(map@) == map_of(list),
        decreases n - i,
    {
        let ghost before = map@;
        match placing_entry(c) {
            Ok((k, v)) => {
                map.insert(k, v);
                proof {
                    let longer = list.push((k, location_list(v@)));
                    assert(longer.drop_last() =~= list);
                    assert(location_lists(map@) =~= location_lists(before).insert(k, location_list(v@)));
                    list = longer;
                }
            },
            Err(e) => {
                proof {
                    assert(read_list(first, (i + 1) as nat, placing_reader()) is Err);
                    lemma_read_list_fails(first, (i + 1) as nat, n as nat, placing_reader());
                }
                return Err(e);
            },
        }
        i = i + 1;
    }
    Ok(map)
}

/// Reads the next word of a box.
fn box_word(c: &mut Cursor, Ghost(first): Ghost<Seq<u8>>, Ghost(n): Ghost<nat>, Ghost(words): Ghost<Seq<u32>>) -> (r: Result<u32, IndexError>)
    requires
        old(c).wf(),
        n < 6,
        read_list(first, n, word_reader()) == Ok::<(Seq<u32>, Seq<u8>), IndexError>(
            (words, old(c).rest()),
        ),
    ensures
        final(c).wf(),
        final(c).data == old(c).data,
        match r {
            Ok(w) => read_list(first, n + 1, word_reader()) == Ok::<(Seq<u32>, Seq<u8>), IndexError>(
                (words.push(w), final(c).rest()),
            ),
            Err(e) => read_list(first, 6, word_reader()) == Err::<(Seq<u32>, Seq<u8>), IndexError>(
                e,
            ),
        },
{
    let r = c.u32();
    proof {
        if r is Err {
            assert(read_list(first, n + 1, word_reader()) is Err);
            lemma_read_list_fails(first, n + 1, 6, word_reader());
        }
    }
    r
}

/// Reads a hash and a box.
fn box_entry(c: &mut Cursor) -> (r: Result<(u32, ArchetypeBox), IndexError>)
    requires
        old(c).wf(),
    ensures
        final(c).wf(),
        final(c).data == old(c).data,
        match r {
            Ok(e) => read_box(old(c).rest()) == Ok::<((u32, ArchetypeBox), Seq<u8>), IndexError>(
                ((e.0, e.1), final(c).rest()),
            ),
            Err(e) => read_box(old(c).rest()) == Err::<((u32, ArchetypeBox), Seq<u8>), IndexError>(e),
        },
{
    let k: u32 = match c.u32() {
        Ok(n) => n,
        Err(e) => return Err(e),
    };
    let ghost first = c.rest();
    let ghost mut words: Seq<u32> = Seq::empty();
    let min_x: u32 = match box_word(c, Ghost(first), Ghost(0), Ghost(words)) {
        Ok(n) => n,
        Err(e) => return Err(e),
    };
    proof {
        words = words.push(min_x);
    }
    let min_y: u32 = match box_word(c, Ghost(first), Ghost(1), Ghost(words)) {
        Ok(n) => n,
        Err(e) => return Err(e),
    };
    proof {
        words = words.push(min_y);
    }
    let min_z: u32 = match box_word(c, Ghost(first), Ghost(2), Ghost(words)) {
        Ok(n) => n,
        Err(e) => return Err(e),
    };
    proof {
        words = words.push(min_z);
    }
    let max_x: u32 = match box_word(c, Ghost(first), Ghost(3), Ghost(words)) {
        Ok(n) => n,
        Err(e) => return Err(e),
    };
    proof {
        words = words.push(max_x);
    }
    let max_y: u32 = match box_word(c, Ghost(first), Ghost(4), Ghost(words)) {
        Ok(n) => n,
        Err(e) => return Err(e),
    };
    proof {
        words = words.push(max_y);
    }
    let max_z: u32 = match box_word(c, Ghost(first), Ghost(5), Ghost(words)) {
        Ok(n) => n,
        Err(e) => return Err(e),
    };
    proof {
        words = words.push(max_z);
    }
    Ok((k, ArchetypeBox { min_x, min_y, min_z, max_x, max_y, max_z }))
}

/// Reads a map of boxes.
pub fn read_boxes(c: &mut Cursor) -> (r: Result<HashMap<u32, ArchetypeBox>, IndexError>)
    requires
        old(c).wf(),
    ensures
        final(c).wf(),
        final(c).data == old(c).data,
        match r {
            Ok(m) => read_map(old(c).rest(), box_reader()) == Ok::<
                (Map<u32, ArchetypeBox>, Seq<u8>),
                IndexError,
            >((m@, final(c).rest())),
            Err(e) => read_map(old(c).rest(), box_reader()) == Err::<
                (Map<u32, ArchetypeBox>, Seq<u8>),
                IndexError,
            >(e),
        },
{
    let n: u32 = match c.u32() {
        Ok(n) => n,
        Err(e) => return Err(e),
    };
    let ghost first = c.rest();
    let ghost mut list: Seq<(u32, ArchetypeBox)> = Seq::empty();
    let mut map: HashMap<u32, ArchetypeBox> = HashMap::new();
    let mut i: u32 = 0;
    assert(map@ =~= Map::empty());
    while i < n
        invariant
            i <= n,
            c.wf(),
            c.data == old(c).data,
            read_u32(old(c).rest()) == Ok::<(u32, Seq<u8>), IndexError>((n, first)),
            read_list(first, i as nat, box_reader()) == Ok::<
                (Seq<(u32, ArchetypeBox)>, Seq<u8>),
                IndexError,
            >((list, c.rest())),
            map@ == map_of(list),
        decreases n - i,
    {
        let ghost before = map@;
        match box_entry(c) {
            Ok((k, v)) => {
                map.insert(k, v);
                proof {
                    let longer = list.push((k, v));
                    assert(longer.drop_last() =~= list);
                    assert(map@ =~= before.insert(k, v));
                    list = longer;
                }
            },
            Err(e) => {
                proof {
                    assert(read_list(first, (i + 1) as nat, box_reader()) is Err);
                    lemma_read_list_fails(first, (i + 1) as nat, n as nat, box_reader());
                }
                return Err(e);
            },
        }
        i = i + 1;
    }
    Ok(map)
}

/// Reads a hash and an asset.
fn asset_entry(c: &mut Cursor) -> (r: Result<(u32, Asset), IndexError>)
    requires
        old(c).wf(),
    ensures
        final(c).wf(),
        final(c).data == old(c).data,
        match r {
            Ok(e) => read_asset(old(c).rest()) == Ok::<((u32, Asset), Seq<u8>), IndexError>(
                ((e.0, e.1), final(c).rest()),
            ),
            Err(e) => read_asset(old(c).rest()) == Err::<((u32, Asset), Seq<u8>), IndexError>(e),
        },
{
    let k: u32 = match c.u32() {
        Ok(n) => n,
        Err(e) => return Err(e),
    };
    let kind: u32 = match c.u32() {
        Ok(n) => n,
        Err(e) => return Err(e),
    };
    match c.u32() {
        Ok(model) => Ok((k, Asset { kind, model })),
        Err(e) => Err(e),
    }
}

/// Reads a map of assets.
pub fn read_assets(c: &mut Cursor) -> (r: Result<HashMap<u32, Asset>, IndexError>)
    requires
        old(c).wf(),
    ensures
        final(c).wf(),
        final(c).data == old(c).data,
        match r {
            Ok(m) => read_map(old(c).rest(), asset_reader()) == Ok::<
                (Map<u32, Asset>, Seq<u8>),
                IndexError,
            >((m@, final(c).rest())),
            Err(e) => read_map(old(c).rest(), asset_reader()) == Err::<
                (Map<u32, Asset>, Seq<u8>),
                IndexError,
            >(e),
        },
{
    let n: u32 = match c.u32() {
        Ok(n) => n,
        Err(e) => return Err(e),
    };
    let ghost first = c.rest();
    let ghost mut list: Seq<(u32, Asset)> = Seq::empty();
    let mut map: HashMap<u32, Asset> = HashMap::new();
    let mut i: u32 = 0;
    assert(map@ =~= Map::empty());
    while i < n
        invariant
            i <= n,
            c.wf(),
            c.data == old(c).data,
            read_u32(old(c).rest()) == Ok::<(u32, Seq<u8>), IndexError>((n, first)),
            read_list(first, i as nat, asset_reader()) == Ok::<
                (Seq<(u32, Asset)>, Seq<u8>),
                IndexError,
            >((list, c.rest())),
            map@ == map_of(list),
        decreases n - i,
    {
        let ghost before = map@;
        match asset_entry(c) {
            Ok((k, v)) => {
                map.insert(k, v);
                proof {
                    let longer = list.push((k, v));
                    assert(longer.drop_last() =~= list);
                    assert(map@ =~= before.insert(k, v));
                    list = longer;
                }
            },
            Err(e) => {
                proof {
                    assert(read_list(first, (i + 1) as nat, asset_reader()) is Err);
                    lemma_read_list_fails(first, (i + 1) as nat, n as nat, asset_reader());
                }
                return Err(e);
            },
        }
        i = i + 1;
    }
    Ok(map)
}

/// Reads the maps of the textures part.
fn textures_body(c: &mut Cursor) -> (r: Result<GameIndex, IndexError>)
    requires
        old(c).wf(),
    ensures
        final(c).wf(),
        final(c).data == old(c).data,
        match r {
            Ok(i) => read_textures(old(c).rest()) == Ok::<(IndexView, Seq<u8>), IndexError>(
                (i@, final(c).rest()),
            ),
            Err(e) => read_textures(old(c).rest()) == Err::<(IndexView, Seq<u8>), IndexError>(e),
        },
{
    let ytd_by_name = match read_locs(c) {
        Ok(m) => m,
        Err(e) => return Err(e),
    };
    let archetype_txd = match read_pairs(c) {
        Ok(m) => m,
        Err(e) => return Err(e),
    };
    let resident_textures = match read_pairs(c) {
        Ok(m) => m,
        Err(e) => return Err(e),
    };
    let parent_txds = match read_pairs(c) {
        Ok(m) => m,
        Err(e) => return Err(e),
    };
    let mut index = GameIndex::empty(Parts::textures());
    index.ytd_by_name = ytd_by_name;
    index.archetype_txd = archetype_txd;
    index.resident_textures = resident_textures;
    index.parent_txds = parent_txds;
    Ok(index)
}

/// Reads the maps of the interiors part.
fn interiors_body(c: &mut Cursor) -> (r: Result<GameIndex, IndexError>)
    requires
        old(c).wf(),
    ensures
        final(c).wf(),
        final(c).data == old(c).data,
        match r {
            Ok(i) => read_interiors(old(c).rest()) == Ok::<(IndexView, Seq<u8>), IndexError>(
                (i@, final(c).rest()),
            ),
            Err(e) => read_interiors(old(c).rest()) == Err::<(IndexView, Seq<u8>), IndexError>(e),
        },
{
    let mlo_ytyp = match read_locs(c) {
        Ok(m) => m,
        Err(e) => return Err(e),
    };
    let mlo_instances = match read_placings(c) {
        Ok(m) => m,
        Err(e) => return Err(e),
    };
    let ybn_by_name = match read_locs(c) {
        Ok(m) => m,
        Err(e) => return Err(e),
    };
    let mut index = GameIndex::empty(Parts::interiors());
    index.mlo_ytyp = mlo_ytyp;
    index.mlo_instances = mlo_instances;
    index.ybn_by_name = ybn_by_name;
    Ok(index)
}

/// Reads the maps of the models part.
fn models_body(c: &mut Cursor) -> (r: Result<GameIndex, IndexError>)
    requires
        old(c).wf(),
    ensures
        final(c).wf(),
        final(c).data == old(c).data,
        match r {
            Ok(i) => read_models(old(c).rest()) == Ok::<(IndexView, Seq<u8>), IndexError>(
                (i@, final(c).rest()),
            ),
            Err(e) => read_models(old(c).rest()) == Err::<(IndexView, Seq<u8>), IndexError>(e),
        },
{
    let archetype_box = match read_boxes(c) {
        Ok(m) => m,
        Err(e) => return Err(e),
    };
    let drawable_by_name = match read_locs(c) {
        Ok(m) => m,
        Err(e) => return Err(e),
    };
    let archetype_asset = match read_assets(c) {
        Ok(m) => m,
        Err(e) => return Err(e),
    };
    let mut index = GameIndex::empty(Parts::models());
    index.archetype_box = archetype_box;
    index.drawable_by_name = drawable_by_name;
    index.archetype_asset = archetype_asset;
    Ok(index)
}

/// Reads what a part's file starts with; gives the fingerprint.
fn head(c: &mut Cursor, part: Parts) -> (r: Result<u64, IndexError>)
    requires
        old(c).wf(),
    ensures
        final(c).wf(),
        final(c).data == old(c).data,
        match r {
            Ok(n) => read_head(old(c).rest(), part) == Ok::<(u64, Seq<u8>), IndexError>(
                (n, final(c).rest()),
            ),
            Err(e) => read_head(old(c).rest(), part) == Err::<(u64, Seq<u8>), IndexError>(e),
        },
{
    match c.u32() {
        Ok(magic) => if magic != MAGIC {
            return Err(IndexError::BadMagic);
        },
        Err(e) => return Err(e),
    }
    match c.u32() {
        Ok(version) => if version != FORMAT_VERSION {
            return Err(IndexError::UnsupportedVersion { version });
        },
        Err(e) => return Err(e),
    }
    match c.u32() {
        Ok(stored) => if stored != part.bits as u32 {
            return Err(IndexError::OtherPart { stored, expected: part.bits });
        },
        Err(e) => return Err(e),
    }
    c.u64()
}

/// Decodes one part's file into the fingerprint it was written for and an
/// index holding just that part.
pub fn decode_part(data: &[u8], part: Parts) -> (r: Result<(u64, GameIndex), IndexError>)
    ensures
        match r {
            Ok((fingerprint, index)) => part_of(data@, part) == Ok::<(u64, IndexView), IndexError>(
                (fingerprint, index@),
            ),
            Err(e) => part_of(data@, part) == Err::<(u64, IndexView), IndexError>(e),
        },
{
    let mut c = Cursor { data, pos: 0 };
    assert(c.rest() =~= data@);
    let fingerprint: u64 = match head(&mut c, part) {
        Ok(n) => n,
        Err(e) => return Err(e),
    };
    let body = if part == Parts::textures() {
        textures_body(&mut c)
    } else if part == Parts::interiors() {
        interiors_body(&mut c)
    } else if part == Parts::models() {
        models_body(&mut c)
    } else {
        Err(IndexError::NotSinglePart { bits: part.bits })
    };
    let index = match body {
        Ok(i) => i,
        Err(e) => return Err(e),
    };
    if c.pos != data.len() {
        return Err(IndexError::TrailingBytes { count: data.len() - c.pos });
    }
    Ok((fingerprint, index))
}

// ── Laws ────────────────────────────────────────────────────────────────────

/// Every count and every length of these locations fits the space it is
/// written in.
pub open spec fn locs_fit(m: Map<u32, Location>) -> bool {
    &&& m.dom().finite()
    &&& m.dom().len() <= u32::MAX
    &&& forall|k: u32| #[trigger] m.contains_key(k) ==> loc_fits(m[k])
}

/// The number of entries fits the space it is written in.
pub open spec fn count_fits<V>(m: Map<u32, V>) -> bool {
    m.dom().finite() && m.dom().len() <= u32::MAX
}

/// Every count and every length in these lists fits the space it is written
/// in.
pub open spec fn placings_fit(m: Map<u32, Seq<Location>>) -> bool {
    &&& count_fits(m)
    &&& forall|k: u32| #[trigger] m.contains_key(k) ==> m[k].len() <= u32::MAX
    &&& forall|k: u32, i: int|
        m.contains_key(k) && 0 <= i < m[k].len() ==> loc_fits(#[trigger] m[k][i])
}

/// Every count and every length in the maps of a part fits the space it is
/// written in.
pub open spec fn part_fits(v: IndexView, part: Parts) -> bool {
    if part == Parts::textures() {
        locs_fit(v.ytd_by_name) && count_fits(v.archetype_txd) && count_fits(v.resident_textures)
            && count_fits(v.parent_txds)
    } else if part == Parts::interiors() {
        locs_fit(v.mlo_ytyp) && placings_fit(v.mlo_instances) && locs_fit(v.ybn_by_name)
    } else {
        count_fits(v.archetype_box) && locs_fit(v.drawable_by_name) && count_fits(v.archetype_asset)
    }
}

proof fn lemma_round_locs(m: Map<u32, Location>, rest: Seq<u8>)
    requires
        locs_fit(m),
    ensures
        read_map(map_bytes(m, loc_entry_coder()) + rest, loc_entry_reader()) == Ok::<
            (Map<u32, Location>, Seq<u8>),
            IndexError,
        >((m, rest)),
{
    assert forall|k: u32, r: Seq<u8>| m.contains_key(k) implies #[trigger] loc_entry_reader()(
        loc_entry_coder()((k, m[k])) + r,
    ) == Ok::<((u32, Location), Seq<u8>), IndexError>(((k, m[k]), r)) by {
        let body = loc_bytes(m[k]) + r;
        lemma_join2(le32(k), loc_bytes(m[k]), r);
        lemma_read_u32(k, body);
        law_location_round_trip(m[k], r);
    }
    lemma_read_map(m, loc_entry_coder(), loc_entry_reader(), rest);
}

proof fn lemma_round_pairs(m: Map<u32, u32>, rest: Seq<u8>)
    requires
        count_fits(m),
    ensures
        read_map(map_bytes(m, pair_coder()) + rest, pair_reader()) == Ok::<
            (Map<u32, u32>, Seq<u8>),
            IndexError,
        >((m, rest)),
{
    assert forall|k: u32, r: Seq<u8>| m.contains_key(k) implies #[trigger] pair_reader()(
        pair_coder()((k, m[k])) + r,
    ) == Ok::<((u32, u32), Seq<u8>), IndexError>(((k, m[k]), r)) by {
        let body = le32(m[k]) + r;
        lemma_join2(le32(k), le32(m[k]), r);
        lemma_read_u32(k, body);
        lemma_read_u32(m[k], r);
    }
    lemma_read_map(m, pair_coder(), pair_reader(), rest);
}

proof fn lemma_round_placings(m: Map<u32, Seq<Location>>, rest: Seq<u8>)
    requires
        placings_fit(m),
    ensures
        read_map(map_bytes(m, placing_coder()) + rest, placing_reader()) == Ok::<
            (Map<u32, Seq<Location>>, Seq<u8>),
            IndexError,
        >((m, rest)),
{
    assert forall|k: u32, r: Seq<u8>| m.contains_key(k) implies #[trigger] placing_reader()(
        placing_coder()((k, m[k])) + r,
    ) == Ok::<((u32, Seq<Location>), Seq<u8>), IndexError>(((k, m[k]), r)) by {
        let list = m[k];
        let items = list_bytes(list, loc_coder()) + r;
        let body = le32(list.len() as u32) + items;
        lemma_join3(le32(k), le32(list.len() as u32), list_bytes(list, loc_coder()), r);
        lemma_read_u32(k, body);
        lemma_read_u32(list.len() as u32, items);
        assert forall|i: int, t: Seq<u8>| 0 <= i < list.len() implies #[trigger] loc_reader()(
            loc_coder()(list[i]) + t,
        ) == Ok::<(Location, Seq<u8>), IndexError>((list[i], t)) by {
            assert(loc_fits(m[k][i]));
            law_location_round_trip(list[i], t);
        }
        lemma_read_list(list, loc_coder(), loc_reader(), r);
    }
    lemma_read_map(m, placing_coder(), placing_reader(), rest);
}

proof fn lemma_round_boxes(m: Map<u32, ArchetypeBox>, rest: Seq<u8>)
    requires
        count_fits(m),
    ensures
        read_map(map_bytes(m, box_coder()) + rest, box_reader()) == Ok::<
            (Map<u32, ArchetypeBox>, Seq<u8>),
            IndexError,
        >((m, rest)),
{
    assert forall|k: u32, r: Seq<u8>| m.contains_key(k) implies #[trigger] box_reader()(
        box_coder()((k, m[k])) + r,
    ) == Ok::<((u32, ArchetypeBox), Seq<u8>), IndexError>(((k, m[k]), r)) by {
        let words = box_words(m[k]);
        let body = list_bytes(words, word_coder()) + r;
        lemma_join2(le32(k), list_bytes(words, word_coder()), r);
        lemma_read_u32(k, body);
        assert forall|i: int, t: Seq<u8>| 0 <= i < words.len() implies #[trigger] word_reader()(
            word_coder()(words[i]) + t,
        ) == Ok::<(u32, Seq<u8>), IndexError>((words[i], t)) by {
            lemma_read_u32(words[i], t);
        }
        lemma_read_list(words, word_coder(), word_reader(), r);
    }
    lemma_read_map(m, box_coder(), box_reader(), rest);
}

proof fn lemma_round_assets(m: Map<u32, Asset>, rest: Seq<u8>)
    requires
        count_fits(m),
    ensures
        read_map(map_bytes(m, asset_coder()) + rest, asset_reader()) == Ok::<
            (Map<u32, Asset>, Seq<u8>),
            IndexError,
        >((m, rest)),
{
    assert forall|k: u32, r: Seq<u8>| m.contains_key(k) implies #[trigger] asset_reader()(
        asset_coder()((k, m[k])) + r,
    ) == Ok::<((u32, Asset), Seq<u8>), IndexError>(((k, m[k]), r)) by {
        let model = le32(m[k].model) + r;
        let body = le32(m[k].kind) + model;
        lemma_join3(le32(k), le32(m[k].kind), le32(m[k].model), r);
        lemma_read_u32(k, body);
        lemma_read_u32(m[k].kind, model);
        lemma_read_u32(m[k].model, r);
    }
    lemma_read_map(m, asset_coder(), asset_reader(), rest);
}

#[verifier::spinoff_prover]
#[verifier::rlimit(60)]
proof fn lemma_read_head(part: Parts, fingerprint: u64, rest: Seq<u8>)
    ensures
        read_head(head_bytes(part, fingerprint) + rest, part) == Ok::<(u64, Seq<u8>), IndexError>(
            (fingerprint, rest),
        ),
{
    let s4 = le64(fingerprint) + rest;
    let s3 = le32(part.bits as u32) + s4;
    let s2 = le32(FORMAT_VERSION) + s3;
    lemma_join4(
        le32(MAGIC),
        le32(FORMAT_VERSION),
        le32(part.bits as u32),
        le64(fingerprint),
        rest,
    );
    lemma_read_u32(MAGIC, s2);
    lemma_read_u32(FORMAT_VERSION, s3);
    lemma_read_u32(part.bits as u32, s4);
    lemma_read_u64(fingerprint, rest);
}

proof fn lemma_read_body(v: IndexView, part: Parts)
    requires
        is_single(part),
        part_fits(v, part),
    ensures
        read_body(body_bytes(v, part), part) == Ok::<(IndexView, Seq<u8>), IndexError>(
            (v.only(part), Seq::empty()),
        ),
{
    let end = Seq::<u8>::empty();
    lemma_join_end(body_bytes(v, part));
    if part == Parts::textures() {
        let s4 = map_bytes(v.parent_txds, pair_coder()) + end;
        let s3 = map_bytes(v.resident_textures, pair_coder()) + s4;
        let s2 = map_bytes(v.archetype_txd, pair_coder()) + s3;
        lemma_join4(
            map_bytes(v.ytd_by_name, loc_entry_coder()),
            map_bytes(v.archetype_txd, pair_coder()),
            map_bytes(v.resident_textures, pair_coder()),
            map_bytes(v.parent_txds, pair_coder()),
            end,
        );
        lemma_round_locs(v.ytd_by_name, s2);
        lemma_round_pairs(v.archetype_txd, s3);
        lemma_round_pairs(v.resident_textures, s4);
        lemma_round_pairs(v.parent_txds, end);
    } else if part == Parts::interiors() {
        let s3 = map_bytes(v.ybn_by_name, loc_entry_coder()) + end;
        let s2 = map_bytes(v.mlo_instances, placing_coder()) + s3;
        lemma_join3(
            map_bytes(v.mlo_ytyp, loc_entry_coder()),
            map_bytes(v.mlo_instances, placing_coder()),
            map_bytes(v.ybn_by_name, loc_entry_coder()),
            end,
        );
        lemma_round_locs(v.mlo_ytyp, s2);
        lemma_round_placings(v.mlo_instances, s3);
        lemma_round_locs(v.ybn_by_name, end);
    } else {
        let s3 = map_bytes(v.archetype_asset, asset_coder()) + end;
        let s2 = map_bytes(v.drawable_by_name, loc_entry_coder()) + s3;
        lemma_join3(
            map_bytes(v.archetype_box, box_coder()),
            map_bytes(v.drawable_by_name, loc_entry_coder()),
            map_bytes(v.archetype_asset, asset_coder()),
            end,
        );
        lemma_round_boxes(v.archetype_box, s2);
        lemma_round_locs(v.drawable_by_name, s3);
        lemma_round_assets(v.archetype_asset, end);
    }
}

/// Each part round-trips through its own file: what was written for a part is
/// read back with its fingerprint, and nothing of the other parts.
pub proof fn law_part_round_trip(v: IndexView, part: Parts, fingerprint: u64)
    requires
        is_single(part),
        part_fits(v, part),
    ensures
        part_of(part_bytes(v, part, fingerprint), part) == Ok::<(u64, IndexView), IndexError>(
            (fingerprint, v.only(part)),
        ),
{
    lemma_read_head(part, fingerprint, body_bytes(v, part));
    lemma_read_body(v, part);
}

/// The file of a part depends on what the part holds alone: two indexes that
/// hold the same give the same file, in whatever order it was put in and
/// whatever else they hold.
pub proof fn law_encoding_ignores_insertion_order(
    v: IndexView,
    w: IndexView,
    part: Parts,
    fingerprint: u64,
)
    requires
        is_single(part),
        v.only(part) == w.only(part),
    ensures
        part_bytes(v, part, fingerprint) == part_bytes(w, part, fingerprint),
{
    assert(body_bytes(v, part) == body_bytes(v.only(part), part));
    assert(body_bytes(w, part) == body_bytes(w.only(part), part));
}

/// A file written for another part is refused.
pub proof fn law_other_part_refused(v: IndexView, written: Parts, asked: Parts, fingerprint: u64)
    requires
        written.bits != asked.bits,
    ensures
        part_of(part_bytes(v, written, fingerprint), asked) == Err::<(u64, IndexView), IndexError>(
            IndexError::OtherPart { stored: written.bits as u32, expected: asked.bits },
        ),
{
    let s4 = le64(fingerprint) + body_bytes(v, written);
    let s3 = le32(written.bits as u32) + s4;
    let s2 = le32(FORMAT_VERSION) + s3;
    lemma_join4(
        le32(MAGIC),
        le32(FORMAT_VERSION),
        le32(written.bits as u32),
        le64(fingerprint),
        body_bytes(v, written),
    );
    lemma_read_u32(MAGIC, s2);
    lemma_read_u32(FORMAT_VERSION, s3);
    lemma_read_u32(written.bits as u32, s4);
}

/// A file of any other format version is refused, whatever follows.
pub proof fn law_other_version_refused(version: u32, rest: Seq<u8>, part: Parts)
    requires
        version != FORMAT_VERSION,
    ensures
        part_of(le32(MAGIC) + le32(version) + rest, part) == Err::<(u64, IndexView), IndexError>(
            IndexError::UnsupportedVersion { version },
        ),
{
    lemma_join2(le32(MAGIC), le32(version), rest);
    lemma_read_u32(MAGIC, le32(version) + rest);
    lemma_read_u32(version, rest);
}

proof fn lemma_loc_entries_extend(s: Seq<u8>, more: Seq<u8>)
    requires
        read_map(s, loc_entry_reader()) is Ok,
    ensures
        read_map(s + more, loc_entry_reader()) == Ok::<(Map<u32, Location>, Seq<u8>), IndexError>(
            (
                read_map(s, loc_entry_reader())->Ok_0.0,
                read_map(s, loc_entry_reader())->Ok_0.1 + more,
            ),
        ),
{
    let read = loc_entry_reader();
    assert forall|x: Seq<u8>| (#[trigger] read(x)) is Ok implies read(x + more) == Ok::<
        ((u32, Location), Seq<u8>),
        IndexError,
    >((read(x)->Ok_0.0, read(x)->Ok_0.1 + more)) by {
        lemma_read_u32_extends(x, more);
        lemma_read_location_extends(read_u32(x)->Ok_0.1, more);
    }
    lemma_read_map_extends(s, read, more);
}

proof fn lemma_pairs_extend(s: Seq<u8>, more: Seq<u8>)
    requires
        read_map(s, pair_reader()) is Ok,
    ensures
        read_map(s + more, pair_reader()) == Ok::<(Map<u32, u32>, Seq<u8>), IndexError>(
            (read_map(s, pair_reader())->Ok_0.0, read_map(s, pair_reader())->Ok_0.1 + more),
        ),
{
    let read = pair_reader();
    assert forall|x: Seq<u8>| (#[trigger] read(x)) is Ok implies read(x + more) == Ok::<
        ((u32, u32), Seq<u8>),
        IndexError,
    >((read(x)->Ok_0.0, read(x)->Ok_0.1 + more)) by {
        lemma_read_u32_extends(x, more);
        lemma_read_u32_extends(read_u32(x)->Ok_0.1, more);
    }
    lemma_read_map_extends(s, read, more);
}

proof fn lemma_placings_extend(s: Seq<u8>, more: Seq<u8>)
    requires
        read_map(s, placing_reader()) is Ok,
    ensures
        read_map(s + more, placing_reader()) == Ok::<
            (Map<u32, Seq<Location>>, Seq<u8>),
            IndexError,
        >((read_map(s, placing_reader())->Ok_0.0, read_map(s, placing_reader())->Ok_0.1 + more)),
{
    let read = placing_reader();
    assert forall|x: Seq<u8>| (#[trigger] loc_reader()(x)) is Ok implies loc_reader()(x + more)
        == Ok::<(Location, Seq<u8>), IndexError>(
        (loc_reader()(x)->Ok_0.0, loc_reader()(x)->Ok_0.1 + more),
    ) by {
        lemma_read_location_extends(x, more);
    }
    assert forall|x: Seq<u8>| (#[trigger] read(x)) is Ok implies read(x + more) == Ok::<
        ((u32, Seq<Location>), Seq<u8>),
        IndexError,
    >((read(x)->Ok_0.0, read(x)->Ok_0.1 + more)) by {
        lemma_read_u32_extends(x, more);
        let r1 = read_u32(x)->Ok_0.1;
        lemma_read_u32_extends(r1, more);
        let r2 = read_u32(r1)->Ok_0.1;
        lemma_read_list_extends(r2, read_u32(r1)->Ok_0.0 as nat, loc_reader(), more);
    }
    lemma_read_map_extends(s, read, more);
}

proof fn lemma_boxes_extend(s: Seq<u8>, more: Seq<u8>)
    requires
        read_map(s, box_reader()) is Ok,
    ensures
        read_map(s + more, box_reader()) == Ok::<(Map<u32, ArchetypeBox>, Seq<u8>), IndexError>(
            (read_map(s, box_reader())->Ok_0.0, read_map(s, box_reader())->Ok_0.1 + more),
        ),
{
    let read = box_reader();
    assert forall|x: Seq<u8>| (#[trigger] word_reader()(x)) is Ok implies word_reader()(x + more)
        == Ok::<(u32, Seq<u8>), IndexError>(
        (word_reader()(x)->Ok_0.0, word_reader()(x)->Ok_0.1 + more),
    ) by {
        lemma_read_u32_extends(x, more);
    }
    assert forall|x: Seq<u8>| (#[trigger] read(x)) is Ok implies read(x + more) == Ok::<
        ((u32, ArchetypeBox), Seq<u8>),
        IndexError,
    >((read(x)->Ok_0.0, read(x)->Ok_0.1 + more)) by {
        lemma_read_u32_extends(x, more);
        lemma_read_list_extends(read_u32(x)->Ok_0.1, 6, word_reader(), more);
    }
    lemma_read_map_extends(s, read, more);
}

proof fn lemma_assets_extend(s: Seq<u8>, more: Seq<u8>)
    requires
        read_map(s, asset_reader()) is Ok,
    ensures
        read_map(s + more, asset_reader()) == Ok::<(Map<u32, Asset>, Seq<u8>), IndexError>(
            (read_map(s, asset_reader())->Ok_0.0, read_map(s, asset_reader())->Ok_0.1 + more),
        ),
{
    let read = asset_reader();
    assert forall|x: Seq<u8>| (#[trigger] read(x)) is Ok implies read(x + more) == Ok::<
        ((u32, Asset), Seq<u8>),
        IndexError,
    >((read(x)->Ok_0.0, read(x)->Ok_0.1 + more)) by {
        lemma_read_u32_extends(x, more);
        let r1 = read_u32(x)->Ok_0.1;
        lemma_read_u32_extends(r1, more);
        lemma_read_u32_extends(read_u32(r1)->Ok_0.1, more);
    }
    lemma_read_map_extends(s, read, more);
}

proof fn lemma_read_body_extends(s: Seq<u8>, part: Parts, more: Seq<u8>)
    requires
        read_body(s, part) is Ok,
    ensures
        read_body(s + more, part) == Ok::<(IndexView, Seq<u8>), IndexError>(
            (read_body(s, part)->Ok_0.0, read_body(s, part)->Ok_0.1 + more),
        ),
{
    if part == Parts::textures() {
        lemma_loc_entries_extend(s, more);
        let r1 = read_map(s, loc_entry_reader())->Ok_0.1;
        lemma_pairs_extend(r1, more);
        let r2 = read_map(r1, pair_reader())->Ok_0.1;
        lemma_pairs_extend(r2, more);
        let r3 = read_map(r2, pair_reader())->Ok_0.1;
        lemma_pairs_extend(r3, more);
    } else if part == Parts::interiors() {
        lemma_loc_entries_extend(s, more);
        let r1 = read_map(s, loc_entry_reader())->Ok_0.1;
        lemma_placings_extend(r1, more);
        let r2 = read_map(r1, placing_reader())->Ok_0.1;
        lemma_loc_entries_extend(r2, more);
    } else {
        lemma_boxes_extend(s, more);
        let r1 = read_map(s, box_reader())->Ok_0.1;
        lemma_loc_entries_extend(r1, more);
        let r2 = read_map(r1, loc_entry_reader())->Ok_0.1;
        lemma_assets_extend(r2, more);
    }
}

proof fn lemma_read_head_extends(s: Seq<u8>, part: Parts, more: Seq<u8>)
    requires
        read_head(s, part) is Ok,
    ensures
        read_head(s + more, part) == Ok::<(u64, Seq<u8>), IndexError>(
            (read_head(s, part)->Ok_0.0, read_head(s, part)->Ok_0.1 + more),
        ),
{
    lemma_read_u32_extends(s, more);
    let r1 = read_u32(s)->Ok_0.1;
    lemma_read_u32_extends(r1, more);
    let r2 = read_u32(r1)->Ok_0.1;
    lemma_read_u32_extends(r2, more);
    let r3 = read_u32(r2)->Ok_0.1;
    lemma_read_u32_extends(r3, more);
    let r4 = read_u32(r3)->Ok_0.1;
    lemma_read_u32_extends(r4, more);
}

/// A padded or a truncated file is refused: of two files of which one starts
/// with the whole of the other, at most one is accepted.
pub proof fn law_cut_or_padded_refused(s: Seq<u8>, part: Parts, more: Seq<u8>)
    requires
        more.len() > 0,
        part_of(s, part) is Ok,
    ensures
        part_of(s + more, part) is Err,
{
    lemma_read_head_extends(s, part, more);
    let rest = read_head(s, part)->Ok_0.1;
    lemma_read_body_extends(rest, part, more);
}

} // verus!
