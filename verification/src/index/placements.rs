//! Which maps place which interiors, and putting a build together.
use std::collections::{HashMap, HashSet};
use vstd::prelude::*;
use crate::formats::{map_entities, parse_ymap_entities, EntityBits};
use crate::index::model::{
    location_list, location_lists, numbers_of, EntryLoc, GameIndex, IndexView, Location,
};
use crate::index::parts::Parts;
use crate::index::scan::{map_list, Partial, PartialView};

verus! {

/// A world cache file names this map as placing an interior.
pub open spec fn is_placing(map: u32, proxies: Seq<(u32, u32)>) -> bool {
    exists|i: int| 0 <= i < proxies.len() && (#[trigger] proxies[i]).1 == map
}

/// This map has to be read: a world cache file names it as placing an
/// interior, or none describes it at all.
pub open spec fn has_to_be_read(map: u32, covered: Set<u32>, proxies: Seq<(u32, u32)>) -> bool {
    is_placing(map, proxies) || !covered.contains(map)
}

/// The positions, below `n`, of the maps that have to be read.
pub open spec fn read_positions(
    ymaps: Seq<(u32, Location)>,
    covered: Set<u32>,
    proxies: Seq<(u32, u32)>,
    n: nat,
) -> Seq<usize>
    decreases n,
{
    if n == 0 {
        Seq::empty()
    } else {
        let before = read_positions(ymaps, covered, proxies, (n - 1) as nat);
        if has_to_be_read(ymaps[n - 1].0, covered, proxies) {
            before.push((n - 1) as usize)
        } else {
            before
        }
    }
}

/// The positions of the maps that have to be read.
pub open spec fn to_read(
    ymaps: Seq<(u32, Location)>,
    covered: Set<u32>,
    proxies: Seq<(u32, u32)>,
) -> Seq<usize> {
    read_positions(ymaps, covered, proxies, ymaps.len())
}

/// Positions in `ymaps` worth reading for interior placements: maps a cache
/// file names as placing an interior, and maps no cache file describes.
pub fn maps_to_read(
    ymaps: &Vec<(u32, EntryLoc)>,
    covered: &HashSet<u32>,
    proxies: &Vec<(u32, u32)>,
) -> (out: Vec<usize>)
    ensures
        out@ == to_read(map_list(ymaps@), covered@, proxies@),
{
    let mut placing: HashSet<u32> = HashSet::new();
    let mut i: usize = 0;
    while i < proxies.len()
        invariant
            i <= proxies.len(),
            forall|m: u32| placing@.contains(m) <==> is_placing(m, proxies@.take(i as int)),
        decreases proxies.len() - i,
    {
        placing.insert(proxies[i].1);
        proof {
            let seen = proxies@.take(i as int);
            let more = proxies@.take(i + 1);
            assert forall|m: u32| is_placing(m, more) <==> is_placing(m, seen) || m
                == proxies[i as int].1 by {
                if is_placing(m, more) {
                    let j = choose|j: int| 0 <= j < more.len() && (#[trigger] more[j]).1 == m;
                    if j < i {
                        assert(seen[j].1 == m);
                    }
                }
                if is_placing(m, seen) {
                    let j = choose|j: int| 0 <= j < seen.len() && (#[trigger] seen[j]).1 == m;
                    assert(more[j].1 == m);
                }
                assert(more[i as int].1 == proxies[i as int].1);
            }
        }
        i = i + 1;
    }
    assert(proxies@.take(proxies.len() as int) =~= proxies@);
    let ghost maps = map_list(ymaps@);
    let mut out: Vec<usize> = Vec::new();
    let mut n: usize = 0;
    while n < ymaps.len()
        invariant
            n <= ymaps.len(),
            maps == map_list(ymaps@),
            forall|m: u32| placing@.contains(m) <==> is_placing(m, proxies@),
            out@ == read_positions(maps, covered@, proxies@, n as nat),
        decreases ymaps.len() - n,
    {
        assert(maps[n as int].0 == ymaps[n as int].0);
        if placing.contains(&ymaps[n].0) || !covered.contains(&ymaps[n].0) {
            out.push(n);
        }
        n = n + 1;
    }
    out
}

// ── Placements ──────────────────────────────────────────────────────────────

/// The lists with `loc` behind that of `archetype`.
pub open spec fn with_placing(
    m: Map<u32, Seq<Location>>,
    archetype: u32,
    loc: Location,
) -> Map<u32, Seq<Location>> {
    m.insert(
        archetype,
        (if m.contains_key(archetype) {
            m[archetype]
        } else {
            Seq::empty()
        }).push(loc),
    )
}

/// Files one map's placement of an interior. Every location is kept, in the
/// order in which they come: a later copy of a map and an unrelated map of
/// the same name look alike, and dropping one would hide a real placement.
pub fn record_mlo_instance(out: &mut HashMap<u32, Vec<EntryLoc>>, archetype: u32, loc: EntryLoc)
    ensures
        location_lists(final(out)@) == with_placing(location_lists(old(out)@), archetype, loc@),
{
    let ghost start = location_lists(out@);
    let mut list = match out.remove(&archetype) {
        Some(list) => {
            assert(start[archetype] == location_list(list@));
            list
        },
        None => {
            let list: Vec<EntryLoc> = Vec::new();
            assert(location_list(list@) =~= Seq::empty());
            list
        },
    };
    let ghost had = location_list(list@);
    list.push(loc);
    assert(location_list(list@) =~= had.push(loc@));
    out.insert(archetype, list);
    assert(location_lists(out@) =~= with_placing(start, archetype, loc@));
}

/// The distinct interiors among a map's entities, in their order.
pub open spec fn distinct_interiors(entities: Seq<EntityBits>) -> Seq<u32>
    decreases entities.len(),
{
    if entities.len() == 0 {
        Seq::empty()
    } else {
        let before = distinct_interiors(entities.drop_last());
        let e = entities.last();
        if e.is_mlo_instance && !before.contains(e.archetype_hash) {
            before.push(e.archetype_hash)
        } else {
            before
        }
    }
}

/// The distinct interiors among a map's entities, in their order: a map that
/// places the same interior twice is listed once.
pub fn interiors_of(entities: &Vec<EntityBits>) -> (out: Vec<u32>)
    ensures
        out@ == distinct_interiors(entities@),
{
    let mut out: Vec<u32> = Vec::new();
    let mut seen: HashSet<u32> = HashSet::new();
    let mut i: usize = 0;
    assert(entities@.take(0) =~= Seq::empty());
    while i < entities.len()
        invariant
            i <= entities.len(),
            out@ == distinct_interiors(entities@.take(i as int)),
            forall|h: u32| seen@.contains(h) <==> out@.contains(h),
        decreases entities.len() - i,
    {
        let hash: u32 = entities[i].archetype_hash;
        let interior: bool = entities[i].is_mlo_instance;
        let ghost before = out@;
        proof {
            assert(entities@.take(i + 1).drop_last() =~= entities@.take(i as int));
            assert(entities@.take(i + 1).last() == entities[i as int]);
        }
        if interior && !seen.contains(&hash) {
            seen.insert(hash);
            out.push(hash);
            proof {
                assert forall|h: u32| seen@.contains(h) <==> out@.contains(h) by {
                    assert(out[before.len() as int] == hash);
                    if out@.contains(h) && h != hash {
                        let j = choose|j: int| 0 <= j < out.len() && out[j] == h;
                        assert(before[j] == h);
                    }
                    if before.contains(h) {
                        let j = choose|j: int| 0 <= j < before.len() && before[j] == h;
                        assert(out[j] == h);
                    }
                }
            }
        }
        i = i + 1;
    }
    assert(entities@.take(entities.len() as int) =~= entities@);
    out
}

/// The interiors that a map places; none where it could not be read.
pub open spec fn placed_by(map: Option<Vec<u8>>) -> Seq<u32> {
    match map {
        Some(data) => match map_entities(data@) {
            Ok(entities) => distinct_interiors(entities),
            Err(_) => Seq::empty(),
        },
        None => Seq::empty(),
    }
}

/// The distinct interiors that a map places, in entity order; none where it
/// could not be read.
pub fn read_placements(map: &Option<Vec<u8>>) -> (out: Vec<u32>)
    ensures
        out@ == placed_by(*map),
{
    match map {
        Some(data) => match parse_ymap_entities(data.as_slice()) {
            Ok(entities) => interiors_of(&entities),
            Err(_) => Vec::new(),
        },
        None => Vec::new(),
    }
}

/// The lists with `loc` behind that of each of `archetypes`.
pub open spec fn with_map(
    m: Map<u32, Seq<Location>>,
    archetypes: Seq<u32>,
    loc: Location,
) -> Map<u32, Seq<Location>>
    decreases archetypes.len(),
{
    if archetypes.len() == 0 {
        m
    } else {
        with_placing(with_map(m, archetypes.drop_last(), loc), archetypes.last(), loc)
    }
}

/// The placements that the first `n` read maps give, in their order.
pub open spec fn placements(
    ymaps: Seq<(u32, Location)>,
    positions: Seq<usize>,
    maps: Seq<Option<Vec<u8>>>,
    n: nat,
) -> Map<u32, Seq<Location>>
    decreases n,
{
    if n == 0 {
        Map::empty()
    } else {
        with_map(
            placements(ymaps, positions, maps, (n - 1) as nat),
            placed_by(maps[n - 1]),
            ymaps[positions[n - 1] as int].1,
        )
    }
}

proof fn lemma_positions_in_range(
    ymaps: Seq<(u32, Location)>,
    covered: Set<u32>,
    proxies: Seq<(u32, u32)>,
    n: nat,
)
    requires
        n <= ymaps.len() <= usize::MAX,
    ensures
        forall|i: int|
            0 <= i < read_positions(ymaps, covered, proxies, n).len()
                ==> #[trigger] read_positions(ymaps, covered, proxies, n)[i] < n,
    decreases n,
{
    if n > 0 {
        lemma_positions_in_range(ymaps, covered, proxies, (n - 1) as nat);
        let before = read_positions(ymaps, covered, proxies, (n - 1) as nat);
        let now = read_positions(ymaps, covered, proxies, n);
        assert forall|i: int| 0 <= i < now.len() implies #[trigger] now[i] < n by {
            if i < before.len() {
                assert(now[i] == before[i]);
            }
        }
    }
}

/// Which maps place which interiors. `maps` holds the bytes of each map that
/// has to be read, in scan order, if they could be read.
pub fn interior_placements(
    ymaps: &Vec<(u32, EntryLoc)>,
    covered: &HashSet<u32>,
    proxies: &Vec<(u32, u32)>,
    maps: &Vec<Option<Vec<u8>>>,
) -> (out: HashMap<u32, Vec<EntryLoc>>)
    requires
        maps.len() == to_read(map_list(ymaps@), covered@, proxies@).len(),
    ensures
        location_lists(out@) == placements(
            map_list(ymaps@),
            to_read(map_list(ymaps@), covered@, proxies@),
            maps@,
            maps.len() as nat,
        ),
{
    let positions = maps_to_read(ymaps, covered, proxies);
    let ghost all = map_list(ymaps@);
    proof {
        assert(all.len() == ymaps.len());
        lemma_positions_in_range(all, covered@, proxies@, all.len());
    }
    let mut out: HashMap<u32, Vec<EntryLoc>> = HashMap::new();
    assert(location_lists(out@) =~= Map::empty());
    let mut i: usize = 0;
    while i < maps.len()
        invariant
            i <= maps.len(),
            maps.len() == positions.len(),
            all == map_list(ymaps@),
            forall|j: int| 0 <= j < positions.len() ==> #[trigger] positions[j] < ymaps.len(),
            location_lists(out@) == placements(all, positions@, maps@, i as nat),
        decreases maps.len() - i,
    {
        let seq: usize = positions[i];
        let archetypes = read_placements(&maps[i]);
        let ghost start = location_lists(out@);
        let ghost loc = all[seq as int].1;
        assert(loc == ymaps[seq as int].1@);
        let mut j: usize = 0;
        assert(archetypes@.take(0) =~= Seq::empty());
        while j < archetypes.len()
            invariant
                j <= archetypes.len(),
                seq < ymaps.len(),
                loc == ymaps[seq as int].1@,
                location_lists(out@) == with_map(start, archetypes@.take(j as int), loc),
            decreases archetypes.len() - j,
        {
            proof {
                assert(archetypes@.take(j + 1).drop_last() =~= archetypes@.take(j as int));
                assert(archetypes@.take(j + 1).last() == archetypes[j as int]);
            }
            record_mlo_instance(&mut out, archetypes[j], ymaps[seq].1.copy());
            j = j + 1;
        }
        assert(archetypes@.take(archetypes.len() as int) =~= archetypes@);
        i = i + 1;
    }
    out
}

// ── A whole build ───────────────────────────────────────────────────────────

impl PartialView {
    /// This contribution with that of an archive that loads later behind it.
    pub open spec fn then_later(self, later: PartialView) -> PartialView {
        PartialView {
            index: self.index.merged(later.index),
            ymaps: self.ymaps + later.ymaps,
            covered: self.covered.union(later.covered),
            proxies: self.proxies + later.proxies,
        }
    }

    /// The index of a finished build: the placements are those of the interior
    /// pass, where interiors are built.
    pub open spec fn finished(self, parts: Parts, maps: Seq<Option<Vec<u8>>>) -> IndexView {
        IndexView {
            parts,
            mlo_instances: if parts.holds(Parts::interiors()) {
                placements(
                    self.ymaps,
                    to_read(self.ymaps, self.covered, self.proxies),
                    maps,
                    maps.len(),
                )
            } else {
                self.index.mlo_instances
            },
            ..self.index
        }
    }
}

/// The contributions of archives, merged in load order.
pub open spec fn in_load_order(list: Seq<Partial>) -> PartialView
    decreases list.len(),
{
    if list.len() == 0 {
        PartialView {
            index: IndexView::nothing(Parts::none()),
            ymaps: Seq::empty(),
            covered: Set::empty(),
            proxies: Seq::empty(),
        }
    } else {
        in_load_order(list.drop_last()).then_later(list.last()@)
    }
}

impl Partial {
    /// Takes the contribution of an archive that loads later.
    pub fn merge(&mut self, later: Partial)
        ensures
            final(self)@ == old(self)@.then_later(later@),
    {
        let ghost a = self@;
        let ghost b = later@;
        self.index.merge(later.index);
        let mut ymaps = later.ymaps;
        self.ymaps.append(&mut ymaps);
        assert(map_list(self.ymaps@) =~= a.ymaps + b.ymaps);
        let mut proxies = later.proxies;
        self.proxies.append(&mut proxies);
        assert(self.proxies@ =~= a.proxies + b.proxies);
        let ghost base = self.covered@;
        let added = numbers_of(&later.covered);
        let mut i: usize = 0;
        while i < added.len()
            invariant
                i <= added.len(),
                self.index@ == a.index.merged(b.index),
                map_list(self.ymaps@) == a.ymaps + b.ymaps,
                self.proxies@ == a.proxies + b.proxies,
                forall|h: u32|
                    #[trigger] self.covered@.contains(h) <==> base.contains(h) || added@.take(
                        i as int,
                    ).contains(h),
            decreases added.len() - i,
        {
            let ghost before = added@.take(i as int);
            self.covered.insert(added[i]);
            proof {
                let now = added@.take(i + 1);
                assert(now =~= before.push(added[i as int]));
                assert forall|h: u32| now.contains(h) <==> before.contains(h) || h
                    == added[i as int] by {
                    assert(now[i as int] == added[i as int]);
                    if before.contains(h) {
                        let j = choose|j: int| 0 <= j < before.len() && before[j] == h;
                        assert(now[j] == h);
                    }
                    if now.contains(h) && h != added[i as int] {
                        let j = choose|j: int| 0 <= j < now.len() && now[j] == h;
                        assert(before[j] == h);
                    }
                }
            }
            i = i + 1;
        }
        assert(added@.take(added.len() as int) =~= added@);
        assert(self.covered@ =~= base.union(later.covered@));
    }
}

/// Merges the contributions of archives, given in load order.
pub fn merge_all(list: Vec<Partial>) -> (out: Partial)
    ensures
        out@ == in_load_order(list@),
{
    let ghost all = list@;
    let mut list = list;
    let mut out = Partial::new();
    assert(all.take(0) =~= Seq::empty());
    let ghost mut n: int = 0;
    assert(all.skip(0) =~= all);
    while list.len() > 0
        invariant
            0 <= n <= all.len(),
            list@ == all.skip(n),
            out@ == in_load_order(all.take(n)),
        decreases list.len(),
    {
        let next = list.remove(0);
        out.merge(next);
        proof {
            assert(next == all[n]);
            assert(list@ =~= all.skip(n + 1));
            assert(all.take(n + 1).drop_last() =~= all.take(n));
            assert(all.take(n + 1).last() == all[n]);
            n = n + 1;
        }
    }
    assert(all.take(n) =~= all);
    out
}

impl GameIndex {
    /// The index of a build of `parts`, from what the archives contributed in
    /// load order and the maps that had to be read.
    pub fn build(scanned: Partial, parts: Parts, maps: &Vec<Option<Vec<u8>>>) -> (index: GameIndex)
        requires
            parts.holds(Parts::interiors()) ==> maps.len() == to_read(
                scanned@.ymaps,
                scanned@.covered,
                scanned@.proxies,
            ).len(),
        ensures
            index@ == scanned@.finished(parts, maps@),
    {
        let ghost v = scanned@;
        let Partial { index, ymaps, covered, proxies } = scanned;
        let mut index = index;
        if parts.contains(Parts::interiors()) {
            index.mlo_instances = interior_placements(&ymaps, &covered, &proxies, maps);
        }
        index.parts = parts;
        assert(index@ =~= v.finished(parts, maps@));
        index
    }
}

// ── Laws ────────────────────────────────────────────────────────────────────

/// The maps that are read are the placing and the undescribed ones, each once
/// and in scan order.
pub proof fn law_maps_to_read(
    ymaps: Seq<(u32, Location)>,
    covered: Set<u32>,
    proxies: Seq<(u32, u32)>,
    i: usize,
)
    requires
        ymaps.len() <= usize::MAX,
        i < ymaps.len(),
    ensures
        to_read(ymaps, covered, proxies).contains(i) <==> has_to_be_read(
            ymaps[i as int].0,
            covered,
            proxies,
        ),
        forall|a: int, b: int|
            0 <= a < b < to_read(ymaps, covered, proxies).len() ==> #[trigger] to_read(
                ymaps,
                covered,
                proxies,
            )[a] < #[trigger] to_read(ymaps, covered, proxies)[b],
{
    lemma_read_positions(ymaps, covered, proxies, ymaps.len(), i);
}

proof fn lemma_read_positions(
    ymaps: Seq<(u32, Location)>,
    covered: Set<u32>,
    proxies: Seq<(u32, u32)>,
    n: nat,
    i: usize,
)
    requires
        n <= ymaps.len() <= usize::MAX,
        i < ymaps.len(),
    ensures
        read_positions(ymaps, covered, proxies, n).contains(i) <==> i < n && has_to_be_read(
            ymaps[i as int].0,
            covered,
            proxies,
        ),
        forall|a: int, b: int|
            0 <= a < b < read_positions(ymaps, covered, proxies, n).len()
                ==> #[trigger] read_positions(ymaps, covered, proxies, n)[a]
                < #[trigger] read_positions(ymaps, covered, proxies, n)[b],
    decreases n,
{
    if n > 0 {
        let m = (n - 1) as nat;
        lemma_read_positions(ymaps, covered, proxies, m, i);
        lemma_positions_in_range(ymaps, covered, proxies, m);
        let before = read_positions(ymaps, covered, proxies, m);
        let now = read_positions(ymaps, covered, proxies, n);
        if has_to_be_read(ymaps[n - 1].0, covered, proxies) {
            assert(now[now.len() - 1] == (n - 1) as usize);
            if before.contains(i) {
                let j = choose|j: int| 0 <= j < before.len() && before[j] == i;
                assert(now[j] == i);
            }
            if now.contains(i) && i != n - 1 {
                let j = choose|j: int| 0 <= j < now.len() && now[j] == i;
                assert(before[j] == i);
            }
        }
    }
}

/// Without any world cache file every map is read.
pub proof fn law_without_cache_every_map_is_read(ymaps: Seq<(u32, Location)>, i: usize)
    requires
        ymaps.len() <= usize::MAX,
        i < ymaps.len(),
    ensures
        to_read(ymaps, Set::empty(), Seq::empty()).contains(i),
{
    law_maps_to_read(ymaps, Set::empty(), Seq::empty(), i);
}

/// An entity of the list places the interior.
pub open spec fn places(entities: Seq<EntityBits>, hash: u32) -> bool {
    exists|i: int|
        0 <= i < entities.len() && (#[trigger] entities[i]).is_mlo_instance
            && entities[i].archetype_hash == hash
}

/// A map lists no interior twice, and lists exactly those it places.
pub proof fn law_distinct_interiors(entities: Seq<EntityBits>, hash: u32)
    ensures
        distinct_interiors(entities).no_duplicates(),
        distinct_interiors(entities).contains(hash) <==> places(entities, hash),
    decreases entities.len(),
{
    if entities.len() > 0 {
        let front = entities.drop_last();
        law_distinct_interiors(front, hash);
        let before = distinct_interiors(front);
        let now = distinct_interiors(entities);
        let last = entities.last();
        assert(places(entities, hash) <==> places(front, hash) || (last.is_mlo_instance
            && last.archetype_hash == hash)) by {
            if places(entities, hash) {
                let k = choose|k: int|
                    0 <= k < entities.len() && (#[trigger] entities[k]).is_mlo_instance
                        && entities[k].archetype_hash == hash;
                if k < front.len() {
                    assert(front[k].is_mlo_instance);
                }
            }
            if places(front, hash) {
                let k = choose|k: int|
                    0 <= k < front.len() && (#[trigger] front[k]).is_mlo_instance
                        && front[k].archetype_hash == hash;
                assert(entities[k].is_mlo_instance);
            }
            assert(entities[entities.len() - 1] == last);
        }
        if now.len() > before.len() {
            assert(now[before.len() as int] == last.archetype_hash);
            assert(now.contains(hash) <==> before.contains(hash) || hash == last.archetype_hash) by {
                if now.contains(hash) {
                    let k = choose|k: int| 0 <= k < now.len() && now[k] == hash;
                    if k < before.len() {
                        assert(before[k] == hash);
                    }
                }
                if before.contains(hash) {
                    let k = choose|k: int| 0 <= k < before.len() && before[k] == hash;
                    assert(now[k] == hash);
                }
            }
        } else if last.is_mlo_instance {
            assert(before.contains(last.archetype_hash));
        }
    }
}

/// Every recorded location is kept, behind those recorded before; the lists
/// of other interiors stay as they are.
pub proof fn law_recording_keeps_everything(
    m: Map<u32, Seq<Location>>,
    archetype: u32,
    loc: Location,
    other: u32,
)
    ensures
        with_placing(m, archetype, loc)[archetype].last() == loc,
        m.contains_key(archetype) ==> with_placing(m, archetype, loc)[archetype].drop_last()
            == m[archetype],
        other != archetype && m.contains_key(other) ==> with_placing(m, archetype, loc)[other]
            == m[other],
{
    if m.contains_key(archetype) {
        assert(m[archetype].push(loc).drop_last() =~= m[archetype]);
    }
}

} // verus!
