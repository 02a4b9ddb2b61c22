//! What an index of several archives holds, in which order it is asked, and
//! when a cached part is served.
use vstd::prelude::*;
use crate::formats::map_entities;
use crate::index::bytes::IndexError;
use crate::index::codec::part_of;
use crate::index::load_order::{
    is_load_key, is_load_order, list_not_after, normal_path, placed_packs, rank_in, setup_order,
    tier_of, ArchivePath, LoadKey, Tier,
};
use crate::index::lookup::{cached, resolution, walk, CachedView, Reason, MAX_HOPS};
use crate::index::model::{IndexView, Location};
use crate::index::parts::Parts;
use crate::index::placements::{
    in_load_order, law_distinct_interiors, law_maps_to_read, placed_by, placements, places, to_read,
    with_map,
};
use crate::index::scan::{Partial, PartialView};
use crate::order::{is_stable_order, precedes};
use crate::text::{lemma_find_from, lemma_position, lowercase, occurs_at, position, texts};

verus! {

// ── Merging ─────────────────────────────────────────────────────────────────

/// Of two archives the later one decides, name by name, where both have an
/// entry, and what only one of them has stays; so in every table but that of
/// the texture parents, in which the earlier one decides, and that of the
/// interiors' maps, in which the later ones follow the earlier ones.
pub proof fn law_later_archive_decides(a: IndexView, b: IndexView, k: u32)
    ensures
        ({
            let m = a.merged(b);
            &&& m.ytd_by_name.contains_key(k) == (a.ytd_by_name.contains_key(k)
                || b.ytd_by_name.contains_key(k))
            &&& m.ytd_by_name.contains_key(k) ==> m.ytd_by_name[k]
                == if b.ytd_by_name.contains_key(k) { b.ytd_by_name[k] } else { a.ytd_by_name[k] }
            &&& m.archetype_txd.contains_key(k) == (a.archetype_txd.contains_key(k)
                || b.archetype_txd.contains_key(k))
            &&& m.archetype_txd.contains_key(k) ==> m.archetype_txd[k]
                == if b.archetype_txd.contains_key(k) { b.archetype_txd[k] } else { a.archetype_txd[k] }
            &&& m.archetype_box.contains_key(k) == (a.archetype_box.contains_key(k)
                || b.archetype_box.contains_key(k))
            &&& m.archetype_box.contains_key(k) ==> m.archetype_box[k]
                == if b.archetype_box.contains_key(k) { b.archetype_box[k] } else { a.archetype_box[k] }
            &&& m.resident_textures.contains_key(k) == (a.resident_textures.contains_key(k)
                || b.resident_textures.contains_key(k))
            &&& m.resident_textures.contains_key(k) ==> m.resident_textures[k]
                == if b.resident_textures.contains_key(k) { b.resident_textures[k] } else { a.resident_textures[k] }
            &&& m.mlo_ytyp.contains_key(k) == (a.mlo_ytyp.contains_key(k)
                || b.mlo_ytyp.contains_key(k))
            &&& m.mlo_ytyp.contains_key(k) ==> m.mlo_ytyp[k]
                == if b.mlo_ytyp.contains_key(k) { b.mlo_ytyp[k] } else { a.mlo_ytyp[k] }
            &&& m.ybn_by_name.contains_key(k) == (a.ybn_by_name.contains_key(k)
                || b.ybn_by_name.contains_key(k))
            &&& m.ybn_by_name.contains_key(k) ==> m.ybn_by_name[k]
                == if b.ybn_by_name.contains_key(k) { b.ybn_by_name[k] } else { a.ybn_by_name[k] }
            &&& m.drawable_by_name.contains_key(k) == (a.drawable_by_name.contains_key(k)
                || b.drawable_by_name.contains_key(k))
            &&& m.drawable_by_name.contains_key(k) ==> m.drawable_by_name[k]
                == if b.drawable_by_name.contains_key(k) { b.drawable_by_name[k] } else { a.drawable_by_name[k] }
            &&& m.archetype_asset.contains_key(k) == (a.archetype_asset.contains_key(k)
                || b.archetype_asset.contains_key(k))
            &&& m.archetype_asset.contains_key(k) ==> m.archetype_asset[k]
                == if b.archetype_asset.contains_key(k) { b.archetype_asset[k] } else { a.archetype_asset[k] }
            &&& m.parent_txds.contains_key(k) == (a.parent_txds.contains_key(k)
                || b.parent_txds.contains_key(k))
            &&& m.parent_txds.contains_key(k) ==> m.parent_txds[k]
                == if a.parent_txds.contains_key(k) { a.parent_txds[k] } else { b.parent_txds[k] }
            &&& m.mlo_instances.contains_key(k) == (a.mlo_instances.contains_key(k)
                || b.mlo_instances.contains_key(k))
            &&& !b.mlo_instances.contains_key(k) && a.mlo_instances.contains_key(k)
                ==> m.mlo_instances[k] == a.mlo_instances[k]
            &&& !a.mlo_instances.contains_key(k) && b.mlo_instances.contains_key(k)
                ==> m.mlo_instances[k] == b.mlo_instances[k]
            &&& a.mlo_instances.contains_key(k) && b.mlo_instances.contains_key(k)
                ==> m.mlo_instances[k] == a.mlo_instances[k] + b.mlo_instances[k]
            &&& m.parts.bits == a.parts.bits | b.parts.bits
        }),
{
    let m = a.merged(b);
    if a.mlo_instances.contains_key(k) {
        assert(a.mlo_instances[k] + Seq::<Location>::empty() =~= a.mlo_instances[k]);
    }
    if b.mlo_instances.contains_key(k) {
        assert(Seq::<Location>::empty() + b.mlo_instances[k] =~= b.mlo_instances[k]);
    }
}

/// What the archives give together: what they gave so far, with the last one
/// merged in as the later one, its maps and interiors behind the others.
pub proof fn law_archives_add_up(list: Seq<Partial>, last: Partial)
    ensures
        ({
            let before = in_load_order(list);
            let got = in_load_order(list.push(last));
            &&& got.index == before.index.merged(last@.index)
            &&& got.ymaps.len() == before.ymaps.len() + last@.ymaps.len()
            &&& forall|i: int| 0 <= i < before.ymaps.len() ==> #[trigger] got.ymaps[i] == before.ymaps[i]
            &&& forall|i: int|
                0 <= i < last@.ymaps.len() ==> got.ymaps[before.ymaps.len() + i]
                    == #[trigger] last@.ymaps[i]
            &&& forall|m: u32| #[trigger]
                got.covered.contains(m) <==> before.covered.contains(m) || last@.covered.contains(m)
            &&& got.proxies.len() == before.proxies.len() + last@.proxies.len()
            &&& forall|i: int|
                0 <= i < before.proxies.len() ==> #[trigger] got.proxies[i] == before.proxies[i]
            &&& forall|i: int|
                0 <= i < last@.proxies.len() ==> got.proxies[before.proxies.len() + i]
                    == #[trigger] last@.proxies[i]
        }),
        in_load_order(Seq::empty()).ymaps.len() == 0,
        in_load_order(Seq::empty()).index == IndexView::nothing(Parts::none()),
        forall|k: u32| !#[trigger] IndexView::nothing(Parts::none()).archetype_txd.contains_key(k),
{
    assert(list.push(last).drop_last() =~= list);
}

// ── Interiors ───────────────────────────────────────────────────────────────

/// A map is read exactly when a world cache says that it places an interior,
/// or when no world cache describes it.
pub proof fn law_maps_that_place_or_are_undescribed_are_read(
    ymaps: Seq<(u32, Location)>,
    covered: Set<u32>,
    proxies: Seq<(u32, u32)>,
    i: usize,
)
    requires
        ymaps.len() <= usize::MAX,
        i < ymaps.len(),
    ensures
        to_read(ymaps, covered, proxies).contains(i) <==> !covered.contains(ymaps[i as int].0) || (
        exists|j: int| 0 <= j < proxies.len() && (#[trigger] proxies[j]).1 == ymaps[i as int].0),
{
    law_maps_to_read(ymaps, covered, proxies, i);
}

proof fn lemma_with_map(m: Map<u32, Seq<Location>>, list: Seq<u32>, loc: Location, k: u32)
    requires
        list.no_duplicates(),
    ensures
        list.contains(k) ==> with_map(m, list, loc).contains_key(k) && with_map(m, list, loc)[k] == (
        if m.contains_key(k) {
            m[k]
        } else {
            Seq::empty()
        }).push(loc),
        !list.contains(k) ==> with_map(m, list, loc).contains_key(k) == m.contains_key(k)
            && with_map(m, list, loc)[k] == m[k],
    decreases list.len(),
{
    if list.len() > 0 {
        let front = list.drop_last();
        assert(front.no_duplicates());
        lemma_with_map(m, front, loc, k);
        lemma_with_map(m, front, loc, list.last());
        if front.contains(k) {
            let i = choose|i: int| 0 <= i < front.len() && front[i] == k;
            assert(list[i] == k);
            assert(list[list.len() - 1] != list[i]);
        }
        if list.contains(k) {
            let i = choose|i: int| 0 <= i < list.len() && list[i] == k;
            if i < front.len() {
                assert(front[i] == k);
            }
        }
        if front.contains(list.last()) {
            let i = choose|i: int| 0 <= i < front.len() && front[i] == list.last();
            assert(list[i] == list[list.len() - 1]);
        }
        assert(list[list.len() - 1] == list.last());
    }
}

/// Of each interior the maps that place it are listed, in the order in which
/// they were read, each once, where it lies: the map that is read next is
/// added to the interiors that one of its entities places, and to no others.
pub proof fn law_maps_are_listed_under_the_interiors_they_place(
    ymaps: Seq<(u32, Location)>,
    positions: Seq<usize>,
    maps: Seq<Option<Vec<u8>>>,
    n: nat,
    k: u32,
)
    ensures
        placements(ymaps, positions, maps, 0) == Map::<u32, Seq<Location>>::empty(),
        ({
            let before = placements(ymaps, positions, maps, n);
            let got = placements(ymaps, positions, maps, n + 1);
            let placing = match maps[n as int] {
                Some(data) => match map_entities(data@) {
                    Ok(all) => exists|i: int|
                        0 <= i < all.len() && (#[trigger] all[i]).is_mlo_instance
                            && all[i].archetype_hash == k,
                    Err(_) => false,
                },
                None => false,
            };
            &&& placing ==> got.contains_key(k) && got[k].last() == ymaps[positions[n as int] as int].1
                && got[k].drop_last() == (if before.contains_key(k) {
                before[k]
            } else {
                Seq::empty()
            })
            &&& !placing ==> got.contains_key(k) == before.contains_key(k) && got[k] == before[k]
        }),
{
    let before = placements(ymaps, positions, maps, n);
    let list = placed_by(maps[n as int]);
    let loc = ymaps[positions[n as int] as int].1;
    let old_list = if before.contains_key(k) { before[k] } else { Seq::<Location>::empty() };
    assert(old_list.push(loc).drop_last() =~= old_list);
    match maps[n as int] {
        Some(data) => match map_entities(data@) {
            Ok(all) => {
                law_distinct_interiors(all, k);
                assert(places(all, k) == exists|i: int|
                    0 <= i < all.len() && (#[trigger] all[i]).is_mlo_instance
                        && all[i].archetype_hash == k);
                lemma_with_map(before, list, loc, k);
            },
            Err(_) => {
                assert(list =~= Seq::<u32>::empty());
            },
        },
        None => {},
    }
}

/// A finished index says which parts it was built with, keeps what the archives
/// gave, and lists the maps of interiors only where those were asked for.
pub proof fn law_finished_index_keeps_what_was_found(
    st: PartialView,
    parts: Parts,
    maps: Seq<Option<Vec<u8>>>,
)
    ensures
        ({
            let got = st.finished(parts, maps);
            &&& got.parts == parts
            &&& got.ytd_by_name == st.index.ytd_by_name
            &&& got.archetype_txd == st.index.archetype_txd
            &&& got.archetype_box == st.index.archetype_box
            &&& got.resident_textures == st.index.resident_textures
            &&& got.parent_txds == st.index.parent_txds
            &&& got.mlo_ytyp == st.index.mlo_ytyp
            &&& got.ybn_by_name == st.index.ybn_by_name
            &&& got.drawable_by_name == st.index.drawable_by_name
            &&& got.archetype_asset == st.index.archetype_asset
            &&& got.mlo_instances == if parts.holds(Parts::interiors()) {
                placements(
                    st.ymaps,
                    to_read(st.ymaps, st.covered, st.proxies),
                    maps,
                    maps.len(),
                )
            } else {
                st.index.mlo_instances
            }
        }),
{
}

// ── The order in which dictionaries are tried ───────────────────────────────

proof fn lemma_climb(order: Seq<u32>, current: u32, parents: Map<u32, u32>, steps: nat)
    ensures
        ({
            let got = walk(order, current, parents, steps);
            &&& got.len() >= order.len()
            &&& forall|i: int| 0 <= i < order.len() ==> #[trigger] got[i] == order[i]
            &&& got.len() > order.len() ==> got[order.len() as int] == current
            &&& forall|i: int|
                order.len() <= i && i + 1 < got.len() ==> parents.contains_key(#[trigger] got[i])
                    && got[i + 1] == parents[got[i]]
            &&& order.contains(current) ==> got == order
            &&& steps > 0 && !order.contains(current) ==> got.len() > order.len()
            &&& order.len() < got.len() < order.len() + steps && parents.contains_key(got.last())
                ==> got.contains(parents[got.last()])
        }),
    decreases steps,
{
    if steps == 0 || order.contains(current) {
    } else if parents.contains_key(current) {
        let longer = order.push(current);
        let next = parents[current];
        lemma_climb(longer, next, parents, (steps - 1) as nat);
        let got = walk(longer, next, parents, (steps - 1) as nat);
        assert forall|i: int| 0 <= i < order.len() implies #[trigger] got[i] == order[i] by {
            assert(longer[i] == got[i]);
        }
        assert(got[order.len() as int] == longer[order.len() as int]);
        assert(got[order.len() as int] == current);
        if got.len() == longer.len() {
            assert(got.last() == current);
            if steps > 1 {
                assert(longer.contains(next));
                assert(got == longer);
            }
        }
    }
}

/// The dictionaries tried for a drawable: that of its archetype and its
/// parents, one after the other, then that of its own name and its parents.
/// Each is the parent of the one before, except where the drawable's own name
/// starts. A walk ends where there is no parent, where the parent was tried
/// already, or after so many steps.
pub proof fn law_dictionaries_are_tried_up_the_parents(v: IndexView, stem: u32)
    ensures
        ({
            let got = resolution(v, stem);
            let named = v.archetype_txd.contains_key(stem) && v.archetype_txd[stem] != 0;
            &&& forall|i: int|
                0 < i < got.len() && #[trigger] got[i] != stem ==> v.parent_txds.contains_key(
                    got[i - 1],
                ) && got[i] == v.parent_txds[got[i - 1]]
            &&& named ==> got[0] == v.archetype_txd[stem]
            &&& !named ==> got[0] == stem
            &&& got.contains(stem)
            &&& got.len() < 65 && v.parent_txds.contains_key(got.last()) ==> got.contains(
                v.parent_txds[got.last()],
            )
        }),
{
    let steps = MAX_HOPS as nat + 1;
    let none = Seq::<u32>::empty();
    let named = v.archetype_txd.contains_key(stem) && v.archetype_txd[stem] != 0;
    let first = if named {
        walk(none, v.archetype_txd[stem], v.parent_txds, steps)
    } else {
        none
    };
    if named {
        lemma_climb(none, v.archetype_txd[stem], v.parent_txds, steps);
    }
    lemma_climb(first, stem, v.parent_txds, steps);
    let got = resolution(v, stem);
    if named {
        assert(first[0] == got[0]);
    }
    assert forall|i: int| 0 < i < got.len() && #[trigger] got[i] != stem implies v.parent_txds.contains_key(
        got[i - 1],
    ) && got[i] == v.parent_txds[got[i - 1]] by {
        if i < first.len() {
            assert(got[i] == first[i]);
            assert(got[i - 1] == first[i - 1]);
            assert(v.parent_txds.contains_key(first[i - 1]));
        } else if i > first.len() {
            assert(v.parent_txds.contains_key(got[i - 1]));
        } else if i == first.len() {
            assert(got[first.len() as int] == stem);
        }
    }
    if first.contains(stem) {
        assert(got == first);
    } else {
        assert(got[first.len() as int] == stem);
    }
}

// ── The cache ───────────────────────────────────────────────────────────────

/// A part is served from its file exactly when that can be read and was
/// written for these archives. Where the file is missing, is of another
/// version or was written for other archives, the part is still to be built,
/// the last trouble is the one that is told, and what was served stays.
pub proof fn law_part_is_served_or_still_missing(
    before: CachedView,
    part: Parts,
    file: Option<Seq<u8>>,
    fingerprint: u64,
)
    ensures
        ({
            let got = before.after(part, file, fingerprint);
            let served = file is Some && part_of(file->Some_0, part) is Ok && part_of(
                file->Some_0,
                part,
            )->Ok_0.0 == fingerprint;
            &&& served ==> got.missing == before.missing && got.why == before.why && got.index
                == before.index.merged(part_of(file->Some_0, part)->Ok_0.1)
            &&& !served ==> got.index == before.index && got.missing.bits == before.missing.bits
                | part.bits
            &&& file is None ==> got.why == before.why
            &&& file is Some && part_of(file->Some_0, part) is Err ==> got.why
                == Reason::OtherVersion
            &&& file is Some && part_of(file->Some_0, part) is Ok && !served ==> got.why
                == Reason::ArchivesChanged
        }),
        CachedView::start().why == Reason::FirstUse,
        CachedView::start().missing == Parts::none(),
        CachedView::start().index == IndexView::nothing(Parts::none()),
{
    reveal(CachedView::after);
    match file {
        None => {},
        Some(data) => {
            lemma_after_reading(before, part, data, part_of(data, part), fingerprint);
        },
    }
}

proof fn lemma_after_reading(
    before: CachedView,
    part: Parts,
    data: Seq<u8>,
    read: Result<(u64, IndexView), IndexError>,
    fingerprint: u64,
)
    requires
        read == part_of(data, part),
    ensures
        before.after(part, Some(data), fingerprint) == (match read {
            Err(_) => CachedView {
                missing: Parts { bits: before.missing.bits | part.bits },
                why: Reason::OtherVersion,
                ..before
            },
            Ok(r) => if r.0 == fingerprint {
                CachedView { index: before.index.merged(r.1), ..before }
            } else {
                CachedView {
                    missing: Parts { bits: before.missing.bits | part.bits },
                    why: Reason::ArchivesChanged,
                    ..before
                }
            },
        }),
{
    reveal(CachedView::after);
}

/// The files are gone through in order, each for its part.
pub proof fn law_cache_is_read_part_by_part(
    parts: Seq<Parts>,
    files: Seq<Option<Seq<u8>>>,
    fingerprint: u64,
    n: nat,
)
    ensures
        cached(parts, files, fingerprint, 0) == CachedView::start(),
        cached(parts, files, fingerprint, n + 1) == cached(parts, files, fingerprint, n).after(
            parts[n as int],
            files[n as int],
            fingerprint,
        ),
{
}

// ── Load order ──────────────────────────────────────────────────────────────

/// An archive belongs to a pack exactly when its path, with slashes and in
/// lower case, leads through `dlcpacks` into a folder, whose name is that of
/// the pack; else to the update when it lies in `update`, and to the game
/// itself otherwise.
pub proof fn law_archives_are_told_apart_by_folder(path: Seq<char>, at: int)
    ensures
        ({
            let p = lowercase(path).map_values(|c: char| if c == '\\' { '/' } else { c });
            let rest = p.skip(at + 10);
            &&& occurs_at(p, "/dlcpacks/"@, at) && (forall|j: int|
                0 <= j < at ==> !#[trigger] occurs_at(p, "/dlcpacks/"@, j)) && rest.len() > 0
                && rest[0] != '/' ==> match tier_of(path) {
                Tier::Dlc(name) => {
                    &&& 0 < name.len() <= rest.len()
                    &&& name == rest.take(name.len() as int)
                    &&& !name.contains('/')
                    &&& name.len() < rest.len() ==> rest[name.len() as int] == '/'
                },
                _ => false,
            }
            &&& (forall|j: int| 0 <= j ==> !#[trigger] occurs_at(p, "/dlcpacks/"@, j)) ==> if (
            exists|j: int| #[trigger] occurs_at(p, "/update/"@, j)) {
                tier_of(path) == Tier::Update
            } else {
                tier_of(path) == Tier::Base
            }
        }),
{
    reveal_strlit("/dlcpacks/");
    let p = lowercase(path).map_values(|c: char| if c == '\\' { '/' } else { c });
    assert(normal_path(path) =~= p);
    lemma_find_from(p, "/dlcpacks/"@, 0);
    let rest = p.skip(at + 10);
    if occurs_at(p, "/dlcpacks/"@, at) && (forall|j: int|
        0 <= j < at ==> !#[trigger] occurs_at(p, "/dlcpacks/"@, j)) && rest.len() > 0 && rest[0]
        != '/' {
        lemma_position(rest, '/');
        let n = position(rest, '/');
        let name = rest.take(n);
        assert(crate::text::find_from(p, "/dlcpacks/"@, 0) == Some(at));
        assert(!name.contains('/')) by {
            if name.contains('/') {
                let i = choose|i: int| 0 <= i < name.len() && name[i] == '/';
                assert(rest[i] == '/');
            }
        }
        assert(tier_of(path) == Tier::Dlc(name));
        assert(name =~= rest.take(name.len() as int));
    }
}

/// Archives load by their tier, the game's own first, then the update's, then
/// those of the packs; of packs by their rank, those without one last; and
/// otherwise by their paths, folder by folder.
pub proof fn law_load_order(
    archives: Seq<ArchivePath>,
    ranks: Seq<Seq<char>>,
    order: Seq<usize>,
    i: int,
    j: int,
)
    requires
        is_load_order(archives, ranks, order),
        0 <= i < j < order.len(),
    ensures
        ({
            let a = archives[order[i] as int];
            let b = archives[order[j] as int];
            match (tier_of(a.text@), tier_of(b.text@)) {
                (Tier::Base, Tier::Base) => list_not_after(texts(a.components@), texts(b.components@)),
                (Tier::Base, _) => true,
                (Tier::Update, Tier::Base) => false,
                (Tier::Update, Tier::Update) => list_not_after(
                    texts(a.components@),
                    texts(b.components@),
                ),
                (Tier::Update, Tier::Dlc(_)) => true,
                (Tier::Dlc(x), Tier::Dlc(y)) => match (rank_in(ranks, x), rank_in(ranks, y)) {
                    (Some(m), Some(n)) => m < n || (m == n && list_not_after(
                        texts(a.components@),
                        texts(b.components@),
                    )),
                    (Some(m), None) => true,
                    (None, Some(n)) => n == u32::MAX,
                    (None, None) => list_not_after(texts(a.components@), texts(b.components@)),
                },
                (Tier::Dlc(_), _) => false,
            }
        }),
{
    let keys = choose|keys: Seq<LoadKey>|
        {
            &&& keys.len() == archives.len()
            &&& forall|i: int| 0 <= i < keys.len() ==> is_load_key(#[trigger] keys[i], archives[i], ranks)
            &&& #[trigger] is_stable_order(keys, order, 0, archives.len() as int)
        };
    assert(precedes(keys, order[i], order[j]));
    assert(is_load_key(keys[order[i] as int], archives[order[i] as int], ranks));
    assert(is_load_key(keys[order[j] as int], archives[order[j] as int], ranks));
}

/// The rank of a pack is its place in the list of packs, the last one where it
/// is listed more than once.
pub proof fn law_rank_is_the_last_place(names: Seq<Seq<char>>, name: Seq<char>)
    requires
        names.len() <= u32::MAX,
    ensures
        match rank_in(names, name) {
            Some(r) => r < names.len() && names[r as int] == name && forall|j: int|
                r < j < names.len() ==> #[trigger] names[j] != name,
            None => !names.contains(name),
        },
    decreases names.len(),
{
    if names.len() > 0 {
        let front = names.drop_last();
        law_rank_is_the_last_place(front, name);
        if names.last() != name {
            match rank_in(front, name) {
                Some(r) => {
                    assert(front[r as int] == names[r as int]);
                    assert forall|j: int| r < j < names.len() implies #[trigger] names[j] != name by {
                        if j < front.len() {
                            assert(front[j] == names[j]);
                        }
                    }
                },
                None => {
                    if names.contains(name) {
                        let j = choose|j: int| 0 <= j < names.len() && names[j] == name;
                        assert(front[j] == name);
                    }
                },
            }
        }
    }
}

/// The packs that are ranked are those whose own order can be read, with that
/// order, as they are listed.
pub proof fn law_packs_with_an_order_are_ranked(
    names: Seq<Seq<char>>,
    setups: Seq<Option<Vec<u8>>>,
    name: Seq<char>,
    setup: Option<Vec<u8>>,
)
    requires
        names.len() == setups.len(),
    ensures
        ({
            let before = placed_packs(names, setups);
            let got = placed_packs(names.push(name), setups.push(setup));
            match setup_order(setup) {
                Some(order) => got.len() == before.len() + 1 && got.last() == (name, order)
                    && got.drop_last() == before,
                None => got == before,
            }
        }),
        placed_packs(Seq::empty(), Seq::empty()).len() == 0,
{
    assert(names.push(name).drop_last() =~= names);
    assert(setups.push(setup).drop_last() =~= setups);
    let before = placed_packs(names, setups);
    match setup_order(setup) {
        Some(order) => {
            assert(before.push((name, order)).drop_last() =~= before);
        },
        None => {},
    }
}

} // verus!
