//! What an index holds of the archives it is built from.
use vstd::prelude::*;
use crate::file_names::stem;
use crate::formats::{dictionary, txd_relationships, types_in, world_cache, Archetype, TextureView};
use crate::hash::joaat;
use crate::index::model::{Asset, IndexView, Location};
use crate::index::parts::Parts;
use crate::index::scan::{
    wants, with_archetypes, with_files, with_relationships, with_residents, ArchiveFile, Content,
    PartialView, Want,
};
use crate::text::lowercase;

verus! {

// ── Archetypes ──────────────────────────────────────────────────────────────

/// The last archetype of its name decides what the index holds of that name:
/// its texture dictionary, if it names one; where its type file lies, if it is
/// an interior; its box; and which file holds its model, where that is not
/// plain from its name.
pub proof fn law_last_archetype_of_a_name_counts(
    v: IndexView,
    list: Seq<Archetype>,
    loc: Location,
    parts: Parts,
    i: int,
)
    requires
        0 <= i < list.len(),
        forall|j: int| i < j < list.len() ==> (#[trigger] list[j]).name_hash != list[i].name_hash,
    ensures
        ({
            let got = with_archetypes(v, list, loc, parts);
            let a = list[i];
            let shared = a.asset_type == 3 && a.drawable_dictionary_hash != 0;
            let named = a.asset_name_hash != 0 && a.asset_name_hash != a.name_hash;
            &&& parts.holds(Parts::textures()) && a.texture_dict_hash != 0
                ==> got.archetype_txd.contains_key(a.name_hash) && got.archetype_txd[a.name_hash]
                == a.texture_dict_hash
            &&& parts.holds(Parts::interiors()) && a.is_mlo ==> got.mlo_ytyp.contains_key(
                a.name_hash,
            ) && got.mlo_ytyp[a.name_hash] == loc
            &&& parts.holds(Parts::models()) ==> got.archetype_box.contains_key(a.name_hash)
                && got.archetype_box[a.name_hash] == a.bounds
            &&& parts.holds(Parts::models()) && shared ==> got.archetype_asset.contains_key(
                a.name_hash,
            ) && got.archetype_asset[a.name_hash] == (Asset {
                kind: 3,
                model: a.drawable_dictionary_hash,
            })
            &&& parts.holds(Parts::models()) && !shared && named
                ==> got.archetype_asset.contains_key(a.name_hash)
                && got.archetype_asset[a.name_hash] == (Asset {
                kind: a.asset_type,
                model: a.asset_name_hash,
            })
            &&& parts.holds(Parts::models()) && !shared && !named && a.asset_type == 1
                ==> got.archetype_asset.contains_key(a.name_hash)
                && got.archetype_asset[a.name_hash] == (Asset { kind: 1, model: a.name_hash })
        }),
    decreases list.len(),
{
    let front = list.drop_last();
    if i < front.len() {
        assert(forall|j: int| i < j < front.len() ==> front[j] == list[j]);
        law_last_archetype_of_a_name_counts(v, front, loc, parts, i);
        assert(list[list.len() - 1].name_hash != list[i].name_hash);
    }
}

/// A name that no archetype has, that none gives a dictionary, or that stands
/// for no interior, gets no entry; nor does an index get one that is built
/// without the part. A model that is plain from the name needs no entry.
pub proof fn law_archetypes_add_nothing_else(
    v: IndexView,
    list: Seq<Archetype>,
    loc: Location,
    parts: Parts,
    k: u32,
)
    ensures
        ({
            let got = with_archetypes(v, list, loc, parts);
            &&& (forall|j: int|
                0 <= j < list.len() && (#[trigger] list[j]).name_hash == k
                    ==> list[j].texture_dict_hash == 0) || !parts.holds(Parts::textures())
                ==> got.archetype_txd.contains_key(k) == v.archetype_txd.contains_key(k)
                && got.archetype_txd[k] == v.archetype_txd[k]
            &&& (forall|j: int|
                0 <= j < list.len() && (#[trigger] list[j]).name_hash == k ==> !list[j].is_mlo)
                || !parts.holds(Parts::interiors()) ==> got.mlo_ytyp.contains_key(k)
                == v.mlo_ytyp.contains_key(k) && got.mlo_ytyp[k] == v.mlo_ytyp[k]
            &&& (forall|j: int| 0 <= j < list.len() ==> (#[trigger] list[j]).name_hash != k)
                || !parts.holds(Parts::models()) ==> got.archetype_box.contains_key(k)
                == v.archetype_box.contains_key(k) && got.archetype_box[k] == v.archetype_box[k]
            &&& (forall|j: int|
                0 <= j < list.len() && (#[trigger] list[j]).name_hash == k ==> list[j].asset_type
                    != 1 && (list[j].asset_type != 3 || list[j].drawable_dictionary_hash == 0) && (
                list[j].asset_name_hash == 0 || list[j].asset_name_hash == k)) || !parts.holds(
                Parts::models(),
            ) ==> got.archetype_asset.contains_key(k) == v.archetype_asset.contains_key(k)
                && got.archetype_asset[k] == v.archetype_asset[k]
        }),
        with_archetypes(v, list, loc, parts).parts == v.parts,
        with_archetypes(v, list, loc, parts).ytd_by_name == v.ytd_by_name,
        with_archetypes(v, list, loc, parts).resident_textures == v.resident_textures,
        with_archetypes(v, list, loc, parts).parent_txds == v.parent_txds,
        with_archetypes(v, list, loc, parts).mlo_instances == v.mlo_instances,
        with_archetypes(v, list, loc, parts).ybn_by_name == v.ybn_by_name,
        with_archetypes(v, list, loc, parts).drawable_by_name == v.drawable_by_name,
    decreases list.len(),
{
    if list.len() > 0 {
        let front = list.drop_last();
        law_archetypes_add_nothing_else(v, front, loc, parts, k);
        assert(forall|j: int| 0 <= j < front.len() ==> front[j] == list[j]);
        assert(list.last() == list[list.len() - 1]);
    }
}

// ── Texture parents and resident textures ───────────────────────────────────

/// The first relationship of a child counts, unless the child has a parent
/// already; one that names nothing, or the child as its own parent, is none.
pub proof fn law_first_parent_of_a_child_counts(
    parents: Map<u32, u32>,
    rels: Seq<(Seq<char>, Seq<char>)>,
    child: u32,
)
    ensures
        ({
            let got = with_relationships(parents, rels);
            &&& parents.contains_key(child) ==> got.contains_key(child) && got[child]
                == parents[child]
            &&& forall|i: int|
                {
                    &&& 0 <= i < rels.len()
                    &&& !parents.contains_key(child)
                    &&& joaat(lowercase((#[trigger] rels[i]).0)) == child
                    &&& child != 0 && joaat(lowercase(rels[i].1)) != 0
                    &&& joaat(lowercase(rels[i].1)) != child
                    &&& forall|j: int|
                        0 <= j < i && joaat(lowercase((#[trigger] rels[j]).0)) == child ==> joaat(
                            lowercase(rels[j].1),
                        ) == 0 || joaat(lowercase(rels[j].1)) == child
                } ==> got.contains_key(child) && got[child] == joaat(lowercase(rels[i].1))
            &&& got.contains_key(child) && !parents.contains_key(child) ==> child != 0 && got[child]
                != 0 && got[child] != child && exists|i: int|
                0 <= i < rels.len() && joaat(lowercase((#[trigger] rels[i]).0)) == child && got[child]
                    == joaat(lowercase(rels[i].1))
        }),
    decreases rels.len(),
{
    if rels.len() > 0 {
        let front = rels.drop_last();
        law_first_parent_of_a_child_counts(parents, front, child);
        assert(forall|i: int| 0 <= i < front.len() ==> front[i] == rels[i]);
        assert(rels.last() == rels[rels.len() - 1]);
        let before = with_relationships(parents, front);
        let got = with_relationships(parents, rels);
        if got.contains_key(child) && !parents.contains_key(child) {
            if before.contains_key(child) {
                let i = choose|i: int|
                    0 <= i < front.len() && joaat(lowercase((#[trigger] front[i]).0)) == child
                        && before[child] == joaat(lowercase(front[i].1));
                assert(rels[i] == front[i]);
            }
        }
    }
}

/// Every texture of a resident dictionary is found in it, by its name and by
/// its stored hash; no other texture is.
pub proof fn law_resident_textures_are_found(
    residents: Map<u32, u32>,
    list: Seq<TextureView>,
    owner: u32,
    k: u32,
)
    ensures
        ({
            let got = with_residents(residents, list, owner);
            let inside = exists|i: int|
                0 <= i < list.len() && (joaat(lowercase((#[trigger] list[i]).name)) == k || (
                list[i].name_hash == k && k != 0));
            &&& inside ==> got.contains_key(k) && got[k] == owner
            &&& !inside ==> got.contains_key(k) == residents.contains_key(k) && got[k]
                == residents[k]
        }),
    decreases list.len(),
{
    if list.len() > 0 {
        let front = list.drop_last();
        law_resident_textures_are_found(residents, front, owner, k);
        assert(forall|i: int| 0 <= i < front.len() ==> front[i] == list[i]);
        assert(list.last() == list[list.len() - 1]);
    }
}

// ── Files ───────────────────────────────────────────────────────────────────

/// A text ends as a suffix of it does.
proof fn lemma_ends_alike(s: Seq<char>, end: Seq<char>)
    ensures
        end.is_suffix_of(s) ==> s.len() >= end.len() && forall|k: int|
            0 <= k < end.len() ==> #[trigger] end[k] == s[s.len() - end.len() + k],
{
    if end.is_suffix_of(s) {
        assert forall|k: int| 0 <= k < end.len() implies #[trigger] end[k] == s[s.len() - end.len()
            + k] by {
            assert(s.subrange(s.len() - end.len(), s.len() as int)[k] == end[k]);
        }
    }
}

proof fn lemma_kinds_differ(s: Seq<char>)
    ensures
        ({
            let rel = s == "gtxd.ymt"@ || s == "gtxd.meta"@ || s == "mph4_gtxd.ymt"@ || s
                == "vehicles.meta"@;
            let rpf = ".rpf"@.is_suffix_of(s);
            let cache = "cache_y.dat"@.is_suffix_of(s);
            let ytd = ".ytd"@.is_suffix_of(s);
            let ytyp = ".ytyp"@.is_suffix_of(s);
            let ybn = ".ybn"@.is_suffix_of(s);
            let model = ".ydr"@.is_suffix_of(s) || ".ydd"@.is_suffix_of(s) || ".yft"@.is_suffix_of(
                s,
            );
            let ymap = ".ymap"@.is_suffix_of(s);
            &&& rpf ==> !rel && !cache && !ytd && !ytyp && !ybn && !model && !ymap
            &&& rel ==> !cache && !ytd && !ytyp && !ybn && !model && !ymap
            &&& cache ==> !ytd && !ytyp && !ybn && !model && !ymap
            &&& ytd ==> !ytyp && !ybn && !model && !ymap
            &&& ytyp ==> !ybn && !model && !ymap
            &&& ybn ==> !model && !ymap
            &&& model ==> !ymap
        }),
{
    reveal_strlit("gtxd.ymt");
    reveal_strlit("gtxd.meta");
    reveal_strlit("mph4_gtxd.ymt");
    reveal_strlit("vehicles.meta");
    reveal_strlit(".rpf");
    reveal_strlit("cache_y.dat");
    reveal_strlit(".ytd");
    reveal_strlit(".ytyp");
    reveal_strlit(".ybn");
    reveal_strlit(".ydr");
    reveal_strlit(".ydd");
    reveal_strlit(".yft");
    reveal_strlit(".ymap");
    lemma_ends_alike(s, ".rpf"@);
    lemma_ends_alike(s, "cache_y.dat"@);
    lemma_ends_alike(s, ".ytd"@);
    lemma_ends_alike(s, ".ytyp"@);
    lemma_ends_alike(s, ".ybn"@);
    lemma_ends_alike(s, ".ydr"@);
    lemma_ends_alike(s, ".ydd"@);
    lemma_ends_alike(s, ".yft"@);
    lemma_ends_alike(s, ".ymap"@);
    let n = s.len();
    if ".rpf"@.is_suffix_of(s) {
        assert(".rpf"@[3] == s[n - 1]);
    }
    if "cache_y.dat"@.is_suffix_of(s) {
        assert("cache_y.dat"@[10] == s[n - 1] && "cache_y.dat"@[9] == s[n - 2]);
    }
    if ".ytd"@.is_suffix_of(s) {
        assert(".ytd"@[3] == s[n - 1] && ".ytd"@[2] == s[n - 2]);
    }
    if ".ytyp"@.is_suffix_of(s) {
        assert(".ytyp"@[4] == s[n - 1] && ".ytyp"@[3] == s[n - 2]);
    }
    if ".ybn"@.is_suffix_of(s) {
        assert(".ybn"@[3] == s[n - 1]);
    }
    if ".ydr"@.is_suffix_of(s) {
        assert(".ydr"@[3] == s[n - 1]);
    }
    if ".ydd"@.is_suffix_of(s) {
        assert(".ydd"@[3] == s[n - 1] && ".ydd"@[2] == s[n - 2]);
    }
    if ".yft"@.is_suffix_of(s) {
        assert(".yft"@[3] == s[n - 1] && ".yft"@[2] == s[n - 2]);
    }
    if ".ymap"@.is_suffix_of(s) {
        assert(".ymap"@[4] == s[n - 1] && ".ymap"@[3] == s[n - 2]);
    }
}

/// Where a file of an archive lies.
pub open spec fn place(top: Seq<char>, chain: Seq<Seq<char>>, f: ArchiveFile) -> Location {
    Location { top_archive: top, nested_rpfs: chain, inner_path: f.path@ }
}

/// A texture dictionary is found by the hash of its name, where it lies, in
/// place of an earlier one of that name. The textures of the two dictionaries
/// that are always loaded become resident; nothing else changes.
pub proof fn law_dictionary_is_found_by_name(
    st: PartialView,
    files: Seq<ArchiveFile>,
    f: ArchiveFile,
    top: Seq<char>,
    chain: Seq<Seq<char>>,
    parts: Parts,
)
    requires
        ".ytd"@.is_suffix_of(lowercase(f.name@)),
    ensures
        ({
            let before = with_files(st, files, top, chain, parts);
            let got = with_files(st, files.push(f), top, chain, parts);
            let s = stem(lowercase(f.name@));
            if parts.holds(Parts::textures()) {
                &&& got.index.ytd_by_name.contains_key(joaat(s))
                &&& got.index.ytd_by_name[joaat(s)] == place(top, chain, f)
                &&& got.index.ytd_by_name.remove(joaat(s)) == before.index.ytd_by_name.remove(
                    joaat(s),
                )
                &&& s != "mapdetail"@ && s != "vehshare"@ ==> got.index.resident_textures
                    == before.index.resident_textures
                &&& s == "mapdetail"@ || s == "vehshare"@ ==> match f.content {
                    Content::Data(data) => match dictionary(data@) {
                        Ok(list) => forall|i: int|
                            0 <= i < list.len() ==> got.index.resident_textures.contains_key(
                                joaat(lowercase((#[trigger] list[i]).name)),
                            ) && got.index.resident_textures[joaat(lowercase(list[i].name))]
                                == joaat(s),
                        Err(_) => got.index.resident_textures == before.index.resident_textures,
                    },
                    _ => got.index.resident_textures == before.index.resident_textures,
                }
                &&& (IndexView {
                    ytd_by_name: before.index.ytd_by_name,
                    resident_textures: before.index.resident_textures,
                    ..got.index
                }) == before.index
            } else {
                got.index == before.index
            }
        }),
        ({
            let before = with_files(st, files, top, chain, parts);
            let got = with_files(st, files.push(f), top, chain, parts);
            got.ymaps == before.ymaps && got.covered == before.covered && got.proxies
                == before.proxies
        }),
{
    let name = lowercase(f.name@);
    lemma_kinds_differ(name);
    lemma_step(st, files, f, top, chain, parts);
    let before = with_files(st, files, top, chain, parts);
    let got = with_files(st, files.push(f), top, chain, parts);
    let s = stem(name);
    if parts.holds(Parts::textures()) {
        assert(got.index.ytd_by_name.remove(joaat(s)) =~= before.index.ytd_by_name.remove(joaat(s)));
        if s == "mapdetail"@ || s == "vehshare"@ {
            match f.content {
                Content::Data(data) => match dictionary(data@) {
                    Ok(list) => {
                        assert forall|i: int| 0 <= i < list.len() implies got.index.resident_textures.contains_key(
                            joaat(lowercase((#[trigger] list[i]).name)),
                        ) && got.index.resident_textures[joaat(lowercase(list[i].name))] == joaat(s) by {
                            law_resident_textures_are_found(
                                before.index.resident_textures,
                                list,
                                joaat(s),
                                joaat(lowercase(list[i].name)),
                            );
                        }
                    },
                    Err(_) => {},
                },
                _ => {},
            }
        }
    }
}

proof fn lemma_step(
    st: PartialView,
    files: Seq<ArchiveFile>,
    f: ArchiveFile,
    top: Seq<char>,
    chain: Seq<Seq<char>>,
    parts: Parts,
)
    ensures
        files.push(f).drop_last() == files,
        files.push(f)[files.push(f).len() - 1] == f,
{
    assert(files.push(f).drop_last() =~= files);
}

/// A type file adds its archetypes, and nothing else; one that cannot be read
/// adds nothing.
pub proof fn law_type_file_adds_its_archetypes(
    st: PartialView,
    files: Seq<ArchiveFile>,
    f: ArchiveFile,
    top: Seq<char>,
    chain: Seq<Seq<char>>,
    parts: Parts,
    i: int,
)
    requires
        ".ytyp"@.is_suffix_of(lowercase(f.name@)),
    ensures
        ({
            let before = with_files(st, files, top, chain, parts);
            let got = with_files(st, files.push(f), top, chain, parts);
            &&& got.ymaps == before.ymaps && got.covered == before.covered && got.proxies
                == before.proxies
            &&& match f.content {
                Content::Data(data) => match types_in(data@) {
                    Ok(types) => {
                        let list = types.archetypes;
                        &&& 0 <= i < list.len() && (forall|j: int|
                            i < j < list.len() ==> (#[trigger] list[j]).name_hash
                                != list[i].name_hash) ==> {
                            &&& parts.holds(Parts::textures()) && list[i].texture_dict_hash != 0
                                ==> got.index.archetype_txd.contains_key(list[i].name_hash)
                                && got.index.archetype_txd[list[i].name_hash]
                                == list[i].texture_dict_hash
                            &&& parts.holds(Parts::interiors()) && list[i].is_mlo
                                ==> got.index.mlo_ytyp.contains_key(list[i].name_hash)
                                && got.index.mlo_ytyp[list[i].name_hash] == place(top, chain, f)
                            &&& parts.holds(Parts::models())
                                ==> got.index.archetype_box.contains_key(list[i].name_hash)
                                && got.index.archetype_box[list[i].name_hash] == list[i].bounds
                        }
                        &&& forall|k: u32|
                            #![trigger got.index.archetype_txd.contains_key(k)]
                            got.index.archetype_txd.contains_key(k)
                                && !before.index.archetype_txd.contains_key(k) ==> exists|j: int|
                                0 <= j < list.len() && (#[trigger] list[j]).name_hash == k
                    },
                    Err(_) => got == before,
                },
                _ => got == before,
            }
        }),
{
    lemma_kinds_differ(lowercase(f.name@));
    lemma_step(st, files, f, top, chain, parts);
    let before = with_files(st, files, top, chain, parts);
    let got = with_files(st, files.push(f), top, chain, parts);
    match f.content {
        Content::Data(data) => match types_in(data@) {
            Ok(types) => {
                let list = types.archetypes;
                if 0 <= i < list.len() && (forall|j: int|
                    i < j < list.len() ==> (#[trigger] list[j]).name_hash != list[i].name_hash) {
                    law_last_archetype_of_a_name_counts(
                        before.index,
                        list,
                        place(top, chain, f),
                        parts,
                        i,
                    );
                }
                assert forall|k: u32|
                    #![trigger got.index.archetype_txd.contains_key(k)]
                    got.index.archetype_txd.contains_key(k)
                        && !before.index.archetype_txd.contains_key(k) implies exists|j: int|
                    0 <= j < list.len() && (#[trigger] list[j]).name_hash == k by {
                    law_archetypes_add_nothing_else(
                        before.index,
                        list,
                        place(top, chain, f),
                        parts,
                        k,
                    );
                }
            },
            Err(_) => {},
        },
        _ => {},
    }
}

/// A collision file is found by the hash of its name, where it lies, where
/// interiors are indexed; a model file is where models are. Neither is read.
pub proof fn law_collision_and_models_are_found_by_name(
    st: PartialView,
    files: Seq<ArchiveFile>,
    f: ArchiveFile,
    top: Seq<char>,
    chain: Seq<Seq<char>>,
    parts: Parts,
)
    ensures
        ({
            let before = with_files(st, files, top, chain, parts);
            let got = with_files(st, files.push(f), top, chain, parts);
            let name = lowercase(f.name@);
            let hash = joaat(stem(name));
            &&& ".ybn"@.is_suffix_of(name) ==> if parts.holds(Parts::interiors()) {
                &&& got.index.ybn_by_name == before.index.ybn_by_name.insert(
                    hash,
                    place(top, chain, f),
                )
                &&& (PartialView {
                    index: IndexView { ybn_by_name: before.index.ybn_by_name, ..got.index },
                    ..got
                }) == before
            } else {
                got == before
            }
            &&& ".ydr"@.is_suffix_of(name) || ".ydd"@.is_suffix_of(name) || ".yft"@.is_suffix_of(
                name,
            ) ==> if parts.holds(Parts::models()) {
                &&& got.index.drawable_by_name == before.index.drawable_by_name.insert(
                    hash,
                    place(top, chain, f),
                )
                &&& (PartialView {
                    index: IndexView { drawable_by_name: before.index.drawable_by_name, ..got.index },
                    ..got
                }) == before
            } else {
                got == before
            }
            &&& ".ymap"@.is_suffix_of(name) ==> if parts.holds(Parts::interiors()) {
                &&& got.ymaps.len() == before.ymaps.len() + 1
                &&& got.ymaps.last() == (hash, place(top, chain, f))
                &&& got.ymaps.drop_last() == before.ymaps
                &&& got.index == before.index && got.covered == before.covered && got.proxies
                    == before.proxies
            } else {
                got == before
            }
        }),
{
    lemma_kinds_differ(lowercase(f.name@));
    lemma_step(st, files, f, top, chain, parts);
    let before = with_files(st, files, top, chain, parts);
    let got = with_files(st, files.push(f), top, chain, parts);
    if ".ymap"@.is_suffix_of(lowercase(f.name@)) && parts.holds(Parts::interiors()) {
        assert(got.ymaps.drop_last() =~= before.ymaps);
    }
}

/// The four files of texture relationships add them where textures are
/// indexed; a world cache adds the maps it describes and the interiors they
/// place where interiors are. Nothing else of the index changes.
pub proof fn law_relationships_and_caches_are_taken(
    st: PartialView,
    files: Seq<ArchiveFile>,
    f: ArchiveFile,
    top: Seq<char>,
    chain: Seq<Seq<char>>,
    parts: Parts,
)
    ensures
        ({
            let before = with_files(st, files, top, chain, parts);
            let got = with_files(st, files.push(f), top, chain, parts);
            let name = lowercase(f.name@);
            &&& name == "gtxd.ymt"@ || name == "gtxd.meta"@ || name == "mph4_gtxd.ymt"@ || name
                == "vehicles.meta"@ ==> {
                &&& (PartialView {
                    index: IndexView { parent_txds: before.index.parent_txds, ..got.index },
                    ..got
                }) == before
                &&& match f.content {
                    Content::Data(data) => if parts.holds(Parts::textures()) && txd_relationships(
                        data@,
                    ) is Some {
                        got.index.parent_txds == with_relationships(
                            before.index.parent_txds,
                            txd_relationships(data@)->Some_0,
                        )
                    } else {
                        got == before
                    },
                    _ => got == before,
                }
            }
            &&& "cache_y.dat"@.is_suffix_of(name) ==> {
                &&& got.index == before.index && got.ymaps == before.ymaps
                &&& match f.content {
                    Content::Data(data) => if parts.holds(Parts::interiors()) && world_cache(
                        data@,
                    ) is Some {
                        let cache = world_cache(data@)->Some_0;
                        &&& forall|m: u32| #[trigger]
                            got.covered.contains(m) <==> before.covered.contains(m)
                                || cache.0.contains(m)
                        &&& got.proxies.len() == before.proxies.len() + cache.1.len()
                        &&& forall|i: int|
                            0 <= i < before.proxies.len() ==> #[trigger] got.proxies[i]
                                == before.proxies[i]
                        &&& forall|i: int|
                            0 <= i < cache.1.len() ==> got.proxies[before.proxies.len() + i]
                                == #[trigger] cache.1[i]
                    } else {
                        got == before
                    },
                    _ => got == before,
                }
            }
        }),
{
    lemma_kinds_differ(lowercase(f.name@));
    lemma_step(st, files, f, top, chain, parts);
}

/// The files of a nested archive are indexed where it stands, by paths that
/// lead through it; an archive that could not be opened adds nothing, and nor
/// does a file of any other name.
pub proof fn law_nested_archives_are_entered(
    st: PartialView,
    files: Seq<ArchiveFile>,
    f: ArchiveFile,
    top: Seq<char>,
    chain: Seq<Seq<char>>,
    parts: Parts,
)
    ensures
        ({
            let before = with_files(st, files, top, chain, parts);
            let got = with_files(st, files.push(f), top, chain, parts);
            let name = lowercase(f.name@);
            &&& ".rpf"@.is_suffix_of(name) ==> match f.content {
                Content::Nested(inner) => got == with_files(
                    before,
                    inner@,
                    top,
                    chain + seq![f.path@],
                    parts,
                ),
                _ => got == before,
            }
            &&& !".rpf"@.is_suffix_of(name) && !".ytd"@.is_suffix_of(name)
                && !".ytyp"@.is_suffix_of(name) && !".ybn"@.is_suffix_of(name)
                && !".ydr"@.is_suffix_of(name) && !".ydd"@.is_suffix_of(name)
                && !".yft"@.is_suffix_of(name) && !".ymap"@.is_suffix_of(name)
                && !"cache_y.dat"@.is_suffix_of(name) && name != "gtxd.ymt"@ && name
                != "gtxd.meta"@ && name != "mph4_gtxd.ymt"@ && name != "vehicles.meta"@ ==> got
                == before
        }),
        with_files(st, Seq::empty(), top, chain, parts) == st,
{
    lemma_step(st, files, f, top, chain, parts);
    assert(chain + seq![f.path@] =~= chain.push(f.path@));
}

/// A file is read before it is indexed exactly where its contents matter:
/// type files always, the relationship files and the two resident dictionaries
/// for textures, world caches for interiors; nested archives are opened.
pub proof fn law_only_what_matters_is_read(name: Seq<char>, parts: Parts)
    ensures
        ({
            let rel = name == "gtxd.ymt"@ || name == "gtxd.meta"@ || name == "mph4_gtxd.ymt"@
                || name == "vehicles.meta"@;
            let resident = ".ytd"@.is_suffix_of(name) && (stem(name) == "mapdetail"@ || stem(name)
                == "vehshare"@);
            &&& wants(name, parts) == Want::NestedArchive <==> ".rpf"@.is_suffix_of(name)
            &&& wants(name, parts) == Want::Bytes <==> ".ytyp"@.is_suffix_of(name) || ((rel
                || resident) && parts.holds(Parts::textures())) || ("cache_y.dat"@.is_suffix_of(
                name,
            ) && parts.holds(Parts::interiors()))
        }),
{
    lemma_kinds_differ(name);
}

} // verus!
