//! Building the index from the contents of archives.
use std::collections::{HashMap, HashSet};
use vstd::prelude::*;
use crate::file_names::{file_stem, stem};
use crate::formats::{
    dictionary, parse_cache_dat, parse_txd_relationships, parse_ytd, parse_ytyp, relationship_texts,
    texture_views, txd_relationships, types_in, world_cache, ASSET_FRAGMENT, Archetype, Texture,
    TextureView, TxdRelationship,
};
use crate::hash::{joaat, rage_joaat};
use crate::index::model::{locations, Asset, EntryLoc, GameIndex, IndexView, Location};
use crate::index::parts::Parts;
use crate::text::{copy_texts, ends_with, lowercase, same, texts, to_lowercase};

verus! {

/// A file of an archive, with what was read of it.
#[derive(Debug)]
pub struct ArchiveFile {
    pub name: String,
    /// The path inside the archive.
    pub path: String,
    pub content: Content,
}

/// What was read of a file of an archive.
#[derive(Debug)]
pub enum Content {
    /// The file was not wanted, or could not be read.
    Unread,
    /// The file's bytes.
    Data(Vec<u8>),
    /// The files of a nested archive.
    Nested(Vec<ArchiveFile>),
}

/// What one top-level archive contributes to a build: its share of the
/// index, plus what the interior pass needs once every archive is in.
#[derive(Debug)]
pub struct Partial {
    pub index: GameIndex,
    /// Every `.ymap`, in scan order: the hash of its lowercase stem, and where.
    pub ymaps: Vec<(u32, EntryLoc)>,
    /// Name hashes of the maps some world cache file describes.
    pub covered: HashSet<u32>,
    /// (interior archetype, placing map) from the world cache files.
    pub proxies: Vec<(u32, u32)>,
}

/// A `Partial` as maps and sequences.
#[verifier::ext_equal]
pub struct PartialView {
    pub index: IndexView,
    pub ymaps: Seq<(u32, Location)>,
    pub covered: Set<u32>,
    pub proxies: Seq<(u32, u32)>,
}

/// A list of maps with their locations as texts.
pub open spec fn map_list(list: Seq<(u32, EntryLoc)>) -> Seq<(u32, Location)> {
    list.map_values(|m: (u32, EntryLoc)| (m.0, m.1@))
}

impl View for Partial {
    type V = PartialView;

    open spec fn view(&self) -> PartialView {
        PartialView {
            index: self.index@,
            ymaps: map_list(self.ymaps@),
            covered: self.covered@,
            proxies: self.proxies@,
        }
    }
}

// ── What a file contributes ─────────────────────────────────────────────────

/// The name of a file that declares texture relationships, exactly.
pub open spec fn is_relationship_file(name: Seq<char>) -> bool {
    name == "gtxd.ymt"@ || name == "gtxd.meta"@ || name == "mph4_gtxd.ymt"@ || name
        == "vehicles.meta"@
}

/// The stem of a dictionary that the game always keeps loaded.
pub open spec fn is_resident(s: Seq<char>) -> bool {
    s == "mapdetail"@ || s == "vehshare"@
}

/// A drawable's file, by its extension.
pub open spec fn is_drawable(name: Seq<char>) -> bool {
    ".ydr"@.is_suffix_of(name) || ".ydd"@.is_suffix_of(name) || ".yft"@.is_suffix_of(name)
}

/// The parents with relationships added, first child wins; a name that hashes
/// to 0 and a dictionary that is its own parent are passed over.
pub open spec fn with_relationships(
    parents: Map<u32, u32>,
    rels: Seq<(Seq<char>, Seq<char>)>,
) -> Map<u32, u32>
    decreases rels.len(),
{
    if rels.len() == 0 {
        parents
    } else {
        let before = with_relationships(parents, rels.drop_last());
        let child = joaat(lowercase(rels.last().0));
        let parent = joaat(lowercase(rels.last().1));
        if child == 0 || parent == 0 || child == parent || before.contains_key(child) {
            before
        } else {
            before.insert(child, parent)
        }
    }
}

/// The resident textures with those of the dictionary `owner` added, each
/// under its stored hash, if it has one, and under that of its name.
pub open spec fn with_residents(
    residents: Map<u32, u32>,
    list: Seq<TextureView>,
    owner: u32,
) -> Map<u32, u32>
    decreases list.len(),
{
    if list.len() == 0 {
        residents
    } else {
        let before = with_residents(residents, list.drop_last(), owner);
        let texture = list.last();
        (if texture.name_hash != 0 {
            before.insert(texture.name_hash, owner)
        } else {
            before
        }).insert(joaat(lowercase(texture.name)), owner)
    }
}

/// The index with one archetype of the `.ytyp` at `loc` added.
pub open spec fn with_archetype(v: IndexView, a: Archetype, loc: Location, parts: Parts) -> IndexView {
    IndexView {
        archetype_txd: if parts.holds(Parts::textures()) && a.texture_dict_hash != 0 {
            v.archetype_txd.insert(a.name_hash, a.texture_dict_hash)
        } else {
            v.archetype_txd
        },
        mlo_ytyp: if parts.holds(Parts::interiors()) && a.is_mlo {
            v.mlo_ytyp.insert(a.name_hash, loc)
        } else {
            v.mlo_ytyp
        },
        archetype_box: if parts.holds(Parts::models()) {
            v.archetype_box.insert(a.name_hash, a.bounds)
        } else {
            v.archetype_box
        },
        archetype_asset: if parts.holds(Parts::models()) && (a.in_dictionary() || a.asset_type
            == ASSET_FRAGMENT || a.model() != a.name_hash) {
            v.archetype_asset.insert(a.name_hash, Asset { kind: a.asset_type, model: a.model() })
        } else {
            v.archetype_asset
        },
        ..v
    }
}

/// The index with the archetypes of the `.ytyp` at `loc` added.
pub open spec fn with_archetypes(
    v: IndexView,
    list: Seq<Archetype>,
    loc: Location,
    parts: Parts,
) -> IndexView
    decreases list.len(),
{
    if list.len() == 0 {
        v
    } else {
        with_archetype(with_archetypes(v, list.drop_last(), loc, parts), list.last(), loc, parts)
    }
}

/// The bytes that were read of a file.
pub open spec fn data_of(content: Content) -> Option<Seq<u8>> {
    match content {
        Content::Data(data) => Some(data@),
        _ => None,
    }
}

/// What a texture dictionary adds.
pub open spec fn with_dictionary(
    st: PartialView,
    stem: Seq<char>,
    data: Option<Seq<u8>>,
    loc: Location,
) -> PartialView {
    let owner = joaat(stem);
    let residents = if is_resident(stem) && data is Some && dictionary(data->Some_0) is Ok {
        with_residents(st.index.resident_textures, dictionary(data->Some_0)->Ok_0, owner)
    } else {
        st.index.resident_textures
    };
    PartialView {
        index: IndexView {
            ytd_by_name: st.index.ytd_by_name.insert(owner, loc),
            resident_textures: residents,
            ..st.index
        },
        ..st
    }
}

/// What a file that is neither an archive, a relationship file nor a world
/// cache adds: its name or its archetypes, by its extension and the parts
/// that are built.
pub open spec fn with_asset(
    st: PartialView,
    name: Seq<char>,
    data: Option<Seq<u8>>,
    loc: Location,
    parts: Parts,
) -> PartialView {
    let stem = stem(name);
    if ".ytd"@.is_suffix_of(name) {
        if parts.holds(Parts::textures()) {
            with_dictionary(st, stem, data, loc)
        } else {
            st
        }
    } else if ".ytyp"@.is_suffix_of(name) {
        if data is Some && types_in(data->Some_0) is Ok {
            PartialView {
                index: with_archetypes(st.index, types_in(data->Some_0)->Ok_0.archetypes, loc, parts),
                ..st
            }
        } else {
            st
        }
    } else if ".ybn"@.is_suffix_of(name) {
        if parts.holds(Parts::interiors()) {
            PartialView {
                index: IndexView {
                    ybn_by_name: st.index.ybn_by_name.insert(joaat(stem), loc),
                    ..st.index
                },
                ..st
            }
        } else {
            st
        }
    } else if is_drawable(name) {
        if parts.holds(Parts::models()) {
            PartialView {
                index: IndexView {
                    drawable_by_name: st.index.drawable_by_name.insert(joaat(stem), loc),
                    ..st.index
                },
                ..st
            }
        } else {
            st
        }
    } else if ".ymap"@.is_suffix_of(name) && parts.holds(Parts::interiors()) {
        PartialView { ymaps: st.ymaps.push((joaat(stem), loc)), ..st }
    } else {
        st
    }
}

/// What a file that is no archive adds.
pub open spec fn with_file(
    st: PartialView,
    name: Seq<char>,
    data: Option<Seq<u8>>,
    loc: Location,
    parts: Parts,
) -> PartialView {
    if is_relationship_file(name) {
        if parts.holds(Parts::textures()) && data is Some && txd_relationships(data->Some_0) is Some {
            PartialView {
                index: IndexView {
                    parent_txds: with_relationships(
                        st.index.parent_txds,
                        txd_relationships(data->Some_0)->Some_0,
                    ),
                    ..st.index
                },
                ..st
            }
        } else {
            st
        }
    } else if "cache_y.dat"@.is_suffix_of(name) {
        if parts.holds(Parts::interiors()) && data is Some && world_cache(data->Some_0) is Some {
            let cache = world_cache(data->Some_0)->Some_0;
            PartialView {
                covered: st.covered.union(cache.0.to_set()),
                proxies: st.proxies + cache.1,
                ..st
            }
        } else {
            st
        }
    } else {
        with_asset(st, name, data, loc, parts)
    }
}

/// What the files of an archive add, in their order; the files of a nested
/// archive are taken where it stands, with its path behind the chain.
pub open spec fn with_files(
    st: PartialView,
    files: Seq<ArchiveFile>,
    top: Seq<char>,
    chain: Seq<Seq<char>>,
    parts: Parts,
) -> PartialView
    decreases files,
{
    if files.len() == 0 {
        st
    } else {
        let before = with_files(st, files.drop_last(), top, chain, parts);
        let file = files[files.len() - 1];
        let name = lowercase(file.name@);
        if ".rpf"@.is_suffix_of(name) {
            match file.content {
                Content::Nested(inner) => with_files(
                    before,
                    inner@,
                    top,
                    chain.push(file.path@),
                    parts,
                ),
                _ => before,
            }
        } else {
            with_file(
                before,
                name,
                data_of(file.content),
                Location { top_archive: top, nested_rpfs: chain, inner_path: file.path@ },
                parts,
            )
        }
    }
}

/// Merges `rels` into `out`, first child wins.
pub fn merge_txd_relationships(out: &mut HashMap<u32, u32>, rels: &Vec<TxdRelationship>)
    ensures
        final(out)@ == with_relationships(old(out)@, relationship_texts(rels@)),
{
    let ghost all = relationship_texts(rels@);
    let mut i: usize = 0;
    assert(all.take(0) =~= Seq::empty());
    while i < rels.len()
        invariant
            i <= rels.len(),
            all == relationship_texts(rels@),
            out@ == with_relationships(old(out)@, all.take(i as int)),
        decreases rels.len() - i,
    {
        let child_name = to_lowercase(rels[i].child.as_str());
        let parent_name = to_lowercase(rels[i].parent.as_str());
        let child: u32 = rage_joaat(child_name.as_str());
        let parent: u32 = rage_joaat(parent_name.as_str());
        proof {
            assert(all.take(i + 1).drop_last() =~= all.take(i as int));
            assert(all.take(i + 1).last() == all[i as int]);
        }
        if child != 0 && parent != 0 && child != parent && !out.contains_key(&child) {
            out.insert(child, parent);
        }
        i = i + 1;
    }
    assert(all.take(rels.len() as int) =~= all);
}

/// Files the textures of a resident dictionary.
fn add_residents(out: &mut HashMap<u32, u32>, list: &Vec<Texture>, owner: u32)
    ensures
        final(out)@ == with_residents(old(out)@, texture_views(list@), owner),
{
    let ghost all = texture_views(list@);
    let mut i: usize = 0;
    assert(all.take(0) =~= Seq::empty());
    while i < list.len()
        invariant
            i <= list.len(),
            all == texture_views(list@),
            out@ == with_residents(old(out)@, all.take(i as int), owner),
        decreases list.len() - i,
    {
        let name = to_lowercase(list[i].name.as_str());
        proof {
            assert(all.take(i + 1).drop_last() =~= all.take(i as int));
            assert(all.take(i + 1).last() == all[i as int]);
        }
        if list[i].name_hash != 0 {
            out.insert(list[i].name_hash, owner);
        }
        out.insert(rage_joaat(name.as_str()), owner);
        i = i + 1;
    }
    assert(all.take(list.len() as int) =~= all);
}

proof fn lemma_locations_insert(m: Map<u32, EntryLoc>, k: u32, l: EntryLoc)
    ensures
        locations(m.insert(k, l)) == locations(m).insert(k, l@),
{
    assert(locations(m.insert(k, l)) =~= locations(m).insert(k, l@));
}

/// Files the archetypes of the `.ytyp` at `loc`.
fn add_archetypes(index: &mut GameIndex, list: &Vec<Archetype>, loc: &EntryLoc, parts: Parts)
    ensures
        final(index)@ == with_archetypes(old(index)@, list@, loc@, parts),
{
    let textures: bool = parts.contains(Parts::textures());
    let interiors: bool = parts.contains(Parts::interiors());
    let models: bool = parts.contains(Parts::models());
    let mut i: usize = 0;
    assert(list@.take(0) =~= Seq::empty());
    while i < list.len()
        invariant
            i <= list.len(),
            textures == parts.holds(Parts::textures()),
            interiors == parts.holds(Parts::interiors()),
            models == parts.holds(Parts::models()),
            index@ == with_archetypes(old(index)@, list@.take(i as int), loc@, parts),
        decreases list.len() - i,
    {
        let a = list[i];
        let ghost before = index@;
        proof {
            assert(list@.take(i + 1).drop_last() =~= list@.take(i as int));
            assert(list@.take(i + 1).last() == a);
        }
        if textures && a.texture_dict_hash != 0 {
            index.archetype_txd.insert(a.name_hash, a.texture_dict_hash);
        }
        if interiors && a.is_mlo {
            let copy = loc.copy();
            proof {
                lemma_locations_insert(index.mlo_ytyp@, a.name_hash, copy);
            }
            index.mlo_ytyp.insert(a.name_hash, copy);
        }
        if models {
            index.archetype_box.insert(a.name_hash, a.bounds);
            let model: u32 = a.model_hash();
            if a.in_drawable_dictionary() || a.asset_type == ASSET_FRAGMENT || model != a.name_hash {
                index.archetype_asset.insert(a.name_hash, Asset { kind: a.asset_type, model });
            }
        }
        assert(index@ =~= with_archetype(before, a, loc@, parts));
        i = i + 1;
    }
    assert(list@.take(list.len() as int) =~= list@);
}

/// Whether a file of this name (in lowercase) declares texture relationships.
fn relationship_file(name: &str) -> (r: bool)
    ensures
        r == is_relationship_file(name@),
{
    same(name, "gtxd.ymt") || same(name, "gtxd.meta") || same(name, "mph4_gtxd.ymt") || same(
        name,
        "vehicles.meta",
    )
}

/// Whether a dictionary of this stem is always loaded.
fn resident(stem: &str) -> (r: bool)
    ensures
        r == is_resident(stem@),
{
    same(stem, "mapdetail") || same(stem, "vehshare")
}

/// Whether a file of this name (in lowercase) is a drawable's.
fn drawable(name: &str) -> (r: bool)
    ensures
        r == is_drawable(name@),
{
    ends_with(name, ".ydr") || ends_with(name, ".ydd") || ends_with(name, ".yft")
}

/// What has to be read of a file before it is indexed.
#[derive(Debug, Clone, Copy, PartialEq, Eq, Structural)]
pub enum Want {
    Nothing,
    Bytes,
    NestedArchive,
}

/// What has to be read of a file of the given lowercase name.
pub open spec fn wants(name: Seq<char>, parts: Parts) -> Want {
    if ".rpf"@.is_suffix_of(name) {
        Want::NestedArchive
    } else if is_relationship_file(name) {
        if parts.holds(Parts::textures()) {
            Want::Bytes
        } else {
            Want::Nothing
        }
    } else if "cache_y.dat"@.is_suffix_of(name) {
        if parts.holds(Parts::interiors()) {
            Want::Bytes
        } else {
            Want::Nothing
        }
    } else if ".ytd"@.is_suffix_of(name) {
        if parts.holds(Parts::textures()) && is_resident(stem(name)) {
            Want::Bytes
        } else {
            Want::Nothing
        }
    } else if ".ytyp"@.is_suffix_of(name) {
        Want::Bytes
    } else {
        Want::Nothing
    }
}

/// What has to be read of a file before it is indexed: nested archives, the
/// texture-relationship files, the world cache files, the resident
/// dictionaries and every `.ytyp`, as far as the parts need them.
pub fn wanted(file_name: &str, parts: Parts) -> (r: Want)
    ensures
        r == wants(lowercase(file_name@), parts),
{
    let name = to_lowercase(file_name);
    let name = name.as_str();
    if ends_with(name, ".rpf") {
        return Want::NestedArchive;
    }
    if relationship_file(name) {
        if parts.contains(Parts::textures()) {
            return Want::Bytes;
        }
        return Want::Nothing;
    }
    if ends_with(name, "cache_y.dat") {
        if parts.contains(Parts::interiors()) {
            return Want::Bytes;
        }
        return Want::Nothing;
    }
    if ends_with(name, ".ytd") {
        if parts.contains(Parts::textures()) && resident(file_stem(name).as_str()) {
            return Want::Bytes;
        }
        return Want::Nothing;
    }
    if ends_with(name, ".ytyp") {
        return Want::Bytes;
    }
    Want::Nothing
}

impl Partial {
    /// Nothing contributed yet.
    pub fn new() -> (out: Partial)
        ensures
            out@ == (PartialView {
                index: IndexView::nothing(Parts::none()),
                ymaps: Seq::empty(),
                covered: Set::empty(),
                proxies: Seq::empty(),
            }),
    {
        let out = Partial {
            index: GameIndex::empty(Parts::none()),
            ymaps: Vec::new(),
            covered: HashSet::new(),
            proxies: Vec::new(),
        };
        assert(out@.ymaps =~= Seq::empty());
        out
    }

    /// Takes what a world cache file says of interiors.
    fn add_cache(&mut self, data: &Vec<u8>)
        ensures
            final(self)@ == (if world_cache(data@) is Some {
                PartialView {
                    covered: old(self)@.covered.union(world_cache(data@)->Some_0.0.to_set()),
                    proxies: old(self)@.proxies + world_cache(data@)->Some_0.1,
                    ..old(self)@
                }
            } else {
                old(self)@
            }),
    {
        match parse_cache_dat(data.as_slice()) {
            None => {},
            Some(cache) => {
                let ghost start = self@;
                let mut i: usize = 0;
                assert(cache.maps@.take(0).to_set() =~= Set::empty());
                assert(start.covered.union(Set::empty()) =~= start.covered);
                while i < cache.maps.len()
                    invariant
                        i <= cache.maps.len(),
                        self.index@ == start.index,
                        map_list(self.ymaps@) == start.ymaps,
                        self.proxies@ == start.proxies,
                        self.covered@ == start.covered.union(cache.maps@.take(i as int).to_set()),
                    decreases cache.maps.len() - i,
                {
                    let ghost seen = cache.maps@.take(i as int);
                    self.covered.insert(cache.maps[i]);
                    proof {
                        let more = cache.maps@.take(i + 1);
                        assert(more =~= seen.push(cache.maps[i as int]));
                        seen.lemma_push_to_set_commute(cache.maps[i as int]);
                        assert(self.covered@ =~= start.covered.union(more.to_set()));
                    }
                    i = i + 1;
                }
                assert(cache.maps@.take(cache.maps.len() as int) =~= cache.maps@);
                let mut proxies = cache.proxies;
                self.proxies.append(&mut proxies);
                assert(self.proxies@ =~= start.proxies + cache.proxies@);
            },
        }
    }

    /// Takes a texture dictionary.
    fn add_dictionary(&mut self, stem: &str, data: Option<&Vec<u8>>, loc: EntryLoc)
        ensures
            final(self)@ == with_dictionary(
                old(self)@,
                stem@,
                match data {
                    Some(d) => Some(d@),
                    None => None,
                },
                loc@,
            ),
    {
        let owner: u32 = rage_joaat(stem);
        proof {
            lemma_locations_insert(self.index.ytd_by_name@, owner, loc);
        }
        self.index.ytd_by_name.insert(owner, loc);
        if resident(stem) {
            if let Some(bytes) = data {
                if let Ok(list) = parse_ytd(bytes.as_slice()) {
                    add_residents(&mut self.index.resident_textures, &list, owner);
                }
            }
        }
    }

    /// Takes a file that is neither an archive, a relationship file nor a
    /// world cache.
    fn add_asset(&mut self, name: &str, data: Option<&Vec<u8>>, loc: EntryLoc, parts: Parts)
        ensures
            final(self)@ == with_asset(
                old(self)@,
                name@,
                match data {
                    Some(d) => Some(d@),
                    None => None,
                },
                loc@,
                parts,
            ),
    {
        let stem = file_stem(name);
        let ghost start = self@;
        if ends_with(name, ".ytd") {
            if parts.contains(Parts::textures()) {
                self.add_dictionary(stem.as_str(), data, loc);
            }
        } else if ends_with(name, ".ytyp") {
            if let Some(bytes) = data {
                if let Ok(list) = parse_ytyp(bytes.as_slice()) {
                    add_archetypes(&mut self.index, &list, &loc, parts);
                }
            }
        } else if ends_with(name, ".ybn") {
            if parts.contains(Parts::interiors()) {
                let hash: u32 = rage_joaat(stem.as_str());
                proof {
                    lemma_locations_insert(self.index.ybn_by_name@, hash, loc);
                }
                self.index.ybn_by_name.insert(hash, loc);
            }
        } else if drawable(name) {
            if parts.contains(Parts::models()) {
                let hash: u32 = rage_joaat(stem.as_str());
                proof {
                    lemma_locations_insert(self.index.drawable_by_name@, hash, loc);
                }
                self.index.drawable_by_name.insert(hash, loc);
            }
        } else if ends_with(name, ".ymap") && parts.contains(Parts::interiors()) {
            let hash: u32 = rage_joaat(stem.as_str());
            self.ymaps.push((hash, loc));
            assert(map_list(self.ymaps@) =~= start.ymaps.push((hash, loc@)));
        }
    }

    /// Takes a file that is no archive, by its lowercase name.
    fn add_file(&mut self, name: &str, data: Option<&Vec<u8>>, loc: EntryLoc, parts: Parts)
        ensures
            final(self)@ == with_file(
                old(self)@,
                name@,
                match data {
                    Some(d) => Some(d@),
                    None => None,
                },
                loc@,
                parts,
            ),
    {
        if relationship_file(name) {
            if parts.contains(Parts::textures()) {
                if let Some(bytes) = data {
                    if let Some(rels) = parse_txd_relationships(bytes.as_slice()) {
                        merge_txd_relationships(&mut self.index.parent_txds, &rels);
                    }
                }
            }
        } else if ends_with(name, "cache_y.dat") {
            if parts.contains(Parts::interiors()) {
                if let Some(bytes) = data {
                    self.add_cache(bytes);
                }
            }
        } else {
            self.add_asset(name, data, loc, parts);
        }
    }
}

/// Indexes the files of an archive and of those nested in it.
pub fn index_archive(
    files: &Vec<ArchiveFile>,
    archive_path: &str,
    nested_rpfs: &Vec<String>,
    parts: Parts,
    out: &mut Partial,
)
    ensures
        final(out)@ == with_files(
            old(out)@,
            files@,
            archive_path@,
            texts(nested_rpfs@),
            parts,
        ),
    decreases files@,
{
    let ghost chain = texts(nested_rpfs@);
    let mut i: usize = 0;
    assert(files@.take(0) =~= Seq::empty());
    while i < files.len()
        invariant
            i <= files.len(),
            chain == texts(nested_rpfs@),
            out@ == with_files(old(out)@, files@.take(i as int), archive_path@, chain, parts),
        decreases files.len() - i,
    {
        let file = &files[i];
        proof {
            assert(files@.take(i + 1).drop_last() =~= files@.take(i as int));
            assert(files@.take(i + 1)[i as int] == files[i as int]);
        }
        let name = to_lowercase(file.name.as_str());
        if ends_with(name.as_str(), ".rpf") {
            if let Content::Nested(inner) = &file.content {
                let mut deeper = copy_texts(nested_rpfs);
                deeper.push(file.path.clone());
                assert(texts(deeper@) =~= chain.push(file.path@));
                assert(decreases_to!(files@ => files@[i as int]));
                index_archive(inner, archive_path, &deeper, parts, out);
            }
        } else {
            let loc = EntryLoc {
                top_archive: archive_path.to_owned(),
                nested_rpfs: copy_texts(nested_rpfs),
                inner_path: file.path.clone(),
            };
            let data = match &file.content {
                Content::Data(bytes) => Some(bytes),
                _ => None,
            };
            out.add_file(name.as_str(), data, loc, parts);
        }
        i = i + 1;
    }
    assert(files@.take(files.len() as int) =~= files@);
}

} // verus!
