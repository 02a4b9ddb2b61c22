//! What the commands ask of an index: the order in which dictionaries are
//! tried, what it holds, and which parts the cache can serve.
use std::collections::{HashMap, HashSet};
use vstd::prelude::*;
use vstd::string::*;
use crate::index::bytes::IndexError;
use crate::index::codec::{decode_part, part_of};
use crate::index::model::{ascending_keys, location_lists, GameIndex, IndexView, Location};
use crate::index::parts::Parts;
use crate::order::{ascending, is_ascending};
use crate::text::{decimal, decimal_of, join, join_with, texts};

verus! {

/// How many steps up the parents a walk takes from where it starts.
pub const MAX_HOPS: u32 = 64;

/// `order` with the walk from `current` up the parents added: it ends at a
/// dictionary already listed, at one without a parent, or after `steps`
/// dictionaries.
pub open spec fn walk(
    order: Seq<u32>,
    current: u32,
    parents: Map<u32, u32>,
    steps: nat,
) -> Seq<u32>
    decreases steps,
{
    if steps == 0 || order.contains(current) {
        order
    } else if parents.contains_key(current) {
        walk(order.push(current), parents[current], parents, (steps - 1) as nat)
    } else {
        order.push(current)
    }
}

/// The dictionaries to try for a drawable: its archetype's own dictionary, if
/// it names one, and that one's parents, then the drawable's stem and its
/// parents, none of them twice.
pub open spec fn resolution(v: IndexView, stem: u32) -> Seq<u32> {
    let first = if v.archetype_txd.contains_key(stem) && v.archetype_txd[stem] != 0 {
        walk(Seq::empty(), v.archetype_txd[stem], v.parent_txds, MAX_HOPS as nat + 1)
    } else {
        Seq::empty()
    };
    walk(first, stem, v.parent_txds, MAX_HOPS as nat + 1)
}

/// Adds the walk from `start` up the parents to `order`.
fn walk_up(
    order: &mut Vec<u32>,
    seen: &mut HashSet<u32>,
    start: u32,
    parents: &HashMap<u32, u32>,
)
    requires
        forall|k: u32| old(seen)@.contains(k) <==> old(order)@.contains(k),
    ensures
        forall|k: u32| final(seen)@.contains(k) <==> final(order)@.contains(k),
        final(order)@ == walk(old(order)@, start, parents@, MAX_HOPS as nat + 1),
{
    let mut current: u32 = start;
    let mut left: u32 = MAX_HOPS + 1;
    while left > 0
        invariant
            left <= MAX_HOPS + 1,
            forall|k: u32| seen@.contains(k) <==> order@.contains(k),
            walk(order@, current, parents@, left as nat) == walk(
                old(order)@,
                start,
                parents@,
                MAX_HOPS as nat + 1,
            ),
        decreases left,
    {
        if seen.contains(&current) {
            return;
        }
        let ghost before = order@;
        seen.insert(current);
        order.push(current);
        proof {
            assert forall|k: u32| seen@.contains(k) <==> order@.contains(k) by {
                assert(order[before.len() as int] == current);
                if order@.contains(k) && k != current {
                    let i = choose|i: int| 0 <= i < order.len() && order[i] == k;
                    assert(before[i] == k);
                }
                if before.contains(k) {
                    let i = choose|i: int| 0 <= i < before.len() && before[i] == k;
                    assert(order[i] == k);
                }
            }
        }
        match parents.get(&current) {
            None => return,
            Some(parent) => {
                current = *parent;
            },
        }
        left = left - 1;
    }
}

/// How many maps are listed over all interiors.
pub open spec fn total_placements(m: Map<u32, Seq<Location>>, keys: Seq<u32>) -> nat
    decreases keys.len(),
{
    if keys.len() == 0 {
        0
    } else {
        total_placements(m, keys.drop_last()) + m[keys.last()].len()
    }
}

proof fn lemma_total_grows(m: Map<u32, Seq<Location>>, keys: Seq<u32>, n: int)
    requires
        0 <= n <= keys.len(),
    ensures
        total_placements(m, keys.take(n)) <= total_placements(m, keys),
    decreases keys.len() - n,
{
    if n == keys.len() {
        assert(keys.take(n) =~= keys);
    } else {
        lemma_total_grows(m, keys, n + 1);
        assert(keys.take(n + 1).drop_last() =~= keys.take(n));
    }
}

/// Sizes of each map in a [`GameIndex`].
#[derive(Debug, Clone, Copy, PartialEq, Eq, Structural)]
pub struct IndexStats {
    pub ytds: usize,
    pub archetypes: usize,
    pub resident_textures: usize,
    pub parent_txds: usize,
    pub interiors: usize,
    /// `.ymap` locations listed across every interior: rows, not distinct
    /// placements, since a map overridden by a pack is listed from both
    /// archives.
    pub interior_placements: usize,
    pub collision_files: usize,
    /// `.ydr`/`.ydd`/`.yft` files by name.
    pub drawables: usize,
}

/// The one-line summary of an index.
pub open spec fn summary_text(v: IndexView) -> Seq<char> {
    join(summary_parts(v), ", "@)
}

/// What the summary says of each part that the index holds.
pub open spec fn summary_parts(v: IndexView) -> Seq<Seq<char>> {
    (if v.parts.holds(Parts::textures()) {
        seq![
            decimal(v.ytd_by_name.dom().len()) + " dictionaries, "@ + decimal(
                v.archetype_txd.dom().len(),
            ) + " archetypes, "@ + decimal(v.resident_textures.dom().len())
                + " resident textures, "@ + decimal(v.parent_txds.dom().len())
                + " txd parent links"@,
        ]
    } else {
        Seq::empty()
    }) + (if v.parts.holds(Parts::interiors()) {
        seq![
            decimal(v.mlo_ytyp.dom().len()) + " interiors, "@ + decimal(
                total_placements(v.mlo_instances, ascending(v.mlo_instances.dom())),
            ) + " interior placement rows, "@ + decimal(v.ybn_by_name.dom().len())
                + " collision files"@,
        ]
    } else {
        Seq::empty()
    }) + (if v.parts.holds(Parts::models()) {
        seq![
            decimal(v.drawable_by_name.dom().len()) + " drawables, "@ + decimal(
                v.archetype_box.dom().len(),
            ) + " archetype boxes"@,
        ]
    } else {
        Seq::empty()
    })
}

impl GameIndex {
    /// Every `.ytd` layer to try for a drawable whose stem hashes to
    /// `file_stem_hash`: the archetype's own texture dictionary and its full
    /// parent chain, then the stem itself and *its* parent chain. Names, not
    /// yet loaded: the caller loads and parses only the ones it still needs.
    pub fn resolution_order(&self, file_stem_hash: u32) -> (order: Vec<u32>)
        ensures
            order@ == resolution(self@, file_stem_hash),
    {
        let mut order: Vec<u32> = Vec::new();
        let mut seen: HashSet<u32> = HashSet::new();
        if let Some(txd) = self.archetype_txd.get(&file_stem_hash) {
            if *txd != 0 {
                walk_up(&mut order, &mut seen, *txd, &self.parent_txds);
            }
        }
        walk_up(&mut order, &mut seen, file_stem_hash, &self.parent_txds);
        order
    }

    /// Which resident dictionary carries a texture of this name, if either
    /// does.
    pub fn resident_dict_for_texture(&self, texture_name_hash: u32) -> (r: Option<u32>)
        ensures
            r == (if self@.resident_textures.contains_key(texture_name_hash) {
                Some(self@.resident_textures[texture_name_hash])
            } else {
                None
            }),
    {
        match self.resident_textures.get(&texture_name_hash) {
            Some(h) => Some(*h),
            None => None,
        }
    }

    /// The size of each map.
    pub fn stats(&self) -> (s: IndexStats)
        requires
            total_placements(
                self@.mlo_instances,
                ascending(self@.mlo_instances.dom()),
            ) <= usize::MAX,
        ensures
            s.ytds == self@.ytd_by_name.dom().len(),
            s.archetypes == self@.archetype_txd.dom().len(),
            s.resident_textures == self@.resident_textures.dom().len(),
            s.parent_txds == self@.parent_txds.dom().len(),
            s.interiors == self@.mlo_ytyp.dom().len(),
            s.interior_placements == total_placements(
                self@.mlo_instances,
                ascending(self@.mlo_instances.dom()),
            ),
            s.collision_files == self@.ybn_by_name.dom().len(),
            s.drawables == self@.drawable_by_name.dom().len(),
    {
        let keys = ascending_keys(&self.mlo_instances);
        let ghost m = self@.mlo_instances;
        assert(m.dom() =~= self.mlo_instances@.dom());
        let mut rows: usize = 0;
        let mut i: usize = 0;
        assert(keys@.take(0) =~= Seq::empty());
        while i < keys.len()
            invariant
                i <= keys.len(),
                m == location_lists(self.mlo_instances@),
                keys@ == ascending(m.dom()),
                is_ascending(keys@, self.mlo_instances@.dom()),
                rows == total_placements(m, keys@.take(i as int)),
                total_placements(m, ascending(m.dom())) <= usize::MAX,
            decreases keys.len() - i,
        {
            let k: u32 = keys[i];
            assert(keys@.contains(k));
            proof {
                lemma_total_grows(m, keys@, i + 1);
                assert(keys@.take(i + 1).drop_last() =~= keys@.take(i as int));
            }
            if let Some(list) = self.mlo_instances.get(&k) {
                assert(m[k].len() == list.len());
                rows = rows + list.len();
            }
            i = i + 1;
        }
        assert(keys@.take(keys.len() as int) =~= keys@);
        proof {
            assert(self@.ytd_by_name.dom() =~= self.ytd_by_name@.dom());
            assert(self@.mlo_ytyp.dom() =~= self.mlo_ytyp@.dom());
            assert(self@.ybn_by_name.dom() =~= self.ybn_by_name@.dom());
            assert(self@.drawable_by_name.dom() =~= self.drawable_by_name@.dom());
        }
        IndexStats {
            ytds: self.ytd_by_name.len(),
            archetypes: self.archetype_txd.len(),
            resident_textures: self.resident_textures.len(),
            parent_txds: self.parent_txds.len(),
            interiors: self.mlo_ytyp.len(),
            interior_placements: rows,
            collision_files: self.ybn_by_name.len(),
            drawables: self.drawable_by_name.len(),
        }
    }

    /// A one-line summary of the parts this index holds.
    pub fn summary(&self) -> (out: String)
        requires
            total_placements(
                self@.mlo_instances,
                ascending(self@.mlo_instances.dom()),
            ) <= usize::MAX,
        ensures
            out@ == summary_text(self@),
    {
        let s = self.stats();
        let mut parts: Vec<String> = Vec::new();
        let ghost v = self@;
        if self.parts.contains(Parts::textures()) {
            let mut line = decimal_of(s.ytds as u64);
            line.append(" dictionaries, ");
            line.append(decimal_of(s.archetypes as u64).as_str());
            line.append(" archetypes, ");
            line.append(decimal_of(s.resident_textures as u64).as_str());
            line.append(" resident textures, ");
            line.append(decimal_of(s.parent_txds as u64).as_str());
            line.append(" txd parent links");
            parts.push(line);
        }
        if self.parts.contains(Parts::interiors()) {
            let mut line = decimal_of(s.interiors as u64);
            line.append(" interiors, ");
            line.append(decimal_of(s.interior_placements as u64).as_str());
            line.append(" interior placement rows, ");
            line.append(decimal_of(s.collision_files as u64).as_str());
            line.append(" collision files");
            parts.push(line);
        }
        if self.parts.contains(Parts::models()) {
            let mut line = decimal_of(s.drawables as u64);
            line.append(" drawables, ");
            line.append(decimal_of(self.archetype_box.len() as u64).as_str());
            line.append(" archetype boxes");
            parts.push(line);
        }
        assert(texts(parts@) =~= summary_parts(v));
        join_with(&parts, ", ")
    }

    /// Reads one part's cache file. `Ok(Err(Stale))` when it was written for
    /// different archives than `fingerprint` describes.
    pub fn load_part(data: &[u8], part: Parts, fingerprint: u64) -> (r: Result<
        Result<GameIndex, Stale>,
        IndexError,
    >)
        ensures
            match r {
                Err(e) => part_of(data@, part) == Err::<(u64, IndexView), IndexError>(e),
                Ok(Err(_)) => part_of(data@, part) is Ok && part_of(data@, part)->Ok_0.0
                    != fingerprint,
                Ok(Ok(index)) => part_of(data@, part) == Ok::<(u64, IndexView), IndexError>(
                    (fingerprint, index@),
                ),
            },
    {
        match decode_part(data, part) {
            Err(e) => Err(e),
            Ok((written_for, index)) => if written_for == fingerprint {
                Ok(Ok(index))
            } else {
                Ok(Err(Stale))
            },
        }
    }
}

/// A part's cache file was written for other archives than the game has now.
#[derive(Debug, Clone, Copy, PartialEq, Eq, Structural)]
pub struct Stale;

/// The file every part used to share, removed when parts are written.
pub const LEGACY_FILE: &'static str = "index.bin";

impl IndexError {
    /// The error in words.
    pub open spec fn words(self) -> Seq<char> {
        match self {
            IndexError::TruncatedNumber => "index: truncated (u32)"@,
            IndexError::TruncatedText => "index: truncated (string)"@,
            IndexError::BadText => "index: invalid UTF-8"@,
            IndexError::BadMagic => "index: bad magic"@,
            IndexError::UnsupportedVersion { version } => "index: unsupported format version "@
                + decimal(version as nat),
            IndexError::OtherPart { stored, expected } => "index: file holds part "@ + decimal(
                stored as nat,
            ) + ", expected "@ + decimal(expected as nat),
            IndexError::NotSinglePart { bits } => "index: "@ + decimal(bits as nat)
                + " is not a single part"@,
            IndexError::TrailingBytes { count } => "index: "@ + decimal(count as nat)
                + " trailing bytes"@,
        }
    }

    /// The error in words.
    pub fn message(&self) -> (out: String)
        ensures
            out@ == self.words(),
    {
        match *self {
            IndexError::TruncatedNumber => String::from_str("index: truncated (u32)"),
            IndexError::TruncatedText => String::from_str("index: truncated (string)"),
            IndexError::BadText => String::from_str("index: invalid UTF-8"),
            IndexError::BadMagic => String::from_str("index: bad magic"),
            IndexError::UnsupportedVersion { version } => {
                let mut out = String::from_str("index: unsupported format version ");
                out.append(decimal_of(version as u64).as_str());
                out
            },
            IndexError::OtherPart { stored, expected } => {
                let mut out = String::from_str("index: file holds part ");
                out.append(decimal_of(stored as u64).as_str());
                out.append(", expected ");
                out.append(decimal_of(expected as u64).as_str());
                out
            },
            IndexError::NotSinglePart { bits } => {
                let mut out = String::from_str("index: ");
                out.append(decimal_of(bits as u64).as_str());
                out.append(" is not a single part");
                out
            },
            IndexError::TrailingBytes { count } => {
                let mut out = String::from_str("index: ");
                out.append(decimal_of(count as u64).as_str());
                out.append(" trailing bytes");
                out
            },
        }
    }
}

// ── What the cache can serve ────────────────────────────────────────────────

/// Why parts of the index have to be built.
#[derive(Debug, Clone, Copy, PartialEq, Eq, Structural)]
pub enum Reason {
    FirstUse,
    ArchivesChanged,
    OtherVersion,
}

impl Reason {
    /// The reason in words.
    pub fn message(&self) -> (out: &'static str)
        ensures
            out@ == (match *self {
                Reason::FirstUse => "first use"@,
                Reason::ArchivesChanged => "the game's archives changed"@,
                Reason::OtherVersion => "the cache is from another version of rage"@,
            }),
    {
        match *self {
            Reason::FirstUse => "first use",
            Reason::ArchivesChanged => "the game's archives changed",
            Reason::OtherVersion => "the cache is from another version of rage",
        }
    }
}

/// What the cache files gave: the index so far, the parts still to be built,
/// and why they are.
pub struct Cached {
    pub index: GameIndex,
    pub missing: Parts,
    pub why: Reason,
}

/// A `Cached` as maps.
pub struct CachedView {
    pub index: IndexView,
    pub missing: Parts,
    pub why: Reason,
}

impl View for Cached {
    type V = CachedView;

    open spec fn view(&self) -> CachedView {
        CachedView { index: self.index@, missing: self.missing, why: self.why }
    }
}

impl CachedView {
    /// Nothing read yet.
    pub open spec fn start() -> CachedView {
        CachedView {
            index: IndexView::nothing(Parts::none()),
            missing: Parts::none(),
            why: Reason::FirstUse,
        }
    }

    /// After one part's file: a part that is read is merged in; one without a
    /// file, with a file for other archives or with an unreadable file is
    /// missing.
    #[verifier::opaque]
    pub open spec fn after(self, part: Parts, file: Option<Seq<u8>>, fingerprint: u64) -> CachedView {
        let missing = Parts { bits: self.missing.bits | part.bits };
        match file {
            None => CachedView { missing, ..self },
            Some(data) => match part_of(data, part) {
                Err(_) => CachedView { missing, why: Reason::OtherVersion, ..self },
                Ok((written_for, v)) => if written_for == fingerprint {
                    CachedView { index: self.index.merged(v), ..self }
                } else {
                    CachedView { missing, why: Reason::ArchivesChanged, ..self }
                },
            },
        }
    }
}

/// What the files of the first `n` of `parts` give.
pub open spec fn cached(
    parts: Seq<Parts>,
    files: Seq<Option<Seq<u8>>>,
    fingerprint: u64,
    n: nat,
) -> CachedView
    decreases n,
{
    if n == 0 {
        CachedView::start()
    } else {
        cached(parts, files, fingerprint, (n - 1) as nat).after(
            parts[n - 1],
            files[n - 1],
            fingerprint,
        )
    }
}

/// The bytes of a file that may be there.
pub open spec fn file_view(f: Option<Vec<u8>>) -> Option<Seq<u8>> {
    match f {
        None => None,
        Some(data) => Some(data@),
    }
}

/// The bytes of each file that may be there.
pub open spec fn file_views(files: Seq<Option<Vec<u8>>>) -> Seq<Option<Seq<u8>>> {
    files.map_values(|f: Option<Vec<u8>>| file_view(f))
}

impl Cached {
    /// Takes one part's file, if there is one.
    fn take(&mut self, part: Parts, file: &Option<Vec<u8>>, fingerprint: u64)
        ensures
            final(self)@ == old(self)@.after(part, file_view(*file), fingerprint),
    {
        proof {
            reveal(CachedView::after);
        }
        match file {
            None => {
                self.missing.add(part);
            },
            Some(bytes) => match GameIndex::load_part(bytes.as_slice(), part, fingerprint) {
                Ok(Ok(loaded)) => {
                    self.index.merge(loaded);
                },
                Ok(Err(_)) => {
                    self.missing.add(part);
                    self.why = Reason::ArchivesChanged;
                },
                Err(_) => {
                    self.missing.add(part);
                    self.why = Reason::OtherVersion;
                },
            },
        }
    }
}

/// Reads what the cache has of `parts`. `files` holds, for each single part
/// in order, the bytes of its cache file, if there is one.
pub fn gather(parts: Parts, files: &Vec<Option<Vec<u8>>>, fingerprint: u64) -> (r: Cached)
    requires
        files.len() == parts.singles().len(),
    ensures
        r@ == cached(
            parts.singles(),
            file_views(files@),
            fingerprint,
            parts.singles().len(),
        ),
{
    let list = parts.each();
    let ghost data = file_views(files@);
    let mut r = Cached {
        index: GameIndex::empty(Parts::none()),
        missing: Parts::none(),
        why: Reason::FirstUse,
    };
    let mut i: usize = 0;
    while i < list.len()
        invariant
            i <= list.len(),
            files.len() == list.len(),
            data == file_views(files@),
            r@ == cached(list@, data, fingerprint, i as nat),
        decreases list.len() - i,
    {
        assert(data[i as int] == file_view(files[i as int]));
        r.take(list[i], &files[i], fingerprint);
        i = i + 1;
    }
    r
}

/// The name and the bytes of the cache file of a part.
pub open spec fn is_cache_file(
    file: (String, Vec<u8>),
    v: IndexView,
    part: Parts,
    fingerprint: u64,
) -> bool {
    file.0@ == part.title() + ".bin"@ && file.1@ == crate::index::codec::part_bytes(
        v,
        part,
        fingerprint,
    )
}

/// The cache files to write for an index: the name and the bytes of each part
/// that it holds, in order.
pub fn save(index: &GameIndex, fingerprint: u64) -> (files: Vec<(String, Vec<u8>)>)
    ensures
        files.len() == index@.parts.singles().len(),
        forall|i: int|
            0 <= i < files.len() ==> is_cache_file(
                #[trigger] files[i],
                index@,
                index@.parts.singles()[i],
                fingerprint,
            ),
{
    let list = index.parts.each();
    let mut files: Vec<(String, Vec<u8>)> = Vec::new();
    let mut i: usize = 0;
    while i < list.len()
        invariant
            i <= list.len(),
            list@ == index@.parts.singles(),
            files.len() == i,
            forall|j: int|
                0 <= j < i ==> is_cache_file(
                    #[trigger] files[j],
                    index@,
                    index@.parts.singles()[j],
                    fingerprint,
                ),
        decreases list.len() - i,
    {
        let part = list[i];
        assert(crate::index::codec::is_single(part));
        let name = part.file_name();
        let data = crate::index::codec::encode_part(index, part, fingerprint);
        files.push((name, data));
        assert(is_cache_file(files[i as int], index@, part, fingerprint));
        i = i + 1;
    }
    files
}

// ── Laws ────────────────────────────────────────────────────────────────────

proof fn lemma_walk(order: Seq<u32>, current: u32, parents: Map<u32, u32>, steps: nat)
    requires
        order.no_duplicates(),
    ensures
        walk(order, current, parents, steps).no_duplicates(),
        walk(order, current, parents, steps).len() <= order.len() + steps,
        order.is_prefix_of(walk(order, current, parents, steps)),
        steps > 0 ==> walk(order, current, parents, steps).contains(current),
    decreases steps,
{
    if steps == 0 || order.contains(current) {
    } else {
        let longer = order.push(current);
        assert(longer[order.len() as int] == current);
        assert(order.is_prefix_of(longer));
        if parents.contains_key(current) {
            lemma_walk(longer, parents[current], parents, (steps - 1) as nat);
            let got = walk(longer, parents[current], parents, (steps - 1) as nat);
            assert(got[order.len() as int] == current);
            assert(order =~= got.subrange(0, order.len() as int)) by {
                assert(longer == got.subrange(0, longer.len() as int));
                assert forall|i: int| 0 <= i < order.len() implies order[i] == got[i] by {
                    assert(longer[i] == got.subrange(0, longer.len() as int)[i]);
                }
            }
        }
    }
}

/// No dictionary is tried twice, the stem itself is always tried, each chain
/// stops at the hop limit, and an archetype's own dictionary comes first.
pub proof fn law_resolution_order(v: IndexView, stem: u32)
    ensures
        resolution(v, stem).no_duplicates(),
        resolution(v, stem).contains(stem),
        resolution(v, stem).len() <= 2 * (MAX_HOPS + 1),
        !v.archetype_txd.contains_key(stem) || v.archetype_txd[stem] == 0 ==> resolution(
            v,
            stem,
        ).len() <= MAX_HOPS + 1 && resolution(v, stem)[0] == stem,
        v.archetype_txd.contains_key(stem) && v.archetype_txd[stem] != 0 ==> resolution(v, stem)[0]
            == v.archetype_txd[stem],
{
    let steps = MAX_HOPS as nat + 1;
    let none = Seq::<u32>::empty();
    if v.archetype_txd.contains_key(stem) && v.archetype_txd[stem] != 0 {
        let txd = v.archetype_txd[stem];
        lemma_walk(none, txd, v.parent_txds, steps);
        let first = walk(none, txd, v.parent_txds, steps);
        lemma_walk_starts(txd, v.parent_txds, steps);
        lemma_walk(first, stem, v.parent_txds, steps);
        let got = walk(first, stem, v.parent_txds, steps);
        assert(first == got.subrange(0, first.len() as int));
        assert(first[0] == got.subrange(0, first.len() as int)[0]);
    } else {
        lemma_walk(none, stem, v.parent_txds, steps);
        lemma_walk_starts(stem, v.parent_txds, steps);
    }
}

proof fn lemma_walk_starts(start: u32, parents: Map<u32, u32>, steps: nat)
    requires
        steps > 0,
    ensures
        walk(Seq::empty(), start, parents, steps).len() > 0,
        walk(Seq::empty(), start, parents, steps)[0] == start,
{
    let none = Seq::<u32>::empty();
    let one = none.push(start);
    if parents.contains_key(start) {
        lemma_walk(one, parents[start], parents, (steps - 1) as nat);
        let got = walk(one, parents[start], parents, (steps - 1) as nat);
        assert(one == got.subrange(0, 1));
        assert(one[0] == got.subrange(0, 1)[0]);
    }
}

/// A part written for other archives is stale, one written for these is
/// served, whatever the two fingerprints.
pub proof fn law_saved_part_is_served_or_stale(
    v: IndexView,
    part: Parts,
    written_for: u64,
    now: u64,
)
    requires
        crate::index::codec::is_single(part),
        crate::index::codec::part_fits(v, part),
    ensures
        ({
            let file = Some(crate::index::codec::part_bytes(v, part, written_for));
            let got = CachedView::start().after(part, file, now);
            if written_for == now {
                got.missing == Parts::none() && got.index == IndexView::nothing(
                    Parts::none(),
                ).merged(v.only(part))
            } else {
                got.missing.bits == Parts::none().bits | part.bits && got.why
                    == Reason::ArchivesChanged
            }
        }),
{
    let data = crate::index::codec::part_bytes(v, part, written_for);
    crate::index::codec::law_part_round_trip(v, part, written_for);
    lemma_after(part, data, written_for, v.only(part), now);
}

/// What a readable file of a part comes to.
proof fn lemma_after(part: Parts, data: Seq<u8>, written_for: u64, v: IndexView, now: u64)
    requires
        part_of(data, part) == Ok::<(u64, IndexView), IndexError>((written_for, v)),
    ensures
        ({
            let got = CachedView::start().after(part, Some(data), now);
            if written_for == now {
                got.missing == Parts::none() && got.index == IndexView::nothing(
                    Parts::none(),
                ).merged(v)
            } else {
                got.missing.bits == Parts::none().bits | part.bits && got.why
                    == Reason::ArchivesChanged
            }
        }),
{
    reveal(CachedView::after);
}

} // verus!
