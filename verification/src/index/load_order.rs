//! The order in which the game loads its archives: the base game, then the
//! update, then the packs.
use vstd::prelude::*;
use vstd::string::*;
use crate::order::{is_stable_order, lemma_text_same, stable_order, text_not_after, SortKey};
use crate::nesting::{count_xml_nesting, xml_nesting, MAX_NESTING};
use crate::text::{
    chars_of, contains, find, find_from, has_text, lowercase, position, position_of, replace,
    replaced, same_chars, text_of, texts, to_lowercase,
};

verus! {

/// Which of the game's three load tiers an archive belongs to. A pack's
/// archive carries the name of the pack.
#[derive(Debug, Clone, PartialEq, Eq)]
pub enum ArchiveTier {
    Base,
    Update,
    Dlc(String),
}

/// An `ArchiveTier` with its name as text.
pub enum Tier {
    Base,
    Update,
    Dlc(Seq<char>),
}

impl View for ArchiveTier {
    type V = Tier;

    open spec fn view(&self) -> Tier {
        match *self {
            ArchiveTier::Base => Tier::Base,
            ArchiveTier::Update => Tier::Update,
            ArchiveTier::Dlc(name) => Tier::Dlc(name@),
        }
    }
}

impl Tier {
    /// The place of the tier in the load order.
    pub open spec fn place(self) -> u8 {
        match self {
            Tier::Base => 0,
            Tier::Update => 1,
            Tier::Dlc(_) => 2,
        }
    }
}

impl ArchiveTier {
    /// The place of the tier in the load order.
    pub fn rank(&self) -> (r: u8)
        ensures
            r == self@.place(),
    {
        match self {
            ArchiveTier::Base => 0,
            ArchiveTier::Update => 1,
            ArchiveTier::Dlc(_) => 2,
        }
    }
}

/// The name that follows the first `/dlcpacks/` of a path, up to the next
/// slash; none where it is empty.
pub open spec fn pack_name(path: Seq<char>) -> Option<Seq<char>> {
    match find_from(path, "/dlcpacks/"@, 0) {
        None => None,
        Some(i) => {
            let after = path.skip(i + "/dlcpacks/"@.len());
            let name = after.take(position(after, '/'));
            if name.len() == 0 {
                None
            } else {
                Some(name)
            }
        },
    }
}

/// A path in lowercase with forward slashes only.
pub open spec fn normal_path(path: Seq<char>) -> Seq<char> {
    replace(lowercase(path), '\\', '/')
}

/// The tier of an archive, by its path.
pub open spec fn tier_of(path: Seq<char>) -> Tier {
    match pack_name(normal_path(path)) {
        Some(name) => Tier::Dlc(name),
        None => if has_text(normal_path(path), "/update/"@) {
            Tier::Update
        } else {
            Tier::Base
        },
    }
}

/// Extracts the pack directory name from a normalized (lowercase, `/`)
/// archive path: `mpheist` for `.../update/x64/dlcpacks/mpheist/dlc1.rpf`.
pub fn dlc_pack_name(normalized_path: &str) -> (r: Option<String>)
    ensures
        match r {
            Some(name) => pack_name(normalized_path@) == Some(name@),
            None => pack_name(normalized_path@) == None::<Seq<char>>,
        },
{
    let v = chars_of(normalized_path);
    let marker = chars_of("/dlcpacks/");
    match find(&v, &marker, 0) {
        None => None,
        Some(i) => {
            let from: usize = i + marker.len();
            let to: usize = position_of(&v, '/', from);
            let ghost after = v@.skip(from as int);
            assert(v@.subrange(from as int, to as int) =~= after.take(position(after, '/')));
            if from == to {
                None
            } else {
                Some(text_of(&v, from, to))
            }
        },
    }
}

/// The tier of an archive. A pack's archive lives under `update/` too, so the
/// pack is looked for first.
pub fn archive_tier(path: &str) -> (r: ArchiveTier)
    ensures
        r@ == tier_of(path@),
{
    let lower = to_lowercase(path);
    let normalized = replaced(lower.as_str(), '\\', '/');
    match dlc_pack_name(normalized.as_str()) {
        Some(name) => ArchiveTier::Dlc(name),
        None => if contains(normalized.as_str(), "/update/") {
            ArchiveTier::Update
        } else {
            ArchiveTier::Base
        },
    }
}

// ── Pack ranks ──────────────────────────────────────────────────────────────

impl SortKey for i32 {
    open spec fn not_after(self, other: i32) -> bool {
        self <= other
    }

    proof fn comparable(a: i32, b: i32) {
    }

    proof fn chains(a: i32, b: i32, c: i32) {
    }

    fn is_not_after(&self, other: &i32) -> (r: bool) {
        *self <= *other
    }
}

/// The packs in the order in which they load.
#[derive(Debug)]
pub struct DlcRanks {
    pub names: Vec<String>,
}

/// The last place of `name` in `names`.
pub open spec fn last_place(names: Seq<Seq<char>>, name: Seq<char>) -> Option<int>
    decreases names.len(),
{
    if names.len() == 0 {
        None
    } else if names.last() == name {
        Some(names.len() - 1)
    } else {
        last_place(names.drop_last(), name)
    }
}

/// The rank of a pack among `names`: 0 loads first. A pack that is listed
/// twice has its later rank.
pub open spec fn rank_in(names: Seq<Seq<char>>, name: Seq<char>) -> Option<u32> {
    match last_place(names, name) {
        Some(i) => Some(i as u32),
        None => None,
    }
}

impl DlcRanks {
    /// The rank of a pack, if it has one: 0 loads first.
    pub fn get(&self, name: &str) -> (r: Option<u32>)
        ensures
            r == rank_in(texts(self.names@), name@),
    {
        let want = chars_of(name);
        let ghost all = texts(self.names@);
        let mut i: usize = self.names.len();
        assert(all.take(i as int) =~= all);
        while i > 0
            invariant
                i <= self.names.len(),
                want@ == name@,
                all == texts(self.names@),
                last_place(all, name@) == last_place(all.take(i as int), name@),
            decreases i,
        {
            let have = chars_of(self.names[i - 1].as_str());
            assert(all.take(i as int).last() == have@);
            assert(all.take(i as int).drop_last() =~= all.take(i - 1));
            if same_chars(&have, &want) {
                return Some((i - 1) as u32);
            }
            i = i - 1;
        }
        None
    }
}

/// The names of `packs`, taken in the given order of their positions.
pub open spec fn in_order(packs: Seq<Seq<char>>, order: Seq<usize>) -> Seq<Seq<char>> {
    order.map_values(|i: usize| packs[i as int])
}

/// The names of a list of packs.
pub open spec fn pack_names(packs: Seq<(String, i32)>) -> Seq<Seq<char>> {
    packs.map_values(|p: (String, i32)| p.0@)
}

/// The orders of a list of packs.
pub open spec fn pack_orders(packs: Seq<(String, i32)>) -> Seq<i32> {
    packs.map_values(|p: (String, i32)| p.1)
}

/// `names` lists the packs by their order; packs of the same order stay as
/// they are listed.
pub open spec fn ranks_packs(packs: Seq<(String, i32)>, names: Seq<Seq<char>>) -> bool {
    exists|order: Seq<usize>|
        is_stable_order(pack_orders(packs), order, 0, packs.len() as int) && names
            == #[trigger] in_order(pack_names(packs), order)
}

/// Ranks packs (name, order), given as they are listed. The sort is stable:
/// the place in the list breaks a tie between equal orders.
pub fn rank_dlc_packs(packs: &Vec<(String, i32)>) -> (r: DlcRanks)
    ensures
        ranks_packs(packs@, texts(r.names@)),
{
    let mut keys: Vec<i32> = Vec::new();
    let mut i: usize = 0;
    while i < packs.len()
        invariant
            i <= packs.len(),
            keys.len() == i,
            forall|j: int| 0 <= j < i ==> keys[j] == packs[j].1,
        decreases packs.len() - i,
    {
        keys.push(packs[i].1);
        i = i + 1;
    }
    let order = stable_order(&keys);
    assert(keys@ =~= pack_orders(packs@));
    let mut names: Vec<String> = Vec::new();
    let mut j: usize = 0;
    while j < order.len()
        invariant
            j <= order.len(),
            is_stable_order(pack_orders(packs@), order@, 0, packs.len() as int),
            names.len() == j,
            forall|k: int| 0 <= k < j ==> (#[trigger] names[k])@ == packs[order[k] as int].0@,
        decreases order.len() - j,
    {
        assert(order[j as int] < packs.len());
        names.push(packs[order[j]].0.clone());
        j = j + 1;
    }
    assert(texts(names@) =~= in_order(pack_names(packs@), order@));
    DlcRanks { names }
}

/// The names that `rpf_archive::parse_dlc_list` finds in the bytes of a
/// `dlclist.xml`; none where it fails.
pub uninterp spec fn parsed_dlc_list(data: Seq<u8>) -> Option<Seq<Seq<char>>>;

/// `rpf_archive::parse_dlc_list`, whose result depends on the bytes alone:
/// the names of the packs in the order of the file. It goes one call deeper
/// for each level of the document.
#[verifier::external_body]
fn dlc_list_names(data: &[u8]) -> (r: Option<Vec<String>>)
    requires
        xml_nesting(data@) <= MAX_NESTING,
    ensures
        match r {
            Some(names) => parsed_dlc_list(data@) == Some(texts(names@)),
            None => parsed_dlc_list(data@) == None::<Seq<Seq<char>>>,
        },
{
    rpf_archive::parse_dlc_list(data).ok()
}

/// The names in a `dlclist.xml`; none where it cannot be read.
pub open spec fn dlc_list(data: Seq<u8>) -> Option<Seq<Seq<char>>> {
    if xml_nesting(data) <= MAX_NESTING {
        parsed_dlc_list(data)
    } else {
        None
    }
}

fn parse_dlc_list(data: &[u8]) -> (r: Option<Vec<String>>)
    ensures
        match r {
            Some(names) => dlc_list(data@) == Some(texts(names@)),
            None => dlc_list(data@) == None::<Seq<Seq<char>>>,
        },
{
    if count_xml_nesting(data) <= MAX_NESTING {
        dlc_list_names(data)
    } else {
        None
    }
}

/// The order that `rpf_archive::parse_dlc_setup_order` finds in the bytes of
/// a `setup2.xml`; none where it fails.
pub uninterp spec fn parsed_setup_order(data: Seq<u8>) -> Option<i32>;

/// `rpf_archive::parse_dlc_setup_order`, whose result depends on the bytes
/// alone. It goes one call deeper for each level of the document.
#[verifier::external_body]
fn dlc_setup(data: &[u8]) -> (r: Option<i32>)
    requires
        xml_nesting(data@) <= MAX_NESTING,
    ensures
        r == parsed_setup_order(data@),
{
    rpf_archive::parse_dlc_setup_order(data).ok()
}

/// The order in a `setup2.xml`; none where it cannot be read.
pub open spec fn dlc_setup_order(data: Seq<u8>) -> Option<i32> {
    if xml_nesting(data) <= MAX_NESTING {
        parsed_setup_order(data)
    } else {
        None
    }
}

fn parse_dlc_setup_order(data: &[u8]) -> (r: Option<i32>)
    ensures
        r == dlc_setup_order(data@),
{
    if count_xml_nesting(data) <= MAX_NESTING {
        dlc_setup(data)
    } else {
        None
    }
}

/// The packs that a `dlclist.xml` names, in its order; none where it could
/// not be read or parsed.
pub fn dlc_pack_list(dlclist: &Option<Vec<u8>>) -> (names: Vec<String>)
    ensures
        texts(names@) == (match *dlclist {
            Some(data) => match dlc_list(data@) {
                Some(names) => names,
                None => Seq::empty(),
            },
            None => Seq::empty(),
        }),
{
    match dlclist {
        Some(data) => match parse_dlc_list(data.as_slice()) {
            Some(names) => names,
            None => {
                let names: Vec<String> = Vec::new();
                assert(texts(names@) =~= Seq::empty());
                names
            },
        },
        None => {
            let names: Vec<String> = Vec::new();
            assert(texts(names@) =~= Seq::empty());
            names
        },
    }
}

/// The order of a pack whose `setup2.xml` holds `setup`; none where it could
/// not be read or parsed.
pub open spec fn setup_order(setup: Option<Vec<u8>>) -> Option<i32> {
    match setup {
        Some(data) => dlc_setup_order(data@),
        None => None,
    }
}

/// The packs that can be placed, with their orders, as they are listed: those
/// whose `setup2.xml` could be read and parsed.
pub open spec fn placed_packs(names: Seq<Seq<char>>, setups: Seq<Option<Vec<u8>>>) -> Seq<
    (Seq<char>, i32),
>
    decreases names.len(),
{
    if names.len() == 0 || setups.len() != names.len() {
        Seq::empty()
    } else {
        let before = placed_packs(names.drop_last(), setups.drop_last());
        match setup_order(setups.last()) {
            Some(order) => before.push((names.last(), order)),
            None => before,
        }
    }
}

/// A list of packs, with their names as texts.
pub open spec fn pack_texts(packs: Seq<(String, i32)>) -> Seq<(Seq<char>, i32)> {
    packs.map_values(|p: (String, i32)| (p.0@, p.1))
}

/// `names` ranks packs that are given as texts.
pub open spec fn ranks_placed(placed: Seq<(Seq<char>, i32)>, names: Seq<Seq<char>>) -> bool {
    exists|packs: Seq<(String, i32)>|
        pack_texts(packs) == placed && #[trigger] ranks_packs(packs, names)
}

/// Each listed pack's load-order rank: the order of the list, then a stable
/// sort by the order in each pack's `setup2.xml`. `setups` holds the bytes of
/// those files, if they could be read; a pack without has no rank.
pub fn dlc_load_order(names: &Vec<String>, setups: &Vec<Option<Vec<u8>>>) -> (r: DlcRanks)
    requires
        names.len() == setups.len(),
    ensures
        ranks_placed(placed_packs(texts(names@), setups@), texts(r.names@)),
{
    let ghost all = texts(names@);
    let mut packs: Vec<(String, i32)> = Vec::new();
    let mut i: usize = 0;
    assert(pack_texts(packs@) =~= Seq::empty());
    while i < names.len()
        invariant
            i <= names.len(),
            names.len() == setups.len(),
            all == texts(names@),
            pack_texts(packs@) == placed_packs(all.take(i as int), setups@.take(i as int)),
        decreases names.len() - i,
    {
        proof {
            assert(all.take(i + 1).drop_last() =~= all.take(i as int));
            assert(setups@.take(i + 1).drop_last() =~= setups@.take(i as int));
            assert(setups@.take(i + 1).last() == setups[i as int]);
            assert(all.take(i + 1).last() == names[i as int]@);
        }
        let order: Option<i32> = match &setups[i] {
            Some(data) => parse_dlc_setup_order(data.as_slice()),
            None => None,
        };
        if let Some(n) = order {
            let ghost before = pack_texts(packs@);
            packs.push((names[i].clone(), n));
            assert(pack_texts(packs@) =~= before.push((names[i as int]@, n)));
        }
        i = i + 1;
    }
    assert(all.take(names.len() as int) =~= all);
    assert(setups@.take(setups.len() as int) =~= setups@);
    rank_dlc_packs(&packs)
}

// ── Ranking archives ────────────────────────────────────────────────────────

/// The path of an archive, and the components that the platform splits it
/// into.
#[derive(Debug, Clone, PartialEq, Eq)]
pub struct ArchivePath {
    pub text: String,
    pub components: Vec<String>,
}

/// Lists of texts in dictionary order.
pub open spec fn list_not_after(a: Seq<Seq<char>>, b: Seq<Seq<char>>) -> bool
    decreases a.len(),
{
    if a.len() == 0 {
        true
    } else if b.len() == 0 {
        false
    } else if a[0] != b[0] {
        text_not_after(a[0], b[0])
    } else {
        list_not_after(a.drop_first(), b.drop_first())
    }
}

/// What archives are ranked by: the tier, the rank of the pack, the path.
pub struct LoadKey {
    pub tier: u8,
    pub rank: u32,
    pub components: Vec<Vec<char>>,
}

/// The texts of a list of character lists.
pub open spec fn char_lists(list: Seq<Vec<char>>) -> Seq<Seq<char>> {
    list.map_values(|v: Vec<char>| v@)
}

pub proof fn lemma_list_comparable(a: Seq<Seq<char>>, b: Seq<Seq<char>>)
    ensures
        list_not_after(a, b) || list_not_after(b, a),
    decreases a.len(),
{
    if a.len() > 0 && b.len() > 0 {
        if a[0] == b[0] {
            lemma_list_comparable(a.drop_first(), b.drop_first());
        } else {
            crate::order::lemma_text_comparable(a[0], b[0]);
        }
    }
}

pub proof fn lemma_list_chains(a: Seq<Seq<char>>, b: Seq<Seq<char>>, c: Seq<Seq<char>>)
    requires
        list_not_after(a, b),
        list_not_after(b, c),
    ensures
        list_not_after(a, c),
    decreases a.len(),
{
    if a.len() > 0 && b.len() > 0 && c.len() > 0 {
        if a[0] == b[0] && b[0] == c[0] {
            lemma_list_chains(a.drop_first(), b.drop_first(), c.drop_first());
        } else if a[0] != b[0] && b[0] != c[0] {
            crate::order::lemma_text_chains(a[0], b[0], c[0]);
            if a[0] == c[0] {
                lemma_text_same(a[0], b[0]);
            }
        }
    }
}

impl LoadKey {
    /// This key does not come after `other`.
    pub open spec fn ordered(self, other: LoadKey) -> bool {
        if self.tier != other.tier {
            self.tier < other.tier
        } else if self.rank != other.rank {
            self.rank < other.rank
        } else {
            list_not_after(char_lists(self.components@), char_lists(other.components@))
        }
    }
}

impl SortKey for LoadKey {
    open spec fn not_after(self, other: LoadKey) -> bool {
        self.ordered(other)
    }

    proof fn comparable(a: LoadKey, b: LoadKey) {
        lemma_list_comparable(char_lists(a.components@), char_lists(b.components@));
    }

    proof fn chains(a: LoadKey, b: LoadKey, c: LoadKey) {
        if a.tier == b.tier && b.tier == c.tier && a.rank == b.rank && b.rank == c.rank {
            lemma_list_chains(
                char_lists(a.components@),
                char_lists(b.components@),
                char_lists(c.components@),
            );
        }
    }

    fn is_not_after(&self, other: &LoadKey) -> (r: bool) {
        if self.tier != other.tier {
            return self.tier < other.tier;
        }
        if self.rank != other.rank {
            return self.rank < other.rank;
        }
        let a = &self.components;
        let b = &other.components;
        let ghost x = char_lists(a@);
        let ghost y = char_lists(b@);
        let mut i: usize = 0;
        assert(x.skip(0) =~= x);
        assert(y.skip(0) =~= y);
        while i < a.len() && i < b.len()
            invariant
                i <= a.len(),
                i <= b.len(),
                self.tier == other.tier,
                self.rank == other.rank,
                a == self.components,
                b == other.components,
                x == char_lists(a@),
                y == char_lists(b@),
                list_not_after(x, y) == list_not_after(x.skip(i as int), y.skip(i as int)),
            decreases a.len() - i,
        {
            assert(x.skip(i as int)[0] == a[i as int]@);
            assert(y.skip(i as int)[0] == b[i as int]@);
            if !same_chars(&a[i], &b[i]) {
                return a[i].is_not_after(&b[i]);
            }
            assert(x.skip(i as int).drop_first() =~= x.skip(i + 1));
            assert(y.skip(i as int).drop_first() =~= y.skip(i + 1));
            i = i + 1;
        }
        i == a.len()
    }
}

/// The rank that orders an archive within its tier: that of its pack, after
/// every ranked pack where it has none.
pub open spec fn tier_rank(tier: Tier, ranks: Seq<Seq<char>>) -> u32 {
    match tier {
        Tier::Dlc(name) => match rank_in(ranks, name) {
            Some(rank) => rank,
            None => u32::MAX,
        },
        _ => 0,
    }
}

/// `key` is what the archive at `path` is ranked by.
pub open spec fn is_load_key(key: LoadKey, path: ArchivePath, ranks: Seq<Seq<char>>) -> bool {
    &&& key.tier == tier_of(path.text@).place()
    &&& key.rank == tier_rank(tier_of(path.text@), ranks)
    &&& char_lists(key.components@) == texts(path.components@)
}

/// `order` lists the archives as the game loads them.
pub open spec fn is_load_order(
    archives: Seq<ArchivePath>,
    ranks: Seq<Seq<char>>,
    order: Seq<usize>,
) -> bool {
    exists|keys: Seq<LoadKey>|
        {
            &&& keys.len() == archives.len()
            &&& forall|i: int| 0 <= i < keys.len() ==> is_load_key(#[trigger] keys[i], archives[i], ranks)
            &&& #[trigger] is_stable_order(keys, order, 0, archives.len() as int)
        }
}

fn load_key(path: &ArchivePath, ranks: &DlcRanks) -> (key: LoadKey)
    ensures
        is_load_key(key, *path, texts(ranks.names@)),
{
    let tier = archive_tier(path.text.as_str());
    let rank: u32 = match &tier {
        ArchiveTier::Dlc(name) => match ranks.get(name.as_str()) {
            Some(rank) => rank,
            None => u32::MAX,
        },
        _ => 0,
    };
    let mut components: Vec<Vec<char>> = Vec::new();
    let mut i: usize = 0;
    while i < path.components.len()
        invariant
            i <= path.components.len(),
            components.len() == i,
            forall|j: int| 0 <= j < i ==> (#[trigger] components[j])@ == path.components[j]@,
        decreases path.components.len() - i,
    {
        components.push(chars_of(path.components[i].as_str()));
        i = i + 1;
    }
    assert(char_lists(components@) =~= texts(path.components@));
    LoadKey { tier: tier.rank(), rank, components }
}

/// The paths of the archives, taken in the given order of their positions.
pub open spec fn paths_in_order(archives: Seq<ArchivePath>, order: Seq<usize>) -> Seq<Seq<char>> {
    order.map_values(|i: usize| archives[i as int].text@)
}

/// `paths` lists the archives as the game loads them.
pub open spec fn loads_as(
    archives: Seq<ArchivePath>,
    ranks: Seq<Seq<char>>,
    paths: Seq<Seq<char>>,
) -> bool {
    exists|order: Seq<usize>|
        #[trigger] is_load_order(archives, ranks, order) && paths == paths_in_order(archives, order)
}

/// No archive was found.
#[derive(Debug, Clone, Copy, PartialEq, Eq, Structural)]
pub struct NoArchives;

/// The archives in the game's load order: base archives, then the update,
/// then the packs by their rank; later archives override earlier ones.
pub fn ranked_archives(archives: &Vec<ArchivePath>, ranks: &DlcRanks) -> (r: Result<
    Vec<String>,
    NoArchives,
>)
    ensures
        match r {
            Ok(paths) => archives.len() > 0 && loads_as(
                archives@,
                texts(ranks.names@),
                texts(paths@),
            ),
            Err(_) => archives.len() == 0,
        },
{
    if archives.len() == 0 {
        return Err(NoArchives);
    }
    let mut keys: Vec<LoadKey> = Vec::new();
    let mut i: usize = 0;
    while i < archives.len()
        invariant
            i <= archives.len(),
            keys.len() == i,
            forall|j: int|
                0 <= j < i ==> is_load_key(#[trigger] keys[j], archives[j], texts(ranks.names@)),
        decreases archives.len() - i,
    {
        keys.push(load_key(&archives[i], ranks));
        i = i + 1;
    }
    let order = stable_order(&keys);
    let mut paths: Vec<String> = Vec::new();
    let mut j: usize = 0;
    while j < order.len()
        invariant
            j <= order.len(),
            keys.len() == archives.len(),
            is_stable_order(keys@, order@, 0, archives.len() as int),
            paths.len() == j,
            forall|k: int| 0 <= k < j ==> (#[trigger] paths[k])@ == archives[order[k] as int].text@,
        decreases order.len() - j,
    {
        assert(order[j as int] < archives.len());
        paths.push(archives[order[j]].text.clone());
        j = j + 1;
    }
    proof {
        assert(is_load_order(archives@, texts(ranks.names@), order@));
        assert(texts(paths@) =~= paths_in_order(archives@, order@));
    }
    Ok(paths)
}

// ── Laws ────────────────────────────────────────────────────────────────────

/// Base archives load before those of the update, and those before any
/// pack's, wherever they were listed.
pub proof fn law_tiers_load_in_order(
    archives: Seq<ArchivePath>,
    ranks: Seq<Seq<char>>,
    order: Seq<usize>,
    i: int,
    j: int,
)
    requires
        is_load_order(archives, ranks, order),
        0 <= i < j < order.len(),
    ensures
        tier_of(archives[order[i] as int].text@).place() <= tier_of(
            archives[order[j] as int].text@,
        ).place(),
{
    let keys = choose|keys: Seq<LoadKey>|
        {
            &&& keys.len() == archives.len()
            &&& forall|i: int| 0 <= i < keys.len() ==> is_load_key(#[trigger] keys[i], archives[i], ranks)
            &&& #[trigger] is_stable_order(keys, order, 0, archives.len() as int)
        };
    assert(crate::order::precedes(keys, order[i], order[j]));
    assert(is_load_key(keys[order[i] as int], archives[order[i] as int], ranks));
    assert(is_load_key(keys[order[j] as int], archives[order[j] as int], ranks));
}

/// A pack without a rank loads after every pack that has one.
pub proof fn law_unranked_packs_load_last(
    archives: Seq<ArchivePath>,
    ranks: Seq<Seq<char>>,
    order: Seq<usize>,
    i: int,
    j: int,
    unranked: Seq<char>,
    ranked: Seq<char>,
)
    requires
        is_load_order(archives, ranks, order),
        0 <= i < order.len(),
        0 <= j < order.len(),
        tier_of(archives[order[i] as int].text@) == Tier::Dlc(unranked),
        tier_of(archives[order[j] as int].text@) == Tier::Dlc(ranked),
        rank_in(ranks, unranked) == None::<u32>,
        rank_in(ranks, ranked) is Some,
        rank_in(ranks, ranked)->Some_0 != u32::MAX,
    ensures
        j < i,
{
    let keys = choose|keys: Seq<LoadKey>|
        {
            &&& keys.len() == archives.len()
            &&& forall|i: int| 0 <= i < keys.len() ==> is_load_key(#[trigger] keys[i], archives[i], ranks)
            &&& #[trigger] is_stable_order(keys, order, 0, archives.len() as int)
        };
    assert(is_load_key(keys[order[i] as int], archives[order[i] as int], ranks));
    assert(is_load_key(keys[order[j] as int], archives[order[j] as int], ranks));
    if i < j {
        assert(crate::order::precedes(keys, order[i], order[j]));
    } else if i == j {
        assert(false);
    }
}

/// Of two listed packs, the one with the smaller order ranks first, and of
/// two with the same order the one listed first.
pub proof fn law_packs_rank_by_order_then_position(
    packs: Seq<(String, i32)>,
    order: Seq<usize>,
    i: int,
    j: int,
)
    requires
        is_stable_order(pack_orders(packs), order, 0, packs.len() as int),
        0 <= i < order.len(),
        0 <= j < order.len(),
        packs[order[i] as int].1 < packs[order[j] as int].1 || (packs[order[i] as int].1
            == packs[order[j] as int].1 && order[i] < order[j]),
    ensures
        i < j,
{
    let orders = pack_orders(packs);
    assert(order[i] < packs.len() && order[j] < packs.len());
    assert(orders[order[i] as int] == packs[order[i] as int].1);
    assert(orders[order[j] as int] == packs[order[j] as int].1);
    if j < i {
        assert(crate::order::precedes(orders, order[j], order[i]));
    }
}

proof fn lemma_placed(names: Seq<Seq<char>>, setups: Seq<Option<Vec<u8>>>, name: Seq<char>)
    requires
        names.len() == setups.len(),
        forall|i: int| 0 <= i < names.len() && #[trigger] names[i] == name ==> setup_order(setups[i]) is None,
    ensures
        forall|k: int|
            0 <= k < placed_packs(names, setups).len() ==> (#[trigger] placed_packs(names, setups)[k]).0
                != name,
    decreases names.len(),
{
    if names.len() > 0 {
        let front = names.drop_last();
        assert forall|i: int| 0 <= i < front.len() && #[trigger] front[i] == name implies setup_order(
            setups.drop_last()[i],
        ) is None by {
            assert(names[i] == name);
        }
        lemma_placed(front, setups.drop_last(), name);
        if names.last() == name {
            assert(names[names.len() - 1] == name);
        }
        let before = placed_packs(front, setups.drop_last());
        let now = placed_packs(names, setups);
        assert forall|k: int| 0 <= k < now.len() implies (#[trigger] now[k]).0 != name by {
            if k < before.len() {
                assert(now[k] == before[k]);
            }
        }
    }
}

proof fn lemma_absent(names: Seq<Seq<char>>, name: Seq<char>)
    requires
        forall|i: int| 0 <= i < names.len() ==> #[trigger] names[i] != name,
    ensures
        last_place(names, name) is None,
    decreases names.len(),
{
    if names.len() > 0 {
        let front = names.drop_last();
        assert forall|i: int| 0 <= i < front.len() implies #[trigger] front[i] != name by {
            assert(names[i] != name);
        }
        assert(names[names.len() - 1] != name);
        lemma_absent(front, name);
    }
}

/// A pack whose own `setup2.xml` cannot be read has no rank, so that it loads
/// after every pack that has one.
pub proof fn law_unreadable_packs_have_no_rank(
    names: Seq<Seq<char>>,
    setups: Seq<Option<Vec<u8>>>,
    ranks: Seq<Seq<char>>,
    name: Seq<char>,
)
    requires
        names.len() == setups.len(),
        ranks_placed(placed_packs(names, setups), ranks),
        forall|i: int| 0 <= i < names.len() && #[trigger] names[i] == name ==> setup_order(setups[i]) is None,
    ensures
        rank_in(ranks, name) is None,
{
    let placed = placed_packs(names, setups);
    lemma_placed(names, setups, name);
    let packs = choose|packs: Seq<(String, i32)>|
        pack_texts(packs) == placed && #[trigger] ranks_packs(packs, ranks);
    let order = choose|order: Seq<usize>|
        is_stable_order(pack_orders(packs), order, 0, packs.len() as int) && ranks
            == #[trigger] in_order(pack_names(packs), order);
    assert forall|i: int| 0 <= i < ranks.len() implies #[trigger] ranks[i] != name by {
        assert(order[i] < packs.len());
        assert(placed[order[i] as int].0 == packs[order[i] as int].0@);
        assert(ranks[i] == pack_names(packs)[order[i] as int]);
    }
    lemma_absent(ranks, name);
}

} // verus!
