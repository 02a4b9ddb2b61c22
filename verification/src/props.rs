//! What to draw for a placed entity of an exterior map: its model, found in
//! the files given to `plot` or in the game's archives through the index;
//! failing that its archetype's bounding box; failing that nothing but the
//! mark. One lookup per archetype, however many times it is placed.
use std::collections::{HashMap, HashSet};
use vstd::prelude::*;
use vstd::string::*;
use crate::commands::resource::info::DrawableKind;
use crate::file_names::{extension, extension_of, file_stem, stem};
use crate::formats::ASSET_DRAWABLE_DICTIONARY;
use crate::hash::{joaat, rage_joaat};
use crate::index::model::{ArchetypeBox, Asset, EntryLoc, GameIndex, Location};
use crate::text::{
    decimal, decimal_of, join, join_with, lowercase, same, strip_prefix, texts, to_lowercase,
};

verus! {

/// The asset type of a drawable of its own.
pub const ASSET_DRAWABLE: u32 = 2;

// ── Names ───────────────────────────────────────────────────────────────────

/// A stem without the mark of its level of detail.
pub open spec fn without_detail(s: Seq<char>) -> Seq<char> {
    if "hi@"@.is_prefix_of(s) || "ma@"@.is_prefix_of(s) || "lo@"@.is_prefix_of(s) {
        s.skip(3)
    } else {
        s
    }
}

/// The hash of the lowercase stem of a file name or inner archive path, with
/// any `hi@`/`ma@`/`lo@` detail prefix removed.
pub fn stem_hash(name: &str) -> (r: u32)
    ensures
        r == joaat(without_detail(lowercase(stem(name@)))),
{
    proof {
        reveal_strlit("hi@");
        reveal_strlit("ma@");
        reveal_strlit("lo@");
    }
    let s = to_lowercase(file_stem(name).as_str());
    let bare = match strip_prefix(s.as_str(), "hi@") {
        Some(b) => Some(b),
        None => match strip_prefix(s.as_str(), "ma@") {
            Some(b) => Some(b),
            None => strip_prefix(s.as_str(), "lo@"),
        },
    };
    match bare {
        Some(b) => rage_joaat(b.as_str()),
        None => rage_joaat(s.as_str()),
    }
}

// ── Counts ──────────────────────────────────────────────────────────────────

/// How the props of a plot were resolved, for the caption.
#[derive(Debug, Clone, Copy, PartialEq, Eq, Structural)]
pub struct PropStats {
    pub archetypes: usize,
    pub from_folder: usize,
    pub from_game: usize,
    pub boxes: usize,
    pub unresolved: usize,
    /// Archetypes past the budget, drawn as boxes or marks instead.
    pub over_budget: usize,
}

impl Default for PropStats {
    fn default() -> (r: PropStats)
        ensures
            r == (PropStats {
                archetypes: 0,
                from_folder: 0,
                from_game: 0,
                boxes: 0,
                unresolved: 0,
                over_budget: 0,
            }),
    {
        PropStats {
            archetypes: 0,
            from_folder: 0,
            from_game: 0,
            boxes: 0,
            unresolved: 0,
            over_budget: 0,
        }
    }
}

/// A count and what it is of; nothing where it is 0.
pub open spec fn count_part(n: usize, what: Seq<char>) -> Seq<Seq<char>> {
    if n > 0 {
        seq![decimal(n as nat) + what]
    } else {
        Seq::empty()
    }
}

fn push_count(parts: &mut Vec<String>, n: usize, what: &str)
    ensures
        texts(final(parts)@) == texts(old(parts)@) + count_part(n, what@),
{
    if n > 0 {
        let mut part = decimal_of(n as u64);
        part.append(what);
        parts.push(part);
    }
    assert(texts(parts@) =~= texts(old(parts)@) + count_part(n, what@));
}

impl PropStats {
    /// What happened, each with its count.
    pub open spec fn parts(self) -> Seq<Seq<char>> {
        count_part(self.from_folder, " from folder"@) + count_part(self.from_game, " from game"@)
            + count_part(self.boxes, " as boxes"@) + count_part(self.unresolved, " unresolved"@)
            + count_part(self.over_budget, " over --props budget"@)
    }

    /// `props: 3 from folder, 12 from game, 2 as boxes, 1 unresolved`.
    pub fn line(&self) -> (out: String)
        ensures
            out@ == "props: "@ + join(self.parts(), ", "@),
    {
        let mut parts: Vec<String> = Vec::new();
        assert(texts(parts@) =~= Seq::empty());
        push_count(&mut parts, self.from_folder, " from folder");
        push_count(&mut parts, self.from_game, " from game");
        push_count(&mut parts, self.boxes, " as boxes");
        push_count(&mut parts, self.unresolved, " unresolved");
        push_count(&mut parts, self.over_budget, " over --props budget");
        assert(texts(parts@) =~= self.parts());
        let mut out = String::from_str("props: ");
        out.append(join_with(&parts, ", ").as_str());
        out
    }

    /// Each archetype is counted under exactly one outcome.
    pub open spec fn adds_up(self) -> bool {
        &&& self.from_folder + self.from_game + self.boxes + self.unresolved == self.archetypes
        &&& self.over_budget <= self.archetypes
    }
}

// ── Shapes ──────────────────────────────────────────────────────────────────

/// The geometry standing for an archetype.
#[derive(Debug, Clone, Copy, PartialEq, Eq, Structural)]
pub enum PropShape {
    /// A drawable read from the inputs: `entry` says which, `member` a drawable
    /// inside that entry.
    Folder { entry: usize, member: Option<usize> },
    /// A drawable of the model file of the given hash in the game's archives.
    Game { model: u32, member: Option<usize> },
    /// Only the archetype's box is known.
    Bounds(ArchetypeBox),
    /// Nothing but the mark.
    Mark,
}

/// A drawable inside a file.
#[derive(Debug)]
pub struct Member {
    pub name: String,
    pub name_hash: u32,
}

/// A drawable file among the inputs.
#[derive(Debug)]
pub struct FolderEntry {
    pub name: String,
    pub members: Vec<Member>,
}

/// The drawable is called after the archetype.
pub open spec fn is_of(m: Member, archetype: u32) -> bool {
    m.name_hash == archetype || joaat(lowercase(m.name@)) == archetype
}

/// The place of the first drawable called after the archetype.
pub open spec fn member_of(members: Seq<Member>, archetype: u32) -> Option<int>
    decreases members.len(),
{
    if members.len() == 0 {
        None
    } else {
        match member_of(members.drop_last(), archetype) {
            Some(i) => Some(i),
            None => if is_of(members.last(), archetype) {
                Some(members.len() - 1)
            } else {
                None
            },
        }
    }
}

/// The first drawable called after the archetype.
pub fn find_member(members: &Vec<Member>, archetype: u32) -> (r: Option<usize>)
    ensures
        match r {
            Some(i) => member_of(members@, archetype) == Some(i as int),
            None => member_of(members@, archetype) == None::<int>,
        },
{
    let mut found: Option<usize> = None;
    let mut i: usize = 0;
    assert(members@.take(0) =~= Seq::empty());
    while i < members.len()
        invariant
            i <= members.len(),
            match found {
                Some(k) => member_of(members@.take(i as int), archetype) == Some(k as int),
                None => member_of(members@.take(i as int), archetype) == None::<int>,
            },
        decreases members.len() - i,
    {
        proof {
            assert(members@.take(i + 1).drop_last() =~= members@.take(i as int));
            assert(members@.take(i + 1).last() == members[i as int]);
        }
        if found.is_none() {
            let m = &members[i];
            if m.name_hash == archetype || rage_joaat(to_lowercase(m.name.as_str()).as_str())
                == archetype {
                found = Some(i);
            }
        }
        i = i + 1;
    }
    assert(members@.take(members.len() as int) =~= members@);
    found
}

/// The shape that one file among the inputs gives: the file itself where it is
/// called after the archetype, else the first drawable in it that is.
pub open spec fn entry_shape(entry: FolderEntry, place: int, archetype: u32) -> Option<PropShape> {
    if joaat(without_detail(lowercase(stem(entry.name@)))) == archetype {
        Some(PropShape::Folder { entry: place as usize, member: None })
    } else {
        match member_of(entry.members@, archetype) {
            Some(m) => Some(PropShape::Folder { entry: place as usize, member: Some(m as usize) }),
            None => None,
        }
    }
}

/// The shape that the first fitting file among the inputs gives.
pub open spec fn folder_shape(entries: Seq<FolderEntry>, archetype: u32) -> Option<PropShape>
    decreases entries.len(),
{
    if entries.len() == 0 {
        None
    } else {
        match folder_shape(entries.drop_last(), archetype) {
            Some(s) => Some(s),
            None => entry_shape(entries.last(), entries.len() - 1, archetype),
        }
    }
}

/// A drawable among the inputs named after the archetype, or a dictionary
/// member that is.
pub fn from_folder(entries: &Vec<FolderEntry>, archetype: u32) -> (r: Option<PropShape>)
    ensures
        r == folder_shape(entries@, archetype),
{
    let mut found: Option<PropShape> = None;
    let mut i: usize = 0;
    assert(entries@.take(0) =~= Seq::empty());
    while i < entries.len()
        invariant
            i <= entries.len(),
            found == folder_shape(entries@.take(i as int), archetype),
        decreases entries.len() - i,
    {
        proof {
            assert(entries@.take(i + 1).drop_last() =~= entries@.take(i as int));
            assert(entries@.take(i + 1).last() == entries[i as int]);
        }
        if found.is_none() {
            let entry = &entries[i];
            if stem_hash(entry.name.as_str()) == archetype {
                found = Some(PropShape::Folder { entry: i, member: None });
            } else if let Some(m) = find_member(&entry.members, archetype) {
                found = Some(PropShape::Folder { entry: i, member: Some(m) });
            }
        }
        i = i + 1;
    }
    assert(entries@.take(entries.len() as int) =~= entries@);
    found
}

/// The archetypes of a type file among the inputs, each with its box.
#[derive(Debug)]
pub struct TypeBoxes {
    pub archetypes: Vec<(u32, ArchetypeBox)>,
}

/// The box of the first archetype of the given name in a list.
pub open spec fn first_box(list: Seq<(u32, ArchetypeBox)>, archetype: u32) -> Option<ArchetypeBox>
    decreases list.len(),
{
    if list.len() == 0 {
        None
    } else {
        match first_box(list.drop_last(), archetype) {
            Some(b) => Some(b),
            None => if list.last().0 == archetype {
                Some(list.last().1)
            } else {
                None
            },
        }
    }
}

/// The box of the first archetype of the given name in the type files.
pub open spec fn typed_box(types: Seq<TypeBoxes>, archetype: u32) -> Option<ArchetypeBox>
    decreases types.len(),
{
    if types.len() == 0 {
        None
    } else {
        match typed_box(types.drop_last(), archetype) {
            Some(b) => Some(b),
            None => first_box(types.last().archetypes@, archetype),
        }
    }
}

fn find_box(list: &Vec<(u32, ArchetypeBox)>, archetype: u32) -> (r: Option<ArchetypeBox>)
    ensures
        r == first_box(list@, archetype),
{
    let mut found: Option<ArchetypeBox> = None;
    let mut i: usize = 0;
    assert(list@.take(0) =~= Seq::empty());
    while i < list.len()
        invariant
            i <= list.len(),
            found == first_box(list@.take(i as int), archetype),
        decreases list.len() - i,
    {
        proof {
            assert(list@.take(i + 1).drop_last() =~= list@.take(i as int));
            assert(list@.take(i + 1).last() == list[i as int]);
        }
        if found.is_none() && list[i].0 == archetype {
            found = Some(list[i].1);
        }
        i = i + 1;
    }
    assert(list@.take(list.len() as int) =~= list@);
    found
}

fn find_typed_box(types: &Vec<TypeBoxes>, archetype: u32) -> (r: Option<ArchetypeBox>)
    ensures
        r == typed_box(types@, archetype),
{
    let mut found: Option<ArchetypeBox> = None;
    let mut i: usize = 0;
    assert(types@.take(0) =~= Seq::empty());
    while i < types.len()
        invariant
            i <= types.len(),
            found == typed_box(types@.take(i as int), archetype),
        decreases types.len() - i,
    {
        proof {
            assert(types@.take(i + 1).drop_last() =~= types@.take(i as int));
            assert(types@.take(i + 1).last() == types[i as int]);
        }
        if found.is_none() {
            found = find_box(&types[i].archetypes, archetype);
        }
        i = i + 1;
    }
    assert(types@.take(types.len() as int) =~= types@);
    found
}

// ── Lookups ─────────────────────────────────────────────────────────────────

/// The game index, as far as it was looked for.
pub enum IndexState<'a> {
    /// Not looked for yet.
    Unknown,
    /// There is none to use.
    Absent,
    Loaded(&'a GameIndex),
}

/// A model file of the game, as far as it was read.
pub enum GameFile<'a> {
    /// Not read yet.
    Unread,
    /// It cannot be read.
    Failed,
    Members(&'a Vec<Member>),
}

/// What a lookup comes to.
#[derive(Debug)]
pub enum Lookup {
    /// The game index is needed.
    NeedIndex,
    /// The model file of the given hash is needed.
    NeedFile { model: u32, loc: EntryLoc },
    /// The shape, and whether it stands for a model past the budget.
    Found { shape: PropShape, over_budget: bool },
}

/// A `Lookup` with its texts.
pub enum LookupView {
    NeedIndex,
    NeedFile { model: u32, loc: Location },
    Found { shape: PropShape, over_budget: bool },
}

impl View for Lookup {
    type V = LookupView;

    open spec fn view(&self) -> LookupView {
        match *self {
            Lookup::NeedIndex => LookupView::NeedIndex,
            Lookup::NeedFile { model, loc } => LookupView::NeedFile { model, loc: loc@ },
            Lookup::Found { shape, over_budget } => LookupView::Found { shape, over_budget },
        }
    }
}

/// What the inputs hold.
#[derive(Debug)]
pub struct PropSources {
    pub drawables: Vec<FolderEntry>,
    pub types: Vec<TypeBoxes>,
}

/// How props are drawn.
#[derive(Debug, Clone, Copy, PartialEq, Eq, Structural)]
pub struct PropOptions {
    /// Whether to look past the inputs at all.
    pub use_game: bool,
    /// Whether to draw geometry at all.
    pub draw: bool,
    /// How many distinct archetypes may have their model drawn.
    pub budget: usize,
}

/// The archetype's box as a lookup ends with it: from a type file among the
/// inputs, else from the game index, else just the mark.
pub open spec fn box_lookup(
    options: PropOptions,
    types: Seq<TypeBoxes>,
    index: IndexState,
    archetype: u32,
    over_budget: bool,
) -> LookupView {
    match typed_box(types, archetype) {
        Some(b) => LookupView::Found { shape: PropShape::Bounds(b), over_budget },
        None => if !options.use_game {
            LookupView::Found { shape: PropShape::Mark, over_budget }
        } else {
            match index {
                IndexState::Unknown => LookupView::NeedIndex,
                IndexState::Absent => LookupView::Found { shape: PropShape::Mark, over_budget },
                IndexState::Loaded(i) => if i@.archetype_box.contains_key(archetype) {
                    LookupView::Found {
                        shape: PropShape::Bounds(i@.archetype_box[archetype]),
                        over_budget,
                    }
                } else {
                    LookupView::Found { shape: PropShape::Mark, over_budget }
                },
            }
        },
    }
}

/// Which file of the game holds the archetype's model: the one its type file
/// points at, else a drawable of its own name.
pub open spec fn asset_of(i: GameIndex, archetype: u32) -> Asset {
    if i@.archetype_asset.contains_key(archetype) {
        i@.archetype_asset[archetype]
    } else {
        Asset { kind: ASSET_DRAWABLE, model: archetype }
    }
}

/// The drawable of a model file that stands for the archetype: the one called
/// after it in a dictionary, its first where none is.
pub open spec fn game_member(kind: u32, members: Seq<Member>, archetype: u32) -> Option<usize> {
    if kind == ASSET_DRAWABLE_DICTIONARY || members.len() > 1 {
        match member_of(members, archetype) {
            Some(m) => Some(m as usize),
            None => Some(0),
        }
    } else {
        None
    }
}

/// What the lookup of an archetype comes to: its model among the inputs, then
/// in the game, then its box; past the budget only the box.
pub open spec fn lookup_of(
    options: PropOptions,
    models: nat,
    sources: PropSources,
    index: IndexState,
    file: GameFile,
    archetype: u32,
) -> LookupView {
    if !options.draw {
        LookupView::Found { shape: PropShape::Mark, over_budget: false }
    } else if models >= options.budget {
        box_lookup(options, sources.types@, index, archetype, true)
    } else {
        match folder_shape(sources.drawables@, archetype) {
            Some(shape) => LookupView::Found { shape, over_budget: false },
            None => if !options.use_game {
                box_lookup(options, sources.types@, index, archetype, false)
            } else {
                match index {
                    IndexState::Unknown => LookupView::NeedIndex,
                    IndexState::Absent => box_lookup(
                        options,
                        sources.types@,
                        index,
                        archetype,
                        false,
                    ),
                    IndexState::Loaded(i) => {
                        let asset = asset_of(*i, archetype);
                        if !i@.drawable_by_name.contains_key(asset.model) {
                            box_lookup(options, sources.types@, index, archetype, false)
                        } else {
                            match file {
                                GameFile::Unread => LookupView::NeedFile {
                                    model: asset.model,
                                    loc: i@.drawable_by_name[asset.model],
                                },
                                GameFile::Failed => box_lookup(
                                    options,
                                    sources.types@,
                                    index,
                                    archetype,
                                    false,
                                ),
                                GameFile::Members(list) => LookupView::Found {
                                    shape: PropShape::Game {
                                        model: asset.model,
                                        member: game_member(asset.kind, list@, archetype),
                                    },
                                    over_budget: false,
                                },
                            }
                        }
                    },
                }
            },
        }
    }
}

/// What a file of models is, by its extension in lowercase.
pub open spec fn model_kind_of(ext: Seq<char>) -> Option<DrawableKind> {
    if ext == "ydr"@ {
        Some(DrawableKind::Ydr)
    } else if ext == "ydd"@ {
        Some(DrawableKind::Ydd)
    } else if ext == "yft"@ {
        Some(DrawableKind::Yft)
    } else {
        None
    }
}

/// Tells what a file of models is, by its path.
pub fn model_kind(path: &str) -> (r: Result<DrawableKind, String>)
    ensures
        match r {
            Ok(kind) => model_kind_of(lowercase(extension(path@))) == Some(kind),
            Err(e) => {
                &&& model_kind_of(lowercase(extension(path@))) is None
                &&& e@ == lowercase(extension(path@)) + " is not a drawable"@
            },
        },
{
    let ext = to_lowercase(extension_of(path).as_str());
    if same(ext.as_str(), "ydr") {
        Ok(DrawableKind::Ydr)
    } else if same(ext.as_str(), "ydd") {
        Ok(DrawableKind::Ydd)
    } else if same(ext.as_str(), "yft") {
        Ok(DrawableKind::Yft)
    } else {
        let mut e = ext;
        e.append(" is not a drawable");
        Err(e)
    }
}

/// The archetype's box from a type file among the inputs, else from the game
/// index.
pub fn box_for(
    options: PropOptions,
    types: &Vec<TypeBoxes>,
    index: &IndexState,
    archetype: u32,
    over_budget: bool,
) -> (r: Lookup)
    ensures
        r@ == box_lookup(options, types@, *index, archetype, over_budget),
{
    if let Some(b) = find_typed_box(types, archetype) {
        return Lookup::Found { shape: PropShape::Bounds(b), over_budget };
    }
    if !options.use_game {
        return Lookup::Found { shape: PropShape::Mark, over_budget };
    }
    match index {
        IndexState::Unknown => Lookup::NeedIndex,
        IndexState::Absent => Lookup::Found { shape: PropShape::Mark, over_budget },
        IndexState::Loaded(i) => match i.archetype_box.get(&archetype) {
            Some(b) => Lookup::Found { shape: PropShape::Bounds(*b), over_budget },
            None => Lookup::Found { shape: PropShape::Mark, over_budget },
        },
    }
}

/// The model the game's own archives hold for the archetype: its own file, or
/// the dictionary member its type file points at.
fn from_game(
    options: PropOptions,
    sources: &PropSources,
    index: &IndexState,
    file: &GameFile,
    archetype: u32,
) -> (r: Lookup)
    requires
        options.draw,
        options.use_game,
        options.budget > 0,
        folder_shape(sources.drawables@, archetype) is None,
    ensures
        r@ == lookup_of(options, 0, *sources, *index, *file, archetype),
{
    match index {
        IndexState::Unknown => Lookup::NeedIndex,
        IndexState::Absent => box_for(options, &sources.types, index, archetype, false),
        IndexState::Loaded(i) => {
            let asset = match i.archetype_asset.get(&archetype) {
                Some(a) => *a,
                None => Asset { kind: ASSET_DRAWABLE, model: archetype },
            };
            match i.drawable_by_name.get(&asset.model) {
                None => box_for(options, &sources.types, index, archetype, false),
                Some(loc) => match file {
                    GameFile::Unread => Lookup::NeedFile { model: asset.model, loc: loc.copy() },
                    GameFile::Failed => box_for(options, &sources.types, index, archetype, false),
                    GameFile::Members(list) => {
                        let mut member: Option<usize> = None;
                        if asset.kind == ASSET_DRAWABLE_DICTIONARY || list.len() > 1 {
                            member = match find_member(list, archetype) {
                                Some(m) => Some(m),
                                None => Some(0),
                            };
                        }
                        Lookup::Found {
                            shape: PropShape::Game { model: asset.model, member },
                            over_budget: false,
                        }
                    },
                },
            }
        },
    }
}

/// A lookup may end so: models are within the budget, what is past it is a box
/// or a mark, and where nothing is drawn it is a mark.
pub open spec fn may_end(options: PropOptions, models: nat, shape: PropShape, over_budget: bool) -> bool {
    &&& !options.draw ==> shape is Mark
    &&& shape is Folder || shape is Game ==> models < options.budget && !over_budget
}

proof fn lemma_may_end(
    options: PropOptions,
    models: nat,
    sources: PropSources,
    index: IndexState,
    file: GameFile,
    archetype: u32,
)
    ensures
        lookup_of(options, models, sources, index, file, archetype) matches LookupView::Found {
            shape,
            over_budget,
        } ==> may_end(options, models, shape, over_budget),
{
}

// ── The resolver ────────────────────────────────────────────────────────────

/// Resolves each archetype once.
pub struct PropResolver {
    pub options: PropOptions,
    pub shapes: HashMap<u32, PropShape>,
    /// Entries among the inputs that stand for an archetype and so are drawn
    /// per placement rather than once in world space.
    pub matched_folder: HashSet<usize>,
    pub stats: PropStats,
}

/// The counts with one more shape.
pub open spec fn counted(stats: PropStats, shape: PropShape, over_budget: bool) -> PropStats {
    let one = |b: bool| -> int { if b { 1 } else { 0 } };
    PropStats {
        archetypes: (stats.archetypes + 1) as usize,
        from_folder: (stats.from_folder + one(shape is Folder)) as usize,
        from_game: (stats.from_game + one(shape is Game)) as usize,
        boxes: (stats.boxes + one(shape is Bounds)) as usize,
        unresolved: (stats.unresolved + one(shape is Mark)) as usize,
        over_budget: (stats.over_budget + one(over_budget)) as usize,
    }
}

impl PropResolver {
    /// The counts are those of the shapes that are known: models stay within
    /// the budget, what is past it is a box or a mark, and where nothing is
    /// drawn every shape is a mark.
    pub open spec fn wf(&self) -> bool {
        &&& self.stats.adds_up()
        &&& self.shapes@.dom().finite()
        &&& self.stats.archetypes == self.shapes@.dom().len()
        &&& self.stats.from_folder + self.stats.from_game <= self.options.budget
        &&& self.stats.over_budget <= self.stats.boxes + self.stats.unresolved
        &&& !self.options.draw ==> forall|a: u32| #[trigger]
            self.shapes@.contains_key(a) ==> self.shapes@[a] is Mark
    }

    /// The number of models that are drawn.
    pub open spec fn models(&self) -> nat {
        (self.stats.from_folder + self.stats.from_game) as nat
    }

    /// `self` is `before` with the shape of an archetype kept and counted.
    pub open spec fn keeps(
        &self,
        before: PropResolver,
        archetype: u32,
        shape: PropShape,
        over_budget: bool,
    ) -> bool {
        &&& self.options == before.options
        &&& self.shapes@ == before.shapes@.insert(archetype, shape)
        &&& self.stats == counted(before.stats, shape, over_budget)
        &&& self.matched_folder@ == (match shape {
            PropShape::Folder { entry, .. } => before.matched_folder@.insert(entry),
            _ => before.matched_folder@,
        })
    }

    /// Nothing resolved yet. Without an executable the game is not looked at.
    pub fn new(use_game: bool, draw: bool, budget: usize) -> (r: PropResolver)
        ensures
            r.wf(),
            r.options == (PropOptions { use_game, draw, budget }),
            r.shapes@ == Map::<u32, PropShape>::empty(),
            r.matched_folder@ == Set::<usize>::empty(),
            r.stats.archetypes == 0,
    {
        PropResolver {
            options: PropOptions { use_game, draw, budget },
            shapes: HashMap::new(),
            matched_folder: HashSet::new(),
            stats: PropStats::default(),
        }
    }

    /// What the lookup of an archetype comes to, with the game index and the
    /// model file as far as they are known.
    pub fn lookup(
        &self,
        sources: &PropSources,
        index: &IndexState,
        file: &GameFile,
        archetype: u32,
    ) -> (r: Lookup)
        requires
            self.wf(),
        ensures
            r@ == lookup_of(
                self.options,
                self.models(),
                *sources,
                *index,
                *file,
                archetype,
            ),
    {
        if !self.options.draw {
            return Lookup::Found { shape: PropShape::Mark, over_budget: false };
        }
        let models: usize = self.stats.from_folder + self.stats.from_game;
        if models >= self.options.budget {
            return box_for(self.options, &sources.types, index, archetype, true);
        }
        if let Some(shape) = from_folder(&sources.drawables, archetype) {
            return Lookup::Found { shape, over_budget: false };
        }
        if !self.options.use_game {
            return box_for(self.options, &sources.types, index, archetype, false);
        }
        from_game(self.options, sources, index, file, archetype)
    }

    /// The shape of an archetype that was resolved before.
    pub fn known(&self, archetype: u32) -> (r: Option<PropShape>)
        ensures
            match r {
                Some(s) => self.shapes@.contains_key(archetype) && self.shapes@[archetype] == s,
                None => !self.shapes@.contains_key(archetype),
            },
    {
        match self.shapes.get(&archetype) {
            Some(s) => Some(*s),
            None => None,
        }
    }

    /// Keeps the shape of an archetype that was not resolved before, and
    /// counts it.
    fn keep(&mut self, archetype: u32, shape: PropShape, over_budget: bool)
        requires
            old(self).wf(),
            old(self).stats.archetypes < usize::MAX,
            !old(self).shapes@.contains_key(archetype),
            may_end(old(self).options, old(self).models(), shape, over_budget),
        ensures
            final(self).wf(),
            final(self).keeps(*old(self), archetype, shape, over_budget),
    {
        self.stats.archetypes = self.stats.archetypes + 1;
        match shape {
            PropShape::Folder { entry, .. } => {
                self.matched_folder.insert(entry);
                self.stats.from_folder = self.stats.from_folder + 1;
            },
            PropShape::Game { .. } => {
                self.stats.from_game = self.stats.from_game + 1;
            },
            PropShape::Bounds(_) => {
                self.stats.boxes = self.stats.boxes + 1;
            },
            PropShape::Mark => {
                self.stats.unresolved = self.stats.unresolved + 1;
            },
        }
        if over_budget {
            self.stats.over_budget = self.stats.over_budget + 1;
        }
        self.shapes.insert(archetype, shape);
    }

    /// The shape for an archetype, resolved on first sight; or what has to be
    /// known first. Asking again gives the same shape and changes no count.
    pub fn resolve(
        &mut self,
        sources: &PropSources,
        index: &IndexState,
        file: &GameFile,
        archetype: u32,
    ) -> (r: Lookup)
        requires
            old(self).wf(),
            old(self).stats.archetypes < usize::MAX,
        ensures
            final(self).wf(),
            final(self).options == old(self).options,
            old(self).shapes@.contains_key(archetype) ==> *final(self) == *old(self) && r@
                == (LookupView::Found {
                shape: old(self).shapes@[archetype],
                over_budget: false,
            }),
            !old(self).shapes@.contains_key(archetype) ==> {
                &&& r@ == lookup_of(
                    old(self).options,
                    old(self).models(),
                    *sources,
                    *index,
                    *file,
                    archetype,
                )
                &&& match r@ {
                    LookupView::Found { shape, over_budget } => final(self).keeps(
                        *old(self),
                        archetype,
                        shape,
                        over_budget,
                    ),
                    _ => *final(self) == *old(self),
                }
            },
    {
        if let Some(shape) = self.known(archetype) {
            return Lookup::Found { shape, over_budget: false };
        }
        let found = self.lookup(sources, index, file, archetype);
        proof {
            lemma_may_end(self.options, self.models(), *sources, *index, *file, archetype);
        }
        if let Lookup::Found { shape, over_budget } = &found {
            self.keep(archetype, *shape, *over_budget);
        }
        found
    }
}

// ── Laws ────────────────────────────────────────────────────────────────────

/// Past the budget no model is drawn: a lookup ends with a box or a mark, or
/// asks for the index to find the box in.
pub proof fn law_budget_is_kept(
    options: PropOptions,
    models: nat,
    sources: PropSources,
    index: IndexState,
    file: GameFile,
    archetype: u32,
)
    requires
        models >= options.budget,
    ensures
        match lookup_of(options, models, sources, index, file, archetype) {
            LookupView::NeedIndex => true,
            LookupView::NeedFile { .. } => false,
            LookupView::Found { shape, .. } => shape is Bounds || shape is Mark,
        },
{
}

/// Without the game a lookup never asks for anything: the inputs decide.
pub proof fn law_without_game_nothing_is_asked(
    options: PropOptions,
    models: nat,
    sources: PropSources,
    index: IndexState,
    file: GameFile,
    archetype: u32,
)
    requires
        !options.use_game,
    ensures
        lookup_of(options, models, sources, index, file, archetype) is Found,
{
}

/// Once the index and the model file are known, a lookup ends.
pub proof fn law_lookup_ends(
    options: PropOptions,
    models: nat,
    sources: PropSources,
    index: IndexState,
    file: GameFile,
    archetype: u32,
)
    requires
        !(index is Unknown),
        !(file is Unread),
    ensures
        lookup_of(options, models, sources, index, file, archetype) is Found,
{
}

} // verus!
