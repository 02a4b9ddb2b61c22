//! `rage navmesh build`: which props of an interior are in the way, when a
//! build is refused and what is reported of it. Heights and areas are
//! fractional numbers by their bits.
use std::collections::HashMap;
use vstd::prelude::*;
use vstd::string::*;
use crate::bits::{above, is_above};
use crate::formats::{types_in, Archetype, PlacedBits, TypesView};
use crate::hash::{joaat, rage_joaat};
use crate::index::ArchetypeBox;
use crate::plot_files::{lemma_all_interiors, read_plot_types, PlotTypes};
use crate::plot_inputs::{lemma_name_texts_insert, name_texts};
use crate::text::{
    contains, decimal, decimal_of, has_text, hex_digits, hex_of, lowercase, pad_left, pad_right,
    padded_left, padded_right, same, texts, to_lowercase,
};

verus! {

// ── The props of an interior ────────────────────────────────────────────────

/// An interior that a type file declares, with the archetypes it places.
#[derive(Debug)]
pub struct PropInterior {
    pub name_hash: u32,
    pub entities: Vec<u32>,
}

/// What a type file declares.
#[derive(Debug)]
pub struct PropTypes {
    pub archetypes: Vec<(u32, ArchetypeBox)>,
    pub interiors: Vec<PropInterior>,
}

/// The boxes with those of some archetypes on top; of two for one archetype
/// the later one stays.
pub open spec fn with_boxes(boxes: Map<u32, ArchetypeBox>, list: Seq<(u32, ArchetypeBox)>) -> Map<
    u32,
    ArchetypeBox,
>
    decreases list.len(),
{
    if list.len() == 0 {
        boxes
    } else {
        with_boxes(boxes, list.drop_last()).insert(list.last().0, list.last().1)
    }
}

/// The boxes that some type files declare.
pub open spec fn declared_boxes(types: Seq<PropTypes>) -> Map<u32, ArchetypeBox>
    decreases types.len(),
{
    if types.len() == 0 {
        Map::empty()
    } else {
        with_boxes(declared_boxes(types.drop_last()), types.last().archetypes@)
    }
}

/// The box of an archetype: the type files go before the game.
pub open spec fn box_of(
    types: Seq<PropTypes>,
    game: Map<u32, ArchetypeBox>,
    archetype: u32,
) -> Option<ArchetypeBox> {
    if declared_boxes(types).contains_key(archetype) {
        Some(declared_boxes(types)[archetype])
    } else if game.contains_key(archetype) {
        Some(game[archetype])
    } else {
        None
    }
}

/// What the first interior of the given name places.
pub open spec fn placed_by(interiors: Seq<PropInterior>, name_hash: u32) -> Option<Seq<u32>>
    decreases interiors.len(),
{
    if interiors.len() == 0 {
        None
    } else {
        match placed_by(interiors.drop_last(), name_hash) {
            Some(entities) => Some(entities),
            None => if interiors.last().name_hash == name_hash {
                Some(interiors.last().entities@)
            } else {
                None
            },
        }
    }
}

/// What the first interior of the given name places, over all type files.
pub open spec fn placed_in(types: Seq<PropTypes>, name_hash: u32) -> Option<Seq<u32>>
    decreases types.len(),
{
    if types.len() == 0 {
        None
    } else {
        match placed_in(types.drop_last(), name_hash) {
            Some(entities) => Some(entities),
            None => placed_by(types.last().interiors@, name_hash),
        }
    }
}

/// The names that the stems of files give to hashes.
pub open spec fn stem_names(stems: Seq<Seq<char>>) -> Map<u32, Seq<char>>
    decreases stems.len(),
{
    if stems.len() == 0 {
        Map::empty()
    } else {
        stem_names(stems.drop_last()).insert(joaat(lowercase(stems.last())), lowercase(stems.last()))
    }
}

/// The name of an archetype: the stem of its file, or else its hash.
pub open spec fn prop_name(names: Map<u32, Seq<char>>, archetype: u32) -> Seq<char> {
    if names.contains_key(archetype) {
        names[archetype]
    } else {
        "0x"@ + hex_digits(archetype as nat, 8)
    }
}

/// A prop that an interior places.
#[derive(Debug)]
pub struct PlacedProp {
    pub name: String,
    /// Nothing where the archetype is unknown.
    pub bounds: Option<ArchetypeBox>,
}

/// A `PlacedProp` with its text.
pub struct PlacedView {
    pub name: Seq<char>,
    pub bounds: Option<ArchetypeBox>,
}

impl View for PlacedProp {
    type V = PlacedView;

    open spec fn view(&self) -> PlacedView {
        PlacedView { name: self.name@, bounds: self.bounds }
    }
}

/// The props that an interior places, in order.
pub open spec fn placed_views(
    entities: Seq<u32>,
    names: Map<u32, Seq<char>>,
    types: Seq<PropTypes>,
    game: Map<u32, ArchetypeBox>,
) -> Seq<PlacedView> {
    entities.map_values(
        |a: u32| PlacedView { name: prop_name(names, a), bounds: box_of(types, game, a) },
    )
}

/// What is said when no type file declares the interior.
pub open spec fn no_interior_text(name_hash: u32) -> Seq<char> {
    "no CMloArchetypeDef with hash 0x"@ + hex_digits(name_hash as nat, 8)
        + " (the .ymap's MLO) in the given .ytyp files"@
}

/// The props that an interior holds, or that no type file declares it.
pub open spec fn is_answer(
    r: Result<Vec<PlacedProp>, String>,
    types: Seq<PropTypes>,
    game: Map<u32, ArchetypeBox>,
    interior: u32,
    stems: Seq<Seq<char>>,
) -> bool {
    match r {
        Ok(list) => {
            &&& placed_in(types, interior) is Some
            &&& list@.map_values(|p: PlacedProp| p@) == placed_views(
                placed_in(types, interior)->Some_0,
                stem_names(stems),
                types,
                game,
            )
        },
        Err(e) => placed_in(types, interior) is None && e@ == no_interior_text(interior),
    }
}

fn collect_boxes(types: &Vec<PropTypes>) -> (boxes: HashMap<u32, ArchetypeBox>)
    ensures
        boxes@ == declared_boxes(types@),
{
    let mut boxes: HashMap<u32, ArchetypeBox> = HashMap::new();
    let mut i: usize = 0;
    assert(types@.take(0) =~= Seq::empty());
    assert(boxes@ =~= Map::empty());
    while i < types.len()
        invariant
            i <= types.len(),
            boxes@ == declared_boxes(types@.take(i as int)),
        decreases types.len() - i,
    {
        proof {
            assert(types@.take(i + 1).drop_last() =~= types@.take(i as int));
            assert(types@.take(i + 1).last() == types[i as int]);
        }
        let list = &types[i].archetypes;
        let ghost before = boxes@;
        let mut k: usize = 0;
        assert(list@.take(0) =~= Seq::empty());
        while k < list.len()
            invariant
                k <= list.len(),
                boxes@ == with_boxes(before, list@.take(k as int)),
            decreases list.len() - k,
        {
            proof {
                assert(list@.take(k + 1).drop_last() =~= list@.take(k as int));
                assert(list@.take(k + 1).last() == list[k as int]);
            }
            boxes.insert(list[k].0, list[k].1);
            k = k + 1;
        }
        assert(list@.take(list.len() as int) =~= list@);
        i = i + 1;
    }
    assert(types@.take(types.len() as int) =~= types@);
    boxes
}

/// Where an interior is declared: the file and the place in it.
fn find_interior(types: &Vec<PropTypes>, name_hash: u32) -> (r: Option<(usize, usize)>)
    ensures
        match r {
            Some((i, k)) => {
                &&& i < types.len()
                &&& k < types[i as int].interiors.len()
                &&& placed_in(types@, name_hash) == Some(types[i as int].interiors[k as int].entities@)
            },
            None => placed_in(types@, name_hash) is None,
        },
{
    let mut found: Option<(usize, usize)> = None;
    let mut i: usize = 0;
    assert(types@.take(0) =~= Seq::empty());
    while i < types.len()
        invariant
            i <= types.len(),
            match found {
                Some((a, b)) => {
                    &&& a < i
                    &&& b < types[a as int].interiors.len()
                    &&& placed_in(types@.take(i as int), name_hash) == Some(
                        types[a as int].interiors[b as int].entities@,
                    )
                },
                None => placed_in(types@.take(i as int), name_hash) is None,
            },
        decreases types.len() - i,
    {
        proof {
            assert(types@.take(i + 1).drop_last() =~= types@.take(i as int));
            assert(types@.take(i + 1).last() == types[i as int]);
        }
        let list = &types[i].interiors;
        let mut here: Option<usize> = None;
        let mut k: usize = 0;
        assert(list@.take(0) =~= Seq::empty());
        while k < list.len()
            invariant
                k <= list.len(),
                match here {
                    Some(b) => b < k && placed_by(list@.take(k as int), name_hash) == Some(
                        list[b as int].entities@,
                    ),
                    None => placed_by(list@.take(k as int), name_hash) is None,
                },
            decreases list.len() - k,
        {
            proof {
                assert(list@.take(k + 1).drop_last() =~= list@.take(k as int));
                assert(list@.take(k + 1).last() == list[k as int]);
            }
            if here.is_none() && list[k].name_hash == name_hash {
                here = Some(k);
            }
            k = k + 1;
        }
        assert(list@.take(list.len() as int) =~= list@);
        if let (None, Some(b)) = (found, here) {
            found = Some((i, b));
        }
        i = i + 1;
    }
    assert(types@.take(types.len() as int) =~= types@);
    found
}

fn collect_names(stems: &Vec<String>) -> (names: HashMap<u32, String>)
    ensures
        name_texts(names@) == stem_names(texts(stems@)),
{
    let ghost all = texts(stems@);
    let mut names: HashMap<u32, String> = HashMap::new();
    let mut i: usize = 0;
    assert(all.take(0) =~= Seq::empty());
    assert(name_texts(names@) =~= Map::empty());
    while i < stems.len()
        invariant
            i <= stems.len(),
            all == texts(stems@),
            name_texts(names@) == stem_names(all.take(i as int)),
        decreases stems.len() - i,
    {
        let stem = to_lowercase(stems[i].as_str());
        let hash: u32 = rage_joaat(stem.as_str());
        proof {
            assert(all.take(i + 1).drop_last() =~= all.take(i as int));
            assert(all.take(i + 1).last() == stems[i as int]@);
            lemma_name_texts_insert(names@, hash, stem);
        }
        names.insert(hash, stem);
        i = i + 1;
    }
    assert(all.take(stems.len() as int) =~= all);
    names
}

/// The name of an archetype that no file is called after.
pub fn unnamed(hash: u32) -> (out: String)
    ensures
        out@ == "0x"@ + hex_digits(hash as nat, 8),
{
    let mut out = String::from_str("0x");
    out.append(hex_of(hash, 8).as_str());
    out
}

/// The props that the placed interior holds, with their names and boxes: the
/// interior is looked for in the type files, and an archetype's box there
/// and then in the game.
pub fn interior_props(
    types: &Vec<PropTypes>,
    game: &HashMap<u32, ArchetypeBox>,
    interior: u32,
    stems: &Vec<String>,
) -> (r: Result<Vec<PlacedProp>, String>)
    ensures
        is_answer(r, types@, game@, interior, texts(stems@)),
{
    let (file, place) = match find_interior(types, interior) {
        Some(at) => at,
        None => {
            let mut e = String::from_str("no CMloArchetypeDef with hash 0x");
            e.append(hex_of(interior, 8).as_str());
            e.append(" (the .ymap's MLO) in the given .ytyp files");
            return Err(e);
        },
    };
    let entities = &types[file].interiors[place].entities;
    let boxes = collect_boxes(types);
    let names = collect_names(stems);
    let ghost all = placed_views(entities@, stem_names(texts(stems@)), types@, game@);
    let mut out: Vec<PlacedProp> = Vec::new();
    let mut i: usize = 0;
    while i < entities.len()
        invariant
            i <= entities.len(),
            boxes@ == declared_boxes(types@),
            name_texts(names@) == stem_names(texts(stems@)),
            all == placed_views(entities@, stem_names(texts(stems@)), types@, game@),
            out.len() == i,
            forall|k: int| 0 <= k < i ==> (#[trigger] out[k])@ == all[k],
        decreases entities.len() - i,
    {
        let archetype: u32 = entities[i];
        let name = match names.get(&archetype) {
            Some(name) => name.clone(),
            None => unnamed(archetype),
        };
        let bounds = match boxes.get(&archetype) {
            Some(b) => Some(*b),
            None => match game.get(&archetype) {
                Some(b) => Some(*b),
                None => None,
            },
        };
        let prop = PlacedProp { name, bounds };
        assert(prop@ == all[i as int]);
        out.push(prop);
        i = i + 1;
    }
    assert(out@.map_values(|p: PlacedProp| p@) =~= all);
    Ok(out)
}

/// What a type file declares of props.
pub open spec fn declares(p: PropTypes, v: TypesView) -> bool {
    &&& p.archetypes@ == v.archetypes.map_values(|a: Archetype| (a.name_hash, a.bounds))
    &&& p.interiors.len() == v.interiors.len()
    &&& forall|i: int|
        0 <= i < v.interiors.len() ==> (#[trigger] p.interiors[i]).name_hash == v.interiors[i].name_hash
            && p.interiors[i].entities@ == v.interiors[i].entities.map_values(
            |e: PlacedBits| e.archetype_hash,
        )
}

fn archetypes_of(list: &Vec<PlacedBits>) -> (out: Vec<u32>)
    ensures
        out@ == list@.map_values(|e: PlacedBits| e.archetype_hash),
{
    let mut out: Vec<u32> = Vec::new();
    let mut i: usize = 0;
    while i < list.len()
        invariant
            i <= list.len(),
            out.len() == i,
            forall|k: int| 0 <= k < i ==> out[k] == (#[trigger] list[k]).archetype_hash,
        decreases list.len() - i,
    {
        out.push(list[i].archetype_hash);
        i = i + 1;
    }
    assert(out@ =~= list@.map_values(|e: PlacedBits| e.archetype_hash));
    out
}

fn props_of(types: &PlotTypes) -> (p: PropTypes)
    ensures
        declares(p, types@),
{
    let mut archetypes: Vec<(u32, ArchetypeBox)> = Vec::new();
    let mut i: usize = 0;
    while i < types.archetypes.len()
        invariant
            i <= types.archetypes.len(),
            archetypes.len() == i,
            forall|k: int|
                0 <= k < i ==> archetypes[k] == (
                    (#[trigger] types.archetypes[k]).name_hash,
                    types.archetypes[k].bounds,
                ),
        decreases types.archetypes.len() - i,
    {
        archetypes.push((types.archetypes[i].name_hash, types.archetypes[i].bounds));
        i = i + 1;
    }
    assert(archetypes@ =~= types.archetypes@.map_values(|a: Archetype| (a.name_hash, a.bounds)));
    let mut interiors: Vec<PropInterior> = Vec::new();
    let mut j: usize = 0;
    while j < types.interiors.len()
        invariant
            j <= types.interiors.len(),
            interiors.len() == j,
            forall|k: int|
                0 <= k < j ==> (#[trigger] interiors[k]).name_hash == types.interiors[k].name_hash
                    && interiors[k].entities@ == types.interiors[k].entities@.map_values(
                    |e: PlacedBits| e.archetype_hash,
                ),
        decreases types.interiors.len() - j,
    {
        let m = &types.interiors[j];
        interiors.push(
            PropInterior { name_hash: m.name_hash, entities: archetypes_of(&m.entities) },
        );
        j = j + 1;
    }
    PropTypes { archetypes, interiors }
}

/// What the type file that holds `data` declares of props.
pub open spec fn is_declared(p: PropTypes, data: Seq<u8>) -> bool {
    types_in(data) is Ok && declares(p, types_in(data)->Ok_0)
}

/// What type files declare of props, one by one.
pub open spec fn all_declared(list: Seq<PropTypes>, files: Seq<Vec<u8>>) -> bool {
    &&& list.len() == files.len()
    &&& forall|i: int| 0 <= i < list.len() ==> is_declared(#[trigger] list[i], files[i]@)
}

/// The first of some type files that cannot be read.
pub open spec fn first_fault(files: Seq<Vec<u8>>) -> Option<int>
    decreases files.len(),
{
    if files.len() == 0 {
        None
    } else {
        match first_fault(files.drop_last()) {
            Some(i) => Some(i),
            None => if types_in(files.last()@) is Err {
                Some(files.len() - 1)
            } else {
                None
            },
        }
    }
}

/// Reads what type files, with their paths, declare of props.
pub fn read_prop_types(paths: &Vec<String>, files: &Vec<Vec<u8>>) -> (r: Result<Vec<PropTypes>, String>)
    requires
        paths.len() == files.len(),
    ensures
        match r {
            Ok(list) => first_fault(files@) is None && all_declared(list@, files@),
            Err(e) => {
                &&& first_fault(files@) matches Some(i)
                &&& 0 <= first_fault(files@)->Some_0 < files.len()
                &&& types_in(files[first_fault(files@)->Some_0]@) is Err
                &&& e@ == "parsing "@ + paths[first_fault(files@)->Some_0]@ + ": "@ + types_in(
                    files[first_fault(files@)->Some_0]@,
                )->Err_0
            },
        },
{
    let mut out: Vec<PropTypes> = Vec::new();
    let mut i: usize = 0;
    assert(files@.take(0) =~= Seq::empty());
    while i < files.len()
        invariant
            i <= files.len(),
            paths.len() == files.len(),
            first_fault(files@.take(i as int)) is None,
            out.len() == i,
            forall|k: int| 0 <= k < i ==> is_declared(#[trigger] out[k], files[k]@),
        decreases files.len() - i,
    {
        proof {
            assert(files@.take(i + 1).drop_last() =~= files@.take(i as int));
            assert(files@.take(i + 1).last() == files[i as int]);
        }
        match read_plot_types(files[i].as_slice(), None) {
            Ok(types) => {
                proof {
                    lemma_all_interiors(types_in(files[i as int]@)->Ok_0.interiors);
                    assert(types@ == types_in(files[i as int]@)->Ok_0);
                }
                let props = props_of(&types);
                assert(is_declared(props, files[i as int]@));
                out.push(props);
            },
            Err(reason) => {
                proof {
                    lemma_first_fault(files@, i + 1);
                }
                let mut e = String::from_str("parsing ");
                e.append(paths[i].as_str());
                e.append(": ");
                e.append(reason.as_str());
                return Err(e);
            },
        }
        i = i + 1;
    }
    assert(files@.take(files.len() as int) =~= files@);
    Ok(out)
}

proof fn lemma_first_fault(files: Seq<Vec<u8>>, n: int)
    requires
        0 <= n <= files.len(),
        first_fault(files.take(n)) is Some,
    ensures
        first_fault(files) == first_fault(files.take(n)),
    decreases files.len(),
{
    if n < files.len() {
        assert(files.drop_last().take(n) =~= files.take(n));
        lemma_first_fault(files.drop_last(), n);
    } else {
        assert(files.take(n) =~= files);
    }
}

/// The props that the placed interior holds, with their names and boxes, out
/// of the bytes of type files with their paths.
pub fn interior_props_of(
    paths: &Vec<String>,
    files: &Vec<Vec<u8>>,
    game: &HashMap<u32, ArchetypeBox>,
    interior: u32,
    stems: &Vec<String>,
) -> (r: Result<Vec<PlacedProp>, String>)
    requires
        paths.len() == files.len(),
    ensures
        first_fault(files@) is Some ==> r is Err && r->Err_0@ == "parsing "@ + paths[first_fault(
            files@,
        )->Some_0]@ + ": "@ + types_in(files[first_fault(files@)->Some_0]@)->Err_0,
        first_fault(files@) is None ==> exists|types: Seq<PropTypes>| #[trigger]
            all_declared(types, files@) && is_answer(r, types, game@, interior, texts(stems@)),
{
    match read_prop_types(paths, files) {
        Ok(types) => {
            let r = interior_props(&types, game, interior, stems);
            assert(is_answer(r, types@, game@, interior, texts(stems@)));
            r
        },
        Err(e) => Err(e),
    }
}

// ── Props in the way ────────────────────────────────────────────────────────

/// A number with the text it is shown by.
#[derive(Debug)]
pub struct Shown {
    pub bits: u32,
    pub text: String,
}

/// What is known of a prop whose archetype has a box: how much ground it
/// covers in the world, and from where to where it stands.
#[derive(Debug)]
pub struct PropBox {
    pub height: String,
    pub area: Shown,
    pub z_lo: Shown,
    pub z_hi: Shown,
}

/// A prop that the interior places.
#[derive(Debug)]
pub struct NavProp {
    pub name: String,
    /// Nothing where the archetype is unknown.
    pub bounds: Option<PropBox>,
}

/// What becomes of a prop.
#[derive(Debug, Clone, Copy, PartialEq, Eq, Structural)]
pub enum Verdict {
    Forced,
    IgnoredName,
    OffFloor,
    BelowStep,
    TooBig,
    Tiny,
    Blocked,
    Unknown,
}

/// The bits of 0.02: a footprint below this is next to nothing.
pub const TINY_BITS: u32 = 0x3ca3_d70a;

/// The heights and the area that decide about a prop.
#[derive(Debug, Clone, Copy, PartialEq, Eq, Structural)]
pub struct FloorRule {
    /// A prop that stands on the floor has its bottom between these.
    pub floor_lo: u32,
    pub floor_hi: u32,
    /// A prop with its top below this is stepped over.
    pub step_top: u32,
    /// A footprint above this is that of a room shell or a decor set.
    pub max_area: u32,
}

/// What decides about the props of an interior.
#[derive(Debug)]
pub struct PropRules {
    pub floor: FloorRule,
    /// The names that are blocked regardless, in lowercase.
    pub forced: Vec<String>,
    /// The fragments of names that are never blocked, in lowercase.
    pub ignored: Vec<String>,
}

/// A `PropRules` with its texts.
pub struct RulesView {
    pub floor: FloorRule,
    pub forced: Seq<Seq<char>>,
    pub ignored: Seq<Seq<char>>,
}

impl View for PropRules {
    type V = RulesView;

    open spec fn view(&self) -> RulesView {
        RulesView { floor: self.floor, forced: texts(self.forced@), ignored: texts(self.ignored@) }
    }
}

/// One of the fragments is in the name.
pub open spec fn names_any(name: Seq<char>, fragments: Seq<Seq<char>>) -> bool {
    exists|i: int| 0 <= i < fragments.len() && has_text(name, #[trigger] fragments[i])
}

/// What becomes of a prop: it counts as furniture when it stands on the floor
/// and rises above step height; big footprints are room shells and decor sets;
/// name fragments catch doors, light proxies and the like. A prop that is
/// named outright is blocked regardless.
pub open spec fn verdict_of(prop: NavProp, rules: RulesView) -> Verdict {
    match prop.bounds {
        None => Verdict::Unknown,
        Some(b) => if rules.forced.contains(prop.name@) {
            Verdict::Forced
        } else if names_any(prop.name@, rules.ignored) {
            Verdict::IgnoredName
        } else if is_above(b.z_lo.bits, rules.floor.floor_hi) || is_above(
            rules.floor.floor_lo,
            b.z_lo.bits,
        ) {
            Verdict::OffFloor
        } else if is_above(rules.floor.step_top, b.z_hi.bits) {
            Verdict::BelowStep
        } else if is_above(b.area.bits, rules.floor.max_area) {
            Verdict::TooBig
        } else if is_above(TINY_BITS, b.area.bits) {
            Verdict::Tiny
        } else {
            Verdict::Blocked
        },
    }
}

/// What is said of a prop.
pub open spec fn verdict_text(v: Verdict) -> Seq<char> {
    match v {
        Verdict::Forced => "blocked (--block-entity)"@,
        Verdict::IgnoredName => "skipped: name"@,
        Verdict::OffFloor => "skipped: not standing on the floor"@,
        Verdict::BelowStep => "skipped: below step height"@,
        Verdict::TooBig => "skipped: bigger than --max-prop-area"@,
        Verdict::Tiny => "skipped: tiny"@,
        Verdict::Blocked => "blocked"@,
        Verdict::Unknown => "unknown archetype (try --game-props)"@,
    }
}

impl Verdict {
    /// What is said of a prop.
    pub fn text(&self) -> (out: &'static str)
        ensures
            out@ == verdict_text(*self),
    {
        match self {
            Verdict::Forced => "blocked (--block-entity)",
            Verdict::IgnoredName => "skipped: name",
            Verdict::OffFloor => "skipped: not standing on the floor",
            Verdict::BelowStep => "skipped: below step height",
            Verdict::TooBig => "skipped: bigger than --max-prop-area",
            Verdict::Tiny => "skipped: tiny",
            Verdict::Blocked => "blocked",
            Verdict::Unknown => "unknown archetype (try --game-props)",
        }
    }
}

fn any_is(list: &Vec<String>, name: &str) -> (r: bool)
    ensures
        r == texts(list@).contains(name@),
{
    let ghost all = texts(list@);
    let mut i: usize = 0;
    while i < list.len()
        invariant
            i <= list.len(),
            all == texts(list@),
            forall|j: int| 0 <= j < i ==> #[trigger] all[j] != name@,
        decreases list.len() - i,
    {
        if same(list[i].as_str(), name) {
            assert(all[i as int] == name@);
            return true;
        }
        assert(all[i as int] != name@);
        i = i + 1;
    }
    false
}

fn any_in(fragments: &Vec<String>, name: &str) -> (r: bool)
    ensures
        r == names_any(name@, texts(fragments@)),
{
    let ghost all = texts(fragments@);
    let mut i: usize = 0;
    while i < fragments.len()
        invariant
            i <= fragments.len(),
            all == texts(fragments@),
            forall|j: int| 0 <= j < i ==> !has_text(name@, #[trigger] all[j]),
        decreases fragments.len() - i,
    {
        if contains(name, fragments[i].as_str()) {
            assert(has_text(name@, all[i as int]));
            return true;
        }
        i = i + 1;
    }
    false
}

/// Decides what becomes of a prop.
pub fn judge(prop: &NavProp, rules: &PropRules) -> (r: Verdict)
    ensures
        r == verdict_of(*prop, rules@),
{
    match &prop.bounds {
        None => Verdict::Unknown,
        Some(b) => if any_is(&rules.forced, prop.name.as_str()) {
            Verdict::Forced
        } else if any_in(&rules.ignored, prop.name.as_str()) {
            Verdict::IgnoredName
        } else if above(b.z_lo.bits, rules.floor.floor_hi) || above(rules.floor.floor_lo, b.z_lo.bits) {
            Verdict::OffFloor
        } else if above(rules.floor.step_top, b.z_hi.bits) {
            Verdict::BelowStep
        } else if above(b.area.bits, rules.floor.max_area) {
            Verdict::TooBig
        } else if above(TINY_BITS, b.area.bits) {
            Verdict::Tiny
        } else {
            Verdict::Blocked
        },
    }
}

/// The line about a prop.
pub open spec fn prop_line(prop: NavProp, v: Verdict) -> Seq<char> {
    match prop.bounds {
        Some(b) => pad_right(prop.name@, ' ', 42) + " "@ + pad_left(b.height@, ' ', 6) + " "@ + pad_left(
            b.area.text@,
            ' ',
            7,
        ) + " "@ + pad_left(b.z_lo.text@, ' ', 6) + ".."@ + pad_right(b.z_hi.text@, ' ', 6) + "  "@ + verdict_text(v),
        None => pad_right(prop.name@, ' ', 42) + "      ?       ?             ?  "@ + verdict_text(v),
    }
}

fn write_prop(prop: &NavProp, v: Verdict) -> (out: String)
    ensures
        out@ == prop_line(*prop, v),
{
    let mut out = padded_right(prop.name.as_str(), ' ', 42);
    match &prop.bounds {
        Some(b) => {
            out.append(" ");
            out.append(padded_left(b.height.as_str(), ' ', 6).as_str());
            out.append(" ");
            out.append(padded_left(b.area.text.as_str(), ' ', 7).as_str());
            out.append(" ");
            out.append(padded_left(b.z_lo.text.as_str(), ' ', 6).as_str());
            out.append("..");
            out.append(padded_right(b.z_hi.text.as_str(), ' ', 6).as_str());
            out.append("  ");
        },
        None => {
            out.append("      ?       ?             ?  ");
        },
    }
    out.append(v.text());
    out
}

/// How many props came to each end.
#[derive(Debug, Clone, Copy, PartialEq, Eq, Structural)]
pub struct PropCounts {
    pub blocked: usize,
    pub by_name: usize,
    pub too_big: usize,
    pub height: usize,
    pub unknown: usize,
}

/// Where a verdict is counted.
pub open spec fn slot_of(v: Verdict) -> nat {
    match v {
        Verdict::Forced | Verdict::Blocked => 0,
        Verdict::IgnoredName => 1,
        Verdict::TooBig => 2,
        Verdict::OffFloor | Verdict::BelowStep | Verdict::Tiny => 3,
        Verdict::Unknown => 4,
    }
}

/// The number of props that are counted in a slot.
pub open spec fn slot_count(
    props: Seq<NavProp>,
    rules: RulesView,
    slot: nat,
) -> nat
    decreases props.len(),
{
    if props.len() == 0 {
        0
    } else {
        slot_count(props.drop_last(), rules, slot) + (if slot_of(
            verdict_of(props.last(), rules),
        ) == slot {
            1nat
        } else {
            0
        })
    }
}

/// The places of the props that are blocked.
pub open spec fn blocked_places(props: Seq<NavProp>, rules: RulesView) -> Seq<int>
    decreases props.len(),
{
    if props.len() == 0 {
        Seq::empty()
    } else {
        let before = blocked_places(props.drop_last(), rules);
        if slot_of(verdict_of(props.last(), rules)) == 0 {
            before.push(props.len() - 1)
        } else {
            before
        }
    }
}

/// The lines about some props.
pub open spec fn prop_lines(props: Seq<NavProp>, rules: RulesView) -> Seq<Seq<char>> {
    props.map_values(|p: NavProp| prop_line(p, verdict_of(p, rules)))
}

/// What becomes of the props of an interior.
#[derive(Debug)]
pub struct PropReport {
    /// The props whose footprints are blocked, by their places.
    pub blocked: Vec<usize>,
    pub counts: PropCounts,
    /// One line per prop.
    pub lines: Vec<String>,
}

/// The line above the lines about props.
pub const PROP_HEADER: &'static str =
    "prop                                       height    area     z (world)  decision";

/// The counts are those of the slots.
pub open spec fn counts_slots(
    c: PropCounts,
    props: Seq<NavProp>,
    rules: RulesView,
) -> bool {
    &&& c.blocked == slot_count(props, rules, 0)
    &&& c.by_name == slot_count(props, rules, 1)
    &&& c.too_big == slot_count(props, rules, 2)
    &&& c.height == slot_count(props, rules, 3)
    &&& c.unknown == slot_count(props, rules, 4)
}

impl PropCounts {
    fn add(&mut self, v: Verdict)
        requires
            old(self).blocked < usize::MAX,
            old(self).by_name < usize::MAX,
            old(self).too_big < usize::MAX,
            old(self).height < usize::MAX,
            old(self).unknown < usize::MAX,
        ensures
            final(self).blocked == old(self).blocked + (if slot_of(v) == 0 {
                1int
            } else {
                0
            }),
            final(self).by_name == old(self).by_name + (if slot_of(v) == 1 {
                1int
            } else {
                0
            }),
            final(self).too_big == old(self).too_big + (if slot_of(v) == 2 {
                1int
            } else {
                0
            }),
            final(self).height == old(self).height + (if slot_of(v) == 3 {
                1int
            } else {
                0
            }),
            final(self).unknown == old(self).unknown + (if slot_of(v) == 4 {
                1int
            } else {
                0
            }),
    {
        match v {
            Verdict::Forced | Verdict::Blocked => {
                self.blocked = self.blocked + 1;
            },
            Verdict::IgnoredName => {
                self.by_name = self.by_name + 1;
            },
            Verdict::TooBig => {
                self.too_big = self.too_big + 1;
            },
            Verdict::OffFloor | Verdict::BelowStep | Verdict::Tiny => {
                self.height = self.height + 1;
            },
            Verdict::Unknown => {
                self.unknown = self.unknown + 1;
            },
        }
    }

    /// The counts in words.
    pub fn line(&self) -> (out: String)
        ensures
            out@ == "props: "@ + decimal(self.blocked as nat) + " blocked, "@ + decimal(
                self.by_name as nat,
            ) + " skipped by name, "@ + decimal(self.too_big as nat) + " too big, "@ + decimal(
                self.height as nat,
            ) + " not furniture height, "@ + decimal(self.unknown as nat)
                + " without a known archetype"@,
    {
        let mut out = String::from_str("props: ");
        out.append(decimal_of(self.blocked as u64).as_str());
        out.append(" blocked, ");
        out.append(decimal_of(self.by_name as u64).as_str());
        out.append(" skipped by name, ");
        out.append(decimal_of(self.too_big as u64).as_str());
        out.append(" too big, ");
        out.append(decimal_of(self.height as u64).as_str());
        out.append(" not furniture height, ");
        out.append(decimal_of(self.unknown as u64).as_str());
        out.append(" without a known archetype");
        out
    }
}

/// Decides which props of the placed interior are in the way, by the height
/// rule and the names to block or to ignore.
pub fn prop_footprints(props: &Vec<NavProp>, rules: &PropRules) -> (r: PropReport)
    ensures
        r.blocked@.map_values(|i: usize| i as int) == blocked_places(props@, rules@),
        counts_slots(r.counts, props@, rules@),
        texts(r.lines@) == prop_lines(props@, rules@),
{
    let mut blocked: Vec<usize> = Vec::new();
    let mut counts = PropCounts { blocked: 0, by_name: 0, too_big: 0, height: 0, unknown: 0 };
    let mut lines: Vec<String> = Vec::new();
    let mut i: usize = 0;
    assert(props@.take(0) =~= Seq::empty());
    assert(blocked@.map_values(|i: usize| i as int) =~= Seq::<int>::empty());
    while i < props.len()
        invariant
            i <= props.len(),
            counts.blocked <= i,
            counts.by_name <= i,
            counts.too_big <= i,
            counts.height <= i,
            counts.unknown <= i,
            counts_slots(counts, props@.take(i as int), rules@),
            blocked@.map_values(|i: usize| i as int) == blocked_places(props@.take(i as int), rules@),
            lines.len() == i,
            forall|j: int|
                0 <= j < i ==> (#[trigger] lines[j])@ == prop_line(props[j], verdict_of(props[j], rules@)),
        decreases props.len() - i,
    {
        proof {
            assert(props@.take(i + 1).drop_last() =~= props@.take(i as int));
            assert(props@.take(i + 1).last() == props[i as int]);
        }
        let v = judge(&props[i], rules);
        lines.push(write_prop(&props[i], v));
        counts.add(v);
        match v {
            Verdict::Forced | Verdict::Blocked => {
                let ghost before = blocked@.map_values(|i: usize| i as int);
                blocked.push(i);
                assert(blocked@.map_values(|i: usize| i as int) =~= before.push(i as int));
            },
            _ => {},
        }
        i = i + 1;
    }
    assert(props@.take(props.len() as int) =~= props@);
    assert(texts(lines@) =~= prop_lines(props@, rules@));
    PropReport { blocked, counts, lines }
}

/// The fragments of names that are never blocked: the usual ones, then the
/// given ones in lowercase.
pub open spec fn ignored_names(extra: Seq<Seq<char>>) -> Seq<Seq<char>> {
    seq!["lproxy"@, "_details"@, "shell"@, "door"@, "window"@, "carpet"@] + extra.map_values(
        |s: Seq<char>| lowercase(s),
    )
}

/// Texts in lowercase.
pub fn lower_all(list: &Vec<String>) -> (out: Vec<String>)
    ensures
        texts(out@) == texts(list@).map_values(|s: Seq<char>| lowercase(s)),
{
    let mut out: Vec<String> = Vec::new();
    let mut i: usize = 0;
    while i < list.len()
        invariant
            i <= list.len(),
            out.len() == i,
            forall|j: int| 0 <= j < i ==> (#[trigger] out[j])@ == lowercase(list[j]@),
        decreases list.len() - i,
    {
        out.push(to_lowercase(list[i].as_str()));
        i = i + 1;
    }
    assert(texts(out@) =~= texts(list@).map_values(|s: Seq<char>| lowercase(s)));
    out
}

/// The fragments of names that are never blocked.
pub fn ignored_fragments(extra: &Vec<String>) -> (out: Vec<String>)
    ensures
        texts(out@) == ignored_names(texts(extra@)),
{
    let mut out: Vec<String> = Vec::new();
    out.push(String::from_str("lproxy"));
    out.push(String::from_str("_details"));
    out.push(String::from_str("shell"));
    out.push(String::from_str("door"));
    out.push(String::from_str("window"));
    out.push(String::from_str("carpet"));
    let ghost usual = texts(out@);
    assert(usual =~= seq!["lproxy"@, "_details"@, "shell"@, "door"@, "window"@, "carpet"@]);
    let mut more = lower_all(extra);
    let ghost added = texts(more@);
    out.append(&mut more);
    assert(texts(out@) =~= usual + added);
    out
}

/// What a build needs to know of props, and why it cannot.
pub fn check_props(has_types: bool, has_map: bool, game_props: bool, has_exe: bool) -> (r: Result<
    (),
    &'static str,
>)
    ensures
        r is Err <==> has_types && (!has_map || (game_props && !has_exe)),
        r matches Err(e) ==> e@ == (if !has_map {
            "--ytyp needs --ymap to place the MLO's props"@
        } else {
            "--game-props needs --exe or GTAV_PATH"@
        }),
{
    if !has_types {
        return Ok(());
    }
    if !has_map {
        return Err("--ytyp needs --ymap to place the MLO's props");
    }
    if game_props && !has_exe {
        return Err("--game-props needs --exe or GTAV_PATH");
    }
    Ok(())
}

// ── Builds ──────────────────────────────────────────────────────────────────

/// A box on the ground.
#[derive(Debug)]
pub struct Quad {
    pub x0: Shown,
    pub y0: Shown,
    pub x1: Shown,
    pub y1: Shown,
}

impl Quad {
    /// The box in words.
    pub open spec fn words(self) -> Seq<char> {
        self.x0.text@ + ","@ + self.y0.text@ + ".."@ + self.x1.text@ + ","@ + self.y1.text@
    }

    fn show(&self) -> (out: String)
        ensures
            out@ == self.words(),
    {
        let mut out = self.x0.text.clone();
        out.append(",");
        out.append(self.y0.text.as_str());
        out.append("..");
        out.append(self.x1.text.as_str());
        out.append(",");
        out.append(self.y1.text.as_str());
        out
    }
}

/// The first box leaves the second.
pub open spec fn leaves(clip: Quad, cell: Quad) -> bool {
    ||| is_above(cell.x0.bits, clip.x0.bits)
    ||| is_above(cell.y0.bits, clip.y0.bits)
    ||| is_above(clip.x1.bits, cell.x1.bits)
    ||| is_above(clip.y1.bits, cell.y1.bits)
}

/// Refuses a clip box that leaves the cell.
pub fn check_clip(clip: &Quad, cell: &Quad) -> (r: Result<(), String>)
    ensures
        r is Err <==> leaves(*clip, *cell),
        r matches Err(e) ==> e@ == "clip box "@ + clip.words() + " leaves the cell ("@ + cell.words()
            + "); build each cell separately"@,
{
    if above(cell.x0.bits, clip.x0.bits) || above(cell.y0.bits, clip.y0.bits) || above(
        clip.x1.bits,
        cell.x1.bits,
    ) || above(clip.y1.bits, cell.y1.bits) {
        let mut e = String::from_str("clip box ");
        e.append(clip.show().as_str());
        e.append(" leaves the cell (");
        e.append(cell.show().as_str());
        e.append("); build each cell separately");
        return Err(e);
    }
    Ok(())
}

/// Refuses a floor outside the heights of the cell.
pub fn check_floor(floor: &Shown, lo: &Shown, hi: &Shown) -> (r: Result<(), String>)
    ensures
        r is Err <==> is_above(lo.bits, floor.bits) || is_above(floor.bits, hi.bits),
        r matches Err(e) ==> e@ == "floor z "@ + floor.text@ + " is outside the cell's vertical range "@
            + lo.text@ + ".."@ + hi.text@,
{
    if above(lo.bits, floor.bits) || above(floor.bits, hi.bits) {
        let mut e = String::from_str("floor z ");
        e.append(floor.text.as_str());
        e.append(" is outside the cell's vertical range ");
        e.append(lo.text.as_str());
        e.append("..");
        e.append(hi.text.as_str());
        return Err(e);
    }
    Ok(())
}

/// What a build did to a cell.
#[derive(Debug, Clone, Copy)]
pub struct BuildReport {
    pub grid_cells: usize,
    pub floor_cells: usize,
    pub blocked_cells: usize,
    pub free_cells: usize,
    pub rectangles: usize,
    pub sunk_polys: usize,
    pub new_polys: usize,
    pub internal_edges: usize,
}

impl BuildReport {
    /// The line about the grid, whose step is shown by `step`.
    pub open spec fn grid_line(self, step: Seq<char>) -> Seq<char> {
        "Grid:       "@ + decimal(self.grid_cells as nat) + " cells of "@ + step + " m ("@ + decimal(
            self.floor_cells as nat,
        ) + " floor, "@ + decimal(self.blocked_cells as nat) + " blocked, "@ + decimal(
            self.free_cells as nat,
        ) + " free)"@
    }

    /// The line about the polygons, of which there were and are so many.
    pub open spec fn polygon_line(self, before: nat, after: nat) -> Seq<char> {
        "Polygons:   "@ + decimal(before) + " before, "@ + decimal(self.sunk_polys as nat) + " sunk, "@
            + decimal(self.new_polys as nat) + " added ("@ + decimal(self.internal_edges as nat)
            + " internal edges linked), "@ + decimal(after) + " after"@
    }

    /// What is reported of a build: the grid, the rectangles, the polygons.
    pub fn lines(&self, step: &str, before: usize, after: usize) -> (out: Vec<String>)
        ensures
            texts(out@) == seq![
                self.grid_line(step@),
                "Rectangles: "@ + decimal(self.rectangles as nat),
                self.polygon_line(before as nat, after as nat),
            ],
    {
        let mut grid = String::from_str("Grid:       ");
        grid.append(decimal_of(self.grid_cells as u64).as_str());
        grid.append(" cells of ");
        grid.append(step);
        grid.append(" m (");
        grid.append(decimal_of(self.floor_cells as u64).as_str());
        grid.append(" floor, ");
        grid.append(decimal_of(self.blocked_cells as u64).as_str());
        grid.append(" blocked, ");
        grid.append(decimal_of(self.free_cells as u64).as_str());
        grid.append(" free)");
        let mut rectangles = String::from_str("Rectangles: ");
        rectangles.append(decimal_of(self.rectangles as u64).as_str());
        let mut polygons = String::from_str("Polygons:   ");
        polygons.append(decimal_of(before as u64).as_str());
        polygons.append(" before, ");
        polygons.append(decimal_of(self.sunk_polys as u64).as_str());
        polygons.append(" sunk, ");
        polygons.append(decimal_of(self.new_polys as u64).as_str());
        polygons.append(" added (");
        polygons.append(decimal_of(self.internal_edges as u64).as_str());
        polygons.append(" internal edges linked), ");
        polygons.append(decimal_of(after as u64).as_str());
        polygons.append(" after");
        let mut out: Vec<String> = Vec::new();
        out.push(grid);
        out.push(rectangles);
        out.push(polygons);
        assert(texts(out@) =~= seq![
            self.grid_line(step@),
            "Rectangles: "@ + decimal(self.rectangles as nat),
            self.polygon_line(before as nat, after as nat),
        ]);
        out
    }
}

// ── Laws ────────────────────────────────────────────────────────────────────

/// Every prop comes to exactly one end: the counts add up.
pub proof fn law_every_prop_is_counted(props: Seq<NavProp>, rules: RulesView)
    ensures
        slot_count(props, rules, 0) + slot_count(props, rules, 1) + slot_count(props, rules, 2)
            + slot_count(props, rules, 3) + slot_count(props, rules, 4) == props.len(),
        blocked_places(props, rules).len() == slot_count(props, rules, 0),
    decreases props.len(),
{
    if props.len() > 0 {
        law_every_prop_is_counted(props.drop_last(), rules);
    }
}

/// A prop that is named outright is blocked whatever the rules say, once its
/// archetype is known.
pub proof fn law_forced_props_are_blocked(prop: NavProp, rules: RulesView)
    requires
        prop.bounds is Some,
        rules.forced.contains(prop.name@),
    ensures
        slot_of(verdict_of(prop, rules)) == 0,
{
}

/// A type file's word on an archetype goes before the game's, and a later
/// file's before an earlier one's.
pub proof fn law_later_boxes_win(
    types: Seq<PropTypes>,
    game: Map<u32, ArchetypeBox>,
    file: PropTypes,
    archetype: u32,
    bounds: ArchetypeBox,
)
    requires
        file.archetypes@.len() > 0,
        file.archetypes@.last() == (archetype, bounds),
    ensures
        box_of(types.push(file), game, archetype) == Some(bounds),
{
    assert(types.push(file).drop_last() =~= types);
}

} // verus!
