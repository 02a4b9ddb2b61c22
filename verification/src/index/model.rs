//! The index itself: where every indexed file lives, and what it is worth to
//! the commands.
use std::collections::{HashMap, HashSet};
use vstd::prelude::*;
use vstd::std_specs::iter::IteratorSpec;
use crate::index::parts::Parts;
use crate::order::sorted_numbers;
use crate::text::texts;

verus! {

/// Where a file lives: a top-level `.rpf` on disk, then zero or more nested
/// `.rpf` entries to descend through, then the entry itself.
#[derive(Debug, Clone, PartialEq, Eq)]
pub struct EntryLoc {
    pub top_archive: String,
    pub nested_rpfs: Vec<String>,
    pub inner_path: String,
}

/// An `EntryLoc` as texts.
#[verifier::ext_equal]
pub struct Location {
    pub top_archive: Seq<char>,
    pub nested_rpfs: Seq<Seq<char>>,
    pub inner_path: Seq<char>,
}

impl View for EntryLoc {
    type V = Location;

    open spec fn view(&self) -> Location {
        Location {
            top_archive: self.top_archive@,
            nested_rpfs: texts(self.nested_rpfs@),
            inner_path: self.inner_path@,
        }
    }
}

impl EntryLoc {
    /// A copy of this location.
    pub fn copy(&self) -> (out: EntryLoc)
        ensures
            out@ == self@,
    {
        EntryLoc {
            top_archive: self.top_archive.clone(),
            nested_rpfs: crate::text::copy_texts(&self.nested_rpfs),
            inner_path: self.inner_path.clone(),
        }
    }
}

/// An archetype's bounding box: its lowest and highest corner, each
/// coordinate as the bits of a single-precision number.
#[derive(Debug, Clone, Copy, PartialEq, Eq, Structural)]
pub struct ArchetypeBox {
    pub min_x: u32,
    pub min_y: u32,
    pub min_z: u32,
    pub max_x: u32,
    pub max_y: u32,
    pub max_z: u32,
}

/// Which file holds an archetype's model: the asset type as stored, and the
/// hash of the model or of the dictionary that holds it.
#[derive(Debug, Clone, Copy, PartialEq, Eq, Structural)]
pub struct Asset {
    pub kind: u32,
    pub model: u32,
}

/// The index, or the parts of it that were asked for: the maps of a part
/// not in `parts` are simply empty.
#[derive(Debug)]
pub struct GameIndex {
    /// Which parts the maps below hold.
    pub parts: Parts,
    /// `.ytd` stem hash -> where that dictionary lives. Later archives win,
    /// matching the game's own order, in which packs override the base game.
    pub ytd_by_name: HashMap<u32, EntryLoc>,
    /// Archetype/model name hash -> its texture dictionary's hash, from every
    /// `.ytyp`. Later `.ytyp`s win.
    pub archetype_txd: HashMap<u32, u32>,
    /// Archetype name hash -> its bounding box, from every `.ytyp`; what a
    /// placed prop occupies, for anything that reads placements.
    pub archetype_box: HashMap<u32, ArchetypeBox>,
    /// Texture name hash -> the name hash of the resident dictionary
    /// (`mapdetail`/`vehshare`) that holds it.
    pub resident_textures: HashMap<u32, u32>,
    /// Child texture-dictionary hash -> parent texture-dictionary hash. The
    /// first relationship for a given child wins.
    pub parent_txds: HashMap<u32, u32>,
    /// MLO archetype name hash -> the `.ytyp` that declares it. Later
    /// archives win.
    pub mlo_ytyp: HashMap<u32, EntryLoc>,
    /// MLO archetype name hash -> every `.ymap` that places it, in scan
    /// order. Repeated interiors (garages, apartments) are placed many times.
    pub mlo_instances: HashMap<u32, Vec<EntryLoc>>,
    /// Hash of the lowercase `.ybn` stem -> where that collision file lives.
    pub ybn_by_name: HashMap<u32, EntryLoc>,
    /// Hash of the lowercase stem of every `.ydr`, `.ydd` and `.yft` -> where
    /// it lives; later archives win.
    pub drawable_by_name: HashMap<u32, EntryLoc>,
    /// Archetype name hash -> which file holds its model. Only kept when it
    /// differs from the archetype's own name, which is the usual case.
    pub archetype_asset: HashMap<u32, Asset>,
}

/// A `GameIndex` as maps.
#[verifier::ext_equal]
pub struct IndexView {
    pub parts: Parts,
    pub ytd_by_name: Map<u32, Location>,
    pub archetype_txd: Map<u32, u32>,
    pub archetype_box: Map<u32, ArchetypeBox>,
    pub resident_textures: Map<u32, u32>,
    pub parent_txds: Map<u32, u32>,
    pub mlo_ytyp: Map<u32, Location>,
    pub mlo_instances: Map<u32, Seq<Location>>,
    pub ybn_by_name: Map<u32, Location>,
    pub drawable_by_name: Map<u32, Location>,
    pub archetype_asset: Map<u32, Asset>,
}

/// A map of locations as a map of texts.
pub open spec fn locations(m: Map<u32, EntryLoc>) -> Map<u32, Location> {
    m.map_values(|l: EntryLoc| l@)
}

/// A list of locations as texts.
pub open spec fn location_list(list: Seq<EntryLoc>) -> Seq<Location> {
    list.map_values(|l: EntryLoc| l@)
}

/// A map of lists of locations as a map of texts.
pub open spec fn location_lists(m: Map<u32, Vec<EntryLoc>>) -> Map<u32, Seq<Location>> {
    m.map_values(|l: Vec<EntryLoc>| location_list(l@))
}

impl View for GameIndex {
    type V = IndexView;

    open spec fn view(&self) -> IndexView {
        IndexView {
            parts: self.parts,
            ytd_by_name: locations(self.ytd_by_name@),
            archetype_txd: self.archetype_txd@,
            archetype_box: self.archetype_box@,
            resident_textures: self.resident_textures@,
            parent_txds: self.parent_txds@,
            mlo_ytyp: locations(self.mlo_ytyp@),
            mlo_instances: location_lists(self.mlo_instances@),
            ybn_by_name: locations(self.ybn_by_name@),
            drawable_by_name: locations(self.drawable_by_name@),
            archetype_asset: self.archetype_asset@,
        }
    }
}

impl IndexView {
    /// An index of the given parts that lists nothing.
    pub open spec fn nothing(parts: Parts) -> IndexView {
        IndexView {
            parts,
            ytd_by_name: Map::empty(),
            archetype_txd: Map::empty(),
            archetype_box: Map::empty(),
            resident_textures: Map::empty(),
            parent_txds: Map::empty(),
            mlo_ytyp: Map::empty(),
            mlo_instances: Map::empty(),
            ybn_by_name: Map::empty(),
            drawable_by_name: Map::empty(),
            archetype_asset: Map::empty(),
        }
    }

    /// Just the maps of one part.
    pub open spec fn only(self, part: Parts) -> IndexView {
        let none = IndexView::nothing(part);
        if part == Parts::textures() {
            IndexView {
                ytd_by_name: self.ytd_by_name,
                archetype_txd: self.archetype_txd,
                resident_textures: self.resident_textures,
                parent_txds: self.parent_txds,
                ..none
            }
        } else if part == Parts::interiors() {
            IndexView {
                mlo_ytyp: self.mlo_ytyp,
                mlo_instances: self.mlo_instances,
                ybn_by_name: self.ybn_by_name,
                ..none
            }
        } else if part == Parts::models() {
            IndexView {
                archetype_box: self.archetype_box,
                drawable_by_name: self.drawable_by_name,
                archetype_asset: self.archetype_asset,
                ..none
            }
        } else {
            none
        }
    }
}

impl GameIndex {
    /// An index of the given parts that lists nothing yet.
    pub fn empty(parts: Parts) -> (out: GameIndex)
        ensures
            out@ == IndexView::nothing(parts),
    {
        let out = GameIndex {
            parts,
            ytd_by_name: HashMap::new(),
            archetype_txd: HashMap::new(),
            archetype_box: HashMap::new(),
            resident_textures: HashMap::new(),
            parent_txds: HashMap::new(),
            mlo_ytyp: HashMap::new(),
            mlo_instances: HashMap::new(),
            ybn_by_name: HashMap::new(),
            drawable_by_name: HashMap::new(),
            archetype_asset: HashMap::new(),
        };
        assert(out@ =~= IndexView::nothing(parts));
        out
    }
}

impl Default for GameIndex {
    fn default() -> (out: GameIndex)
        ensures
            out@ == IndexView::nothing(Parts::none()),
    {
        GameIndex::empty(Parts::none())
    }
}

/// The numbers of a set, in some order.
pub fn numbers_of(set: &HashSet<u32>) -> (out: Vec<u32>)
    ensures
        forall|h: u32| set@.contains(h) <==> #[trigger] out@.contains(h),
{
    let mut out: Vec<u32> = Vec::new();
    for k in it: set.iter()
        invariant
            it.seq() == set.iter().remaining(),
            out.len() == it.index(),
            forall|i: int| 0 <= i < out.len() ==> out[i] == *it.seq()[i],
    {
        out.push(*k);
    }
    proof {
        let walked = set.iter().remaining();
        assert(out@ =~= walked.unref());
        assert forall|h: u32| set@.contains(h) <==> #[trigger] out@.contains(h) by {
            assert(walked.unref().to_set().contains(h) <==> set@.contains(h));
        }
    }
    out
}

/// The keys of a map, in ascending order.
pub fn ascending_keys<V>(m: &HashMap<u32, V>) -> (out: Vec<u32>)
    ensures
        crate::order::is_ascending(out@, m@.dom()),
        out@ == crate::order::ascending(m@.dom()),
        out.len() == m@.dom().len(),
{
    let mut keys: Vec<u32> = Vec::new();
    for k in it: m.keys()
        invariant
            it.seq() == m.keys().remaining(),
            keys.len() == it.index(),
            forall|i: int| 0 <= i < keys.len() ==> keys[i] == *it.seq()[i],
    {
        keys.push(*k);
    }
    proof {
        let walked = m.keys().remaining();
        assert(keys@ =~= walked.unref());
        assert forall|i: int, j: int|
            0 <= i < keys.len() && 0 <= j < keys.len() && i != j implies keys[i] != keys[j] by {
            assert(walked[i] != walked[j]);
        }
    }
    let out = sorted_numbers(&keys);
    proof {
        out@.unique_seq_to_set();
        assert(out@.to_set() =~= m@.dom()) by {
            assert forall|k: u32| out@.to_set().contains(k) <==> m@.dom().contains(k) by {
                assert(out@.contains(k) <==> m@.dom().contains(k));
            }
        }
    }
    out
}

} // verus!
