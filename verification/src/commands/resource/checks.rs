//! What a loose file on disk says about itself versus its surroundings.
use vstd::prelude::*;
use vstd::string::*;
use crate::commands::resource::info::Contents;
use crate::commands::resource::manifest::{Dependencies, HashName, Manifest};
use crate::hash::{joaat, rage_joaat};
use crate::name_table::{name_of, resolve, resolved, table};
use crate::text::{ascii_lowercase, lowercase, same, texts, to_ascii_lowercase, to_lowercase};
use rage_formats::NameTable;

verus! {

/// What a loose file on disk says about itself versus its surroundings.
/// Neither check applies to an entry read out of an archive, where the lookup
/// name and the file name are one thing.
#[derive(Debug, Clone, PartialEq, Eq)]
pub struct Checks {
    /// The map's own name is not the file's stem, so parent links and manifest
    /// entries that use the internal name will never bind to the map the game
    /// registers under the file name. Holds the stem the game will use.
    pub map_name_mismatch: Option<String>,
    /// Maps that a manifest declares and that are not next to it: either
    /// vanilla maps or leftovers from a map since renamed or removed. Each is
    /// paired with whether any known name list has the name.
    pub orphan_imaps: Vec<(String, bool)>,
}

/// `Checks` as texts.
pub struct CheckView {
    pub mismatch: Option<Seq<char>>,
    pub orphans: Seq<(Seq<char>, bool)>,
}

/// The texts of a list of maps, each with whether it is known.
pub open spec fn orphan_texts(list: Seq<(String, bool)>) -> Seq<(Seq<char>, bool)> {
    list.map_values(|o: (String, bool)| (o.0@, o.1))
}

impl View for Checks {
    type V = CheckView;

    open spec fn view(&self) -> CheckView {
        CheckView {
            mismatch: match self.map_name_mismatch {
                Some(s) => Some(s@),
                None => None,
            },
            orphans: orphan_texts(self.orphan_imaps@),
        }
    }
}

/// Whether the first map of the given name in a list is known.
pub open spec fn first_known(list: Seq<(Seq<char>, bool)>, name: Seq<char>) -> Option<bool>
    decreases list.len(),
{
    if list.len() == 0 {
        None
    } else if list[0].0 == name {
        Some(list[0].1)
    } else {
        first_known(list.drop_first(), name)
    }
}

/// The maps of a list that are not known.
pub open spec fn unknown_of(list: Seq<(Seq<char>, bool)>) -> Seq<Seq<char>>
    decreases list.len(),
{
    if list.len() == 0 {
        Seq::empty()
    } else if list.last().1 {
        unknown_of(list.drop_last())
    } else {
        unknown_of(list.drop_last()).push(list.last().0)
    }
}

impl CheckView {
    /// Nothing to report.
    pub open spec fn clean() -> CheckView {
        CheckView { mismatch: None, orphans: Seq::empty() }
    }

    /// Whether the map of the given name is known, where it is reported.
    pub open spec fn orphan(self, name: Seq<char>) -> Option<bool> {
        first_known(self.orphans, name)
    }

    /// The reported maps that no list names at all.
    pub open spec fn unknown(self) -> Seq<Seq<char>> {
        unknown_of(self.orphans)
    }
}

/// A file next to a manifest.
#[derive(Debug, Clone, PartialEq, Eq)]
pub struct Sibling {
    pub stem: String,
    pub extension: String,
}

/// The map of a hash is among the files: a `.ymap` whose stem, as spelled or
/// in lowercase, has that hash.
pub open spec fn is_here(hash: u32, siblings: Seq<Sibling>) -> bool {
    exists|i: int| 0 <= i < siblings.len() && is_map_of(#[trigger] siblings[i], hash)
}

/// The file is a `.ymap` whose stem, as spelled or in lowercase, has the
/// hash.
pub open spec fn is_map_of(file: Sibling, hash: u32) -> bool {
    ascii_lowercase(file.extension@) == "ymap"@ && (joaat(file.stem@) == hash || joaat(
        lowercase(file.stem@),
    ) == hash)
}

impl HashName {
    /// The hash of the name as it arrived.
    pub open spec fn name_hash(self) -> u32 {
        match self.name {
            Some(n) => joaat(n@),
            None => self.hash,
        }
    }
}

/// What is reported of one declared map: nothing where it is among the files.
pub open spec fn orphan_of(
    name: HashName,
    siblings: Seq<Sibling>,
    known: Map<u32, Seq<char>>,
) -> Option<(Seq<char>, bool)> {
    let hash = name.name_hash();
    if is_here(hash, siblings) {
        None
    } else {
        Some(
            (
                match name.name {
                    Some(n) => n@,
                    None => resolved(known, hash),
                },
                known.contains_key(hash),
            ),
        )
    }
}

/// The declared maps that are not among the files, in order.
pub open spec fn orphans(
    deps: Seq<Dependencies>,
    siblings: Seq<Sibling>,
    known: Map<u32, Seq<char>>,
) -> Seq<(Seq<char>, bool)>
    decreases deps.len(),
{
    if deps.len() == 0 {
        Seq::empty()
    } else {
        let before = orphans(deps.drop_last(), siblings, known);
        match orphan_of(deps.last().name, siblings, known) {
            Some(o) => before.push(o),
            None => before,
        }
    }
}

/// Whether the name hash of a map disagrees with the stem of its file.
pub open spec fn name_mismatch(stem: Seq<char>, name_hash: u32) -> bool {
    stem.len() > 0 && name_hash != joaat(stem) && name_hash != joaat(lowercase(stem))
}

/// Whether the map of a hash is among the files.
fn here(hash: u32, siblings: &Vec<Sibling>) -> (r: bool)
    ensures
        r == is_here(hash, siblings@),
{
    let mut i: usize = 0;
    while i < siblings.len()
        invariant
            i <= siblings.len(),
            forall|j: int| 0 <= j < i ==> !is_map_of(#[trigger] siblings[j], hash),
        decreases siblings.len() - i,
    {
        let file = &siblings[i];
        let extension = to_ascii_lowercase(file.extension.as_str());
        if same(extension.as_str(), "ymap") && (rage_joaat(file.stem.as_str()) == hash || rage_joaat(
            to_lowercase(file.stem.as_str()).as_str(),
        ) == hash) {
            assert(is_map_of(siblings[i as int], hash));
            return true;
        }
        i = i + 1;
    }
    false
}

impl Checks {
    /// Nothing to report.
    pub fn none() -> (r: Checks)
        ensures
            r@ == CheckView::clean(),
    {
        let r = Checks { map_name_mismatch: None, orphan_imaps: Vec::new() };
        assert(r@.orphans =~= Seq::empty());
        r
    }

    /// What a map whose name has the given hash says, in a file of the given
    /// stem.
    pub fn of_map(stem: &str, name_hash: u32) -> (r: Checks)
        ensures
            r@ == (CheckView {
                mismatch: if name_mismatch(stem@, name_hash) {
                    Some(stem@)
                } else {
                    None
                },
                orphans: Seq::empty(),
            }),
    {
        let mut r = Checks::none();
        if !stem.is_empty() && name_hash != rage_joaat(stem) && name_hash != rage_joaat(
            to_lowercase(stem).as_str(),
        ) {
            r.map_name_mismatch = Some(stem.to_owned());
        }
        assert(r@.orphans =~= Seq::empty());
        r
    }

    /// The maps that a manifest declares and that are not among the files next
    /// to it, where `known` holds the names of all lists.
    pub fn of_manifest(m: &Manifest, siblings: &Vec<Sibling>, known: &NameTable) -> (r: Checks)
        ensures
            r@ == (CheckView {
                mismatch: None,
                orphans: orphans(m.imap_dependencies_2@, siblings@, table(*known)),
            }),
    {
        let ghost deps = m.imap_dependencies_2@;
        let mut list: Vec<(String, bool)> = Vec::new();
        let mut i: usize = 0;
        assert(deps.take(0) =~= Seq::empty());
        assert(orphan_texts(list@) =~= Seq::empty());
        while i < m.imap_dependencies_2.len()
            invariant
                i <= m.imap_dependencies_2.len(),
                deps == m.imap_dependencies_2@,
                orphan_texts(list@) == orphans(deps.take(i as int), siblings@, table(*known)),
            decreases m.imap_dependencies_2.len() - i,
        {
            proof {
                assert(deps.take(i + 1).drop_last() =~= deps.take(i as int));
                assert(deps.take(i + 1).last() == deps[i as int]);
            }
            let name = &m.imap_dependencies_2[i].name;
            let hash: u32 = match &name.name {
                Some(n) => rage_joaat(n.as_str()),
                None => name.hash,
            };
            if !here(hash, siblings) {
                let label = match &name.name {
                    Some(n) => n.clone(),
                    None => resolve(known, hash),
                };
                let is_known: bool = name_of(known, hash).is_some();
                let ghost before = orphan_texts(list@);
                list.push((label, is_known));
                assert(orphan_texts(list@) =~= before.push((label@, is_known)));
            }
            i = i + 1;
        }
        assert(deps.take(deps.len() as int) =~= deps);
        Checks { map_name_mismatch: None, orphan_imaps: list }
    }

    /// What the contents of a loose file say: a map about its name, a manifest
    /// about the maps next to it.
    pub fn of(stem: &str, contents: &Contents, siblings: &Vec<Sibling>, known: &NameTable) -> (r: Checks)
        ensures
            r@ == (match *contents {
                Contents::Ymap(map) => CheckView {
                    mismatch: if name_mismatch(stem@, map.header.bits.name_hash) {
                        Some(stem@)
                    } else {
                        None
                    },
                    orphans: Seq::empty(),
                },
                Contents::Manifest(m) => CheckView {
                    mismatch: None,
                    orphans: orphans(m.imap_dependencies_2@, siblings@, table(*known)),
                },
                _ => CheckView::clean(),
            }),
    {
        match contents {
            Contents::Ymap(map) => Checks::of_map(stem, map.header.bits.name_hash),
            Contents::Manifest(m) => Checks::of_manifest(m, siblings, known),
            _ => Checks::none(),
        }
    }

    /// Whether the reported map of the given name is known.
    pub fn find_orphan(&self, name: &str) -> (r: Option<bool>)
        ensures
            r == self@.orphan(name@),
    {
        let ghost all = self@.orphans;
        let mut i: usize = 0;
        assert(all.skip(0) =~= all);
        while i < self.orphan_imaps.len()
            invariant
                i <= self.orphan_imaps.len(),
                all == self@.orphans,
                first_known(all, name@) == first_known(all.skip(i as int), name@),
            decreases self.orphan_imaps.len() - i,
        {
            assert(all.skip(i as int)[0] == (
                self.orphan_imaps[i as int].0@,
                self.orphan_imaps[i as int].1,
            ));
            assert(all.skip(i as int).drop_first() =~= all.skip(i + 1));
            if same(self.orphan_imaps[i].0.as_str(), name) {
                return Some(self.orphan_imaps[i].1);
            }
            i = i + 1;
        }
        None
    }

    /// The manifest entries that no list names at all.
    pub fn unknown_imaps(&self) -> (out: Vec<String>)
        ensures
            texts(out@) == self@.unknown(),
    {
        let ghost all = self@.orphans;
        let mut out: Vec<String> = Vec::new();
        let mut i: usize = 0;
        assert(all.take(0) =~= Seq::empty());
        assert(texts(out@) =~= Seq::empty());
        while i < self.orphan_imaps.len()
            invariant
                i <= self.orphan_imaps.len(),
                all == self@.orphans,
                texts(out@) == unknown_of(all.take(i as int)),
            decreases self.orphan_imaps.len() - i,
        {
            proof {
                assert(all.take(i + 1).drop_last() =~= all.take(i as int));
                assert(all.take(i + 1).last() == (
                    self.orphan_imaps[i as int].0@,
                    self.orphan_imaps[i as int].1,
                ));
            }
            if !self.orphan_imaps[i].1 {
                let ghost before = texts(out@);
                out.push(self.orphan_imaps[i].0.clone());
                assert(texts(out@) =~= before.push(self.orphan_imaps[i as int].0@));
            }
            i = i + 1;
        }
        assert(all.take(all.len() as int) =~= all);
        out
    }
}

impl Default for Checks {
    fn default() -> (r: Checks)
        ensures
            r@ == CheckView::clean(),
    {
        Checks::none()
    }
}

/// A map that lies next to its manifest is never reported.
pub proof fn law_maps_here_are_not_reported(
    deps: Seq<Dependencies>,
    siblings: Seq<Sibling>,
    known: Map<u32, Seq<char>>,
)
    requires
        forall|i: int| 0 <= i < deps.len() ==> is_here((#[trigger] deps[i]).name.name_hash(), siblings),
    ensures
        orphans(deps, siblings, known) == Seq::<(Seq<char>, bool)>::empty(),
    decreases deps.len(),
{
    if deps.len() > 0 {
        let front = deps.drop_last();
        assert forall|i: int| 0 <= i < front.len() implies is_here(
            (#[trigger] front[i]).name.name_hash(),
            siblings,
        ) by {
            assert(front[i] == deps[i]);
        }
        law_maps_here_are_not_reported(front, siblings, known);
        assert(deps.last() == deps[deps.len() - 1]);
    }
}

/// A file called after its map is not reported, whichever way it is spelled.
pub proof fn law_own_name_matches(stem: Seq<char>)
    ensures
        !name_mismatch(stem, joaat(stem)),
        !name_mismatch(stem, joaat(lowercase(stem))),
{
}

} // verus!
