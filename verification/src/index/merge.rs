//! Folding indexes together in the order in which archives load.
use std::collections::HashMap;
use vstd::prelude::*;
use crate::index::model::{
    ascending_keys, location_list, location_lists, EntryLoc, GameIndex, IndexView, Location,
};
use crate::index::parts::Parts;

verus! {

/// The lists of `a` with those of `b` appended, key by key.
pub open spec fn appended(a: Map<u32, Seq<Location>>, b: Map<u32, Seq<Location>>) -> Map<
    u32,
    Seq<Location>,
> {
    Map::new(
        |k: u32| a.contains_key(k) || b.contains_key(k),
        |k: u32|
            (if a.contains_key(k) { a[k] } else { Seq::empty() }) + (if b.contains_key(k) {
                b[k]
            } else {
                Seq::empty()
            }),
    )
}

impl IndexView {
    /// This index with that of an archive that loads later folded in: later
    /// names win, the first parent of a dictionary stays, and placements are
    /// appended.
    pub open spec fn merged(self, later: IndexView) -> IndexView {
        IndexView {
            parts: Parts { bits: self.parts.bits | later.parts.bits },
            ytd_by_name: self.ytd_by_name.union_prefer_right(later.ytd_by_name),
            archetype_txd: self.archetype_txd.union_prefer_right(later.archetype_txd),
            archetype_box: self.archetype_box.union_prefer_right(later.archetype_box),
            resident_textures: self.resident_textures.union_prefer_right(later.resident_textures),
            parent_txds: later.parent_txds.union_prefer_right(self.parent_txds),
            mlo_ytyp: self.mlo_ytyp.union_prefer_right(later.mlo_ytyp),
            mlo_instances: appended(self.mlo_instances, later.mlo_instances),
            ybn_by_name: self.ybn_by_name.union_prefer_right(later.ybn_by_name),
            drawable_by_name: self.drawable_by_name.union_prefer_right(later.drawable_by_name),
            archetype_asset: self.archetype_asset.union_prefer_right(later.archetype_asset),
        }
    }
}

/// Takes every entry of `from`; its values win.
fn take_over<V>(into: &mut HashMap<u32, V>, from: HashMap<u32, V>)
    ensures
        final(into)@ == old(into)@.union_prefer_right(from@),
{
    let keys = ascending_keys(&from);
    let mut from = from;
    let ghost all = from@;
    let ghost start = into@;
    proof {
        assert forall|j: int| 0 <= j < keys.len() implies from@.contains_key(#[trigger] keys[j]) by {
            assert(keys@.contains(keys[j]));
        }
    }
    let mut i: usize = 0;
    while i < keys.len()
        invariant
            i <= keys.len(),
            forall|a: int, b: int| 0 <= a < b < keys.len() ==> #[trigger] keys[a] < #[trigger] keys[b],
            forall|k: u32| all.contains_key(k) <==> #[trigger] keys@.contains(k),
            forall|j: int| i <= j < keys.len() ==> from@.contains_key(#[trigger] keys[j]) && from@[keys[j]]
                == all[keys[j]],
            forall|k: u32|
                #[trigger] into@.contains_key(k) <==> start.contains_key(k) || exists|j: int|
                    0 <= j < i && keys[j] == k,
            forall|j: int| 0 <= j < i ==> #[trigger] into@[keys[j]] == all[keys[j]],
            forall|k: u32|
                into@.contains_key(k) && !(exists|j: int| 0 <= j < i && keys[j] == k)
                    ==> #[trigger] into@[k] == start[k],
        decreases keys.len() - i,
    {
        let k: u32 = keys[i];
        let ghost before = into@;
        if let Some(v) = from.remove(&k) {
            into.insert(k, v);
        }
        proof {
            assert forall|x: u32| #[trigger] into@.contains_key(x) <==> start.contains_key(x) || exists|
                j: int,
            | 0 <= j < i + 1 && keys[j] == x by {
                if x == k {
                    assert(keys[i as int] == k);
                } else {
                    assert(before.contains_key(x) <==> into@.contains_key(x));
                    if exists|j: int| 0 <= j < i + 1 && keys[j] == x {
                        let j = choose|j: int| 0 <= j < i + 1 && keys[j] == x;
                        assert(j < i);
                    }
                }
            }
        }
        i = i + 1;
    }
    proof {
        let want = start.union_prefer_right(all);
        assert forall|k: u32| into@.contains_key(k) <==> want.contains_key(k) by {
            assert(all.contains_key(k) <==> keys@.contains(k));
            if keys@.contains(k) {
                let j = choose|j: int| 0 <= j < keys.len() && keys[j] == k;
                assert(keys[j] == k);
            }
        }
        assert forall|k: u32| into@.contains_key(k) implies into@[k] == want[k] by {
            assert(all.contains_key(k) <==> keys@.contains(k));
            if keys@.contains(k) {
                let j = choose|j: int| 0 <= j < keys.len() && keys[j] == k;
                assert(into@[keys[j]] == all[keys[j]]);
            }
        }
        assert(into@ =~= want);
    }
}

/// Takes the entries of `from` whose keys are new.
fn fill_in(into: &mut HashMap<u32, u32>, from: HashMap<u32, u32>)
    ensures
        final(into)@ == from@.union_prefer_right(old(into)@),
{
    let keys = ascending_keys(&from);
    let ghost start = into@;
    let mut i: usize = 0;
    while i < keys.len()
        invariant
            i <= keys.len(),
            forall|k: u32| from@.contains_key(k) <==> #[trigger] keys@.contains(k),
            forall|k: u32|
                #[trigger] into@.contains_key(k) <==> start.contains_key(k) || exists|j: int|
                    0 <= j < i && keys[j] == k,
            forall|k: u32|
                #[trigger] into@.contains_key(k) ==> into@[k] == (if start.contains_key(k) {
                    start[k]
                } else {
                    from@[k]
                }),
        decreases keys.len() - i,
    {
        let k: u32 = keys[i];
        let ghost before = into@;
        assert(keys@.contains(k));
        if !into.contains_key(&k) {
            if let Some(v) = from.get(&k) {
                into.insert(k, *v);
            }
        }
        proof {
            assert forall|x: u32| #[trigger] into@.contains_key(x) <==> start.contains_key(x) || exists|
                j: int,
            | 0 <= j < i + 1 && keys[j] == x by {
                if x == k {
                    assert(keys[i as int] == k);
                } else {
                    assert(before.contains_key(x) <==> into@.contains_key(x));
                    if exists|j: int| 0 <= j < i + 1 && keys[j] == x {
                        let j = choose|j: int| 0 <= j < i + 1 && keys[j] == x;
                        assert(j < i);
                    }
                }
            }
        }
        i = i + 1;
    }
    proof {
        let want = from@.union_prefer_right(start);
        assert forall|k: u32| into@.contains_key(k) <==> want.contains_key(k) by {
            assert(from@.contains_key(k) <==> keys@.contains(k));
            if keys@.contains(k) {
                let j = choose|j: int| 0 <= j < keys.len() && keys[j] == k;
                assert(keys[j] == k);
            }
        }
        assert(into@ =~= want);
    }
}

/// Appends the lists of `from` to those of the same keys.
fn append_lists(into: &mut HashMap<u32, Vec<EntryLoc>>, from: HashMap<u32, Vec<EntryLoc>>)
    ensures
        location_lists(final(into)@) == appended(
            location_lists(old(into)@),
            location_lists(from@),
        ),
{
    let keys = ascending_keys(&from);
    let mut from = from;
    let ghost all = location_lists(from@);
    let ghost start = location_lists(into@);
    let ghost want = appended(start, all);
    proof {
        assert forall|j: int| 0 <= j < keys.len() implies from@.contains_key(#[trigger] keys[j]) by {
            assert(keys@.contains(keys[j]));
        }
    }
    let mut i: usize = 0;
    while i < keys.len()
        invariant
            i <= keys.len(),
            want == appended(start, all),
            forall|a: int, b: int| 0 <= a < b < keys.len() ==> #[trigger] keys[a] < #[trigger] keys[b],
            forall|k: u32| all.contains_key(k) <==> #[trigger] keys@.contains(k),
            forall|j: int| i <= j < keys.len() ==> from@.contains_key(#[trigger] keys[j])
                && location_list(from@[keys[j]]@) == all[keys[j]],
            forall|k: u32|
                #[trigger] into@.contains_key(k) <==> start.contains_key(k) || exists|j: int|
                    0 <= j < i && keys[j] == k,
            forall|j: int| 0 <= j < i ==> location_list(#[trigger] into@[keys[j]]@) == want[keys[j]],
            forall|k: u32|
                into@.contains_key(k) && !(exists|j: int| 0 <= j < i && keys[j] == k)
                    ==> location_list(#[trigger] into@[k]@) == start[k],
        decreases keys.len() - i,
    {
        let k: u32 = keys[i];
        let ghost before = into@;
        assert(keys@.contains(k));
        assert(!(exists|j: int| 0 <= j < i && keys[j] == k));
        assert(before.contains_key(k) <==> start.contains_key(k));
        if let Some(mut more) = from.remove(&k) {
            let ghost added = location_list(more@);
            assert(added == all[k]);
            let list = match into.remove(&k) {
                Some(mut list) => {
                    let ghost had = list@;
                    assert(location_list(had) == start[k]);
                    list.append(&mut more);
                    assert(location_list(list@) =~= start[k] + added);
                    list
                },
                None => {
                    assert(location_list(more@) =~= Seq::empty() + added);
                    more
                },
            };
            assert(location_list(list@) == want[k]);
            into.insert(k, list);
            assert(into@ =~= before.insert(k, list));
        }
        proof {
            assert forall|x: u32| #[trigger] into@.contains_key(x) <==> start.contains_key(x) || exists|
                j: int,
            | 0 <= j < i + 1 && keys[j] == x by {
                if x == k {
                    assert(keys[i as int] == k);
                } else {
                    assert(before.contains_key(x) <==> into@.contains_key(x));
                    if exists|j: int| 0 <= j < i + 1 && keys[j] == x {
                        let j = choose|j: int| 0 <= j < i + 1 && keys[j] == x;
                        assert(j < i);
                    }
                }
            }
            assert forall|x: u32|
                into@.contains_key(x) && !(exists|j: int| 0 <= j < i + 1 && keys[j] == x) implies location_list(
                #[trigger] into@[x]@,
            ) == start[x] by {
                assert(keys[i as int] == k);
                assert(x != k);
                assert(before.contains_key(x));
                assert(into@[x] == before[x]);
            }
        }
        i = i + 1;
    }
    proof {
        let got = location_lists(into@);
        assert forall|k: u32| got.contains_key(k) <==> want.contains_key(k) by {
            assert(all.contains_key(k) <==> keys@.contains(k));
            assert(into@.contains_key(k) <==> got.contains_key(k));
            if keys@.contains(k) {
                let j = choose|j: int| 0 <= j < keys.len() && keys[j] == k;
                assert(keys[j] == k);
            }
        }
        assert forall|k: u32| got.contains_key(k) implies got[k] == want[k] by {
            assert(all.contains_key(k) <==> keys@.contains(k));
            if keys@.contains(k) {
                let j = choose|j: int| 0 <= j < keys.len() && keys[j] == k;
                assert(location_list(into@[keys[j]]@) == want[keys[j]]);
            } else {
                assert(location_list(into@[k]@) == start[k]);
                assert(start[k] + Seq::empty() =~= start[k]);
            }
        }
        assert(got =~= want);
    }
}

impl GameIndex {
    /// Folds in the index of an archive that loads after everything already
    /// merged: last-wins maps take `later`'s values, `parent_txds` keeps
    /// the first relationship seen, and placement lists are appended.
    pub fn merge(&mut self, later: GameIndex)
        ensures
            final(self)@ == old(self)@.merged(later@),
    {
        let ghost a = self@;
        let ghost b = later@;
        self.parts.add(later.parts);
        take_over(&mut self.ytd_by_name, later.ytd_by_name);
        take_over(&mut self.archetype_txd, later.archetype_txd);
        take_over(&mut self.archetype_box, later.archetype_box);
        take_over(&mut self.resident_textures, later.resident_textures);
        fill_in(&mut self.parent_txds, later.parent_txds);
        take_over(&mut self.mlo_ytyp, later.mlo_ytyp);
        append_lists(&mut self.mlo_instances, later.mlo_instances);
        take_over(&mut self.ybn_by_name, later.ybn_by_name);
        take_over(&mut self.drawable_by_name, later.drawable_by_name);
        take_over(&mut self.archetype_asset, later.archetype_asset);
        proof {
            let c = a.merged(b);
            assert(self@.ytd_by_name =~= c.ytd_by_name);
            assert(self@.mlo_ytyp =~= c.mlo_ytyp);
            assert(self@.ybn_by_name =~= c.ybn_by_name);
            assert(self@.drawable_by_name =~= c.drawable_by_name);
            assert(self@ =~= c);
        }
    }
}

/// What merging a later archive keeps of either: a later name overrides, the
/// first parent link stays, and placements stand one after the other.
pub proof fn law_merge_overrides(a: IndexView, b: IndexView, k: u32)
    ensures
        b.ytd_by_name.contains_key(k) ==> a.merged(b).ytd_by_name[k] == b.ytd_by_name[k],
        a.ytd_by_name.contains_key(k) && !b.ytd_by_name.contains_key(k) ==> a.merged(
            b,
        ).ytd_by_name[k] == a.ytd_by_name[k],
        a.parent_txds.contains_key(k) ==> a.merged(b).parent_txds[k] == a.parent_txds[k],
        b.parent_txds.contains_key(k) && !a.parent_txds.contains_key(k) ==> a.merged(
            b,
        ).parent_txds[k] == b.parent_txds[k],
        a.mlo_instances.contains_key(k) && b.mlo_instances.contains_key(k) ==> a.merged(
            b,
        ).mlo_instances[k] == a.mlo_instances[k] + b.mlo_instances[k],
{
}

/// Merging is grouping-free: merging archives one by one gives what merging
/// an already merged stretch of them gives, so partial indexes replay a
/// serial scan.
pub proof fn law_merge_associative(a: IndexView, b: IndexView, c: IndexView)
    ensures
        a.merged(b).merged(c) == a.merged(b.merged(c)),
{
    let x = a.parts.bits;
    let y = b.parts.bits;
    let z = c.parts.bits;
    assert((x | y) | z == x | (y | z)) by (bit_vector);
    let l = a.merged(b).merged(c);
    let r = a.merged(b.merged(c));
    assert(l.ytd_by_name =~= r.ytd_by_name);
    assert(l.archetype_txd =~= r.archetype_txd);
    assert(l.archetype_box =~= r.archetype_box);
    assert(l.resident_textures =~= r.resident_textures);
    assert(l.parent_txds =~= r.parent_txds);
    assert(l.mlo_ytyp =~= r.mlo_ytyp);
    assert forall|k: u32| l.mlo_instances.contains_key(k) implies l.mlo_instances[k]
        == r.mlo_instances[k] by {
        assert(l.mlo_instances[k] =~= r.mlo_instances[k]);
    }
    assert(l.mlo_instances =~= r.mlo_instances);
    assert(l.ybn_by_name =~= r.ybn_by_name);
    assert(l.drawable_by_name =~= r.drawable_by_name);
    assert(l.archetype_asset =~= r.archetype_asset);
}

/// The three parts of an index, merged into an empty one, are the whole.
pub proof fn law_parts_make_the_whole(v: IndexView)
    ensures
        IndexView::nothing(Parts::none()).merged(v.only(Parts::textures())).merged(
            v.only(Parts::interiors()),
        ).merged(v.only(Parts::models())) == (IndexView { parts: Parts::all(), ..v }),
{
    let n = IndexView::nothing(Parts::none());
    let got = n.merged(v.only(Parts::textures())).merged(v.only(Parts::interiors())).merged(
        v.only(Parts::models()),
    );
    assert(((0u8 | 1u8) | 2u8) | 4u8 == 7u8) by (bit_vector);
    assert forall|k: u32| got.mlo_instances.contains_key(k) implies got.mlo_instances[k]
        == v.mlo_instances[k] by {
        assert(got.mlo_instances[k] =~= v.mlo_instances[k]);
    }
    assert(got.ytd_by_name =~= v.ytd_by_name);
    assert(got.archetype_txd =~= v.archetype_txd);
    assert(got.archetype_box =~= v.archetype_box);
    assert(got.resident_textures =~= v.resident_textures);
    assert(got.parent_txds =~= v.parent_txds);
    assert(got.mlo_ytyp =~= v.mlo_ytyp);
    assert(got.mlo_instances =~= v.mlo_instances);
    assert(got.ybn_by_name =~= v.ybn_by_name);
    assert(got.drawable_by_name =~= v.drawable_by_name);
    assert(got.archetype_asset =~= v.archetype_asset);
}

} // verus!
