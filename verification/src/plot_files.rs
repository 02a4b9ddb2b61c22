//! The files that a plan is drawn from, parsed: type files, maps and navmesh
//! cells, out of their bytes.
use vstd::prelude::*;
use vstd::string::*;
use crate::cells::{cell_in, read_navmesh, Cell, CellView};
use crate::formats::{
    instance_views, interior_views, map_entities, map_instances, parse_ymap_entities,
    parse_ymap_mlo_instances, parse_ytyp, parse_ytyp_interiors, types_in, Archetype, EntityBits,
    InstanceBits, InstanceView, InteriorBits, InteriorView, TypesView,
};
use crate::plot_inputs::{
    dedupe_placements, is_escrowed, skipping_text, survives, survivors, FileKind, PlotFile,
    PlotSources, SkipReason, ESCROW_REASON,
};

verus! {

// ── Parts of a file ─────────────────────────────────────────────────────────

/// The hash is the one that is asked for, or none is.
pub open spec fn is_asked(only: Option<u32>, hash: u32) -> bool {
    only is None || only == Some(hash)
}

fn asked(only: Option<u32>, hash: u32) -> (r: bool)
    ensures
        r == is_asked(only, hash),
{
    match only {
        Some(h) => h == hash,
        None => true,
    }
}

/// The entities of the archetype that is asked for.
pub open spec fn asked_entities(list: Seq<EntityBits>, only: Option<u32>) -> Seq<EntityBits>
    decreases list.len(),
{
    if list.len() == 0 {
        Seq::empty()
    } else {
        let before = asked_entities(list.drop_last(), only);
        if is_asked(only, list.last().archetype_hash) {
            before.push(list.last())
        } else {
            before
        }
    }
}

/// The placed interiors of the archetype that is asked for.
pub open spec fn asked_instances(list: Seq<InstanceView>, only: Option<u32>) -> Seq<InstanceView>
    decreases list.len(),
{
    if list.len() == 0 {
        Seq::empty()
    } else {
        let before = asked_instances(list.drop_last(), only);
        if is_asked(only, list.last().archetype_hash) {
            before.push(list.last())
        } else {
            before
        }
    }
}

/// The declared interiors of the name that is asked for.
pub open spec fn asked_interiors(list: Seq<InteriorView>, only: Option<u32>) -> Seq<InteriorView>
    decreases list.len(),
{
    if list.len() == 0 {
        Seq::empty()
    } else {
        let before = asked_interiors(list.drop_last(), only);
        if is_asked(only, list.last().name_hash) {
            before.push(list.last())
        } else {
            before
        }
    }
}

fn pick_entities(list: &Vec<EntityBits>, only: Option<u32>) -> (out: Vec<EntityBits>)
    ensures
        out@ == asked_entities(list@, only),
{
    let mut out: Vec<EntityBits> = Vec::new();
    let mut i: usize = 0;
    assert(list@.take(0) =~= Seq::empty());
    while i < list.len()
        invariant
            i <= list.len(),
            out@ == asked_entities(list@.take(i as int), only),
        decreases list.len() - i,
    {
        proof {
            assert(list@.take(i + 1).drop_last() =~= list@.take(i as int));
            assert(list@.take(i + 1).last() == list[i as int]);
        }
        if asked(only, list[i].archetype_hash) {
            out.push(list[i]);
        }
        i = i + 1;
    }
    assert(list@.take(list.len() as int) =~= list@);
    out
}

fn pick_instances(list: Vec<InstanceBits>, only: Option<u32>) -> (out: Vec<InstanceBits>)
    ensures
        instance_views(out@) == asked_instances(instance_views(list@), only),
{
    let ghost all = instance_views(list@);
    let mut rest = list;
    let mut out: Vec<InstanceBits> = Vec::new();
    let ghost mut n: int = 0;
    assert(all.take(0) =~= Seq::empty());
    assert(instance_views(out@) =~= Seq::empty());
    while rest.len() > 0
        invariant
            0 <= n <= all.len(),
            n + rest.len() == all.len(),
            forall|k: int| 0 <= k < rest.len() ==> (#[trigger] rest[k])@ == all[n + k],
            instance_views(out@) == asked_instances(all.take(n), only),
        decreases rest.len(),
    {
        let one = rest.remove(0);
        proof {
            assert(all.take(n + 1).drop_last() =~= all.take(n));
            assert(all.take(n + 1).last() == one@);
            n = n + 1;
        }
        if asked(only, one.archetype_hash) {
            let ghost before = instance_views(out@);
            let ghost seen = one@;
            out.push(one);
            assert(instance_views(out@) =~= before.push(seen));
        }
    }
    assert(all.take(n) =~= all);
    out
}

fn pick_interiors(list: Vec<InteriorBits>, only: Option<u32>) -> (out: Vec<InteriorBits>)
    ensures
        interior_views(out@) == asked_interiors(interior_views(list@), only),
{
    let ghost all = interior_views(list@);
    let mut rest = list;
    let mut out: Vec<InteriorBits> = Vec::new();
    let ghost mut n: int = 0;
    assert(all.take(0) =~= Seq::empty());
    assert(interior_views(out@) =~= Seq::empty());
    while rest.len() > 0
        invariant
            0 <= n <= all.len(),
            n + rest.len() == all.len(),
            forall|k: int| 0 <= k < rest.len() ==> (#[trigger] rest[k])@ == all[n + k],
            interior_views(out@) == asked_interiors(all.take(n), only),
        decreases rest.len(),
    {
        let one = rest.remove(0);
        proof {
            assert(all.take(n + 1).drop_last() =~= all.take(n));
            assert(all.take(n + 1).last() == one@);
            n = n + 1;
        }
        if asked(only, one.name_hash) {
            let ghost before = interior_views(out@);
            let ghost seen = one@;
            out.push(one);
            assert(interior_views(out@) =~= before.push(seen));
        }
    }
    assert(all.take(n) =~= all);
    out
}

// ── Maps and type files ─────────────────────────────────────────────────────

/// What a map places.
#[derive(Debug)]
pub struct PlotMap {
    pub entities: Vec<EntityBits>,
    pub instances: Vec<InstanceBits>,
}

/// A `PlotMap` with its lists.
#[verifier::ext_equal]
pub struct PlotMapView {
    pub entities: Seq<EntityBits>,
    pub instances: Seq<InstanceView>,
}

impl View for PlotMap {
    type V = PlotMapView;

    open spec fn view(&self) -> PlotMapView {
        PlotMapView { entities: self.entities@, instances: instance_views(self.instances@) }
    }
}

/// What a map places, or what is wrong with the file.
pub open spec fn map_in(data: Seq<u8>) -> Result<PlotMapView, Seq<char>> {
    match (map_entities(data), map_instances(data)) {
        (Err(e), _) => Err(e),
        (_, Err(e)) => Err(e),
        (Ok(entities), Ok(instances)) => Ok(PlotMapView { entities, instances }),
    }
}

/// Reads what a map places; with `only`, what it places of that archetype.
pub fn read_plot_map(data: &[u8], only: Option<u32>) -> (r: Result<PlotMap, String>)
    ensures
        match r {
            Ok(map) => {
                &&& map_in(data@) is Ok
                &&& map@.entities == asked_entities(map_in(data@)->Ok_0.entities, only)
                &&& map@.instances == asked_instances(map_in(data@)->Ok_0.instances, only)
            },
            Err(e) => map_in(data@) == Err::<PlotMapView, Seq<char>>(e@),
        },
{
    let entities = match parse_ymap_entities(data) {
        Ok(list) => list,
        Err(e) => return Err(e),
    };
    let instances = match parse_ymap_mlo_instances(data) {
        Ok(list) => list,
        Err(e) => return Err(e),
    };
    Ok(
        PlotMap {
            entities: pick_entities(&entities, only),
            instances: pick_instances(instances, only),
        },
    )
}

/// What a type file declares.
#[derive(Debug)]
pub struct PlotTypes {
    pub archetypes: Vec<Archetype>,
    pub interiors: Vec<InteriorBits>,
}

impl View for PlotTypes {
    type V = TypesView;

    open spec fn view(&self) -> TypesView {
        TypesView { archetypes: self.archetypes@, interiors: interior_views(self.interiors@) }
    }
}

/// Reads what a type file declares; with `only`, of its interiors only that
/// one. Every archetype stays, for the boxes of props.
pub fn read_plot_types(data: &[u8], only: Option<u32>) -> (r: Result<PlotTypes, String>)
    ensures
        match r {
            Ok(types) => {
                &&& types_in(data@) is Ok
                &&& types@.archetypes == types_in(data@)->Ok_0.archetypes
                &&& types@.interiors == asked_interiors(types_in(data@)->Ok_0.interiors, only)
            },
            Err(e) => types_in(data@) == Err::<TypesView, Seq<char>>(e@),
        },
{
    let archetypes = match parse_ytyp(data) {
        Ok(list) => list,
        Err(e) => return Err(e),
    };
    let interiors = match parse_ytyp_interiors(data) {
        Ok(list) => list,
        Err(e) => return Err(e),
    };
    Ok(PlotTypes { archetypes, interiors: pick_interiors(interiors, only) })
}

proof fn lemma_all_entities(list: Seq<EntityBits>)
    ensures
        asked_entities(list, None) == list,
    decreases list.len(),
{
    if list.len() > 0 {
        lemma_all_entities(list.drop_last());
        assert(list.drop_last().push(list.last()) =~= list);
    } else {
        assert(asked_entities(list, None) =~= list);
    }
}

proof fn lemma_all_instances(list: Seq<InstanceView>)
    ensures
        asked_instances(list, None) == list,
    decreases list.len(),
{
    if list.len() > 0 {
        lemma_all_instances(list.drop_last());
        assert(list.drop_last().push(list.last()) =~= list);
    } else {
        assert(asked_instances(list, None) =~= list);
    }
}

/// Where none is asked for, all are.
pub proof fn lemma_all_interiors(list: Seq<InteriorView>)
    ensures
        asked_interiors(list, None) == list,
    decreases list.len(),
{
    if list.len() > 0 {
        lemma_all_interiors(list.drop_last());
        assert(list.drop_last().push(list.last()) =~= list);
    } else {
        assert(asked_interiors(list, None) =~= list);
    }
}

// ── Files ───────────────────────────────────────────────────────────────────

/// What a file holds, parsed; `M` is a mesh.
pub enum PlotData<M> {
    Types(PlotTypes),
    Ymap(PlotMap),
    Navmesh(Cell),
    Mesh(M),
}

/// The data is what a file of the kind holds.
pub open spec fn is_read<M>(d: PlotData<M>, kind: FileKind, data: Seq<u8>) -> bool {
    match d {
        PlotData::Types(types) => kind == FileKind::Ytyp && types_in(data) == Ok::<
            TypesView,
            Seq<char>,
        >(types@),
        PlotData::Ymap(map) => kind == FileKind::Ymap && map_in(data) == Ok::<
            PlotMapView,
            Seq<char>,
        >(map@),
        PlotData::Navmesh(cell) => kind == FileKind::Ynv && cell_in(data) == Ok::<
            CellView,
            Seq<char>,
        >(cell@),
        PlotData::Mesh(_) => false,
    }
}

/// What is wrong with a file of the kind, if anything is.
pub open spec fn fault_of(kind: FileKind, data: Seq<u8>) -> Option<Seq<char>> {
    match kind {
        FileKind::Ytyp => match types_in(data) {
            Ok(_) => None,
            Err(e) => Some(e),
        },
        FileKind::Ymap => match map_in(data) {
            Ok(_) => None,
            Err(e) => Some(e),
        },
        FileKind::Ynv => match cell_in(data) {
            Ok(_) => None,
            Err(e) => Some(e),
        },
        FileKind::Ybn | FileKind::Ydr | FileKind::Ydd => None,
    }
}

/// The file holds a mesh.
pub open spec fn is_mesh(kind: FileKind) -> bool {
    kind == FileKind::Ybn || kind == FileKind::Ydr || kind == FileKind::Ydd
}

/// Parses a file that holds no mesh.
pub fn parse_plot_file<M>(kind: FileKind, data: &[u8]) -> (r: Option<Result<PlotData<M>, String>>)
    ensures
        r is None <==> is_mesh(kind),
        r matches Some(Ok(d)) ==> is_read(d, kind, data@) && fault_of(kind, data@) is None,
        r matches Some(Err(e)) ==> fault_of(kind, data@) == Some(e@),
{
    match kind {
        FileKind::Ytyp => Some(
            match read_plot_types(data, None) {
                Ok(types) => {
                    proof {
                        lemma_all_interiors(types_in(data@)->Ok_0.interiors);
                    }
                    Ok(PlotData::Types(types))
                },
                Err(e) => Err(e),
            },
        ),
        FileKind::Ymap => Some(
            match read_plot_map(data, None) {
                Ok(map) => {
                    proof {
                        lemma_all_entities(map_in(data@)->Ok_0.entities);
                        lemma_all_instances(map_in(data@)->Ok_0.instances);
                    }
                    Ok(PlotData::Ymap(map))
                },
                Err(e) => Err(e),
            },
        ),
        FileKind::Ynv => Some(
            match read_navmesh(data) {
                Ok(cell) => Ok(PlotData::Navmesh(cell)),
                Err(e) => Err(e),
            },
        ),
        FileKind::Ybn | FileKind::Ydr | FileKind::Ydd => None,
    }
}

/// What became of a file.
#[derive(Debug)]
pub enum Added {
    /// Its geometry is encrypted; with the line about it, where the caller
    /// named the file.
    Escrowed { report: Option<String> },
    /// It joined the plan.
    Joined,
    /// It holds a mesh, which is still to be parsed.
    Mesh,
    /// It could not be parsed, and is left out.
    LeftOut,
    /// It could not be parsed, and the caller named it.
    Failed(String),
}

/// Adds the file that holds `data`: an encrypted one is left out, and one
/// that cannot be parsed is an error when the caller named it, else one more
/// file left out.
pub fn add_file<M>(
    src: &mut PlotSources<PlotData<M>>,
    kind: FileKind,
    file: &PlotFile,
    strict: bool,
    data: &[u8],
) -> (r: Added)
    ensures
        match r {
            Added::Escrowed { report } => {
                &&& is_escrowed(data@)
                &&& report is Some <==> strict
                &&& report matches Some(line) ==> line@ == skipping_text(file.name@, ESCROW_REASON@)
                &&& final(src)@ == old(src)@.with_skip(*file, SkipReason::Escrow, strict)
            },
            Added::Mesh => !is_escrowed(data@) && is_mesh(kind) && final(src)@ == old(src)@,
            Added::Joined => {
                &&& !is_escrowed(data@)
                &&& !is_mesh(kind)
                &&& exists|d: PlotData<M>|
                    #[trigger] is_read(d, kind, data@) && final(src)@ == old(src)@.with_file(
                        kind,
                        file.name@,
                        false,
                        d,
                    )
            },
            Added::LeftOut => {
                &&& !is_escrowed(data@)
                &&& !strict
                &&& fault_of(kind, data@) is Some
                &&& final(src)@ == old(src)@.with_skip(*file, SkipReason::Unreadable, false)
            },
            Added::Failed(e) => {
                &&& !is_escrowed(data@)
                &&& strict
                &&& fault_of(kind, data@) is Some
                &&& e@ == "parsing "@ + file.path@ + ": "@ + fault_of(kind, data@)->Some_0
                &&& final(src)@ == old(src)@
            },
        },
{
    let (escrowed, report) = src.check_escrow(file, data, strict);
    if escrowed {
        return Added::Escrowed { report };
    }
    match parse_plot_file(kind, data) {
        None => Added::Mesh,
        Some(Ok(d)) => {
            src.parsed(kind, file, false, d);
            Added::Joined
        },
        Some(Err(reason)) => match src.parse_failed(file, strict, reason.as_str()) {
            Ok(()) => Added::LeftOut,
            Err(e) => Added::Failed(e),
        },
    }
}

// ── Placements ──────────────────────────────────────────────────────────────

/// The number of interiors that some maps place.
pub open spec fn instance_total(maps: Seq<PlotMapView>) -> nat
    decreases maps.len(),
{
    if maps.len() == 0 {
        0
    } else {
        instance_total(maps.drop_last()) + maps.last().instances.len()
    }
}

/// The interiors of a list that survive, where the first one of it has the
/// number `from` among all.
pub open spec fn surviving(list: Seq<InstanceView>, close: Seq<Vec<bool>>, from: int) -> Seq<InstanceView>
    decreases list.len(),
{
    if list.len() == 0 {
        Seq::empty()
    } else {
        let before = surviving(list.drop_last(), close, from);
        if survives(close, from + list.len() - 1) {
            before.push(list.last())
        } else {
            before
        }
    }
}

/// The maps with the interiors that survive, each in its map and its order.
pub open spec fn without_repeats(maps: Seq<PlotMapView>, close: Seq<Vec<bool>>) -> Seq<PlotMapView>
    decreases maps.len(),
{
    if maps.len() == 0 {
        Seq::empty()
    } else {
        let map = maps.last();
        without_repeats(maps.drop_last(), close).push(
            PlotMapView {
                entities: map.entities,
                instances: surviving(
                    map.instances,
                    close,
                    instance_total(maps.drop_last()) as int,
                ),
            },
        )
    }
}

/// The maps of a list, with their lists.
pub open spec fn map_views(list: Seq<PlotMap>) -> Seq<PlotMapView> {
    list.map_values(|m: PlotMap| m@)
}

fn keep_surviving(list: Vec<InstanceBits>, keep: &Vec<bool>, from: usize, close: &Vec<Vec<bool>>) -> (out: Vec<
    InstanceBits,
>)
    requires
        from + list.len() <= keep.len(),
        keep.len() == close.len(),
        forall|i: int| 0 <= i < close.len() ==> #[trigger] keep[i] == survives(close@, i),
    ensures
        instance_views(out@) == surviving(instance_views(list@), close@, from as int),
{
    let ghost all = instance_views(list@);
    let mut rest = list;
    let mut out: Vec<InstanceBits> = Vec::new();
    let mut n: usize = 0;
    assert(all.take(0) =~= Seq::empty());
    assert(instance_views(out@) =~= Seq::empty());
    while rest.len() > 0
        invariant
            n + rest.len() == all.len(),
            from + all.len() <= keep.len(),
            keep.len() == close.len(),
            forall|i: int| 0 <= i < close.len() ==> #[trigger] keep[i] == survives(close@, i),
            forall|k: int| 0 <= k < rest.len() ==> (#[trigger] rest[k])@ == all[n + k],
            instance_views(out@) == surviving(all.take(n as int), close@, from as int),
        decreases rest.len(),
    {
        let one = rest.remove(0);
        proof {
            assert(all.take(n + 1).drop_last() =~= all.take(n as int));
            assert(all.take(n + 1).last() == one@);
        }
        if keep[from + n] {
            let ghost before = instance_views(out@);
            let ghost seen = one@;
            out.push(one);
            assert(instance_views(out@) =~= before.push(seen));
        }
        n = n + 1;
    }
    assert(all.take(n as int) =~= all);
    out
}

proof fn lemma_totals(maps: Seq<PlotMapView>, n: int)
    requires
        0 <= n <= maps.len(),
    ensures
        instance_total(maps.take(n)) <= instance_total(maps),
    decreases maps.len(),
{
    if n < maps.len() {
        assert(maps.drop_last().take(n) =~= maps.take(n));
        lemma_totals(maps.drop_last(), n);
    } else {
        assert(maps.take(n) =~= maps);
    }
}

/// Collapses placements in one spot to the last one, where `close[i][j]` says
/// of the `i`-th and the `j`-th interior, map after map, that they are in one
/// spot. Returns the maps, and how many placements survived.
pub fn drop_repeats(maps: Vec<PlotMap>, close: &Vec<Vec<bool>>) -> (r: (Vec<PlotMap>, usize))
    requires
        close.len() == instance_total(map_views(maps@)),
        forall|i: int| 0 <= i < close.len() ==> (#[trigger] close[i]).len() == close.len(),
    ensures
        map_views(r.0@) == without_repeats(map_views(maps@), close@),
        r.1 == survivors(close@, close@.len()),
{
    let (keep, count) = dedupe_placements(close);
    let ghost all = map_views(maps@);
    let mut rest = maps;
    let mut out: Vec<PlotMap> = Vec::new();
    let mut from: usize = 0;
    let ghost mut n: int = 0;
    assert(all.take(0) =~= Seq::empty());
    assert(map_views(out@) =~= Seq::empty());
    while rest.len() > 0
        invariant
            0 <= n,
            n + rest.len() == all.len(),
            keep.len() == close.len() == instance_total(all),
            forall|i: int| 0 <= i < close.len() ==> #[trigger] keep[i] == survives(close@, i),
            forall|k: int| 0 <= k < rest.len() ==> (#[trigger] rest[k])@ == all[n + k],
            from == instance_total(all.take(n)),
            map_views(out@) == without_repeats(all.take(n), close@),
        decreases rest.len(),
    {
        let map = rest.remove(0);
        proof {
            assert(all.take(n + 1).drop_last() =~= all.take(n));
            assert(all.take(n + 1).last() == map@);
            lemma_totals(all, n + 1);
            n = n + 1;
        }
        let size: usize = map.instances.len();
        let kept = PlotMap {
            entities: map.entities,
            instances: keep_surviving(map.instances, &keep, from, close),
        };
        let ghost before = map_views(out@);
        let ghost seen = kept@;
        out.push(kept);
        assert(map_views(out@) =~= before.push(seen));
        from = from + size;
    }
    assert(all.take(n) =~= all);
    (out, count)
}

// ── Laws ────────────────────────────────────────────────────────────────────

proof fn lemma_all_survive(close: Seq<Vec<bool>>, n: nat)
    requires
        n <= close.len(),
        forall|a: int| 0 <= a < close.len() ==> #[trigger] survives(close, a),
    ensures
        survivors(close, n) == n,
    decreases n,
{
    if n > 0 {
        lemma_all_survive(close, (n - 1) as nat);
        assert(survives(close, n - 1));
    }
}

/// No two placements that survive are in one spot, so that collapsing what
/// survived once more changes nothing: `kept` are the numbers of those that
/// survived, and `again` says of them what `close` said.
pub proof fn law_collapsing_twice_changes_nothing(
    close: Seq<Vec<bool>>,
    again: Seq<Vec<bool>>,
    kept: Seq<int>,
)
    requires
        again.len() == kept.len(),
        forall|a: int| 0 <= a < kept.len() ==> 0 <= #[trigger] kept[a] < close.len(),
        forall|a: int| 0 <= a < kept.len() ==> survives(close, #[trigger] kept[a]),
        forall|a: int, b: int|
            0 <= a < b < kept.len() ==> #[trigger] kept[a] < #[trigger] kept[b],
        forall|a: int, b: int|
            0 <= a < again.len() && 0 <= b < again.len() ==> #[trigger] again[a][b]
                == close[kept[a]][kept[b]],
    ensures
        forall|a: int, b: int|
            0 <= a < b < kept.len() ==> !close[#[trigger] kept[a]][#[trigger] kept[b]],
        forall|a: int| 0 <= a < again.len() ==> #[trigger] survives(again, a),
        survivors(again, again.len()) == again.len(),
{
    assert forall|a: int, b: int| 0 <= a < b < kept.len() implies !close[#[trigger] kept[a]][#[trigger] kept[b]] by {
        assert(survives(close, kept[a]));
        assert(kept[a] < kept[b] < close.len());
        let j = kept[b];
        assert(!close[kept[a]][j]);
    }
    assert forall|a: int| 0 <= a < again.len() implies #[trigger] survives(again, a) by {
        assert forall|b: int| a < b < again.len() implies !(#[trigger] again[a][b]) by {
            assert(!close[kept[a]][kept[b]]);
        }
    }
    lemma_all_survive(again, again.len());
}

} // verus!
