//! What is gathered for a plan: inputs, files, and the shapes of props.
use vstd::prelude::*;
use crate::cells::cell_in;
use crate::commands::resource::container::word;
use crate::commands::resource::info::DrawableKind;
use crate::file_names::{extension, stem};
use crate::formats::{map_entities, map_instances, types_in, EntityBits, InstanceView, InteriorView};
use crate::hash::joaat;
use crate::index::model::{ArchetypeBox, GameIndex};
use crate::plot_files::{
    asked_entities, asked_instances, asked_interiors, fault_of, instance_total, is_mesh, map_in,
    surviving, without_repeats, PlotMapView,
};
use crate::plot_inputs::{
    all_jobs, archetype_failure, archetype_hash, bad_hash_text, drawable_count, group_line,
    ignored_text, input_job, input_kind, is_escrowed, kind_of_extension, plan_label, read_places,
    skip_groups, skipping_text, survives, survivors, too_many_text, with_skip, with_stems, Explicit,
    FileKind, GroupView, Input, InputKind, JobView, PlotFile, ReadView, SkipReason, SkippedView,
    SourcesView,
};
use crate::props::{
    asset_of, box_lookup, count_part, counted, entry_shape, first_box, folder_shape, game_member,
    lookup_of, member_of, model_kind_of, typed_box, without_detail, FolderEntry, GameFile,
    IndexState, LookupView, Member, PropOptions, PropShape, PropSources, PropStats, TypeBoxes,
};
use crate::text::{ascii_lowercase, decimal, has_text, lowercase, number};

verus! {

// ── Inputs ──────────────────────────────────────────────────────────────────

/// The kinds of files go by their extensions, each by its own.
pub proof fn law_kinds_go_by_extension(ext: Seq<char>)
    ensures
        kind_of_extension(ext) == Some(FileKind::Ynv) <==> ext == "ynv"@,
        kind_of_extension(ext) == Some(FileKind::Ybn) <==> ext == "ybn"@,
        kind_of_extension(ext) == Some(FileKind::Ymap) <==> ext == "ymap"@,
        kind_of_extension(ext) == Some(FileKind::Ytyp) <==> ext == "ytyp"@,
        kind_of_extension(ext) == Some(FileKind::Ydr) <==> ext == "ydr"@,
        kind_of_extension(ext) == Some(FileKind::Ydd) <==> ext == "ydd"@,
{
    reveal_strlit("ynv");
    reveal_strlit("ybn");
    reveal_strlit("ymap");
    reveal_strlit("ytyp");
    reveal_strlit("ydr");
    reveal_strlit("ydd");
    assert("ynv"@[1] == 'n' && "ybn"@[1] == 'b' && "ymap"@[1] == 'm' && "ytyp"@[1] == 't' && "ydr"@[1]
        == 'd' && "ydd"@[1] == 'd' && "ydr"@[2] == 'r' && "ydd"@[2] == 'd');
}

/// An input is what it is on disk, first a folder, then a file; one that is
/// not there is missing where it looks like a path, by a slash of either kind
/// or a known extension in any case, and a name otherwise.
pub proof fn law_inputs_are_told_apart(input: Input)
    ensures
        ({
            let t = input.text@;
            let low = ascii_lowercase(extension(t));
            let path = has_text(t, "/"@) || has_text(t, "\\"@) || low == "ynv"@ || low == "ybn"@ || low
                == "ymap"@ || low == "ytyp"@ || low == "ydr"@ || low == "ydd"@;
            &&& input.is_dir ==> input_kind(input) == InputKind::Folder && input_job(input)
                == (JobView::Folder { path: t })
            &&& !input.is_dir && input.is_file ==> input_kind(input) == InputKind::File && input_job(
                input,
            ) == (JobView::File { path: t, explicit: false })
            &&& !input.is_dir && !input.is_file && path ==> input_kind(input) == InputKind::Missing
                && input_job(input) == (JobView::Missing { name: t })
            &&& !input.is_dir && !input.is_file && !path ==> input_kind(input)
                == InputKind::Archetype && input_job(input) == (JobView::Archetype { name: t })
        }),
{
}

/// The jobs are the flagged files, collisions and drawables as the interior's
/// own, maps and types not; then one for each input, in order.
pub proof fn law_every_input_is_a_job(inputs: Seq<Input>, explicit: Explicit, i: int)
    ensures
        ({
            let got = all_jobs(inputs, explicit);
            let b = explicit.ybn@.len();
            let d = explicit.ydr@.len();
            let m = explicit.ymap@.len();
            let t = explicit.ytyp@.len();
            &&& got.len() == b + d + m + t + inputs.len()
            &&& 0 <= i < b ==> got[i] == (JobView::File { path: explicit.ybn@[i]@, explicit: true })
            &&& 0 <= i < d ==> got[b + i] == (JobView::File {
                path: explicit.ydr@[i]@,
                explicit: true,
            })
            &&& 0 <= i < m ==> got[b + d + i] == (JobView::File {
                path: explicit.ymap@[i]@,
                explicit: false,
            })
            &&& 0 <= i < t ==> got[b + d + m + i] == (JobView::File {
                path: explicit.ytyp@[i]@,
                explicit: false,
            })
            &&& 0 <= i < inputs.len() ==> got[b + d + m + t + i] == input_job(inputs[i])
        }),
{
}

/// A plan is named after its first input: what is on disk by its file name,
/// anything else as it is written.
pub proof fn law_plan_is_named_after_its_first_input(inputs: Seq<Input>)
    ensures
        inputs.len() == 0 ==> plan_label(inputs).len() == 0,
        inputs.len() > 0 ==> {
            let first = inputs[0];
            &&& (first.is_dir || first.is_file) && first.file_name is Some ==> plan_label(inputs)
                == first.file_name->Some_0@
            &&& (!first.is_dir && !first.is_file) || first.file_name is None ==> plan_label(inputs)
                == first.text@
        },
{
}

// ── What is passed over ─────────────────────────────────────────────────────

/// What is passed over is counted by folder and reason: one more raises the
/// count of its own group and leaves the others alone, or starts a group.
pub proof fn law_skips_are_counted_by_folder_and_reason(groups: Seq<GroupView>, s: SkippedView, i: int)
    requires
        0 <= i < groups.len(),
    ensures
        ({
            let folder = match s.folder {
                Some(f) => f,
                None => Seq::<char>::empty(),
            };
            let got = with_skip(groups, s);
            let own = groups[i].folder == folder && groups[i].reason == s.reason;
            let earlier = exists|j: int|
                0 <= j < i && (#[trigger] groups[j]).folder == folder && groups[j].reason == s.reason;
            let any = exists|j: int|
                0 <= j < groups.len() && (#[trigger] groups[j]).folder == folder && groups[j].reason
                    == s.reason;
            &&& got[i].folder == groups[i].folder
            &&& got[i].reason == groups[i].reason
            &&& own && !earlier ==> got[i].count == groups[i].count + 1
            &&& !own || earlier ==> got[i].count == groups[i].count
            &&& any ==> got.len() == groups.len()
            &&& !any ==> got == groups.push(GroupView { folder, reason: s.reason, count: 1 })
        }),
{
    let folder = match s.folder {
        Some(f) => f,
        None => Seq::<char>::empty(),
    };
    lemma_group_place(groups, folder, s.reason);
}

proof fn lemma_group_place(groups: Seq<GroupView>, folder: Seq<char>, reason: SkipReason)
    ensures
        ({
            let p = crate::plot_inputs::group_place(groups, folder, reason);
            &&& 0 <= p <= groups.len()
            &&& forall|j: int|
                0 <= j < p ==> (#[trigger] groups[j]).folder != folder || groups[j].reason != reason
            &&& p < groups.len() ==> groups[p].folder == folder && groups[p].reason == reason
        }),
    decreases groups.len(),
{
    if groups.len() > 0 && !(groups[0].folder == folder && groups[0].reason == reason) {
        let rest = groups.drop_first();
        lemma_group_place(rest, folder, reason);
        let p = crate::plot_inputs::group_place(rest, folder, reason);
        assert forall|j: int| 0 <= j < p + 1 implies (#[trigger] groups[j]).folder != folder
            || groups[j].reason != reason by {
            if j > 0 {
                assert(rest[j - 1] == groups[j]);
            }
        }
        if p < rest.len() {
            assert(rest[p] == groups[p + 1]);
        }
    }
}

/// The groups are made of what was passed over, one by one.
pub proof fn law_one_more_skip(list: Seq<SkippedView>, s: SkippedView)
    ensures
        skip_groups(Seq::empty()).len() == 0,
        skip_groups(list.push(s)) == with_skip(skip_groups(list), s),
{
    assert(list.push(s).drop_last() =~= list);
}

/// What is said of a group: how many files, in the singular for one, why, and
/// where.
pub proof fn law_groups_are_worded(g: GroupView)
    ensures
        g.reason == SkipReason::Escrow && g.count == 1 ==> group_line(g) == "skipping "@ + decimal(1)
            + " escrow-encrypted "@ + "file"@ + " (FXAP) under "@ + g.folder
            + "; their geometry cannot be drawn"@,
        g.reason == SkipReason::Escrow && g.count != 1 ==> group_line(g) == "skipping "@ + decimal(
            g.count,
        ) + " escrow-encrypted "@ + "files"@ + " (FXAP) under "@ + g.folder
            + "; their geometry cannot be drawn"@,
        g.reason == SkipReason::Unreadable && g.count == 1 ==> group_line(g) == "skipping "@ + decimal(1)
            + " unreadable "@ + "file"@ + " under "@ + g.folder,
        g.reason == SkipReason::Unreadable && g.count != 1 ==> group_line(g) == "skipping "@ + decimal(
            g.count,
        ) + " unreadable "@ + "files"@ + " under "@ + g.folder,
{
}

/// A file that was read is kept last, with all that is known of it; nothing
/// else changes.
pub proof fn law_files_are_kept_in_order<T>(
    v: SourcesView<T>,
    kind: FileKind,
    name: Seq<char>,
    explicit: bool,
    data: T,
)
    ensures
        ({
            let got = v.with_file(kind, name, explicit, data);
            &&& got.files == v.files.push(ReadView { kind, name, explicit, data })
            &&& got.names == v.names && got.skipped == v.skipped && got.notes == v.notes && got.seen
                == v.seen
        }),
{
}

/// A file that is passed over is counted under its folder, unless it was asked
/// for by name; nothing else changes.
pub proof fn law_skipped_files_are_kept_apart<T>(
    v: SourcesView<T>,
    file: PlotFile,
    reason: SkipReason,
)
    ensures
        v.with_skip(file, reason, true).skipped == v.skipped.push(SkippedView { folder: None, reason }),
        v.with_skip(file, reason, false).skipped == v.skipped.push(
            SkippedView { folder: Some(file.folder@), reason },
        ),
        forall|strict: bool|
            (#[trigger] v.with_skip(file, reason, strict)).files == v.files && v.with_skip(
                file,
                reason,
                strict,
            ).names == v.names && v.with_skip(file, reason, strict).notes == v.notes && v.with_skip(
                file,
                reason,
                strict,
            ).seen == v.seen,
{
}

/// Names go into the table in lower case, under the hash of that.
pub proof fn law_stems_are_known_in_lower_case<T>(v: SourcesView<T>, s: String, other: u32)
    ensures
        v.with_name(None) == v,
        v.with_name(Some(s)).names.contains_key(joaat(lowercase(s@))),
        v.with_name(Some(s)).names[joaat(lowercase(s@))] == lowercase(s@),
        other != joaat(lowercase(s@)) && v.names.contains_key(other) ==> v.with_name(
            Some(s),
        ).names.contains_key(other) && v.with_name(Some(s)).names[other] == v.names[other],
        v.with_name(Some(s)).files == v.files && v.with_name(Some(s)).skipped == v.skipped
            && v.with_name(Some(s)).notes == v.notes && v.with_name(Some(s)).seen == v.seen,
{
}

/// The stems of all files of a folder are known.
pub proof fn law_one_more_stem<T>(v: SourcesView<T>, files: Seq<PlotFile>, file: PlotFile)
    ensures
        with_stems(v, Seq::empty()) == v,
        with_stems(v, files.push(file)) == with_stems(v, files).with_name(file.stem),
{
    assert(files.push(file).drop_last() =~= files);
}

/// An archetype that is drawn is known by its name, and where it is placed
/// more than once that is noted.
pub proof fn law_repeated_placements_are_noted<T>(
    v: SourcesView<T>,
    hash: u32,
    name: Seq<char>,
    placements: nat,
)
    ensures
        ({
            let got = v.with_archetype(hash, name, placements);
            &&& got.names == v.names.insert(hash, lowercase(name))
            &&& got.files == v.files && got.skipped == v.skipped && got.seen == v.seen
            &&& placements <= 1 ==> got.notes == v.notes
            &&& placements > 1 ==> got.notes == v.notes.push(
                decimal(placements) + " placements in the game, drawing the first"@,
            )
        }),
{
}

/// The wording of what is ignored, passed over or refused.
pub proof fn law_refusals_are_worded(name: Seq<char>, why: Seq<char>, n: nat)
    ensures
        ignored_text(name) == name
            + ": not a file `plot` can draw (.ynv .ybn .ymap .ytyp .ydr .ydd); ignored"@,
        skipping_text(name, why) == "skipping "@ + name + ": "@ + why,
        too_many_text(n) == decimal(n)
            + " drawables in folder (200 or more are left out);              pass the ones to draw with --ydr"@,
        bad_hash_text(name) == "'"@ + name + "' is not a 32-bit hex hash"@,
{
}

/// A file is encrypted for another server when it starts with that mark.
pub proof fn law_escrow_is_told_by_its_mark(data: Seq<u8>)
    ensures
        is_escrowed(data) <==> data.len() >= 4 && word(data, 0) == 'F' as u32 + 0x100 * ('X' as u32)
            + 0x1_0000 * ('A' as u32) + 0x100_0000 * ('P' as u32),
{
}

/// The drawables of a folder are counted by extension in any case; where they
/// are left out, every other file is still read, in order.
pub proof fn law_drawables_of_a_folder(files: Seq<PlotFile>, file: PlotFile)
    ensures
        drawable_count(Seq::empty()) == 0,
        read_places(Seq::empty(), true).len() == 0,
        read_places(Seq::empty(), false).len() == 0,
        ({
            let low = lowercase(file.extension@);
            let drawable = low == "ydr"@ || low == "ydd"@;
            &&& drawable_count(files.push(file)) == drawable_count(files) + (if drawable {
                1int
            } else {
                0
            })
            &&& read_places(files.push(file), false) == read_places(files, false).push(
                files.len() as int,
            )
            &&& read_places(files.push(file), true) == (if drawable {
                read_places(files, true)
            } else {
                read_places(files, true).push(files.len() as int)
            })
        }),
{
    assert(files.push(file).drop_last() =~= files);
}

/// The limits and fixed words of a search: two hundred drawables are too many
/// for a folder, sixty-four parents are the most that are climbed.
pub proof fn law_limits()
    ensures
        crate::plot_inputs::MAX_FOLDER_DRAWABLES == 200,
        crate::index::lookup::MAX_HOPS == 64,
        crate::plot_inputs::ESCROW_REASON@
            == "FiveM escrow-encrypted (FXAP); its geometry cannot be drawn"@,
        crate::index::lookup::LEGACY_FILE@ == "index.bin"@,
        crate::commands::nav_build::PROP_HEADER@
            == "prop                                       height    area     z (world)  decision"@,
{
}

/// An archetype is named by its name in any case, or by its hash behind "0x".
pub proof fn law_archetypes_are_named(name: Seq<char>)
    ensures
        "0x"@.is_prefix_of(name) || "0X"@.is_prefix_of(name) ==> match archetype_hash(name) {
            Some(h) => number(name.skip(2), 16, 0xffff_ffff) == Some(h as nat),
            None => number(name.skip(2), 16, 0xffff_ffff) is None,
        },
        !"0x"@.is_prefix_of(name) && !"0X"@.is_prefix_of(name) ==> archetype_hash(name) == Some(
            joaat(lowercase(name)),
        ),
{
}

/// An archetype is refused when its hash cannot be read, when there is no
/// index, or when the index has no such interior; and only then.
pub proof fn law_archetypes_are_refused(name: Seq<char>, index: GameIndex)
    ensures
        archetype_hash(name) is None ==> archetype_failure(name, Some(index)) == Some(
            bad_hash_text(name),
        ) && archetype_failure(name, None) == Some(bad_hash_text(name)),
        archetype_hash(name) is Some ==> archetype_failure(name, None) == Some(
            "'"@ + name
                + "' is not a file or folder; resolving a vanilla interior by name needs --exe or GTAV_PATH so the game index can be used"@,
        ),
        archetype_hash(name) matches Some(h) ==> (archetype_failure(name, Some(index)) is None <==>
            index@.mlo_ytyp.contains_key(h)),
        archetype_hash(name) matches Some(h) ==> !index@.mlo_ytyp.contains_key(h) ==> archetype_failure(
            name,
            Some(index),
        ) == Some("no interior archetype named '"@ + name + "' in the game index"@),
{
}

// ── Placements ──────────────────────────────────────────────────────────────

/// A placement survives exactly when no later one is close to it; survivors are
/// counted.
pub proof fn law_last_of_close_placements_survives(close: Seq<Vec<bool>>, n: nat)
    ensures
        survivors(close, 0) == 0,
        survivors(close, n + 1) == survivors(close, n) + (if forall|j: int|
            n < j < close.len() ==> !(#[trigger] close[n as int][j]) {
            1int
        } else {
            0
        }),
{
}

/// Of a list of placements those stay that survive, counted on from the maps
/// before.
pub proof fn law_surviving_placements_stay(
    list: Seq<InstanceView>,
    one: InstanceView,
    close: Seq<Vec<bool>>,
    from: int,
)
    ensures
        surviving(Seq::empty(), close, from).len() == 0,
        surviving(list.push(one), close, from) == (if survives(close, from + list.len()) {
            surviving(list, close, from).push(one)
        } else {
            surviving(list, close, from)
        }),
{
    assert(list.push(one).drop_last() =~= list);
}

/// Each map keeps its entities, and of its placements those that survive; all
/// placements of all maps are numbered through.
pub proof fn law_maps_keep_their_entities(
    maps: Seq<PlotMapView>,
    map: PlotMapView,
    close: Seq<Vec<bool>>,
)
    ensures
        without_repeats(Seq::empty(), close).len() == 0,
        instance_total(Seq::empty()) == 0,
        instance_total(maps.push(map)) == instance_total(maps) + map.instances.len(),
        ({
            let got = without_repeats(maps.push(map), close);
            &&& got.drop_last() == without_repeats(maps, close)
            &&& got.last().entities == map.entities
            &&& got.last().instances == surviving(map.instances, close, instance_total(maps) as int)
        }),
{
    assert(maps.push(map).drop_last() =~= maps);
    assert(without_repeats(maps.push(map), close).drop_last() =~= without_repeats(maps, close));
}

/// Where one archetype is asked for, its entities, placements and interiors
/// stay and no others; where none is, all stay.
pub proof fn law_only_what_is_asked_for_stays(
    entities: Seq<EntityBits>,
    entity: EntityBits,
    instances: Seq<InstanceView>,
    instance: InstanceView,
    interiors: Seq<InteriorView>,
    interior: InteriorView,
    hash: u32,
)
    ensures
        asked_entities(entities.push(entity), None) == asked_entities(entities, None).push(entity),
        asked_entities(entities.push(entity), Some(hash)) == (if entity.archetype_hash == hash {
            asked_entities(entities, Some(hash)).push(entity)
        } else {
            asked_entities(entities, Some(hash))
        }),
        asked_instances(instances.push(instance), None) == asked_instances(instances, None).push(
            instance,
        ),
        asked_instances(instances.push(instance), Some(hash)) == (if instance.archetype_hash == hash {
            asked_instances(instances, Some(hash)).push(instance)
        } else {
            asked_instances(instances, Some(hash))
        }),
        asked_interiors(interiors.push(interior), None) == asked_interiors(interiors, None).push(
            interior,
        ),
        asked_interiors(interiors.push(interior), Some(hash)) == (if interior.name_hash == hash {
            asked_interiors(interiors, Some(hash)).push(interior)
        } else {
            asked_interiors(interiors, Some(hash))
        }),
{
    assert(entities.push(entity).drop_last() =~= entities);
    assert(instances.push(instance).drop_last() =~= instances);
    assert(interiors.push(interior).drop_last() =~= interiors);
}

/// A map is read when both its entities and its placements are; the fault of
/// the entities comes first. Each kind of file has the fault of its own reader,
/// and meshes have none here.
pub proof fn law_faults_are_those_of_the_reader(data: Seq<u8>)
    ensures
        map_entities(data) matches Err(e) ==> map_in(data) == Err::<PlotMapView, Seq<char>>(e),
        map_entities(data) is Ok ==> (map_instances(data) matches Err(e) ==> map_in(data) == Err::<
            PlotMapView,
            Seq<char>,
        >(e)),
        map_entities(data) matches Ok(a) ==> map_instances(data) matches Ok(b) ==> map_in(data) == Ok::<
            PlotMapView,
            Seq<char>,
        >(PlotMapView { entities: a, instances: b }),
        fault_of(FileKind::Ytyp, data) is None <==> types_in(data) is Ok,
        fault_of(FileKind::Ymap, data) is None <==> map_in(data) is Ok,
        fault_of(FileKind::Ynv, data) is None <==> cell_in(data) is Ok,
        types_in(data) matches Err(e) ==> fault_of(FileKind::Ytyp, data) == Some(e),
        map_in(data) matches Err(e) ==> fault_of(FileKind::Ymap, data) == Some(e),
        cell_in(data) matches Err(e) ==> fault_of(FileKind::Ynv, data) == Some(e),
        is_mesh(FileKind::Ybn) && is_mesh(FileKind::Ydr) && is_mesh(FileKind::Ydd),
        !is_mesh(FileKind::Ytyp) && !is_mesh(FileKind::Ymap) && !is_mesh(FileKind::Ynv),
        forall|k: FileKind| #[trigger] is_mesh(k) ==> fault_of(k, data) is None,
{
}

// ── Props ───────────────────────────────────────────────────────────────────

/// The mark of a level of detail at the start of a name is taken off, one of
/// the three and once.
pub proof fn law_detail_is_taken_off(s: Seq<char>)
    ensures
        "hi@"@.is_prefix_of(s) || "ma@"@.is_prefix_of(s) || "lo@"@.is_prefix_of(s) ==> without_detail(s)
            == s.skip(3),
        !"hi@"@.is_prefix_of(s) && !"ma@"@.is_prefix_of(s) && !"lo@"@.is_prefix_of(s)
            ==> without_detail(s) == s,
{
}

/// A member of a dictionary is found by its hash or by that of its name in
/// lower case: the first that fits.
pub proof fn law_first_fitting_member(members: Seq<Member>, archetype: u32)
    ensures
        match member_of(members, archetype) {
            Some(i) => 0 <= i < members.len() && (members[i].name_hash == archetype || joaat(
                lowercase(members[i].name@),
            ) == archetype) && forall|j: int|
                0 <= j < i ==> (#[trigger] members[j]).name_hash != archetype && joaat(
                    lowercase(members[j].name@),
                ) != archetype,
            None => forall|j: int|
                0 <= j < members.len() ==> (#[trigger] members[j]).name_hash != archetype && joaat(
                    lowercase(members[j].name@),
                ) != archetype,
        },
    decreases members.len(),
{
    if members.len() > 0 {
        let front = members.drop_last();
        law_first_fitting_member(front, archetype);
        assert(forall|j: int| 0 <= j < front.len() ==> front[j] == members[j]);
        assert(members.last() == members[members.len() - 1]);
    }
}

/// A drawable of the folder is taken by the name of its file, without its mark
/// of detail, and then as a whole; failing that, by a member of it.
pub proof fn law_drawables_are_taken_by_name_or_member(
    entry: FolderEntry,
    place: usize,
    archetype: u32,
)
    requires
        entry.members@.len() <= usize::MAX,
    ensures
        ({
            let got = entry_shape(entry, place as int, archetype);
            let own = joaat(without_detail(lowercase(stem(entry.name@)))) == archetype;
            &&& own ==> got == Some(PropShape::Folder { entry: place, member: None })
            &&& !own ==> match member_of(entry.members@, archetype) {
                Some(m) => got == Some(PropShape::Folder { entry: place, member: Some(m as usize) }),
                None => got is None,
            }
        }),
{
}

/// The first drawable of the folder that fits is the one.
pub proof fn law_first_fitting_drawable(entries: Seq<FolderEntry>, archetype: u32)
    ensures
        match folder_shape(entries, archetype) {
            Some(s) => exists|i: int|
                0 <= i < entries.len() && entry_shape(#[trigger] entries[i], i, archetype) == Some(s)
                    && forall|j: int|
                    0 <= j < i ==> entry_shape(#[trigger] entries[j], j, archetype) is None,
            None => forall|j: int|
                0 <= j < entries.len() ==> entry_shape(#[trigger] entries[j], j, archetype) is None,
        },
    decreases entries.len(),
{
    if entries.len() > 0 {
        let front = entries.drop_last();
        law_first_fitting_drawable(front, archetype);
        assert(forall|j: int| 0 <= j < front.len() ==> front[j] == entries[j]);
        assert(entries.last() == entries[entries.len() - 1]);
        match folder_shape(front, archetype) {
            Some(s) => {
                let i = choose|i: int|
                    0 <= i < front.len() && entry_shape(#[trigger] front[i], i, archetype) == Some(s)
                        && forall|j: int|
                        0 <= j < i ==> entry_shape(#[trigger] front[j], j, archetype) is None;
                assert(entry_shape(entries[i], i, archetype) == Some(s));
                assert forall|j: int| 0 <= j < i implies entry_shape(
                    #[trigger] entries[j],
                    j,
                    archetype,
                ) is None by {
                    assert(front[j] == entries[j]);
                }
            },
            None => {
                assert forall|j: int| 0 <= j < front.len() implies entry_shape(
                    #[trigger] entries[j],
                    j,
                    archetype,
                ) is None by {
                    assert(front[j] == entries[j]);
                }
            },
        }
    }
}

/// The box of an archetype is the first that any type file gives it.
pub proof fn law_first_box_of_an_archetype(
    list: Seq<(u32, ArchetypeBox)>,
    one: (u32, ArchetypeBox),
    types: Seq<TypeBoxes>,
    file: TypeBoxes,
    archetype: u32,
)
    ensures
        first_box(Seq::empty(), archetype) is None,
        first_box(list, archetype) is Some ==> first_box(list.push(one), archetype) == first_box(
            list,
            archetype,
        ),
        first_box(list, archetype) is None ==> first_box(list.push(one), archetype) == (if one.0
            == archetype {
            Some(one.1)
        } else {
            None
        }),
        typed_box(Seq::empty(), archetype) is None,
        typed_box(types, archetype) is Some ==> typed_box(types.push(file), archetype) == typed_box(
            types,
            archetype,
        ),
        typed_box(types, archetype) is None ==> typed_box(types.push(file), archetype) == first_box(
            file.archetypes@,
            archetype,
        ),
{
    assert(list.push(one).drop_last() =~= list);
    assert(types.push(file).drop_last() =~= types);
}

/// A prop without a model is a box: by the types of the folder, else by the
/// game's index, where that may be used; else a mark.
pub proof fn law_props_without_a_model_are_boxes<'a>(
    options: PropOptions,
    types: Seq<TypeBoxes>,
    index: IndexState<'a>,
    archetype: u32,
    over_budget: bool,
)
    ensures
        ({
            let got = box_lookup(options, types, index, archetype, over_budget);
            let mark = LookupView::Found { shape: PropShape::Mark, over_budget };
            match typed_box(types, archetype) {
                Some(b) => got == (LookupView::Found { shape: PropShape::Bounds(b), over_budget }),
                None => {
                    &&& !options.use_game ==> got == mark
                    &&& options.use_game && index is Unknown ==> got == LookupView::NeedIndex
                    &&& options.use_game && index is Absent ==> got == mark
                    &&& options.use_game ==> (index matches IndexState::Loaded(i) ==> got == (
                    if i@.archetype_box.contains_key(archetype) {
                        LookupView::Found {
                            shape: PropShape::Bounds(i@.archetype_box[archetype]),
                            over_budget,
                        }
                    } else {
                        mark
                    }))
                },
            }
        }),
{
}

/// A prop is looked for in the folder first, then in the game; a mark, and
/// nothing else, where none is to be drawn; a box once the budget is spent.
pub proof fn law_props_are_looked_for_in_turn<'a>(
    options: PropOptions,
    models: nat,
    sources: PropSources,
    index: IndexState<'a>,
    file: GameFile<'a>,
    archetype: u32,
)
    ensures
        ({
            let got = lookup_of(options, models, sources, index, file, archetype);
            let types = sources.types@;
            let room = options.draw && models < options.budget;
            let own = folder_shape(sources.drawables@, archetype);
            let as_box = box_lookup(options, types, index, archetype, false);
            &&& !options.draw ==> got == (LookupView::Found {
                shape: PropShape::Mark,
                over_budget: false,
            })
            &&& options.draw && models >= options.budget ==> got == box_lookup(
                options,
                types,
                index,
                archetype,
                true,
            )
            &&& room ==> (own matches Some(shape) ==> got == (LookupView::Found {
                shape,
                over_budget: false,
            }))
            &&& room && own is None && !options.use_game ==> got == as_box
            &&& room && own is None && options.use_game && index is Unknown ==> got
                == LookupView::NeedIndex
            &&& room && own is None && options.use_game && index is Absent ==> got == as_box
            &&& room && own is None && options.use_game ==> (index matches IndexState::Loaded(i) ==> {
                let model = asset_of(*i, archetype).model;
                let kind = asset_of(*i, archetype).kind;
                &&& !i@.drawable_by_name.contains_key(model) ==> got == as_box
                &&& i@.drawable_by_name.contains_key(model) && file is Unread ==> got == (
                LookupView::NeedFile { model, loc: i@.drawable_by_name[model] })
                &&& i@.drawable_by_name.contains_key(model) && file is Failed ==> got == as_box
                &&& i@.drawable_by_name.contains_key(model) ==> (file matches GameFile::Members(list)
                    ==> got == (LookupView::Found {
                    shape: PropShape::Game { model, member: game_member(kind, list@, archetype) },
                    over_budget: false,
                }))
            })
        }),
{
}

/// The model of an archetype is the one that the index gives, else a drawable
/// of its own name.
pub proof fn law_models_of_archetypes(i: GameIndex, archetype: u32)
    ensures
        i@.archetype_asset.contains_key(archetype) ==> asset_of(i, archetype)
            == i@.archetype_asset[archetype],
        !i@.archetype_asset.contains_key(archetype) ==> asset_of(i, archetype).kind == 2 && asset_of(
            i,
            archetype,
        ).model == archetype,
{
}

/// Of a dictionary, or a file of several, the fitting member is drawn, else the
/// first; any other file is drawn as a whole.
pub proof fn law_members_of_game_files(kind: u32, members: Seq<Member>, archetype: u32)
    ensures
        kind != 3 && members.len() <= 1 ==> game_member(kind, members, archetype) is None,
        kind == 3 || members.len() > 1 ==> game_member(kind, members, archetype) == (match member_of(
            members,
            archetype,
        ) {
            Some(m) => Some(m as usize),
            None => Some(0usize),
        }),
{
}

/// Models go by their extensions, each by its own.
pub proof fn law_models_go_by_extension(ext: Seq<char>)
    ensures
        model_kind_of(ext) == Some(DrawableKind::Ydr) <==> ext == "ydr"@,
        model_kind_of(ext) == Some(DrawableKind::Ydd) <==> ext == "ydd"@,
        model_kind_of(ext) == Some(DrawableKind::Yft) <==> ext == "yft"@,
{
    reveal_strlit("ydr");
    reveal_strlit("ydd");
    reveal_strlit("yft");
    assert("ydr"@[2] == 'r' && "ydd"@[2] == 'd' && "yft"@[1] == 'f' && "ydr"@[1] == 'd' && "ydd"@[1]
        == 'd');
}

/// Each prop counts once in all and once by its shape; one beyond the budget
/// counts as such too.
pub proof fn law_props_are_counted_by_shape(stats: PropStats, shape: PropShape, over_budget: bool)
    requires
        stats.archetypes < usize::MAX,
        stats.from_folder < usize::MAX,
        stats.from_game < usize::MAX,
        stats.boxes < usize::MAX,
        stats.unresolved < usize::MAX,
        stats.over_budget < usize::MAX,
    ensures
        ({
            let got = counted(stats, shape, over_budget);
            &&& got.archetypes == stats.archetypes + 1
            &&& got.from_folder - stats.from_folder == (if shape is Folder {
                1int
            } else {
                0
            })
            &&& got.from_game - stats.from_game == (if shape is Game {
                1int
            } else {
                0
            })
            &&& got.boxes - stats.boxes == (if shape is Bounds {
                1int
            } else {
                0
            })
            &&& got.unresolved - stats.unresolved == (if shape is Mark {
                1int
            } else {
                0
            })
            &&& got.over_budget - stats.over_budget == (if over_budget {
                1int
            } else {
                0
            })
        }),
{
}

/// The counts are worded each by its own, in this order; those of nothing are
/// left out.
pub proof fn law_prop_counts_are_worded(s: PropStats, n: usize, what: Seq<char>)
    ensures
        count_part(0, what).len() == 0,
        n > 0 ==> count_part(n, what) == seq![decimal(n as nat) + what],
        s.from_folder > 0 ==> s.parts().contains(decimal(s.from_folder as nat) + " from folder"@),
        s.from_game > 0 ==> s.parts().contains(decimal(s.from_game as nat) + " from game"@),
        s.boxes > 0 ==> s.parts().contains(decimal(s.boxes as nat) + " as boxes"@),
        s.unresolved > 0 ==> s.parts().contains(decimal(s.unresolved as nat) + " unresolved"@),
        s.over_budget > 0 ==> s.parts().contains(
            decimal(s.over_budget as nat) + " over --props budget"@,
        ),
        s.parts() == count_part(s.from_folder, " from folder"@) + (count_part(
            s.from_game,
            " from game"@,
        ) + (count_part(s.boxes, " as boxes"@) + (count_part(s.unresolved, " unresolved"@) + count_part(
            s.over_budget,
            " over --props budget"@,
        )))),
{
    let a = count_part(s.from_folder, " from folder"@);
    let b = count_part(s.from_game, " from game"@);
    let c = count_part(s.boxes, " as boxes"@);
    let d = count_part(s.unresolved, " unresolved"@);
    let e = count_part(s.over_budget, " over --props budget"@);
    let all = s.parts();
    assert(all =~= a + (b + (c + (d + e))));
    if s.from_folder > 0 {
        assert(all[0] == a[0]);
    }
    if s.from_game > 0 {
        assert(all[a.len() as int] == b[0]);
    }
    if s.boxes > 0 {
        assert(all[(a.len() + b.len()) as int] == c[0]);
    }
    if s.unresolved > 0 {
        assert(all[(a.len() + b.len() + c.len()) as int] == d[0]);
    }
    if s.over_budget > 0 {
        assert(all[(a.len() + b.len() + c.len() + d.len()) as int] == e[0]);
    }
}

} // verus!
