//! What belongs on a plan: inputs, props, placement, rooms and captions.
use std::collections::{HashMap, HashSet};

use rage::bits::Area;
use rage::commands::plot::{
    estimate_room_box, find_placement, is_interior_mesh, label, mesh_belongs_to, needs_placing, output_format, plan_exterior, plan_exteriors, plan_marks,
    plan_meshes, plan_rooms, scene_title, stacked_rooms_warning, summary, write_caption, write_warnings, EntitySet, ExteriorEntity,
    Interior, LayerArg, MarkSource, MeshInfo, OutputFormat, Place, PlacedMap, RoomInfo, RoomText, SceneFacts,
};
use rage::commands::plot_geometry::{
    box_footprint, drawn_faces, interior_neighbourhood, nav_class, rooms_unpositioned, Face, NavClass, RoomSpan,
};
use rage::commands::resource::info::DrawableKind;
use rage::formats::{Corner, PortalBits};
use rage::index::{ArchetypeBox, Asset, EntryLoc, GameIndex};
use rage::commands::nav_build::interior_props_of;
use rage::plot_files::{add_file, drop_repeats, read_plot_map, read_plot_types, Added, PlotData};
use rage::plot_inputs::{
    add_archetype, add_folder, classify, dedupe_placements, looks_like_a_path, placements_note, report_skips, resolve, too_many_drawables,
    Explicit, FileKind, Input, InputKind, Job, PlotFile, PlotSources, SkipReason, Skipped, Start, MAX_FOLDER_DRAWABLES,
};
use rage::props::{
    model_kind, stem_hash, FolderEntry, GameFile, IndexState, Lookup, Member, PropResolver, PropShape, PropSources, PropStats, TypeBoxes,
};
use rage_formats::{build_meta, from_xml, rage_joaat, NameTable, Schema};

// ── Props ───────────────────────────────────────────────────────────────────

#[test]
fn stems_hash_like_archetypes() {
    assert_eq!(stem_hash("prop_gas_pump_1a.ydr"), rage_joaat("prop_gas_pump_1a"));
    assert_eq!(stem_hash("levels/gta5/props.rpf/HI@Prop_Bench_01a.ydr"), rage_joaat("prop_bench_01a"));
}

#[test]
fn the_caption_line_lists_only_what_happened() {
    let stats = PropStats { archetypes: 5, from_folder: 2, from_game: 0, boxes: 3, unresolved: 0, over_budget: 0 };
    assert_eq!(stats.line(), "props: 2 from folder, 3 as boxes");
}

fn loc(inner: &str) -> EntryLoc {
    EntryLoc { top_archive: "C:/game/x64a.rpf".to_string(), nested_rpfs: Vec::new(), inner_path: inner.to_string() }
}

fn unit_box() -> ArchetypeBox {
    ArchetypeBox { min_x: 0, min_y: 0, min_z: 0, max_x: 1, max_y: 1, max_z: 1 }
}

fn member(name: &str) -> Member {
    Member { name: name.to_string(), name_hash: 0 }
}

fn sources() -> PropSources {
    PropSources {
        drawables: vec![
            FolderEntry { name: "hi@prop_a.ydr".to_string(), members: vec![member("shell")] },
            FolderEntry { name: "pack.ydd".to_string(), members: vec![member("x"), member("Prop_B")] },
        ],
        types: vec![TypeBoxes { archetypes: vec![(rage_joaat("prop_c"), unit_box())] }],
    }
}

#[test]
fn a_prop_is_looked_for_in_the_folder_then_the_game_then_as_a_box() {
    let s = sources();
    let mut index = GameIndex::default();
    index.drawable_by_name.insert(rage_joaat("prop_d"), loc("prop_d.ydr"));
    index.drawable_by_name.insert(77, loc("dict.ydd"));
    index.archetype_asset.insert(rage_joaat("prop_e"), Asset { kind: 3, model: 77 });
    index.archetype_box.insert(rage_joaat("prop_f"), unit_box());
    let r = PropResolver::new(true, true, 10);
    let look = |name: &str, i: &IndexState, f: &GameFile| r.lookup(&s, i, f, rage_joaat(name));
    let found = |l: Lookup| match l {
        Lookup::Found { shape, .. } => shape,
        other => panic!("{other:?}"),
    };
    let loaded = IndexState::Loaded(&index);

    assert_eq!(found(look("prop_a", &IndexState::Unknown, &GameFile::Unread)), PropShape::Folder { entry: 0, member: None });
    assert_eq!(found(look("prop_b", &IndexState::Unknown, &GameFile::Unread)), PropShape::Folder { entry: 1, member: Some(1) });
    assert!(matches!(look("prop_d", &IndexState::Unknown, &GameFile::Unread), Lookup::NeedIndex));
    match look("prop_d", &loaded, &GameFile::Unread) {
        Lookup::NeedFile { model, loc } => assert_eq!((model, loc.inner_path.as_str()), (rage_joaat("prop_d"), "prop_d.ydr")),
        other => panic!("{other:?}"),
    }
    let one = vec![member("prop_d")];
    assert_eq!(found(look("prop_d", &loaded, &GameFile::Members(&one))), PropShape::Game { model: rage_joaat("prop_d"), member: None });
    let many = vec![member("x"), member("PROP_E")];
    assert_eq!(found(look("prop_e", &loaded, &GameFile::Members(&many))), PropShape::Game { model: 77, member: Some(1) });
    assert_eq!(found(look("prop_e", &loaded, &GameFile::Failed)), PropShape::Mark);
    assert_eq!(found(look("prop_c", &IndexState::Absent, &GameFile::Unread)), PropShape::Bounds(unit_box()));
    assert_eq!(found(look("prop_f", &loaded, &GameFile::Unread)), PropShape::Bounds(unit_box()));
    assert_eq!(found(look("nowhere", &IndexState::Absent, &GameFile::Unread)), PropShape::Mark);
}

#[test]
fn the_budget_counts_distinct_models() {
    let s = sources();
    let mut r = PropResolver::new(false, true, 1);
    let (a, b) = (rage_joaat("prop_a"), rage_joaat("prop_b"));
    let first = PropShape::Folder { entry: 0, member: None };
    for _ in 0..2 {
        match r.resolve(&s, &IndexState::Absent, &GameFile::Unread, a) {
            Lookup::Found { shape, over_budget: false } => assert_eq!(shape, first, "the first shape stands"),
            other => panic!("{other:?}"),
        }
        assert_eq!(r.stats.archetypes, 1, "asking again changes no count");
    }
    assert_eq!(r.known(a), Some(first));
    assert_eq!(r.known(b), None);
    assert!(r.matched_folder.contains(&0));
    match r.resolve(&s, &IndexState::Absent, &GameFile::Unread, b) {
        Lookup::Found { shape: PropShape::Mark, over_budget: true } => {}
        other => panic!("{other:?}"),
    }
    assert_eq!(r.stats.line(), "props: 1 from folder, 1 unresolved, 1 over --props budget");
    let mut marks = PropResolver::new(true, false, 9);
    assert!(matches!(
        marks.resolve(&s, &IndexState::Unknown, &GameFile::Unread, a),
        Lookup::Found { shape: PropShape::Mark, over_budget: false }
    ));
}

// ── Inputs ──────────────────────────────────────────────────────────────────

/// The documented rule is "fewer than 200 drawables are drawn", so 200 itself
/// is already too many.
#[test]
fn the_drawable_limit_is_exclusive() {
    assert!(!too_many_drawables(MAX_FOLDER_DRAWABLES - 1));
    assert!(too_many_drawables(MAX_FOLDER_DRAWABLES));
    assert!(too_many_drawables(MAX_FOLDER_DRAWABLES + 1));
}

fn input(text: &str, is_dir: bool, is_file: bool) -> Input {
    Input { text: text.to_string(), is_dir, is_file, file_name: text.rsplit('/').next().map(str::to_string) }
}

#[test]
fn a_mistyped_path_is_not_looked_up_as_an_archetype() {
    assert_eq!(classify(&input("stream/ybn/interor.ybn", false, false)), InputKind::Missing);
    assert!(looks_like_a_path("interor.YBN") && looks_like_a_path("a\\b") && looks_like_a_path("x/y"));
    // A bare name with no separator and no resource extension is still an
    // archetype.
    assert!(!looks_like_a_path("v_int_3") && !looks_like_a_path("v_int.3"));
    assert_eq!(classify(&input("v_int_3", false, false)), InputKind::Archetype);
}

#[test]
fn flagged_files_are_read_before_the_inputs() {
    let explicit = Explicit {
        ymap: vec!["m.ymap".to_string()],
        ytyp: vec!["t.ytyp".to_string()],
        ybn: vec!["c.ybn".to_string()],
        ydr: vec!["d.ydr".to_string()],
    };
    let (label, jobs) = resolve(&vec![input("res/stream", true, false), input("v_int_3", false, false), input("x.ynv", false, false)], &explicit);
    assert_eq!(label, "stream");
    let shown: Vec<String> = jobs.iter().map(|j| match j {
        Job::File { path, explicit } => format!("{path} {explicit}"),
        Job::Folder { path } => format!("folder {path}"),
        Job::Missing { name } => format!("missing {name}"),
        Job::Archetype { name } => format!("archetype {name}"),
    }).collect();
    assert_eq!(shown, ["c.ybn true", "d.ydr true", "m.ymap false", "t.ytyp false", "folder res/stream", "archetype v_int_3", "missing x.ynv"]);
    assert_eq!(resolve(&Vec::new(), &Explicit::default()).0, "");
}

fn plot_file(path: &str) -> PlotFile {
    let name = path.rsplit('/').next().unwrap();
    let (stem, extension) = name.rsplit_once('.').unwrap_or((name, ""));
    PlotFile {
        path: path.to_string(),
        name: name.to_string(),
        stem: Some(stem.to_string()),
        extension: extension.to_string(),
        folder: path.rsplit_once('/').map_or("", |p| p.0).to_string(),
        canonical: path.to_string(),
    }
}

#[test]
fn a_file_reached_twice_is_loaded_once() {
    let mut src: PlotSources<u8> = PlotSources::new();
    let cell = plot_file("res/stream/cell.YNV");
    assert_eq!(src.start_file(&cell, true), Start::Read(FileKind::Ynv));
    src.parsed(FileKind::Ynv, &cell, true, 1);
    assert_eq!(src.start_file(&cell, false), Start::Again);
    assert_eq!(src.files.len(), 1);
    assert!(!src.files[0].1.explicit, "only meshes are placed on the caller's word");
    assert_eq!(src.names[&rage_joaat("cell")], "cell");
    assert_eq!(src.start_file(&plot_file("a.txt"), false), Start::Ignore { report: None });
    match src.start_file(&plot_file("a.txt"), true) {
        Start::Ignore { report: Some(line) } => assert!(line.starts_with("a.txt: not a file `plot` can draw"), "{line}"),
        other => panic!("{other:?}"),
    }
}

#[test]
fn folder_input_skips_escrowed_files() {
    let mut src: PlotSources<u8> = PlotSources::new();
    let mut escrowed = b"FXAP".to_vec();
    escrowed.extend(vec![0u8; 60]);
    for name in ["res/stream/prop_a.ydr", "res/stream/prop_b.ydr", "res/stream/prop_c.ydd"] {
        let f = plot_file(name);
        assert!(matches!(src.start_file(&f, false), Start::Read(_)));
        assert_eq!(src.check_escrow(&f, &escrowed, false), (true, None));
    }
    assert_eq!(src.check_escrow(&plot_file("x.ynv"), b"RSC7", false), (false, None));
    assert_eq!(report_skips(&src.skipped, 0), ["skipping 3 escrow-encrypted files (FXAP) under res/stream; their geometry cannot be drawn"]);
    assert!(src.read_failed(&plot_file("res/y.ybn"), false, "gone").is_ok());
    assert_eq!(report_skips(&src.skipped, 3), ["skipping 1 unreadable file under res"]);
}

#[test]
fn a_named_file_that_fails_is_an_error() {
    let mut src: PlotSources<u8> = PlotSources::new();
    let f = plot_file("d/x.ybn");
    assert_eq!(src.read_failed(&f, true, "gone"), Err("reading d/x.ybn: gone".to_string()));
    assert_eq!(src.parse_failed(&f, true, "bad"), Err("parsing d/x.ybn: bad".to_string()));
    assert!(src.skipped.is_empty());
    assert_eq!(src.parse_failed(&f, false, "bad"), Ok(()));
    assert_eq!(src.skipped[0].folder.as_deref(), Some("d"));
    assert_eq!(src.skip(&f, SkipReason::Escrow, true, "why"), Some("skipping x.ybn: why".to_string()));
    assert_eq!(src.skipped[1].folder, None);
    let direct = Skipped::unreadable();
    assert!(direct.folder.is_none() && direct.reason == SkipReason::Unreadable);
}

#[test]
fn a_folder_with_too_many_drawables_is_read_without_them() {
    let mut files: Vec<PlotFile> = (0..MAX_FOLDER_DRAWABLES).map(|i| plot_file(&format!("r/p{i}.ydr"))).collect();
    files.push(plot_file("r/cell.ynv"));
    let mut src: PlotSources<u8> = PlotSources::new();
    let plan = add_folder(&files, &mut src);
    assert_eq!(plan.read, [MAX_FOLDER_DRAWABLES]);
    assert!(plan.note.unwrap().starts_with("200 drawables in folder (200 or more are left out);"));
    assert_eq!(src.names.len(), MAX_FOLDER_DRAWABLES + 1, "every stem names an archetype");
    files.remove(0);
    let plan = add_folder(&files, &mut PlotSources::<u8>::new());
    assert_eq!(plan.read.len(), MAX_FOLDER_DRAWABLES);
    assert!(plan.note.is_none());
}

#[test]
fn archetype_input_without_index_explains_itself() {
    let err = add_archetype("v_int_3", &None).unwrap_err();
    assert!(err.contains("GTAV_PATH"), "{err}");
    assert!(err.contains("v_int_3"), "{err}");
    let err = add_archetype("0xnothex", &None).unwrap_err();
    assert!(err.contains("is not a 32-bit hex hash"), "{err}");
}

#[test]
fn an_archetype_is_found_through_the_index() {
    let hash = rage_joaat("v_bahama");
    let mut index = GameIndex::default();
    let err = add_archetype("v_bahama", &Some(GameIndex::default())).unwrap_err();
    assert_eq!(err, "no interior archetype named 'v_bahama' in the game index");
    index.mlo_ytyp.insert(hash, loc("i.ytyp"));
    index.mlo_instances.insert(hash, vec![loc("a.ymap"), loc("b.ymap")]);
    let index = Some(index);
    for name in ["V_Bahama", &format!("0x{hash:x}")] {
        let plan = add_archetype(name, &index).unwrap();
        assert_eq!(plan.hash, hash);
        assert_eq!(plan.types, loc("i.ytyp"));
        assert_eq!(plan.maps, [loc("a.ymap"), loc("b.ymap")]);
        assert_eq!(plan.collision, None);
    }
    assert_eq!(placements_note(1), None);
    assert_eq!(placements_note(3).unwrap(), "3 placements in the game, drawing the first");
}

/// Which of some positions are within half a metre of each other.
fn close(points: &[[f32; 3]]) -> Vec<Vec<bool>> {
    points.iter().map(|a| points.iter().map(|b| (0..3).all(|k| (a[k] - b[k]).abs() <= 0.5)).collect()).collect()
}

/// A DLC pack ships its own copy of a base-game map, so the same interior is
/// placed twice in the same spot. The later (DLC) copy is the one the game
/// loads, so it is the one kept.
#[test]
fn placements_in_the_same_spot_collapse_to_the_last_one() {
    let (keep, count) = dedupe_placements(&close(&[[100.0, 200.0, 30.0], [100.2, 200.1, 30.0]]));
    assert_eq!(count, 1);
    assert_eq!(keep, [false, true]);
}

/// A repeated interior (a garage, an apartment) is placed many times over the
/// map; those are separate placements and all of them are kept.
#[test]
fn placements_further_apart_than_half_a_metre_are_all_kept() {
    let (keep, count) = dedupe_placements(&close(&[[0.0, 0.0, 0.0], [0.0, 0.6, 0.0], [500.0, 0.0, 0.0]]));
    assert_eq!(count, 3);
    assert_eq!(keep.len(), 3);
}

/// Two maps that merely share a file name can place the interior in two
/// different spots; both are drawn.
#[test]
fn same_named_maps_placing_the_interior_elsewhere_both_survive() {
    let (keep, count) = dedupe_placements(&close(&[[0.0, 0.0, 0.0], [-1200.0, 450.0, 60.0]]));
    assert_eq!(count, 2);
    assert_eq!(keep, [true, true]);
}

/// Nothing placed is still nothing placed.
#[test]
fn no_placements_dedupe_to_none() {
    assert_eq!(dedupe_placements(&Vec::new()), (Vec::new(), 0));
}

// ── The page ────────────────────────────────────────────────────────────────

#[test]
fn a_mesh_named_after_the_archetype_is_the_interiors_own() {
    let hash = rage_joaat("denis3d_catcafe");
    assert!(mesh_belongs_to("denis3d_catcafe.ybn", hash));
    assert!(mesh_belongs_to("hi@denis3d_catcafe.ybn", hash), "a LOD prefix is still the same mesh");
    assert!(mesh_belongs_to("MA@Denis3d_CatCafe.ydr", hash), "the name is hashed lowercase");
    assert!(!mesh_belongs_to("kt1_15_0.ybn", hash), "a vanilla map chunk is world-space");
    assert!(!mesh_belongs_to("hei_kt1_rd_4.ybn", hash));

    // A file inside the game's archives is known by its inner path.
    let bahama = rage_joaat("v_bahama");
    assert!(mesh_belongs_to("levels/gta5/_citye/beverly_01/bh1_08.rpf/v_bahama.ybn", bahama));
    assert!(mesh_belongs_to("levels\\gta5\\props.rpf\\hi@v_bahama.ydr", bahama));
    assert!(!mesh_belongs_to("levels/gta5/_citye/bh1_08.rpf/bh1_08_details.ybn", bahama));
}

#[test]
fn world_space_meshes_are_reported_once_something_is_placed() {
    let hash = Some(rage_joaat("cafe"));
    assert_eq!(is_interior_mesh("x.ybn", true, None, true, "collision"), (true, None));
    assert_eq!(is_interior_mesh("cafe.ybn", false, hash, true, "collision"), (true, None));
    assert_eq!(is_interior_mesh("x.ybn", false, hash, false, "collision"), (false, None));
    let (own, report) = is_interior_mesh("x.ybn", false, hash, true, "shell");
    assert!(!own);
    assert_eq!(report.unwrap(), "x.ybn: not the interior's own shell; drawn in world space");

    let meshes = vec![
        MeshInfo { name: "cafe.ydr".to_string(), explicit: false },
        MeshInfo { name: "prop.ydr".to_string(), explicit: false },
        MeshInfo { name: "chunk.ydr".to_string(), explicit: false },
    ];
    let matched: HashSet<usize> = [1].into_iter().collect();
    let (plan, reports) = plan_meshes(&meshes, &matched, hash, true, "shell");
    let shown: Vec<(usize, bool)> = plan.iter().map(|m| (m.index, m.placed)).collect();
    assert_eq!(shown, [(0, true), (2, false)]);
    assert_eq!(reports.len(), 1);
}

fn room_text(index: usize, name: &str, z_lo: f32, z_hi: f32) -> RoomText {
    RoomText { index, name: name.to_string(), z: z_lo.to_bits(), z_lo: format!("{z_lo:.1}"), z_hi: format!("{z_hi:.1}") }
}

#[test]
fn the_stacked_rooms_warning_names_rooms_by_their_mlo_index() {
    // Room 2 was dropped for want of points to estimate it from, so the pairs'
    // numbers are past the end of the list.
    let rooms = vec![room_text(0, "limbo", 0.0, 9.0), room_text(1, "basement", 17.0, 20.5), room_text(3, "kitchen", 21.0, 24.0)];

    let warning = stacked_rooms_warning(&rooms, &vec![(1, 3), (3, 1)]).expect("a pair was given");
    assert!(warning.contains("r3 'kitchen' 21.0..24.0 over r1 'basement' 17.0..20.5"), "{warning}");
    assert!(warning.contains("and 1 more"), "{warning}");
    assert!(warning.contains("--floor-z"), "{warning}");

    assert!(stacked_rooms_warning(&rooms, &Vec::new()).is_none());
    assert!(stacked_rooms_warning(&rooms, &vec![(1, 2)]).is_none(), "a dropped room cannot be named");
}

fn corner(x: f32, y: f32, z: f32) -> Corner {
    Corner { x: x.to_bits(), y: y.to_bits(), z: z.to_bits() }
}

#[test]
fn a_rooms_box_is_estimated_from_its_props_and_portals() {
    let positions = vec![corner(1.0, 1.0, 0.0), corner(3.0, 2.0, 1.0)];
    let portals = vec![PortalBits { room_from: 1, room_to: 2, corners: vec![corner(5.0, 0.0, 0.0), corner(5.0, 4.0, 2.5)] }];

    let (min, max) = estimate_room_box(&vec![0, 1], &positions, &portals, 1).expect("two props and a portal are enough");
    assert_eq!(min, corner(1.0, 0.0, 0.0));
    assert_eq!(max, corner(5.0, 4.0, 2.5));

    // Room 2 is vouched for by the portal's two corners alone.
    assert!(estimate_room_box(&Vec::new(), &positions, &portals, 2).is_none(), "two points are not a footprint");
    assert!(estimate_room_box(&vec![0, 1, 9], &positions, &Vec::new(), 1).is_none(), "an object that is not there is no point");
    let negative = vec![corner(-1.0, f32::NAN, -2.0), corner(-3.0, 2.0, 1.0), corner(0.5, -7.0, 0.0)];
    let (min, max) = estimate_room_box(&vec![0, 1, 2], &negative, &Vec::new(), 0).unwrap();
    assert_eq!((min, max), (corner(-3.0, -7.0, -2.0), corner(0.5, 2.0, 1.0)));
}

fn room(_name: &str, min: (f32, f32, f32), max: (f32, f32, f32)) -> RoomSpan {
    RoomSpan {
        bb_min: corner(min.0, min.1, min.2),
        bb_max: corner(max.0, max.1, max.2),
        middle_x: ((min.0 + max.0) / 2.0).to_bits(),
        middle_y: ((min.1 + max.1) / 2.0).to_bits(),
        quarter_x: ((max.0 - min.0) / 2.0 / 2.0).to_bits(),
        quarter_y: ((max.1 - min.1) / 2.0 / 2.0).to_bits(),
    }
}

#[test]
fn rooms_are_unpositioned_when_every_box_is_centred_on_the_origin() {
    let limbo = room("limbo", (-100.0, -100.0, -50.0), (100.0, 100.0, 50.0));
    let half = |x: f32, y: f32| room("r", (-x, -y, 0.0), (x, y, 3.0));
    assert!(rooms_unpositioned(&vec![limbo, half(4.0, 3.0), half(9.0, 2.0)]));

    // As the cat cafe stores them: mostly exact half-extents, a few rooms
    // a little off centre but nowhere near their real position.
    let nearly = room("r10", (-2.60, -6.25, -2.21), (3.62, 6.68, 1.84));
    assert!(rooms_unpositioned(&vec![limbo, half(7.48, 7.45), nearly]));

    let placed = room("kitchen", (2.0, 1.0, 0.0), (6.0, 4.0, 3.0));
    assert!(!rooms_unpositioned(&vec![limbo, half(4.0, 3.0), placed]));
    assert!(!rooms_unpositioned(&vec![limbo, half(4.0, 3.0)]), "one room is not a pattern");
    assert!(!rooms_unpositioned(&vec![]));
}

#[test]
fn rooms_are_unpositioned_when_they_nest_inside_each_other() {
    // As v_bahama stores them: half-extents around a point that is not
    // the origin, so every room's centre sits inside the others' boxes.
    // Real rooms are side by side, never one inside the next.
    let limbo = room("limbo", (9.0, 6.0, 0.0), (11.0, 8.0, 3.0));
    let dance = room("dancefloor", (2.0, 1.0, 0.0), (18.0, 13.0, 3.0));
    let club = room("clubroom", (6.0, 4.0, 0.0), (14.0, 10.0, 3.0));
    let entry = room("entry", (8.5, 5.5, 0.0), (12.0, 9.0, 3.0));
    assert!(rooms_unpositioned(&vec![limbo, dance, club, entry]));

    // The same three rooms laid out next to each other stay as stored,
    // even though the dance floor's box overlaps the club's a little.
    let club_beside = room("clubroom", (17.0, 1.0, 0.0), (25.0, 7.0, 3.0));
    let entry_beside = room("entry", (2.0, 14.0, 0.0), (5.5, 17.5, 3.0));
    assert!(!rooms_unpositioned(&vec![limbo, dance, club_beside, entry_beside]));
}

#[test]
fn a_box_a_fortieth_of_a_metre_off_the_origin_is_still_about_it() {
    let limbo = room("limbo", (-9.0, -9.0, 0.0), (9.0, 9.0, 3.0));
    let off = |by: f32| room("r", (by, by, 0.0), (by, by, 3.0));
    assert!(rooms_unpositioned(&vec![limbo, off(0.025), off(-0.025)]));
    assert!(!rooms_unpositioned(&vec![limbo, off(0.025), off(-0.026)]));
}

#[test]
fn the_surroundings_are_those_of_the_rooms_but_the_first() {
    let rooms = vec![vec![corner(-90.0, -90.0, 0.0)], vec![corner(1.0, 2.0, 0.0), corner(3.0, -4.0, 0.0)]];
    let portals = vec![vec![corner(7.0, 0.0, 1.0)]];
    let at = corner(100.0, 100.0, 0.0);
    assert_eq!(interior_neighbourhood(&rooms, &portals, at), (corner(1.0, -4.0, 0.0), corner(7.0, 2.0, 1.0)));
    assert_eq!(interior_neighbourhood(&rooms[..1].to_vec(), &Vec::new(), at), (at, at));
    assert_eq!(interior_neighbourhood(&Vec::new(), &portals, at), (corner(7.0, 0.0, 1.0), corner(7.0, 0.0, 1.0)));
}

#[test]
fn faces_that_name_a_missing_vertex_are_left_out() {
    let faces = drawn_faces(&vec![0, 1, 2, 2, 3, 9, 1, 3, 0, 2], 4);
    assert_eq!(faces, [Face { a: 0, b: 1, c: 2 }, Face { a: 1, b: 3, c: 0 }]);
    assert!(drawn_faces(&vec![0, 1], 4).is_empty());
    let tris = box_footprint(corner(0.0, 1.0, 2.0), corner(3.0, 4.0, 5.0));
    assert_eq!(tris[0], (corner(0.0, 1.0, 2.0), corner(3.0, 1.0, 2.0), corner(3.0, 4.0, 2.0)));
    assert_eq!(tris[1], (corner(0.0, 1.0, 2.0), corner(3.0, 4.0, 2.0), corner(0.0, 4.0, 2.0)));
    assert_eq!(nav_class(true, true), NavClass::Sunk);
    assert_eq!(nav_class(false, true), NavClass::Interior);
    assert_eq!(nav_class(false, false), NavClass::Exterior);
}

#[test]
fn unpositioned_rooms_are_estimated_or_left_out() {
    let room = |has_evidence: bool| RoomInfo { name: "r".to_string(), has_evidence };
    let rooms = vec![room(false), room(true), room(false)];
    let shown = |u: bool| plan_rooms(&rooms, u).iter().map(|r| (r.index, r.estimated)).collect::<Vec<_>>();
    assert_eq!(shown(true), [(0, false), (1, true)]);
    assert_eq!(shown(false), [(0, false), (1, false), (2, false)]);
}

fn map(name: &str, instances: &[u32], entities: usize) -> PlacedMap {
    PlacedMap { name: name.to_string(), instances: instances.to_vec(), entities }
}

#[test]
fn the_instance_of_a_loaded_interior_places_it() {
    let p = find_placement(&vec![map("a", &[9], 1), map("b", &[8, 6], 2)], &vec![5, 6]);
    assert_eq!((p.place, p.mlo, p.mlo_count), (Place::Instance { map: 1, instance: 1 }, Some(1), 2));
    let p = find_placement(&vec![map("a", &[], 1), map("b", &[8], 2)], &vec![5]);
    assert_eq!((p.place, p.mlo), (Place::Instance { map: 1, instance: 0 }, Some(0)));
    let p = find_placement(&vec![map("a", &[], 0), map("b", &[], 2)], &vec![5]);
    assert_eq!(p.place, Place::Entity { map: 1 });
    let p = find_placement(&vec![map("a", &[], 3)], &Vec::new());
    assert_eq!((p.place, p.mlo), (Place::Nowhere, None), "the entities of an exterior map are drawn where they are");
}

#[test]
fn sets_that_are_switched_off_are_faded() {
    let interior = Interior {
        rooms: Vec::new(),
        entities: vec![rage_joaat("chair")],
        sets: vec![EntitySet { name_hash: 1, entities: vec![2] }, EntitySet { name_hash: 3, entities: vec![4] }],
    };
    let mut names = HashMap::new();
    names.insert(rage_joaat("chair"), "chair".to_string());
    let marks = plan_marks(&interior, &vec![3], &names, &NameTable::empty());
    let shown: Vec<(&str, bool)> = marks.iter().map(|m| (m.label.as_str(), m.faded)).collect();
    assert_eq!(shown, [("chair", false), ("hash_00000002", true), ("hash_00000004", false)]);
    assert_eq!(marks[1].source, MarkSource::SetEntity { set: 0, entity: 0 });
    let marks = plan_marks(&interior, &Vec::new(), &names, &NameTable::empty());
    assert!(marks.iter().all(|m| !m.faded), "without defaults every set is on");
}

#[test]
fn exterior_maps_are_counted_over_all_files() {
    let entity = |x: f32, is_mlo_instance: bool| ExteriorEntity { archetype_hash: 1, is_mlo_instance, position: corner(x, 0.0, 0.0) };
    let maps = vec![vec![entity(0.0, false), entity(9.0, false)], vec![entity(9.0, false)], vec![entity(0.5, false), entity(0.0, true)]];
    let area = Area { x0: (-1f32).to_bits(), y0: (-1f32).to_bits(), x1: 1f32.to_bits(), y1: 1f32.to_bits() };
    let plan = plan_exteriors(&maps, Some(area));
    assert_eq!((plan.entities, plan.drawn_maps, plan.skipped), (2, 2, 2));
    assert_eq!(plan.maps.iter().map(|m| m.drawn.clone()).collect::<Vec<_>>(), [vec![0], vec![], vec![0]]);
    let all = plan_exteriors(&maps, None);
    assert_eq!((all.entities, all.drawn_maps, all.skipped), (4, 3, 0));
}

#[test]
fn a_vanilla_interior_goes_by_the_name_that_was_given() {
    let mut src: PlotSources<u8> = PlotSources::new();
    assert_eq!(src.entry_failed("levels/a.ymap", "not there"), "skipping levels/a.ymap: not there");
    assert_eq!((src.skipped.len(), src.skipped[0].folder.clone(), src.skipped[0].reason), (1, None, SkipReason::Unreadable));
    src.archetype_read(7, "V_Bahama", 1);
    assert!(src.notes.is_empty());
    assert_eq!(src.names.get(&7).unwrap(), "v_bahama");
    src.archetype_read(7, "V_Bahama", 3);
    assert_eq!(src.notes, ["3 placements in the game, drawing the first"]);
}

#[test]
fn a_model_is_read_by_its_extension() {
    assert_eq!(model_kind("props.rpf/bench.YDR"), Ok(DrawableKind::Ydr));
    assert_eq!(model_kind("bench.ydd"), Ok(DrawableKind::Ydd));
    assert_eq!(model_kind("car.yft"), Ok(DrawableKind::Yft));
    assert_eq!(model_kind("bench.ytd"), Err("ytd is not a drawable".to_string()));
}

#[test]
fn only_the_surroundings_of_an_interior_are_drawn() {
    let e = |x: f32, is_mlo_instance: bool| ExteriorEntity { archetype_hash: 1, is_mlo_instance, position: corner(x, 0.0, 0.0) };
    let entities = vec![e(0.0, false), e(100.0, false), e(0.0, true), e(-25.0, false)];
    let area = Area { x0: (-25.0f32).to_bits(), y0: (-25.0f32).to_bits(), x1: 25.0f32.to_bits(), y1: 25.0f32.to_bits() };
    let near = plan_exterior(&entities, Some(area));
    assert_eq!((near.drawn, near.skipped), (vec![0, 3], 1));
    let all = plan_exterior(&entities, None);
    assert_eq!((all.drawn, all.skipped), (vec![0, 1, 3], 0));
}

fn facts() -> SceneFacts {
    SceneFacts {
        source: None,
        needs_placing: false,
        has_navmesh: false,
        mlo_count: 0,
        mlo_name: None,
        band: "all heights".to_string(),
        exterior_entities: 0,
        exterior_maps: 0,
        exterior_skipped: 0,
        bounded: false,
        stats: PropStats::default(),
        no_props: false,
        budget: 500,
        drawable_triangles: 0,
        estimated_rooms: false,
        skipped: Vec::new(),
        notes: Vec::new(),
    }
}

#[test]
fn plots_a_ytyp_in_local_space() {
    let f = SceneFacts { needs_placing: true, mlo_count: 1, mlo_name: Some("kitchen".to_string()), ..facts() };
    assert_eq!(write_caption(&f), ["MLO-local coordinates (no ymap given)", "all heights"]);
}

/// Several interiors and nothing to say which was meant: the plan is of the
/// first, and both the warnings and the caption say so.
#[test]
fn several_interiors_and_no_ymap_warns_which_one_is_drawn() {
    let f = SceneFacts { needs_placing: true, mlo_count: 2, mlo_name: Some("int_a".to_string()), ..facts() };
    let expected = "2 interiors loaded, drawing int_a (give the .ymap to pick one)";
    assert_eq!(write_warnings(&f), [format!("warning: {expected}")]);
    assert!(write_caption(&f).iter().any(|l| l == expected));
}

/// One interior and no map needs no such warning: nothing was chosen.
#[test]
fn a_single_interior_is_not_warned_about() {
    let f = SceneFacts { needs_placing: true, mlo_count: 1, mlo_name: Some("int_a".to_string()), ..facts() };
    assert!(write_warnings(&f).is_empty());
}

fn entity_xml(kind: &str, name: &str, x: f32, y: f32) -> String {
    format!(
        "<Item type=\"{kind}\"><archetypeName>{name}</archetypeName><flags value=\"0\"/><guid value=\"0\"/>\
         <position x=\"{x}\" y=\"{y}\" z=\"30\"/><rotation x=\"0\" y=\"0\" z=\"0\" w=\"1\"/>\
         <scaleXY value=\"1\"/><scaleZ value=\"2\"/><parentIndex value=\"-1\"/><lodDist value=\"100\"/></Item>"
    )
}

fn map_file(name: &str, entities: &[String]) -> Vec<u8> {
    let xml = format!("<CMapData><name>{name}</name><entities>{}</entities></CMapData>", entities.concat());
    build_meta(&from_xml(&xml).unwrap(), Schema::builtin()).unwrap().bytes
}

#[test]
fn plots_an_exterior_map_with_folder_props() {
    let data = map_file("paleto_props", &[
        entity_xml("CEntityDef", "test_drawable", 1000.0, 2000.0),
        entity_xml("CEntityDef", "test_drawable", 1010.0, 2000.0),
        entity_xml("CEntityDef", "prop_nowhere", 1005.0, 2005.0),
    ]);
    let mut src: PlotSources<PlotData<()>> = PlotSources::new();
    let file = plot_file("paleto_props.ymap");
    assert_eq!(src.start_file(&file, false), Start::Read(FileKind::Ymap));
    assert!(matches!(add_file(&mut src, FileKind::Ymap, &file, false, &data), Added::Joined));
    src.remember_name(&plot_file("test_drawable.ydr"));
    let PlotData::Ymap(map) = &src.files[0].1.data else { panic!("a map was read") };
    assert_eq!(map.entities[1].position, corner(1010.0, 2000.0, 30.0), "the map is in world space already");
    assert_eq!((map.entities[1].scale_xy, map.entities[1].scale_z), (1f32.to_bits(), 2f32.to_bits()));

    let entities: Vec<ExteriorEntity> = map
        .entities
        .iter()
        .map(|e| ExteriorEntity { archetype_hash: e.archetype_hash, is_mlo_instance: e.is_mlo_instance, position: e.position })
        .collect();
    let plan = plan_exteriors(&vec![entities], None);
    let sources = PropSources {
        drawables: vec![FolderEntry { name: "test_drawable.ydr".to_string(), members: Vec::new() }],
        types: Vec::new(),
    };
    let mut props = PropResolver::new(false, true, 500);
    let drawn: Vec<PropShape> = plan.maps[0]
        .drawn
        .iter()
        .map(|at| match props.resolve(&sources, &IndexState::Absent, &GameFile::Unread, map.entities[*at].archetype_hash) {
            Lookup::Found { shape, .. } => shape,
            other => panic!("{other:?}"),
        })
        .collect();
    let model = PropShape::Folder { entry: 0, member: None };
    assert_eq!(drawn, [model, model, PropShape::Mark], "the folder model should be placed at its entities");
    let named = label(&src.names, &NameTable::core(), map.entities[0].archetype_hash);
    assert_eq!(named, "test_drawable", "entity labels should name the archetype");

    let f = SceneFacts { exterior_entities: plan.entities, exterior_maps: plan.drawn_maps, stats: props.stats, ..facts() };
    let caption = write_caption(&f);
    assert_eq!(caption, ["all heights", "3 entities from 1 ymap", "props: 1 from folder, 1 unresolved"]);
}

#[test]
fn a_map_gives_what_is_asked_of_it() {
    let data = map_file("m", &[
        entity_xml("CEntityDef", "prop_a", 1.0, 0.0),
        entity_xml("CMloInstanceDef", "v_int", 2.0, 0.0),
        entity_xml("CMloInstanceDef", "v_other", 3.0, 0.0),
        entity_xml("CMloInstanceDef", "v_int", 4.0, 0.0),
    ]);
    let all = read_plot_map(&data, None).unwrap();
    assert_eq!((all.entities.len(), all.instances.len()), (4, 3));
    let one = read_plot_map(&data, Some(rage_joaat("v_int"))).unwrap();
    assert_eq!(one.entities.len(), 2);
    assert_eq!(one.instances.iter().map(|i| i.position).collect::<Vec<_>>(), [corner(2.0, 0.0, 30.0), corner(4.0, 0.0, 30.0)]);
    assert!(read_plot_map(b"no map", None).is_err());

    // The first and the last of the map after it are in one spot.
    let maps = vec![all, one];
    let mut close = vec![vec![false; 5]; 5];
    close[0][3] = true;
    close[3][0] = true;
    let (maps, count) = drop_repeats(maps, &close);
    assert_eq!(count, 4);
    assert_eq!(maps.iter().map(|m| m.instances.len()).collect::<Vec<_>>(), [2, 2]);
    assert_eq!(maps[0].instances[0].archetype_hash, rage_joaat("v_other"), "the earlier copy goes");
    assert_eq!(maps[0].entities.len(), 4, "entities are left alone");
}

const TYPES_XML: &str = r#"<CMapTypes><archetypes>
  <Item type="CBaseArchetypeDef"><lodDist value="50"/><bbMin x="-1" y="-2" z="0"/><bbMax x="1" y="2" z="3"/><name>prop_a</name></Item>
  <Item type="CMloArchetypeDef"><lodDist value="50"/><name>v_int</name>
    <entities><Item type="CEntityDef"><archetypeName>prop_a</archetypeName><position x="1" y="2" z="3"/><rotation x="0" y="0" z="0" w="1"/><scaleXY value="1"/><scaleZ value="1"/></Item></entities>
    <rooms><Item><name>limbo</name></Item><Item><name>kitchen</name><bbMin x="-4" y="-3" z="0"/><bbMax x="4" y="3" z="2"/></Item></rooms>
  </Item>
  <Item type="CMloArchetypeDef"><lodDist value="50"/><name>v_other</name></Item>
</archetypes></CMapTypes>"#;

#[test]
fn a_type_file_gives_the_interior_that_is_asked_for() {
    let data = build_meta(&from_xml(TYPES_XML).unwrap(), Schema::builtin()).unwrap().bytes;
    let all = read_plot_types(&data, None).unwrap();
    assert_eq!((all.archetypes.len(), all.interiors.len()), (3, 2));
    let one = read_plot_types(&data, Some(rage_joaat("v_int"))).unwrap();
    assert_eq!((one.archetypes.len(), one.interiors.len()), (3, 1), "every archetype stays for the prop boxes");
    let mlo = &one.interiors[0];
    assert_eq!(mlo.rooms.iter().map(|r| r.name.as_str()).collect::<Vec<_>>(), ["limbo", "kitchen"]);
    assert_eq!(mlo.rooms[1].bb_min, corner(-4.0, -3.0, 0.0));
    assert_eq!((mlo.entities[0].archetype_hash, mlo.entities[0].position), (rage_joaat("prop_a"), corner(1.0, 2.0, 3.0)));

    // The same file tells a navmesh build which props the interior holds.
    let paths = vec!["a.ytyp".to_string()];
    let props = interior_props_of(&paths, &vec![data], &HashMap::new(), rage_joaat("v_int"), &vec!["Prop_A".to_string()]).unwrap();
    assert_eq!((props.len(), props[0].name.as_str()), (1, "prop_a"));
    assert_eq!(props[0].bounds.unwrap().max_z, 3f32.to_bits());
    let err = interior_props_of(&paths, &vec![b"junk".to_vec()], &HashMap::new(), 1, &Vec::new()).unwrap_err();
    assert!(err.starts_with("parsing a.ytyp: "), "{err}");
}

#[test]
fn a_file_joins_the_plan_or_is_left_out() {
    let mut src: PlotSources<PlotData<()>> = PlotSources::new();
    let file = plot_file("x.ytyp");
    assert!(matches!(add_file(&mut src, FileKind::Ytyp, &file, false, b"junk"), Added::LeftOut));
    match add_file(&mut src, FileKind::Ytyp, &file, true, b"junk") {
        Added::Failed(e) => assert!(e.starts_with("parsing x.ytyp: "), "{e}"),
        other => panic!("{other:?}"),
    }
    assert!(matches!(add_file(&mut src, FileKind::Ytyp, &file, true, b"FXAP...."), Added::Escrowed { report: Some(_) }));
    assert!(matches!(add_file(&mut src, FileKind::Ybn, &file, true, b"mesh"), Added::Mesh));
    assert_eq!((src.files.len(), src.skipped.len()), (0, 2));
}

#[test]
fn exterior_entities_are_marks_without_models() {
    let f = SceneFacts { exterior_entities: 1, exterior_maps: 1, no_props: true, stats: PropStats { archetypes: 1, unresolved: 1, ..PropStats::default() }, ..facts() };
    assert_eq!(write_caption(&f), ["all heights", "1 entities from 1 ymap"]);
}

#[test]
fn every_caption_and_warning_has_its_cause() {
    let skip = |reason: SkipReason| Skipped { folder: None, reason };
    let f = SceneFacts {
        source: Some("m.ymap".to_string()),
        exterior_entities: 2,
        exterior_maps: 2,
        exterior_skipped: 4,
        bounded: true,
        stats: PropStats { archetypes: 2, boxes: 2, over_budget: 2, ..PropStats::default() },
        drawable_triangles: 2_000_001,
        estimated_rooms: true,
        skipped: vec![skip(SkipReason::Escrow), skip(SkipReason::Unreadable), skip(SkipReason::Unreadable)],
        notes: vec!["a note".to_string()],
        ..facts()
    };
    assert_eq!(write_caption(&f), [
        "placement: m.ymap",
        "all heights",
        "2 entities from 2 ymaps around the interior",
        "props: 2 as boxes, 2 over --props budget",
        "room boxes estimated from props and portals (ytyp boxes are unpositioned)",
        "not drawn: 1 escrow-encrypted file, 2 unreadable",
        "a note",
    ]);
    assert_eq!(write_warnings(&f), [
        "warning: 2 archetypes past --props 500; drawn as boxes or marks",
        "4 entities of the folder's exterior maps lie beyond the interior's surroundings; not drawn",
        "warning: 2000001 drawable triangles; --region, --no-props or --layers can keep the page tractable",
    ]);
    let g = SceneFacts { has_navmesh: true, needs_placing: true, ..facts() };
    assert!(write_warnings(&g)[0].contains("pass the .ymap that places it"));
    assert!(needs_placing(0, 0, 0, 1) && !needs_placing(0, 0, 0, 0));
}

#[test]
fn the_page_has_a_format_a_title_and_a_summary() {
    assert_eq!(output_format("PNG"), Ok(OutputFormat::Png));
    assert_eq!(output_format("jpeg"), Ok(OutputFormat::Jpeg));
    assert_eq!(output_format("gif").unwrap_err(), "unsupported output extension '.gif'; use .png, .jpg, .webp or .svg");
    assert_eq!(scene_title(&None, "cell", &None, "all heights"), "cell \u{2014} all heights");
    assert_eq!(scene_title(&None, "cell", &Some("0.0,0.0..1.0,1.0".to_string()), "z"), "cell \u{2014} 0.0,0.0..1.0,1.0 \u{2014} z");
    assert_eq!(scene_title(&Some("t".to_string()), "cell", &None, "z"), "t");
    assert_eq!(
        summary(620, 540, "-585.0,-1070.0..-570.0,-1055.0", &vec![(LayerArg::Rooms, 5), (LayerArg::Navmesh, 42)]),
        "620x540 px, region -585.0,-1070.0..-570.0,-1055.0; 5 rooms, 42 navmesh polys"
    );
}

/// Boxes from a number to its negative need no middle to be about the origin.
#[test]
fn symmetric_boxes_are_never_positions() {
    let limbo = room("limbo", (0.0, 0.0, 0.0), (0.0, 0.0, 0.0));
    let half = |x: f32, y: f32, z: f32| RoomSpan { middle_x: 1f32.to_bits(), middle_y: 1f32.to_bits(), ..room("r", (-x, -y, z), (x, y, z + 1.0)) };
    assert!(rooms_unpositioned(&vec![limbo, half(0.5, 3.0, 9.0), half(2.0, 0.25, -4.0)]));
    let off = RoomSpan { middle_x: 9f32.to_bits(), middle_y: 9f32.to_bits(), ..room("r", (-0.5, -0.5, 0.0), (0.75, 0.5, 1.0)) };
    assert!(!rooms_unpositioned(&vec![limbo, half(0.5, 0.25, 0.0), off]));
}
