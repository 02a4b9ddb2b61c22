//! What is printed of navmeshes, and what blocks the way.
use rage::commands::extract::{Nested, Packed};
use rage::commands::nav_build::{
    check_clip, check_floor, check_props, ignored_fragments, interior_props, judge, lower_all, prop_footprints, unnamed, BuildReport, FloorRule,
    NavProp, PropBox, PropInterior, PropRules, PropTypes, Quad, Shown, Verdict,
};
use rage::commands::navmesh::{
    cell_hash, content_flag_names, describe, find_in_archive, grid_cell_name, info_of, looks_like_pack, read_cell, run_rewrite, ybn_to_obj, ynv_to_obj, CellArgs, CellChoice,
    ExportArgs, InfoArgs, MovedPlotArgs, NavInfo, NavPoly, ObjPoly, YbnObjArgs,
};
use rage::index::ArchetypeBox;
use rage::cells::{can_write, NOT_READABLE, NOT_WRITABLE};
use rage_formats::{build_rsc7, prepare_rsc7, rage_joaat, serialize_ynv, NavEdge, NavPoly as NavPolygon, Vec3, Ynv};

#[test]
fn navmesh_plot_is_gone() {
    let err = MovedPlotArgs { rest: vec!["cell.ynv".to_string()] }.message();
    assert!(err.contains("`navmesh plot` was replaced by `rage plot`"), "{err}");
    assert!(err.contains("rage plot --help"), "{err}");
}

fn poly(interior: bool, links: &[Option<u32>]) -> NavPoly {
    NavPoly { interior, flat_ground: !interior, footpath: false, road: false, water: false, links: links.to_vec() }
}

#[test]
fn a_cell_is_described_by_its_counts() {
    let nav = NavInfo {
        area_id: 3536,
        content_flags: 3,
        bb_min: "(0.00, 0.00, 0.00)".to_string(),
        bb_max: "(1.00, 1.00, 1.00)".to_string(),
        polys: vec![poly(true, &[Some(3536), None]), poly(false, &[Some(3537), Some(3436), Some(3537)])],
        portals: 1,
        points: 2,
    };
    assert_eq!(
        describe(&nav),
        "Cell:      navmesh[108][105].ynv (area 3536), x -600..-450, y -750..-600\nFlags:     3 (Polygons, Portals)\nBounds:    (0.00, 0.00, 0.00) .. (1.00, 1.00, 1.00)\nPolygons:  2 (1 interior, 1 flat ground, 0 footpath, 0 road, 0 water)\nEdges:     5 (4 linked, 3 into other cells)\nPortals:   1\nPoints:    2\nAdjacent:  3436, 3536, 3537\n"
    );
    let alone = NavInfo { area_id: 10000, content_flags: 0, polys: Vec::new(), ..nav };
    assert!(describe(&alone).starts_with("Area:      10000 (standalone)\nFlags:     0 (none)\n"));
    assert_eq!(content_flag_names(28), "Vehicle, Unknown8, Unknown16");
    assert_eq!(grid_cell_name(99, 0).unwrap(), "navmesh[297][0].ynv");
    assert_eq!(grid_cell_name(100, 0), None);
}

#[test]
fn a_position_goes_before_an_index() {
    let a = |at: Option<&str>, index: Option<&str>| CellArgs { at: at.map(str::to_string), index: index.map(str::to_string), output: None };
    assert!(matches!(a(Some("1,2"), Some("3,4")).choice(), CellChoice::At(s) if s == "1,2"));
    assert!(matches!(a(None, Some("3,4")).choice(), CellChoice::Index(s) if s == "3,4"));
    assert!(matches!(a(None, None).choice(), CellChoice::Unnamed));
    let _ = (InfoArgs { file: String::new(), archive: None }, ExportArgs { file: String::new(), output: String::new() });
    let _ = YbnObjArgs { file: String::new(), ymap: None, output: String::new() };
}

fn file(name: &str, id: usize, nested: Nested) -> Packed {
    Packed { name: name.to_string(), path: name.to_lowercase(), is_resource: false, id, nested }
}

#[test]
fn a_cell_is_found_in_every_navmesh_pack() {
    let name = "navmesh[108][105].ynv";
    assert_eq!(cell_hash(name), rage_joaat("navmesh[108][105]"));
    let files = vec![
        file("other.rpf", 1, Nested::Files(vec![file(name, 2, Nested::Nothing)])),
        file("NavMeshes.rpf", 3, Nested::Files(vec![file("NAVMESH[108][105].YNV", 4, Nested::Nothing), file("navmesh[0][0].ynv", 5, Nested::Nothing)])),
        file(name, 6, Nested::Nothing),
    ];
    let mut hits = Vec::new();
    find_in_archive(&files, "x64a.rpf", cell_hash(name), 0, &mut hits);
    let shown: Vec<(&str, usize)> = hits.iter().map(|h| (h.place.as_str(), h.id)).collect();
    assert_eq!(shown, [("x64a.rpf:navmeshes.rpf:navmesh[108][105].ynv", 4), ("x64a.rpf:navmesh[108][105].ynv", 6)]);
    let mut deep = Vec::new();
    find_in_archive(&files, "x", cell_hash(name), 5, &mut deep);
    assert!(deep.is_empty());
}

#[test]
fn polygons_are_written_group_by_group() {
    let p = |n: usize, sunk: bool, interior: bool| ObjPoly { vertices: (0..n).map(|i| format!("{i} 0 0")).collect(), sunk, interior };
    let polys = vec![p(3, false, true), p(4, false, false), p(3, true, true), p(3, false, false)];
    let obj = ynv_to_obj(&polys, Some(3));
    assert!(obj.starts_with("# rage navmesh export\nv 0 0 0\nv 1 0 0\n"), "{obj}");
    assert!(obj.ends_with("g exterior\nf 4 5 6 7\ng interior\nf 1 2 3\ng sunk\nf 8 9 10\ng new\nf 11 12 13\n"), "{obj}");
    assert!(!ynv_to_obj(&polys, None).contains("g new"));
}

#[test]
fn triangles_are_grouped_by_material() {
    let vertices: Vec<String> = (0..9).map(|i| format!("{i} 0 0")).collect();
    let obj = ybn_to_obj(&vertices, &vec![7, 2, 7]);
    assert!(obj.ends_with("v 8 0 0\ng material_2\nf 4 5 6\ng material_7\nf 1 2 3\nf 7 8 9\n"), "{obj}");
}

fn shown(v: f32) -> Shown {
    Shown { bits: v.to_bits(), text: format!("{v:.2}") }
}

fn prop(name: &str, z_lo: f32, z_hi: f32, area: f32) -> NavProp {
    NavProp {
        name: name.to_string(),
        bounds: Some(PropBox { height: "1.00".to_string(), area: shown(area), z_lo: shown(z_lo), z_hi: shown(z_hi) }),
    }
}

#[test]
fn furniture_on_the_floor_blocks_the_way() {
    let bits = |v: f32| v.to_bits();
    let rules = PropRules {
        floor: FloorRule { floor_lo: bits(-0.5), floor_hi: bits(0.5), step_top: bits(0.3), max_area: bits(12.0) },
        forced: lower_all(&vec!["Door_Big".to_string()]),
        ignored: ignored_fragments(&vec!["RUG".to_string()]),
    };
    let props = vec![
        prop("table", 0.0, 1.0, 2.0),
        prop("door_big", 3.0, 0.1, 90.0),
        prop("door_small", 0.0, 1.0, 2.0),
        prop("rug_1", 0.0, 1.0, 2.0),
        prop("lamp", 0.51, 1.0, 2.0),
        prop("mat", 0.0, 0.29, 2.0),
        prop("hull", 0.0, 1.0, 12.1),
        prop("pin", 0.0, 1.0, 0.019),
        NavProp { name: unnamed(0xAB), bounds: None },
    ];
    let verdicts: Vec<Verdict> = props.iter().map(|p| judge(p, &rules)).collect();
    assert_eq!(verdicts, [
        Verdict::Blocked, Verdict::Forced, Verdict::IgnoredName, Verdict::IgnoredName, Verdict::OffFloor, Verdict::BelowStep, Verdict::TooBig,
        Verdict::Tiny, Verdict::Unknown,
    ]);
    assert_eq!(judge(&prop("pit", -0.51, 1.0, 2.0), &rules), Verdict::OffFloor);
    // The limits themselves are still furniture.
    assert_eq!(judge(&prop("edge", 0.5, 0.3, 12.0), &rules), Verdict::Blocked);
    assert_eq!(judge(&prop("edge", -0.5, 0.3, 0.02), &rules), Verdict::Blocked);

    let report = prop_footprints(&props, &rules);
    assert_eq!(report.blocked, [0, 1]);
    assert_eq!(report.counts.line(), "props: 2 blocked, 2 skipped by name, 1 too big, 3 not furniture height, 1 without a known archetype");
    assert_eq!(report.lines[0], format!("{:<42} {:>6} {:>7} {:>6}..{:<6}  blocked", "table", "1.00", "2.00", "0.00", "1.00"));
    assert_eq!(report.lines[8], format!("{:<42} {:>6} {:>7} {:>13}  unknown archetype (try --game-props)", "0x000000ab", "?", "?", "?"));
}

#[test]
fn the_props_of_the_placed_interior_get_names_and_boxes() {
    let sized = |n: u32| ArchetypeBox { min_x: 0, min_y: 0, min_z: 0, max_x: n, max_y: n, max_z: n };
    let interior = |name_hash: u32, entities: &[u32]| PropInterior { name_hash, entities: entities.to_vec() };
    let chair = rage_joaat("chair");
    let types = vec![
        PropTypes { archetypes: vec![(chair, sized(1))], interiors: vec![interior(1, &[9])] },
        PropTypes { archetypes: vec![(chair, sized(2))], interiors: vec![interior(7, &[chair, 5, 6]), interior(7, &[])] },
    ];
    let game = [(chair, sized(3)), (5, sized(4))].into_iter().collect();
    let props = interior_props(&types, &game, 7, &vec!["Chair".to_string()]).unwrap();
    let seen: Vec<(&str, Option<ArchetypeBox>)> = props.iter().map(|p| (p.name.as_str(), p.bounds)).collect();
    assert_eq!(seen, [("chair", Some(sized(2))), ("0x00000005", Some(sized(4))), ("0x00000006", None)]);
    assert_eq!(
        interior_props(&types, &game, 0xC0FFEE, &Vec::new()).unwrap_err(),
        "no CMloArchetypeDef with hash 0x00c0ffee (the .ymap's MLO) in the given .ytyp files"
    );
}

#[test]
fn a_build_stays_inside_its_cell() {
    let s = |v: f32| Shown { bits: v.to_bits(), text: v.to_string() };
    let quad = |x0: f32, y0: f32, x1: f32, y1: f32| Quad { x0: s(x0), y0: s(y0), x1: s(x1), y1: s(y1) };
    let cell = quad(-150.0, 0.0, 0.0, 150.0);
    assert!(check_clip(&quad(-150.0, 0.0, 0.0, 150.0), &cell).is_ok());
    assert_eq!(
        check_clip(&quad(-150.5, 1.0, -2.0, 3.0), &cell).unwrap_err(),
        "clip box -150.5,1..-2,3 leaves the cell (-150,0..0,150); build each cell separately"
    );
    assert!(check_clip(&quad(-1.0, -1.0, 0.0, 1.0), &cell).is_err());
    assert!(check_clip(&quad(-1.0, 1.0, 0.5, 1.0), &cell).is_err());
    assert!(check_clip(&quad(-1.0, 1.0, 0.0, 151.0), &cell).is_err());
    assert!(check_floor(&s(20.0), &s(20.0), &s(30.0)).is_ok());
    assert_eq!(check_floor(&s(19.5), &s(20.0), &s(30.0)).unwrap_err(), "floor z 19.5 is outside the cell's vertical range 20..30");
    assert!(check_floor(&s(30.5), &s(20.0), &s(30.0)).is_err());

    let report = BuildReport {
        grid_cells: 10, floor_cells: 9, blocked_cells: 2, free_cells: 7, rectangles: 3, sunk_polys: 1, new_polys: 4, internal_edges: 6,
    };
    assert_eq!(report.lines("0.25", 20, 24), [
        "Grid:       10 cells of 0.25 m (9 floor, 2 blocked, 7 free)",
        "Rectangles: 3",
        "Polygons:   20 before, 1 sunk, 4 added (6 internal edges linked), 24 after",
    ]);
    assert!(looks_like_pack("NavMeshes.rpf") && !looks_like_pack("props.rpf"));
}

#[test]
fn props_need_a_placement_and_maybe_the_game() {
    assert!(check_props(false, false, true, false).is_ok());
    assert_eq!(check_props(true, false, false, false), Err("--ytyp needs --ymap to place the MLO's props"));
    assert_eq!(check_props(true, true, true, false), Err("--game-props needs --exe or GTAV_PATH"));
    assert!(check_props(true, true, true, true).is_ok());
}

#[test]
fn a_cell_is_read_out_of_its_bytes() {
    let (lo, hi) = (Vec3::new(-600.0, -750.0, 0.0), Vec3::new(-450.0, -600.0, 50.0));
    let mut ynv = Ynv::new_cell(3536, lo, hi);
    let mut poly = NavPolygon::new(vec![Vec3::new(-500.0, -700.0, 10.0), Vec3::new(-490.0, -700.0, 10.0), Vec3::new(-490.0, -690.0, 10.0)]);
    poly.edges = vec![NavEdge::neighbour(3537, 4), NavEdge::NONE, NavEdge::NONE];
    poly.set_interior(true);
    ynv.polys.push(poly);
    let data = serialize_ynv(&ynv).unwrap();

    let cell = read_cell("c.ynv", &data).unwrap();
    assert_eq!((cell.header.area_id, cell.polys.len(), cell.polys[0].vertices.len()), (3536, 1, 3));
    assert_eq!(cell.header.bb_min.x, (-600f32).to_bits());
    let nav = info_of(&cell, "lo", "hi");
    assert_eq!(nav.polys[0].links, [Some(3537), None, None]);
    let text = describe(&nav);
    assert!(text.contains("Bounds:    lo .. hi\nPolygons:  1 (1 interior,"), "{text}");
    assert!(text.contains("Edges:     3 (1 linked, 1 into other cells)"), "{text}");

    assert!(read_cell("c.ynv", b"junk").unwrap_err().starts_with("parsing 'c.ynv': "));
    // A list that claims more than the file has is not read.
    let (mut system, graphics) = prepare_rsc7(&data).unwrap();
    system[0x14c..0x150].copy_from_slice(&u32::MAX.to_le_bytes());
    let greedy = build_rsc7(2, &system, &graphics);
    assert_eq!(read_cell("c.ynv", &greedy).unwrap_err(), format!("parsing 'c.ynv': {NOT_READABLE}"));
    // A box without end has no points.
    let (mut system, graphics) = prepare_rsc7(&data).unwrap();
    system[0x60..0x64].copy_from_slice(&f32::NAN.to_le_bytes());
    assert_eq!(read_cell("c.ynv", &build_rsc7(2, &system, &graphics)).unwrap_err(), format!("parsing 'c.ynv': {NOT_READABLE}"));
    // Links that are claimed and lie nowhere are none.
    let (mut system, graphics) = prepare_rsc7(&data).unwrap();
    system[0x130..0x138].copy_from_slice(&0u64.to_le_bytes());
    system[0x150..0x154].copy_from_slice(&u32::MAX.to_le_bytes());
    assert_eq!(read_cell("c.ynv", &build_rsc7(2, &system, &graphics)).unwrap().polys[0].portal_links, 0);
}

#[test]
fn a_cell_is_written_anew() {
    let (lo, hi) = (Vec3::new(-600.0, -750.0, 0.0), Vec3::new(-450.0, -600.0, 50.0));
    let corner = |x: f32| vec![Vec3::new(x, -700.0, 10.0), Vec3::new(x + 1.0, -700.0, 10.0), Vec3::new(x + 1.0, -690.0, 10.0)];
    let mut ynv = Ynv::new_cell(3536, lo, hi);
    ynv.polys.push(NavPolygon::new(corner(-500.0)));
    ynv.polys.push(NavPolygon::new(corner(-480.0)));
    ynv.polys[0].edges = vec![NavEdge::neighbour(3537, 4), NavEdge::NONE, NavEdge::neighbour(3536, 1)];
    ynv.polys[1].set_flat_ground(true);
    ynv.polys[1].portal_links = vec![0, 0];
    let data = serialize_ynv(&ynv).unwrap();
    let rewrite = run_rewrite(&data, "out.ynv").unwrap();
    assert_eq!(rewrite.note, format!("Rewrote 2 polygons: {} -> {} bytes, out.ynv", data.len(), rewrite.bytes.len()));
    let back = read_cell("out.ynv", &rewrite.bytes).unwrap();
    assert_eq!((back.header.area_id, back.polys.len(), back.polys[1].vertices.len()), (3536, 2, 3));
    let before = read_cell("c.ynv", &data).unwrap();
    assert_eq!((before.header.bb_min, before.header.bb_max), (back.header.bb_min, back.header.bb_max));
    for (a, b) in before.polys.iter().zip(&back.polys) {
        assert_eq!((a.interior, a.flat_ground, &a.ends, a.portal_links), (b.interior, b.flat_ground, &b.ends, b.portal_links));
    }
    assert_eq!((back.polys[0].ends[0], back.polys[1].portal_links), ((false, 3537), 2));
    assert!(run_rewrite(b"junk", "out.ynv").is_err());

    // The cell next to the last one has no number.
    let last = Ynv::new_cell(0, lo, hi);
    let (mut system, graphics) = prepare_rsc7(&serialize_ynv(&last).unwrap()).unwrap();
    system[0x140..0x144].copy_from_slice(&u32::MAX.to_le_bytes());
    assert_eq!(run_rewrite(&build_rsc7(2, &system, &graphics), "out.ynv").unwrap_err(), NOT_WRITABLE);

    // So many points do not fit on a page.
    let mut full = read_cell("c.ynv", &data).unwrap();
    assert!(can_write(&full));
    full.header.points = 2049;
    assert!(!can_write(&full));
    full.header.points = 0;
    full.polys[0].portal_links = 8193;
    assert!(!can_write(&full));
}
