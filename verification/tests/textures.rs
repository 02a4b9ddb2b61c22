//! The decisions behind `rage textures`.
use rage::commands::resource::drawables::write_texture_line;
use rage::commands::resource::info::{read_textures, DrawableKind};
use rage::commands::resource::parse_header;
use rage::commands::textures::{
    archived_source, build_dictionary, build_input, check_export, check_targets, classify, collect_input, encode_file, encode_target, export_names, has_extension, image_format, parse_format,
    plan_sheet, read_dds, read_dictionary, read_source, rename_note, run, run_encode, sanitize, sheet_label, texture_source, BuildInput, DictionaryBuild, EncodeFormat, EncodeTarget,
    ExportPlan, FoundFile, InputKind, Listing, Mips, SheetPlan, Tally, TextureSource,
};
use rage::formats::{describe_pixels, embedded_textures, parse_dds, read_pixels, serialize_ytd as serialize_dictionary, to_dds, Pixels, TOO_LARGE};
use rage::images::{compose_sheet, encode_image, render_texture, Picture, PictureFormat, SheetItem, NOT_WHOLE};
use rage_formats::{encode_texture, rage_joaat, serialize_ytd, YtdTexture};

#[test]
fn mips_are_auto_or_a_count() {
    assert_eq!(Mips::parse("AUTO"), Ok(Mips(None)));
    assert_eq!(Mips::parse("full"), Ok(Mips(None)));
    assert_eq!(Mips::parse("7"), Ok(Mips(Some(7))));
    for bad in ["0", "256", "", "x"] {
        assert_eq!(Mips::parse(bad).unwrap_err(), format!("'{bad}' is not 'auto' or a mip count from 1 to 255"));
    }
}

#[test]
fn formats_go_by_both_their_names() {
    assert_eq!(parse_format("DXT5"), Ok(EncodeFormat::Bc3));
    assert_eq!(parse_format("bc7"), Ok(EncodeFormat::Bc7));
    assert_eq!(parse_format("none"), Ok(EncodeFormat::Rgba8));
    assert_eq!(parse_format("png").unwrap_err(), "'png' is not one of bc1, bc3, bc4, bc5, bc7, rgba8");
}

#[test]
fn a_non_resource_positional_is_explained() {
    match run("readme.txt", "txt", true, &None) {
        ExportPlan::NotLoose { reason } => assert!(reason.contains("not a loose .ytd/.ydr/.ydd/.yft"), "{reason}"),
        other => panic!("{other:?}"),
    }
    assert!(matches!(run("a.YTD", "YTD", true, &None), ExportPlan::Loose(TextureSource::Dictionary)));
    assert!(matches!(run("a.ytd", "ytd", false, &None), ExportPlan::NotLoose { .. }));
    assert!(matches!(run("a.rpf", "rpf", true, &Some("x.ytd".to_string())), ExportPlan::Archived { .. }));
    assert_eq!(texture_source("yft"), Some(TextureSource::Drawables(DrawableKind::Yft)));
    assert_eq!(archived_source("a.txt", "txt").unwrap_err(), "'a.txt' is not a .ytd, .ydr, .ydd or .yft file");
}

#[test]
fn textures_whose_names_sanitise_alike_get_distinct_files() {
    let names: Vec<String> = ["mesh_spec", "mesh spec", "mesh/spec", "other"].iter().map(|s| s.to_string()).collect();
    let files = export_names(&names);
    assert_eq!(files, ["mesh_spec", "mesh_spec~2", "mesh_spec~3", "other"]);
    let note = rename_note(&names[1], &files[1]).unwrap();
    assert!(note.contains("is written as mesh_spec~2"), "{note}");
    assert!(rename_note(&names[0], &files[0]).is_none());
    assert_eq!(sanitize("a:b*c.d-e"), "a_b_c.d-e");
}

fn found(path: &str) -> FoundFile {
    FoundFile {
        text: path.to_string(),
        components: path.split('/').map(str::to_string).collect(),
        extension: path.rsplit_once('.').map(|p| p.1.to_string()),
    }
}

fn paths(files: &[FoundFile]) -> Vec<&str> {
    files.iter().map(|f| f.text.as_str()).collect()
}

#[test]
fn inputs_are_sorted_and_taken_once() {
    let exts = vec!["png".to_string(), "dds".to_string()];
    let mut files = Vec::new();
    let folder = Listing::Folder(vec![found("d/b.PNG"), found("d/notes.txt"), found("d/a.dds")]);
    assert_eq!(collect_input(&mut files, "d", &folder, &exts), None);
    assert_eq!(collect_input(&mut files, "d/a.dds", &Listing::File(found("d/a.dds")), &exts), None);
    assert_eq!(collect_input(&mut files, "x.txt", &Listing::File(found("x.txt")), &exts), None);
    assert_eq!(paths(&files), ["d/a.dds", "d/b.PNG", "x.txt"]);
    let empty = Listing::Folder(vec![found("e/notes.txt")]);
    assert_eq!(collect_input(&mut files, "e", &empty, &exts).unwrap(), "warning: no png/dds files in e");
    assert_eq!(collect_input(&mut files, "*.q", &Listing::Matches(Vec::new()), &exts).unwrap(), "warning: '*.q' matched nothing");
    let matched = Listing::Matches(vec![found("z.png"), found("a-b/c.png"), found("a/notes.txt"), found("a/c.png")]);
    assert_eq!(collect_input(&mut files, "*", &matched, &exts), None);
    assert_eq!(&paths(&files)[3..], ["a/c.png", "a-b/c.png", "z.png"], "paths compare component by component");
    let notes = Listing::Matches(vec![found("d/notes.txt")]);
    assert_eq!(collect_input(&mut files, "d/*", &notes, &exts).unwrap(), "warning: 'd/*' matched nothing");
    assert!(has_extension(&Some("PnG".to_string()), &exts) && !has_extension(&None, &exts));
    assert_eq!(classify("a*b", false, false), InputKind::Pattern);
    assert_eq!(classify("missing", false, false), InputKind::Missing);
    assert_eq!(classify("a*b", false, true), InputKind::File);
}

#[test]
fn encode_says_where_each_image_goes() {
    assert_eq!(encode_target(true, true, true), EncodeTarget::Skip);
    assert_eq!(encode_target(false, true, true), EncodeTarget::Named);
    assert_eq!(encode_target(false, true, false), EncodeTarget::InDirectory);
    assert_eq!(encode_target(false, false, false), EncodeTarget::Beside);
    assert!(check_targets(true, 2).unwrap_err().contains("give a directory"));
    assert!(check_targets(true, 1).is_ok() && check_targets(false, 2).is_ok());
    assert_eq!(run_encode(&Tally { done: 3, failed: 0 }, 3).unwrap(), "Encoded 3 image(s)");
    assert_eq!(run_encode(&Tally { done: 2, failed: 1 }, 3).unwrap(), "Encoded 2 image(s), 1 failed");
    assert_eq!(run_encode(&Tally { done: 0, failed: 1 }, 1).unwrap_err(), "encoded none of the 1 input(s)");
}

#[test]
fn an_export_fails_only_when_nothing_came_out() {
    let mut t = Tally { done: 0, failed: 0 };
    assert!(check_export(&t, 0).is_ok());
    t.record(false);
    assert_eq!(check_export(&t, 1).unwrap_err(), "failed to export any of the 1 texture(s)");
    t.record(true);
    assert!(check_export(&t, 2).is_ok());
    assert_eq!(plan_sheet(true, true, 1), SheetPlan::Ignored);
    assert_eq!(plan_sheet(true, false, 1), SheetPlan::Compose);
    assert_eq!(plan_sheet(true, false, 0), SheetPlan::Skip);
    assert_eq!(plan_sheet(false, true, 1), SheetPlan::Skip);
    assert_eq!(sheet_label("wall", 64, 32, "DXT1"), "wall 64x32 DXT1");
}

/// A gradient with an optional translucent corner.
fn gradient(w: u32, h: u32, alpha: bool) -> Picture {
    let mut rgba = Vec::new();
    for y in 0..h {
        for x in 0..w {
            let a = if alpha && x < w / 2 && y < h / 2 { 128 } else { 255 };
            rgba.extend([(x * 255 / w) as u8, (y * 255 / h) as u8, 90, a]);
        }
    }
    Picture { width: w, height: h, rgba }
}

fn line(tex: &Pixels) -> String {
    write_texture_line(&describe_pixels(tex))
}

#[test]
fn encode_picks_formats_and_full_mip_chains() {
    let encode = |name: &str, p: &Picture| encode_file(&format!("{name}.png"), name, p, None, Mips(None)).unwrap();
    let opaque = encode("wall_d", &gradient(64, 32, false));
    let alpha = encode("glass", &gradient(16, 16, true));
    let normal = encode("wall_n", &gradient(32, 32, false));
    assert_eq!(line(&opaque), "  wall_d \u{2014} 64x32x1 DXT1 4 mip(s) (1360 bytes)");
    assert_eq!(line(&alpha), "  glass \u{2014} 16x16x1 DXT5 3 mip(s) (336 bytes)");
    assert_eq!(line(&normal), "  wall_n \u{2014} 32x32x1 ATI2 4 mip(s) (1360 bytes)");
    assert_eq!(run_encode(&Tally { done: 3, failed: 0 }, 3).unwrap(), "Encoded 3 image(s)");

    let dds = parse_dds(&to_dds(&opaque).unwrap()).unwrap();
    assert_eq!((dds.width, dds.height, dds.format_name.as_str(), dds.levels), (64, 32, "DXT1", 4));
    let dds = parse_dds(&to_dds(&normal).unwrap()).unwrap();
    assert_eq!(dds.format_name, "ATI2");
}

#[test]
fn encode_honours_format_mips_and_a_single_file_output() {
    let png = gradient(512, 256, false);
    let tex = encode_file("lights.png", "lights", &png, Some(EncodeFormat::Bc7), Mips(Some(3))).unwrap();
    assert!(line(&tex).contains("lights \u{2014} 512x256x1 BC7 3 mip(s)"));
    let dds = parse_dds(&to_dds(&tex).unwrap()).unwrap();
    assert_eq!((dds.format_name.as_str(), dds.levels, dds.data.len()), ("BC7", 3, 131072 + 32768 + 8192));

    // The full chain stops at 4x4, as the game's textures do.
    let tex = encode_file("lights.png", "lights", &png, Some(EncodeFormat::Bc3), Mips(None)).unwrap();
    assert!(line(&tex).contains("DXT5 7 mip(s)"));

    // A bad size is refused.
    let err = encode_file("d/odd.png", "odd", &gradient(6, 6, false), None, Mips(None)).unwrap_err();
    assert!(err.starts_with("d/odd.png: ") && err.contains("multiples of 4"), "{err}");
    assert!(check_targets(true, 2).unwrap_err().contains("give a directory"));
    let err = encode_file("a", "a", &Picture { width: 0xffff, height: 0xffff, rgba: Vec::new() }, None, Mips(None)).unwrap_err();
    assert_eq!(err, format!("a: {TOO_LARGE}"));
}

#[test]
fn build_makes_a_dictionary_that_reads_back_and_merges_with_from() {
    let body = encode_file("civic_body.png", "civic_body", &gradient(32, 32, false), Some(EncodeFormat::Bc7), Mips(None)).unwrap();
    let body_dds = to_dds(&body).unwrap();
    let mut build = DictionaryBuild::new();
    let body = read_dds("src/civic_body.dds", "civic_body", &body_dds).unwrap();
    assert!(line(&body).contains("civic_body \u{2014} 32x32x1 BC7 4 mip(s)"));
    build.add("civic_body", body);
    let lights = encode_file("src/civic_lights.png", "civic_lights", &gradient(16, 8, true), None, Mips(None)).unwrap();
    assert!(line(&lights).contains("civic_lights \u{2014} 16x8x1 DXT5 2 mip(s)"));
    build.add("civic_lights", lights);
    let ytd = build_dictionary(&build).unwrap();
    let report = build.report("civic.ytd", ytd.textures, ytd.bytes.len(), ytd.kept);
    assert!(report.contains("with 2 texture(s)") && report.contains("2 added, 0 replaced, 0 kept"), "{report}");

    let textures = read_pixels(&ytd.bytes).unwrap();
    let names: Vec<&str> = textures.iter().map(|t| t.name.as_str()).collect();
    assert_eq!(textures.len(), 2);
    assert!(names.contains(&"civic_body") && names.contains(&"civic_lights"), "{names:?}");
    let body = textures.iter().find(|t| t.name == "civic_body").unwrap();
    assert_eq!((body.format_name.as_str(), body.levels), ("BC7", 4));
    assert_eq!(body.name_hash, rage_joaat("civic_body"));

    // The loose dictionary exports on its own, and its DDS files are those
    // that went in.
    let back = read_source("civic.ytd", &ytd.bytes, TextureSource::Dictionary).unwrap();
    assert_eq!(back.len(), 2);
    assert_eq!(to_dds(back.iter().find(|t| t.name == "civic_body").unwrap()).unwrap(), body_dds);

    // Replace one, add one, keep one.
    let mut merged = DictionaryBuild::new();
    for tex in read_dictionary("civic.ytd", &ytd.bytes).unwrap() {
        let name = tex.name.clone();
        merged.start_with(&name, tex);
    }
    for (name, size) in [("civic_lights", 64), ("civic_wheel", 8)] {
        let tex = encode_file(name, name, &gradient(size, size, false), Some(EncodeFormat::Bc1), Mips(None)).unwrap();
        merged.add(name, tex);
    }
    let made = build_dictionary(&merged).unwrap();
    assert!(merged.report("civic2.ytd", made.textures, made.bytes.len(), made.kept).contains("1 added, 1 replaced, 1 kept"));
    let textures = read_pixels(&made.bytes).unwrap();
    assert_eq!(textures.len(), 3);
    let lights = textures.iter().find(|t| t.name == "civic_lights").unwrap();
    assert_eq!((lights.width, lights.format_name.as_str()), (64, "DXT1"));
    assert!(textures.iter().any(|t| t.name == "civic_wheel"));
    assert!(textures.iter().any(|t| t.name == "civic_body" && t.format_name == "BC7"));

    let info = parse_header(&made.bytes).unwrap();
    assert_eq!((info.version, read_textures(&made.bytes).unwrap().len()), (13, 3));
}

#[test]
fn textures_come_back_from_their_dictionary() {
    let whole = encode_file("whole.png", "whole", &gradient(16, 16, false), Some(EncodeFormat::Bc3), Mips(None)).unwrap();
    let odd = Pixels {
        name: "Odd Name".to_string(), name_hash: 0, width: 4, height: 4, depth: 0, format: 7, format_name: "other".to_string(), levels: 2, stride: 2,
        data: (0..20).collect(),
    };
    let bytes = serialize_dictionary(&vec![&whole, &odd]).unwrap();
    let mut wanted = vec![whole.clone(), Pixels {
        name_hash: rage_joaat("odd name"), depth: 1, format: 0, format_name: "Unknown".to_string(), data: (0..10).collect(), ..odd
    }];
    wanted.sort_by_key(|p| p.name_hash);
    assert_eq!(read_pixels(&bytes).unwrap(), wanted);
    let twice = vec![&whole, &whole];
    assert!(serialize_dictionary(&twice).unwrap_err().contains("share the name hash"));
    assert!(read_pixels(&serialize_dictionary(&Vec::new()).unwrap()).unwrap().is_empty());
}

#[test]
fn a_build_keeps_what_nothing_replaces() {
    let mut build = DictionaryBuild::new();
    build.start_with("civic_lights", 1);
    build.start_with("civic_body", 2);
    assert_eq!(build.add("civic_lights", 3), "replaces");
    assert_eq!(build.add("civic_wheel", 4), "adds");
    let (textures, kept) = build.finish();
    assert_eq!(textures, [&2, &3, &4], "in the order of their names");
    assert_eq!(kept, 1);
}

#[test]
fn pictures_are_decoded_made_smaller_and_written() {
    let picture = gradient(32, 16, true);
    let tex = encode_file("a.png", "a", &picture, Some(EncodeFormat::Rgba8), Mips(None)).unwrap();
    let shown = render_texture(&tex, None).unwrap();
    assert_eq!(shown, picture, "nothing is lost without compression");
    assert_eq!(render_texture(&tex, Some(32)).unwrap(), picture, "it fits already");
    let small = render_texture(&tex, Some(8)).unwrap();
    assert_eq!((small.width, small.height, small.rgba.len()), (8, 4, 8 * 4 * 4));
    let flat = Picture { width: 4, height: 4, rgba: vec![200; 64] };
    let tex = encode_file("b.png", "b", &flat, Some(EncodeFormat::Rgba8), Mips(Some(1))).unwrap();
    assert_eq!(render_texture(&tex, Some(2)).unwrap().rgba, vec![200; 16]);
    assert!(render_texture(&Pixels { data: Vec::new(), ..tex }, None).unwrap_err().contains("too short"));

    for (format, start) in [(PictureFormat::Png, &b"\x89PNG"[..]), (PictureFormat::Jpeg, &[0xff, 0xd8, 0xff]), (PictureFormat::WebP, b"RIFF")] {
        assert!(encode_image(&picture, format, 90).unwrap().starts_with(start));
    }
    let png = encode_image(&picture, PictureFormat::Png, 90).unwrap();
    let read = rage_formats::image::load_from_memory(&png).unwrap().to_rgba8();
    assert_eq!((read.dimensions(), read.into_raw()), ((32, 16), picture.rgba.clone()));
    assert_ne!(encode_image(&picture, PictureFormat::Jpeg, 10).unwrap(), encode_image(&picture, PictureFormat::Jpeg, 90).unwrap());
    let item = |picture: &Picture| SheetItem { label: "a 32x16 A8B8G8R8".to_string(), picture: picture.clone() };
    let sheet = compose_sheet(&vec![item(&picture), item(&picture), item(&picture)], 64).unwrap();
    assert_eq!((sheet.width, sheet.height), (2 * (64 + 16), 2 * (64 + 14 + 32)));
    assert!(sheet.is_whole() && sheet.rgba[..4] == [40, 40, 40, 255]);
    assert!(compose_sheet(&vec![item(&picture)], 2049).is_none());
    let torn = Picture { height: 17, ..picture };
    assert!(compose_sheet(&vec![item(&torn)], 64).is_none());
    assert_eq!(encode_image(&torn, PictureFormat::Png, 90).unwrap_err(), NOT_WHOLE);
}

#[test]
fn the_textures_of_a_drawable_are_read() {
    const SYSTEM: u64 = 0x5000_0000;
    let mut system = vec![0u8; 0x1000];
    let mut put = |at: usize, bytes: &[u8]| system[at..at + bytes.len()].copy_from_slice(bytes);
    put(0x10, &(SYSTEM + 0x200).to_le_bytes());
    put(0x208, &(SYSTEM + 0x300).to_le_bytes());
    put(0x320, &(SYSTEM + 0x380).to_le_bytes());
    put(0x328, &1u16.to_le_bytes());
    put(0x330, &(SYSTEM + 0x390).to_le_bytes());
    put(0x338, &1u16.to_le_bytes());
    put(0x380, &rage_joaat("tex").to_le_bytes());
    put(0x390, &(SYSTEM + 0x400).to_le_bytes());
    put(0x428, &(SYSTEM + 0x500).to_le_bytes());
    for (at, n) in [(0x450, 4u16), (0x452, 4), (0x454, 1), (0x456, 2)] {
        put(at, &n.to_le_bytes());
    }
    put(0x458, b"DXT1");
    put(0x45d, &[1]);
    put(0x470, &0x6000_0000u64.to_le_bytes());
    put(0x500, b"tex\0");
    let data = rage_formats::build_rsc7(165, &system, &[9u8; 16]);
    let list = read_source("a.ydr", &data, TextureSource::Drawables(DrawableKind::Ydr)).unwrap();
    assert_eq!(list.len(), 1);
    assert_eq!((list[0].name.as_str(), list[0].name_hash, list[0].width, &list[0].data[..]), ("tex", rage_joaat("tex"), 4, &[9u8; 8][..]));
    let both = embedded_textures(vec![None, Some(list), Some(Vec::new())]);
    assert_eq!(both.len(), 1);
    let err = read_source("a.ydr", b"junk", TextureSource::Drawables(DrawableKind::Ydr)).unwrap_err();
    assert!(err.starts_with("failed to parse a.ydr: "), "{err}");
}

#[test]
fn build_refuses_duplicate_names_and_non_textures() {
    // Same name from two files: the later one replaces the earlier, no error.
    let mut build = DictionaryBuild::new();
    assert_eq!(build.add("same", 1), "adds");
    assert_eq!(build.add("Same", 2), "replaces");
    let (textures, kept) = build.finish();
    assert_eq!((textures, kept), (vec![&2], 0));
    assert!(build.report("x", 1, 1, 0).contains("1 added, 1 replaced"));

    let images = vec!["png".to_string()];
    let input = |path: &str, ext: Option<&str>| build_input(path, &ext.map(str::to_string), &images);
    assert_eq!(input("a.DDS", Some("DDS")), Ok(BuildInput::Dds));
    assert_eq!(input("a.png", Some("png")), Ok(BuildInput::Image));
    let err = input("notes.txt", Some("txt")).unwrap_err();
    assert!(err.contains("not a DDS or image file"), "{err}");
    assert!(input("bare", None).is_err());
    assert_eq!(classify("missing", false, false), InputKind::Missing);
}

fn encoded(name: &str, shade: u8) -> YtdTexture {
    encode_texture(name, &[shade; 8 * 8 * 4], 8, 8, rage_formats::EncodeFormat::Bc1, None).unwrap()
}

#[test]
fn a_dictionary_is_built_and_read_back() {
    let made = serialize_ytd(&[encoded("old", 1), encoded("wall", 2)]).unwrap();
    let existing = read_dictionary("from.ytd", &made).unwrap();
    assert_eq!(existing.len(), 2);
    let mut build = DictionaryBuild::new();
    for tex in existing {
        let name = tex.name.clone();
        build.start_with(&name, tex);
    }
    let wall = read_dds("d/Wall.dds", "Wall", &encoded("x", 200).to_dds()).unwrap();
    assert_eq!((wall.name.as_str(), wall.name_hash, wall.format_name.as_str()), ("Wall", rage_joaat("wall"), "DXT1"));
    let line = describe_pixels(&wall);
    assert_eq!((line.width, line.height, line.bytes), (8, 8, wall.data.len()));
    let again = read_dds("w.dds", "Wall", &to_dds(&wall).unwrap()).unwrap();
    assert_eq!(again, wall, "what is written as DDS reads back");
    assert_eq!(to_dds(&Pixels { levels: 0, data: Vec::new(), ..again }).unwrap().len(), 128, "a header alone");
    let pixels = wall.data.clone();
    assert_eq!(build.add("Wall", wall), "replaces");

    let out = build_dictionary(&build).unwrap();
    assert_eq!((out.textures, out.kept), (2, 1));
    let back = read_pixels(&out.bytes).unwrap();
    let replaced = back.iter().find(|t| t.name_hash == rage_joaat("wall")).unwrap();
    assert_eq!((replaced.name.as_str(), &replaced.data), ("Wall", &pixels));

    assert!(read_dictionary("x.ytd", b"junk").unwrap_err().starts_with("failed to parse YTD x.ytd: "));
    assert!(read_dds("x.dds", "x", b"junk").unwrap_err().starts_with("x.dds: "));
    let mut bad = DictionaryBuild::new();
    let mut short = read_dds("a.dds", "a", &encoded("a", 1).to_dds()).unwrap();
    short.data.clear();
    bad.add("a", short);
    assert!(build_dictionary(&bad).unwrap_err().contains("needs"));
}

#[test]
fn an_image_has_the_format_asked_for_or_the_usual_one() {
    let (opaque, clear) = ([255u8; 64], [0u8; 64]);
    for name in ["wall_n", "Wall_N2", "wall_normal", "x_nrm", "x_NM", "x_bump12"] {
        assert_eq!(image_format(None, name, &opaque), EncodeFormat::Bc5, "{name}");
    }
    assert_eq!(image_format(None, "wall_d", &opaque), EncodeFormat::Bc1);
    assert_eq!(image_format(None, "nation", &clear), EncodeFormat::Bc3);
    assert_eq!(image_format(Some(EncodeFormat::Bc7), "wall_n", &clear), EncodeFormat::Bc7);
}
