//! The order in which the game loads its archives, and their fingerprint.
use rage::index::fingerprint::{archives_fingerprint, fingerprint_input, ArchiveStamp};
use rage::nesting::{count_rbf_nesting, count_xml_nesting, MAX_NESTING};
use rage::index::load_order::{
    archive_tier, dlc_load_order, dlc_pack_list, dlc_pack_name, rank_dlc_packs, ranked_archives, ArchivePath, ArchiveTier,
};

#[test]
fn archive_tier_classifies_base_archives() {
    assert_eq!(archive_tier(r"C:\game\x64a.rpf"), ArchiveTier::Base);
    assert_eq!(archive_tier(r"C:\game\x64\audio\sfx.rpf"), ArchiveTier::Base);
    assert_eq!(archive_tier("C:/game/common.rpf"), ArchiveTier::Base);
}

#[test]
fn archive_tier_classifies_update_archives() {
    assert_eq!(archive_tier(r"C:\game\update\update.rpf"), ArchiveTier::Update);
    assert_eq!(archive_tier(r"C:\game\update\update2.rpf"), ArchiveTier::Update);
    assert_eq!(archive_tier("C:/game/update/x64/patch/data.rpf"), ArchiveTier::Update);
}

#[test]
fn archive_tier_classifies_dlc_archives_over_update() {
    // Every DLC archive lives under .../update/..., so the DLC check must win
    // even though the path also matches "update".
    assert_eq!(
        archive_tier(r"C:\game\update\x64\dlcpacks\mpheist\dlc.rpf"),
        ArchiveTier::Dlc("mpheist".to_string())
    );
    assert_eq!(
        archive_tier("C:/game/update/x64/dlcpacks/mpheist4/dlc2.rpf"),
        ArchiveTier::Dlc("mpheist4".to_string())
    );
}

#[test]
fn dlc_pack_name_extracts_the_directory_after_dlcpacks() {
    assert_eq!(dlc_pack_name("c:/game/update/x64/dlcpacks/mpheist/dlc.rpf"), Some("mpheist".to_string()));
    assert_eq!(dlc_pack_name("c:/game/update/x64/dlcpacks/mptuner/dlc1.rpf"), Some("mptuner".to_string()));
    assert_eq!(dlc_pack_name("c:/game/x64a.rpf"), None);
    assert_eq!(dlc_pack_name("c:/game/update/x64/dlcpacks/"), None); // no pack name at all
}

#[test]
fn rank_dlc_packs_uses_setup2_order_with_dlclist_position_as_tiebreak() {
    // dlclist lists mpheist, mppatchesng, patchday1ng, patchday2ng,
    // mpchristmas2 in that order; their own setup2.xml <order> values are 10,
    // 0, -1, 2, 9 respectively.
    let packs = vec![
        ("mpheist".to_string(), 10),
        ("mppatchesng".to_string(), 0),
        ("patchday1ng".to_string(), -1),
        ("patchday2ng".to_string(), 2),
        ("mpchristmas2".to_string(), 9),
    ];
    let ranks = rank_dlc_packs(&packs);
    let mut by_rank: Vec<&str> = packs.iter().map(|p| p.0.as_str()).collect();
    by_rank.sort_by_key(|name| ranks.get(name).unwrap());
    assert_eq!(by_rank, vec!["patchday1ng", "mppatchesng", "patchday2ng", "mpchristmas2", "mpheist"]);
}

#[test]
fn rank_dlc_packs_stable_sort_breaks_ties_by_dlclist_position() {
    // Two packs with the same `order` keep their dlclist.xml order.
    let packs = vec![
        ("first_in_dlclist".to_string(), 5),
        ("second_in_dlclist".to_string(), 5),
    ];
    let ranks = rank_dlc_packs(&packs);
    assert!(ranks.get("first_in_dlclist").unwrap() < ranks.get("second_in_dlclist").unwrap());
}

#[test]
fn archive_tier_rank_orders_base_before_update_before_dlc() {
    assert!(ArchiveTier::Base.rank() < ArchiveTier::Update.rank());
    assert!(ArchiveTier::Update.rank() < ArchiveTier::Dlc("x".to_string()).rank());
}

#[test]
fn a_dlc_pack_missing_from_the_ranking_sorts_after_every_ranked_pack() {
    let ranks = rank_dlc_packs(&vec![("ranked".to_string(), 0)]);
    let unranked_fallback = ranks.get("unranked_pack").unwrap_or(u32::MAX);
    assert!(unranked_fallback > ranks.get("ranked").unwrap());
}

fn archive(path: &str) -> ArchivePath {
    ArchivePath { text: path.to_string(), components: path.split('\\').map(str::to_string).collect() }
}

#[test]
fn full_archive_ordering_sorts_base_then_update_then_ranked_dlc() {
    let dlc_rank = rank_dlc_packs(&vec![("mppatchesng".to_string(), 0), ("mpheist".to_string(), 1)]);

    let archives = vec![
        archive(r"C:\game\update\x64\dlcpacks\mpheist\dlc.rpf"),
        archive(r"C:\game\x64w.rpf"),
        archive(r"C:\game\update\update.rpf"),
        archive(r"C:\game\update\x64\dlcpacks\mppatchesng\dlc.rpf"),
        archive(r"C:\game\x64a.rpf"),
    ];
    assert_eq!(
        ranked_archives(&archives, &dlc_rank).unwrap(),
        vec![
            r"C:\game\x64a.rpf",
            r"C:\game\x64w.rpf",
            r"C:\game\update\update.rpf",
            r"C:\game\update\x64\dlcpacks\mppatchesng\dlc.rpf",
            r"C:\game\update\x64\dlcpacks\mpheist\dlc.rpf",
        ]
    );
    assert!(ranked_archives(&Vec::new(), &dlc_rank).is_err(), "no archives is an error");
}

#[test]
fn packs_rank_by_their_own_setup_files() {
    let list = b"<SMandatoryPacksData><Paths><Item>dlcpacks:/mpHeist/</Item><Item>dlcpacks:/mpLuxe/</Item></Paths></SMandatoryPacksData>".to_vec();
    let names = dlc_pack_list(&Some(list));
    assert_eq!(names, ["mpheist", "mpluxe"]);
    let setup = |order: &str| Some(format!("<SSetupData><order value=\"{order}\" /></SSetupData>").into_bytes());
    let ranks = dlc_load_order(&names, &vec![setup("9"), setup("3")]);
    assert!(ranks.get("mpluxe").unwrap() < ranks.get("mpheist").unwrap());
    assert!(dlc_pack_list(&None).is_empty());

    // A pack whose own setup file cannot be read is absent, so that it loads
    // after every ranked pack.
    let ranks = dlc_load_order(&names, &vec![None, setup("3")]);
    assert_eq!((ranks.get("mpheist"), ranks.get("mpluxe")), (None, Some(0)));
    let ranks = dlc_load_order(&names, &vec![Some(b"no xml".to_vec()), None]);
    assert_eq!((ranks.get("mpheist"), ranks.get("mpluxe")), (None, None));
}

#[test]
fn documents_that_nest_too_deep_are_not_read() {
    let deep = |n: usize| {
        let (open, close) = ("<a>".repeat(n), "</a>".repeat(n));
        format!("<SSetupData><order value=\"3\" />{open}{close}</SSetupData>").into_bytes()
    };
    let names = vec!["p".to_string()];
    assert_eq!(dlc_load_order(&names, &vec![Some(deep(MAX_NESTING - 1))]).get("p"), Some(0));
    assert_eq!(dlc_load_order(&names, &vec![Some(deep(200_000))]).get("p"), None);
    assert!(dlc_pack_list(&Some(deep(200_000))).is_empty());

    assert_eq!(count_xml_nesting(b"<?xml version='1.0'?><!-- </a> <b> --><a b='/>'><c/><d><![CDATA[</d>]]></d></a>"), 2);
    assert_eq!(count_xml_nesting(b"plain"), 0);
    let open = [0u8, 0, 1, 0, b'x', 0, 0, 0, 0, 0, 0];
    let again = [0u8, 0, 0, 0, 0, 0, 0, 0];
    let mut rbf = b"RBF0".to_vec();
    rbf.extend(open);
    rbf.extend(again);
    rbf.extend([0xfd, 0xff, 2, 0, 0, 0, 0xff, 0xff]);
    rbf.extend([0xff, 0xff]);
    rbf.extend(again);
    rbf.extend([0xff, 0xff, 0xff, 0xff]);
    assert_eq!(count_rbf_nesting(&rbf), 2);
}

fn stamp(path: &str, len: u64, modified: u64) -> ArchiveStamp {
    ArchiveStamp { path: path.to_string(), size: len, modified }
}

#[test]
fn the_fingerprint_follows_every_archive_and_nothing_else() {
    let first = vec![stamp("update/update.rpf", 3, 100), stamp("x64a.rpf", 3, 100)];
    let value = archives_fingerprint(&first);
    assert_eq!(archives_fingerprint(&first), value, "stable when nothing changed");

    let patched = vec![stamp("update/update.rpf", 12, 100), stamp("x64a.rpf", 3, 100)];
    assert_ne!(archives_fingerprint(&patched), value, "a changed archive changes it");
    let touched = vec![stamp("update/update.rpf", 3, 101), stamp("x64a.rpf", 3, 100)];
    assert_ne!(archives_fingerprint(&touched), value, "so does a later time");

    let mut added = first;
    added.push(stamp("update/dlc.rpf", 3, 100));
    assert_ne!(archives_fingerprint(&added), value, "an added archive changes it");
    assert_ne!(fingerprint_input(&added), fingerprint_input(&patched));
}
