use iphoto::base::identity::{CaptureStamp, Identity};
use iphoto::base::namemap::{NameMap, RenameEntry};
use iphoto::base::reconcile::{
    apply_pass, check_pass, classify, decide_file, head_with, identify, is_aborted, plan_renames,
    strip_marker, survey, walk, wants_capture, Classification, DirTree, FileEntry, Rules, Step,
};
use iphoto::task::rename::{self, RenameCommand};
use iphoto::task::rename2::{self, Rename2Command};

const PLAIN: Rules = Rules { exif: false, dry: false, compact: false, touch: false, variants: true };

fn file(path: &str) -> FileEntry {
    FileEntry { path: path.to_string(), capture: None }
}

fn stamped(path: &str, date: &str, time: &str) -> FileEntry {
    FileEntry { path: path.to_string(), capture: CaptureStamp::new(date, time) }
}

fn dir(path: &str, files: Vec<FileEntry>, subdirs: Vec<DirTree>, preview: Option<Vec<FileEntry>>) -> DirTree {
    DirTree { path: path.to_string(), files, subdirs, preview }
}

fn log(line: &str) -> Step {
    Step::Log(line.to_string())
}

fn mv(from: &str, to: &str) -> Step {
    Step::Rename { from: from.to_string(), to: to.to_string(), touch: None }
}

fn map_of_one(stem: &str, seq: &str) -> NameMap {
    let meta = Identity::new("CAM", "20230401", "103000", seq, "jpg").unwrap();
    let mut map = NameMap::new();
    map.insert(stem.to_string(), RenameEntry { name: meta.canonical_name(), meta });
    map
}

fn request2(exif: bool, dry: bool, compact: bool, touch: bool) -> rename2::Request {
    rename2::Request::from(&Rename2Command { dir: "d".to_string(), exif, dry, compact, touch })
}

#[test]
fn a_canonical_file_is_held() {
    let tree = dir("d", vec![file("d/CAM_20230401103000_001.jpg")], vec![], None);
    let steps = rename2::do_rename(&request2(false, false, false, true), &tree).unwrap();
    assert_eq!(steps, vec![log("0 - \"d/CAM_20230401103000_001.jpg\" -> HOLD")]);
}

#[test]
fn a_mapped_file_is_renamed() {
    let map = map_of_one("IMG_0001", "002");
    let files = vec![file("d/IMG_0001.jpg")];
    let mut out = Vec::new();
    assert_eq!(check_pass(&PLAIN, false, &map, &files), None);
    apply_pass(&PLAIN, false, "d", &map, &files, &mut out);
    assert_eq!(
        out,
        vec![
            log("RENAME d/IMG_0001.jpg -> d/CAM_20230401103000_002.jpg"),
            mv("d/IMG_0001.jpg", "d/CAM_20230401103000_002.jpg"),
        ]
    );
}

#[test]
fn the_preview_follows_the_primary() {
    let map = map_of_one("A", "001");
    let mut out = Vec::new();
    apply_pass(&PLAIN, false, "d", &map, &vec![file("d/A.jpg")], &mut out);
    apply_pass(&PLAIN, true, "d/preview", &map, &vec![file("d/preview/A.jpg")], &mut out);
    assert_eq!(
        out,
        vec![
            log("RENAME d/A.jpg -> d/CAM_20230401103000_001.jpg"),
            mv("d/A.jpg", "d/CAM_20230401103000_001.jpg"),
            log("RENAME d/preview/A.jpg -> d/preview/CAM_20230401103000_001.jpg"),
            mv("d/preview/A.jpg", "d/preview/CAM_20230401103000_001.jpg"),
        ]
    );
}

#[test]
fn a_variant_follows_its_primary() {
    let map = map_of_one("A", "001");
    let mut out = Vec::new();
    apply_pass(&PLAIN, true, "d/preview", &map, &vec![file("d/preview/A-Enhanced-NR.jpg")], &mut out);
    assert_eq!(
        out,
        vec![
            log("RENAME d/preview/A-Enhanced-NR.jpg -> d/preview/CAM_20230401103000_001.jpg"),
            mv("d/preview/A-Enhanced-NR.jpg", "d/preview/CAM_20230401103000_001.jpg"),
        ]
    );
}

#[test]
fn a_direct_entry_goes_before_the_stripped_one() {
    let mut map = map_of_one("A", "001");
    let meta = Identity::new("CAM", "20230401", "103000", "009", "jpg").unwrap();
    map.insert("A-Enhanced-NR".to_string(), RenameEntry { name: meta.canonical_name(), meta });
    let p = decide_file(&PLAIN, true, &map, "d/preview/A-Enhanced-NR.jpg").unwrap();
    assert_eq!(p.stem, "CAM_20230401103000_009");
}

#[test]
fn a_variant_without_primary_loses_the_marker() {
    let map = map_of_one("A", "001");
    let mut out = Vec::new();
    apply_pass(&PLAIN, true, "d/preview", &map, &vec![file("d/preview/B-Enhanced-NR.JPG")], &mut out);
    assert_eq!(
        out,
        vec![
            log("RENAME d/preview/B-Enhanced-NR.JPG -> d/preview/B.JPG"),
            mv("d/preview/B-Enhanced-NR.JPG", "d/preview/B.JPG"),
        ]
    );
}

#[test]
fn a_lone_variant_is_touched_by_its_own_identity() {
    let rules = Rules { touch: true, ..PLAIN };
    let p = decide_file(&rules, true, &NameMap::new(), "p/CAM_20230401103000_001-Enhanced-NR.jpg").unwrap();
    assert_eq!(p.stem, "CAM_20230401103000_001");
    assert_eq!(p.extension, "jpg");
    assert_eq!(p.identity.unwrap().canonical_name(), "CAM_20230401103000_001");
    let mut out = Vec::new();
    apply_pass(&rules, true, "p", &NameMap::new(), &vec![file("p/CAM_20230401103000_001-Enhanced-NR.jpg")], &mut out);
    assert_eq!(
        out[1],
        Step::Rename {
            from: "p/CAM_20230401103000_001-Enhanced-NR.jpg".to_string(),
            to: "p/CAM_20230401103000_001.jpg".to_string(),
            touch: Some(1680345000),
        }
    );
}

#[test]
fn variants_are_followed_in_preview_directories_only() {
    let map = map_of_one("A", "001");
    assert!(decide_file(&PLAIN, false, &map, "d/A-Enhanced-NR.jpg").is_none());
    assert!(decide_file(&Rules { variants: false, ..PLAIN }, true, &map, "d/preview/A-Enhanced-NR.jpg").is_none());
    assert!(decide_file(&PLAIN, true, &map, "d/preview/A-Enhanced.jpg").is_none());
    assert!(decide_file(&PLAIN, true, &map, "d/preview/-Enhanced-NR.jpg").is_none());
    assert!(decide_file(&PLAIN, true, &map, "d/preview/A-Enhanced-NR").is_none());
}

#[test]
fn files_without_extension_do_not_end_the_pass() {
    let map = map_of_one("A", "001");
    let mut out = Vec::new();
    apply_pass(&PLAIN, false, "d", &map, &vec![file("d/A"), file("d/A.jpg")], &mut out);
    assert_eq!(out.len(), 2);
    assert_eq!(out[1], mv("d/A.jpg", "d/CAM_20230401103000_001.jpg"));
}

#[test]
fn the_extension_keeps_its_case() {
    let map = map_of_one("A", "001");
    let p = decide_file(&PLAIN, false, &map, "d/A.JpG").unwrap();
    assert_eq!(p.extension, "JpG");
}

#[test]
fn the_marker_is_a_suffix() {
    assert_eq!(strip_marker("A-Enhanced-NR"), Some("A".to_string()));
    assert_eq!(strip_marker("A-Enhanced-NR-2"), None);
    assert_eq!(strip_marker("-Enhanced-NR"), None);
    assert_eq!(strip_marker("A-enhanced-nr"), None);
    assert_eq!(strip_marker(""), None);
    assert_eq!(strip_marker("A-Enhanced-NR-Enhanced-NR"), Some("A-Enhanced-NR".to_string()));
}

#[test]
fn classification_names_each_case() {
    assert_eq!(classify(&PLAIN, &file("d/README")), Classification::Ignored);
    assert_eq!(classify(&PLAIN, &file("d/.hidden")), Classification::Ignored);
    assert_eq!(classify(&PLAIN, &file("d/notes.txt")), Classification::NotImage);
    assert_eq!(classify(&PLAIN, &file("d/notes.")), Classification::NotImage);
    assert_eq!(classify(&PLAIN, &file("d/IMG_0001.JPG")), Classification::Unrecognized);
    assert_eq!(classify(&PLAIN, &file("d/CAM_20230401103000_001.NEF")), Classification::Hold);
    let compact = Rules { compact: true, ..PLAIN };
    let meta = Identity::new("CAM", "20230401", "103000", "001", "nef").unwrap();
    assert_eq!(
        classify(&compact, &file("d/CAM_20230401103000_001.NEF")),
        Classification::Retitle(RenameEntry { name: "401103000_001".to_string(), meta })
    );
}

#[test]
fn the_capture_stamp_counts_only_where_asked_for() {
    let f = stamped("d/CAM_20230401103000_001.jpg", "20230402", "080910");
    assert_eq!(classify(&PLAIN, &f), Classification::Hold);
    let exif = Rules { exif: true, ..PLAIN };
    let meta = Identity::new("CAM", "20230402", "080910", "001", "jpg").unwrap();
    assert_eq!(
        classify(&exif, &f),
        Classification::Retitle(RenameEntry { name: "CAM_20230402080910_001".to_string(), meta })
    );
    assert_eq!(classify(&exif, &file("d/CAM_20230401103000_001.jpg")), Classification::Hold);
}

#[test]
fn the_capture_stamp_is_wanted_for_parsed_photographs() {
    assert!(wants_capture("d/CAM_20230401103000_001.jpg"));
    assert!(wants_capture("d/CAM_20230401103000_001.ARW"));
    assert!(!wants_capture("d/CAM_20230401103000_001.txt"));
    assert!(!wants_capture("d/CAM_20230401103000_001"));
    assert!(!wants_capture("d/IMG_0001.jpg"));
}

#[test]
fn the_survey_logs_one_line_for_each_file_with_an_extension() {
    let files = vec![
        file("d/README"),
        file("d/a \"b\".txt"),
        file("d/IMG_1.png"),
        file("d/CAM_20230401103000_001.jpg"),
        stamped("d/CAM_20230401103000_002.JPG", "20230402", "080910"),
    ];
    let rules = Rules { exif: true, ..PLAIN };
    let mut out = Vec::new();
    let map = survey(&rules, 3, &files, &mut out);
    assert_eq!(
        out,
        vec![
            log("3 - \"d/a \\\"b\\\".txt\" - NO.IMG"),
            log("3 - \"d/IMG_1.png\" - MISS.META"),
            log("3 - \"d/CAM_20230401103000_001.jpg\" -> HOLD"),
            log("3 - \"d/CAM_20230401103000_002.JPG\" -> CAM_20230402080910_002.JPG"),
        ]
    );
    assert!(map.get("CAM_20230401103000_001").is_none());
    let entry = map.get("CAM_20230401103000_002").unwrap();
    assert_eq!(entry.name, "CAM_20230402080910_002");
    assert_eq!(entry.meta.capture_date(), "20230402");
    assert_eq!(entry.meta.extension(), "jpg");
}

#[test]
fn the_walk_goes_through_the_subdirectories_first() {
    let tree = dir(
        "r",
        vec![stamped("r/CAM_20230401103000_001.jpg", "20230402", "080910")],
        vec![
            dir("r/a", vec![file("r/a/x.txt")], vec![dir("r/a/deep", vec![file("r/a/deep/y.txt")], vec![], None)], None),
            dir("r/b", vec![], vec![], None),
        ],
        Some(vec![
            file("r/preview/CAM_20230401103000_001.jpg"),
            file("r/preview/CAM_20230401103000_001-Enhanced-NR.tif"),
            file("r/preview/other.jpg"),
        ]),
    );
    let rules = Rules { exif: true, dry: false, compact: false, touch: true, variants: true };
    let steps = walk(&rules, 0, &tree);
    assert_eq!(
        steps,
        vec![
            log("0 dirs - r/a"),
            log("1 dirs - r/a/deep"),
            log("2 - \"r/a/deep/y.txt\" - NO.IMG"),
            log("1 - \"r/a/x.txt\" - NO.IMG"),
            log("0 dirs - r/b"),
            log("0 - \"r/CAM_20230401103000_001.jpg\" -> CAM_20230402080910_001.jpg"),
            log("RENAME r/CAM_20230401103000_001.jpg -> r/CAM_20230402080910_001.jpg"),
            Step::Rename {
                from: "r/CAM_20230401103000_001.jpg".to_string(),
                to: "r/CAM_20230402080910_001.jpg".to_string(),
                touch: Some(1680422950),
            },
            log("RENAME r/preview/CAM_20230401103000_001.jpg -> r/preview/CAM_20230402080910_001.jpg"),
            Step::Rename {
                from: "r/preview/CAM_20230401103000_001.jpg".to_string(),
                to: "r/preview/CAM_20230402080910_001.jpg".to_string(),
                touch: Some(1680422950),
            },
            log("RENAME r/preview/CAM_20230401103000_001-Enhanced-NR.tif -> r/preview/CAM_20230402080910_001.tif"),
            Step::Rename {
                from: "r/preview/CAM_20230401103000_001-Enhanced-NR.tif".to_string(),
                to: "r/preview/CAM_20230402080910_001.tif".to_string(),
                touch: Some(1680422950),
            },
        ]
    );
    assert!(!is_aborted(&steps));
}

#[test]
fn a_dry_run_logs_the_same_and_renames_nothing() {
    let tree = dir(
        "r",
        vec![stamped("r/CAM_20230401103000_001.jpg", "20230402", "080910")],
        vec![dir("r/a", vec![stamped("r/a/CAM_20230401103000_002.jpg", "20230402", "080911")], vec![], None)],
        Some(vec![file("r/preview/CAM_20230401103000_001.jpg")]),
    );
    let live = rename2::do_rename(&request2(true, false, false, true), &tree).unwrap();
    let dry = rename2::do_rename(&request2(true, true, false, true), &tree).unwrap();
    let lines: Vec<Step> = live.into_iter().filter(|s| !matches!(s, Step::Rename { .. })).collect();
    assert_eq!(lines.len(), 6);
    assert_eq!(dry, lines);
}

#[test]
fn compact_names_are_not_touched() {
    let tree = dir("r", vec![file("r/CAM_20230401103000_001.jpg")], vec![], None);
    let steps = rename2::do_rename(&request2(false, false, true, true), &tree).unwrap();
    assert_eq!(
        steps,
        vec![
            log("0 - \"r/CAM_20230401103000_001.jpg\" -> 401103000_001.jpg"),
            log("RENAME r/CAM_20230401103000_001.jpg -> r/401103000_001.jpg"),
            mv("r/CAM_20230401103000_001.jpg", "r/401103000_001.jpg"),
        ]
    );
    let again = dir("r", vec![file("r/401103000_001.jpg")], vec![], None);
    let steps = rename2::do_rename(&request2(false, false, true, true), &again).unwrap();
    assert_eq!(steps, vec![log("0 - \"r/401103000_001.jpg\" - MISS.META")]);
}

#[test]
fn a_second_run_over_renamed_files_holds_them() {
    let tree = dir(
        "r",
        vec![file("r/CAM_20230402080910_001.jpg")],
        vec![],
        Some(vec![file("r/preview/CAM_20230402080910_001.jpg")]),
    );
    let steps = rename2::do_rename(&request2(false, false, false, true), &tree).unwrap();
    assert_eq!(steps, vec![log("0 - \"r/CAM_20230402080910_001.jpg\" -> HOLD")]);
}

#[test]
fn two_files_for_one_name_stop_the_run() {
    let tree = dir(
        "r",
        vec![
            stamped("r/CAM_20230401103000_001.jpg", "20230402", "080910"),
            stamped("r/CAM_20230401103001_001.jpg", "20230402", "080910"),
        ],
        vec![dir("r/a", vec![stamped("r/a/CAM_20230401103000_002.jpg", "20230402", "080911")], vec![], None)],
        None,
    );
    let rules = Rules { exif: true, ..PLAIN };
    let steps = walk(&rules, 0, &tree);
    assert!(is_aborted(&steps));
    assert_eq!(steps.len(), 7);
    assert_eq!(
        steps[6],
        Step::Abort { dir: "r".to_string(), name: "CAM_20230402080910_001.jpg".to_string() }
    );
    assert_eq!(steps.iter().filter(|s| matches!(s, Step::Rename { .. })).count(), 1);
    match rename2::do_rename(&request2(true, false, false, false), &tree) {
        Err(e) => {
            assert_eq!(
                e,
                rename2::RenameError::NameCollision("r".to_string(), "CAM_20230402080910_001.jpg".to_string())
            );
            assert_eq!(e.message(), "name-collision r: CAM_20230402080910_001.jpg");
        }
        Ok(_) => panic!("the run went through"),
    }
}

#[test]
fn a_name_that_is_taken_stops_the_run() {
    let files = vec![
        file("r/CAM_20230402080910_001.jpg"),
        stamped("r/CAM_20230401103000_001.jpg", "20230402", "080910"),
    ];
    let rules = Rules { exif: true, ..PLAIN };
    let mut out = Vec::new();
    let map = survey(&rules, 0, &files, &mut out);
    assert_eq!(check_pass(&rules, false, &map, &files), Some("CAM_20230402080910_001.jpg".to_string()));
    let other = vec![
        file("r/CAM_20230402080910_001.arw"),
        stamped("r/CAM_20230401103000_001.jpg", "20230402", "080910"),
    ];
    assert_eq!(check_pass(&rules, false, &map, &other), None);
}

#[test]
fn a_clash_in_the_preview_stops_before_the_primary_is_renamed() {
    let tree = dir(
        "r",
        vec![stamped("r/CAM_20230401103000_001.jpg", "20230402", "080910")],
        vec![],
        Some(vec![
            file("r/preview/CAM_20230401103000_001.jpg"),
            file("r/preview/CAM_20230401103000_001-Enhanced-NR.jpg"),
        ]),
    );
    let rules = Rules { exif: true, ..PLAIN };
    let steps = walk(&rules, 0, &tree);
    assert_eq!(
        steps,
        vec![
            log("0 - \"r/CAM_20230401103000_001.jpg\" -> CAM_20230402080910_001.jpg"),
            Step::Abort { dir: "r/preview".to_string(), name: "CAM_20230402080910_001.jpg".to_string() },
        ]
    );
    let older = Rules { variants: false, ..rules };
    assert!(!is_aborted(&walk(&older, 0, &tree)));
}

#[test]
fn nothing_follows_a_stop_below() {
    let clash = dir(
        "r/a",
        vec![
            stamped("r/a/CAM_20230401103000_001.jpg", "20230402", "080910"),
            stamped("r/a/CAM_20230401103001_001.jpg", "20230402", "080910"),
        ],
        vec![],
        None,
    );
    let calm = dir("r/b", vec![file("r/b/x.txt")], vec![], None);
    let tree = dir("r", vec![file("r/y.txt")], vec![clash, calm], None);
    let steps = walk(&Rules { exif: true, ..PLAIN }, 0, &tree);
    assert_eq!(steps.len(), 4);
    assert_eq!(steps[0], log("0 dirs - r/a"));
    assert!(is_aborted(&steps));
}

#[test]
fn the_order_of_siblings_does_not_change_the_renames() {
    let a = dir("r/a", vec![stamped("r/a/CAM_20230401103000_001.jpg", "20230402", "080910")], vec![], None);
    let b = dir("r/b", vec![stamped("r/b/CAM_20230401103000_002.jpg", "20230402", "080911")], vec![], None);
    let a2 = dir("r/a", vec![stamped("r/a/CAM_20230401103000_001.jpg", "20230402", "080910")], vec![], None);
    let b2 = dir("r/b", vec![stamped("r/b/CAM_20230401103000_002.jpg", "20230402", "080911")], vec![], None);
    let rules = Rules { exif: true, ..PLAIN };
    let one = walk(&rules, 0, &dir("r", vec![], vec![a, b], None));
    let other = walk(&rules, 0, &dir("r", vec![], vec![b2, a2], None));
    let renames = |steps: &Vec<Step>| {
        let mut r: Vec<String> = steps
            .iter()
            .filter_map(|s| match s {
                Step::Rename { from, to, .. } => Some(format!("{} {}", from, to)),
                _ => None,
            })
            .collect();
        r.sort();
        r
    };
    assert_eq!(renames(&one).len(), 2);
    assert_eq!(renames(&one), renames(&other));
    assert_eq!(one, walk(&rules, 0, &dir("r", vec![], vec![
        dir("r/a", vec![stamped("r/a/CAM_20230401103000_001.jpg", "20230402", "080910")], vec![], None),
        dir("r/b", vec![stamped("r/b/CAM_20230401103000_002.jpg", "20230402", "080911")], vec![], None),
    ], None)));
}

#[test]
fn the_older_task_does_not_follow_variants() {
    let tree = dir(
        "r",
        vec![stamped("r/CAM_20230401103000_001.jpg", "20230402", "080910")],
        vec![],
        Some(vec![
            file("r/preview/CAM_20230401103000_001.jpg"),
            file("r/preview/CAM_20230401103000_001-Enhanced-NR.tif"),
        ]),
    );
    let req = rename::Request::from(&RenameCommand {
        dir: "r".to_string(),
        exif: true,
        dry: false,
        compact: false,
        touch: false,
    });
    assert_eq!(req.dir, "r");
    assert!(req.exif && !req.dry && !req.compact && !req.touch);
    assert!(!req.rules().variants);
    let steps = rename::do_rename(&req, &tree).unwrap();
    assert_eq!(
        steps,
        vec![
            log("0 - \"r/CAM_20230401103000_001.jpg\" -> CAM_20230402080910_001.jpg"),
            log("RENAME r/CAM_20230401103000_001.jpg -> r/CAM_20230402080910_001.jpg"),
            mv("r/CAM_20230401103000_001.jpg", "r/CAM_20230402080910_001.jpg"),
            log("RENAME r/preview/CAM_20230401103000_001.jpg -> r/preview/CAM_20230402080910_001.jpg"),
            mv("r/preview/CAM_20230401103000_001.jpg", "r/preview/CAM_20230402080910_001.jpg"),
        ]
    );
}

#[test]
fn the_request_takes_over_the_arguments() {
    let req = request2(true, false, true, false);
    assert_eq!(req.dir, "d");
    assert!(req.exif && !req.dry && req.compact && !req.touch);
    assert_eq!(
        req.rules(),
        Rules { exif: true, dry: false, compact: true, touch: false, variants: true }
    );
}

#[test]
fn errors_have_messages() {
    let e = rename::RenameError::Io("walkdir".to_string(), "denied".to_string());
    assert_eq!(e.message(), "io-error walkdir: denied");
    let e = rename2::RenameError::Io("rename".to_string(), "busy".to_string());
    assert_eq!(e.message(), "io-error rename: busy");
}

#[test]
fn deep_levels_are_counted() {
    let tree = dir("r", vec![], vec![dir("r/a", vec![file("r/a/x.txt")], vec![], None)], None);
    let steps = walk(&PLAIN, 18446744073709551615, &tree);
    assert_eq!(
        steps,
        vec![
            log("18446744073709551615 dirs - r/a"),
            log("18446744073709551615 - \"r/a/x.txt\" - NO.IMG"),
        ]
    );
    let steps = walk(&PLAIN, 9, &tree);
    assert_eq!(steps, vec![log("9 dirs - r/a"), log("10 - \"r/a/x.txt\" - NO.IMG")]);
}

#[test]
fn lines_on_files_begin_with_level_and_path() {
    assert_eq!(head_with(0, "\"a\""), "0 - \"a\"");
    assert_eq!(head_with(12, ""), "12 - ");
}

#[test]
fn the_identity_of_a_file_follows_the_stamp_where_asked() {
    let f = stamped("d/CAM_20230401103000_001.jpg", "20230402", "080910");
    assert_eq!(identify(false, &f).unwrap().canonical_name(), "CAM_20230401103000_001");
    assert_eq!(identify(true, &f).unwrap().canonical_name(), "CAM_20230402080910_001");
    assert!(identify(true, &stamped("d/IMG_1.jpg", "20230402", "080910")).is_none());
}

#[test]
fn the_renames_of_a_directory_follow_the_map_that_is_given() {
    let tree = dir(
        "d",
        vec![file("d/A.jpg"), file("d/B.jpg")],
        vec![],
        Some(vec![file("d/preview/A.tif")]),
    );
    let mut out = vec![log("before")];
    plan_renames(&Rules { dry: true, ..PLAIN }, &tree, &map_of_one("A", "001"), &mut out);
    assert_eq!(
        out,
        vec![
            log("before"),
            log("RENAME d/A.jpg -> d/CAM_20230401103000_001.jpg"),
            log("RENAME d/preview/A.tif -> d/preview/CAM_20230401103000_001.tif"),
        ]
    );
    let mut map = map_of_one("A", "001");
    let meta = Identity::new("CAM", "20230401", "103000", "001", "jpg").unwrap();
    map.insert("B".to_string(), RenameEntry { name: meta.canonical_name(), meta });
    let mut out = Vec::new();
    plan_renames(&PLAIN, &tree, &map, &mut out);
    assert_eq!(out, vec![Step::Abort { dir: "d".to_string(), name: "CAM_20230401103000_001.jpg".to_string() }]);
}
