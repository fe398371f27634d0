use iphoto::base::placement::{Action, Event, Outcome, PlacementError, Stage};
use iphoto::task::import::{
    cmd_import_dest_dir, cmd_import_source_dir, glob_ex, io_error, ImportCommand, ImportError,
    Request, Response, Task, SKIPPED,
};

fn import_command(source: Option<&str>, dest: Option<&str>) -> ImportCommand {
    ImportCommand {
        source: source.map(|s| s.to_string()),
        dest: dest.map(|s| s.to_string()),
        host: "mac".to_string(),
        compact: false,
        touch: true,
        rename: false,
    }
}

fn wanted(source: &str, compact: bool, rename: bool) -> Request {
    Request { source: source.to_string(), dest: "/archive".to_string(), compact, touch: true, rename }
}

#[test]
fn the_source_defaults_to_the_card() {
    assert_eq!(cmd_import_source_dir(&import_command(None, None)), "/Volumns/Untitled");
    assert_eq!(cmd_import_source_dir(&import_command(Some("/mnt/sd"), None)), "/mnt/sd");
}

#[test]
fn the_destination_defaults_to_the_home() {
    assert_eq!(cmd_import_dest_dir(&import_command(None, None), "/home/me"), "/home/me/PI");
    assert_eq!(cmd_import_dest_dir(&import_command(None, Some("/archive")), "/home/me"), "/archive");
}

#[test]
fn the_pattern_looks_below_the_camera_directory() {
    let r = wanted("/mnt/sd/DCIM", false, false);
    assert_eq!(Task { request: &r }.pattern(false), "/mnt/sd/DCIM/**");
    assert_eq!(Task { request: &r }.pattern(true), "/mnt/sd/DCIM/**");
    let r = wanted("/mnt/sd", false, false);
    assert_eq!(Task { request: &r }.pattern(true), "/mnt/sd/DCIM/**");
    assert_eq!(Task { request: &r }.pattern(false), "/mnt/sd");
    let r = wanted("/mnt/sd/XDCIM", false, false);
    assert_eq!(Task { request: &r }.pattern(false), "/mnt/sd/XDCIM");
    let r = wanted("DCIM", false, false);
    assert_eq!(Task { request: &r }.pattern(false), "DCIM");
    let r = wanted("/DCIM", false, false);
    assert_eq!(Task { request: &r }.pattern(false), "/DCIM/**");
}

#[test]
fn raw_files_are_looked_for_by_two_patterns() {
    assert_eq!(glob_ex("/mnt/sd/DCIM/**"), vec!["/mnt/sd/DCIM/**/*.ARW", "/mnt/sd/DCIM/**/*.NEF"]);
}

#[test]
fn the_banner_counts_the_photos() {
    let r = wanted("/mnt/sd", false, false);
    assert_eq!(Task { request: &r }.banner(120), "[IMPORT] /mnt/sd to /archive, 120 photos");
}

#[test]
fn an_import_copies_into_the_day() {
    let r = wanted("/mnt/sd", false, false);
    let p = Task { request: &r }.copy("/mnt/sd/DCIM/100MSDCF/A7_20230401103000_0042.ARW").unwrap();
    assert_eq!(p.directory(), "/archive/20230401");
    assert_eq!(p.destination(), "/archive/20230401/A7_20230401103000_0042.arw");
    let (_, action) = p.step(Stage::ProbingDir, Event::Found);
    assert_eq!(
        action,
        Action::CopyFile {
            from: "/mnt/sd/DCIM/100MSDCF/A7_20230401103000_0042.ARW".to_string(),
            to: "/archive/20230401/A7_20230401103000_0042.arw".to_string(),
        }
    );
    let (stage, _) = p.step(Stage::Transferring, Event::Done);
    assert_eq!(stage, Stage::TouchingFile);
}

#[test]
fn an_import_by_rename_moves_and_compact_is_flat() {
    let r = wanted("/mnt/sd", true, true);
    let p = Task { request: &r }.copy("/mnt/sd/A7_20230401103000_0042.ARW").unwrap();
    assert_eq!(p.directory(), "/archive");
    assert_eq!(p.destination(), "/archive/01103000_0042.arw");
    let (_, action) = p.step(Stage::ProbingDir, Event::Found);
    assert!(matches!(action, Action::MoveFile { .. }));
    let (stage, action) = p.step(Stage::Transferring, Event::Done);
    assert_eq!(stage, Stage::Finished);
    assert_eq!(action, Action::Finish(Outcome::Placed));
}

#[test]
fn a_file_without_identity_has_no_placement() {
    let r = wanted("/mnt/sd", false, false);
    assert!(Task { request: &r }.copy("/mnt/sd/DSC00001.ARW").is_none());
}

#[test]
fn outcomes_settle_as_counts_or_errors() {
    assert_eq!(Task::settle(Ok(Outcome::Placed), 4096), Ok(4096));
    assert_eq!(Task::settle(Ok(Outcome::Placed), 0), Ok(0));
    assert_eq!(Task::settle(Ok(Outcome::Skipped), 4096), Ok(999999999));
    assert_eq!(SKIPPED, 999999999);
    let failed = PlacementError { operation: "create-dir".to_string(), path: "/archive/20230401".to_string() };
    let e = Task::settle(Err(failed), 0).unwrap_err();
    assert_eq!(e, ImportError::Io("create-dir".to_string(), "/archive/20230401".to_string()));
    assert_eq!(e.message(), "io-error create-dir: /archive/20230401");
    assert_eq!(io_error("copy".to_string(), "a".to_string()), ImportError::Io("copy".to_string(), "a".to_string()));
    let _ = Response {};
}
