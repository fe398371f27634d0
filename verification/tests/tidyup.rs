use iphoto::base::identity::CaptureStamp;
use iphoto::base::placement::{Action, Event, Outcome, Stage};
use iphoto::base::reconcile::{DirTree, FileEntry};
use iphoto::task::tidyup::{report_line, Task, TidyStep, TidyupCommand};

fn command(dest: Option<&str>, dry: bool, compact: bool, docopy: bool, year: bool) -> TidyupCommand {
    TidyupCommand {
        source: "/photos".to_string(),
        dest: dest.map(|d| d.to_string()),
        exif: true,
        dry,
        compact,
        touch: true,
        docopy,
        year,
    }
}

fn leaf(path: &str) -> FileEntry {
    FileEntry { path: path.to_string(), capture: None }
}

fn shelf(path: &str, files: Vec<FileEntry>, subdirs: Vec<DirTree>) -> DirTree {
    DirTree { path: path.to_string(), files, subdirs, preview: None }
}

fn first_action(step: &TidyStep) -> (String, Action) {
    match step {
        TidyStep::Place { head, placement } => (head.clone(), placement.step(Stage::Start, Event::Begin).1),
        other => panic!("no placement: {:?}", other),
    }
}

#[test]
fn tidying_plans_subdirectories_first_and_counts_down() {
    let tree = shelf(
        "/photos",
        vec![
            leaf("/photos/CAM_20230401103000_001.jpg"),
            leaf("/photos/notes.txt"),
            leaf("/photos/IMG_0001.jpg"),
            leaf("/photos/Makefile"),
        ],
        vec![shelf("/photos/in", vec![leaf("/photos/in/CAM_20230401103000_002.ARW")], vec![])],
    );
    let task = Task { cmd: command(None, false, false, false, true) };
    let steps = task.run(&tree);
    assert_eq!(steps.len(), 3);
    assert_eq!(
        first_action(&steps[0]),
        (
            "F,1,/photos/in/CAM_20230401103000_002.ARW".to_string(),
            Action::ProbeFile { path: "/photos/2023/20230401/CAM_20230401103000_002.arw".to_string() }
        )
    );
    assert_eq!(
        first_action(&steps[1]),
        (
            "F,4,/photos/CAM_20230401103000_001.jpg".to_string(),
            Action::ProbeFile { path: "/photos/2023/20230401/CAM_20230401103000_001.jpg".to_string() }
        )
    );
    assert_eq!(steps[2], TidyStep::Log("F,2,/photos/IMG_0001.jpg,ERR".to_string()));
}

#[test]
fn tidying_moves_unless_asked_to_copy() {
    let entry = leaf("/photos/CAM_20230401103000_001.jpg");
    for (docopy, copies) in [(false, false), (true, true)] {
        let task = Task { cmd: command(Some("/archive"), false, false, docopy, false) };
        match task.file("/archive", &entry, 1) {
            Some(TidyStep::Place { placement, .. }) => {
                assert_eq!(placement.directory(), "/archive/20230401");
                let (stage, action) = placement.step(Stage::ProbingDir, Event::Found);
                assert_eq!(stage, Stage::Transferring);
                assert_eq!(matches!(action, Action::CopyFile { .. }), copies);
                assert_eq!(matches!(action, Action::MoveFile { .. }), !copies);
            }
            other => panic!("no placement: {:?}", other),
        }
    }
}

#[test]
fn tidying_compact_is_flat() {
    let task = Task { cmd: command(Some("/archive"), false, true, false, true) };
    let steps = task.dir(&shelf("/photos", vec![leaf("/photos/CAM_20230401103000_001.jpg")], vec![]), "/archive");
    assert_eq!(
        first_action(&steps[0]).1,
        Action::ProbeFile { path: "/archive/401103000_001.jpg".to_string() }
    );
}

#[test]
fn a_dry_tidying_promises_only() {
    let task = Task { cmd: command(Some("/archive"), true, false, false, true) };
    let entry = FileEntry {
        path: "/photos/CAM_20230401103000_001.JPG".to_string(),
        capture: CaptureStamp::new("20221231", "235959"),
    };
    assert_eq!(
        task.file("/archive", &entry, 7),
        Some(TidyStep::Promise {
            head: "F,7,/photos/CAM_20230401103000_001.JPG".to_string(),
            dest: "/archive/2022/20221231/CAM_20221231235959_001.jpg".to_string(),
        })
    );
}

#[test]
fn what_is_no_photograph_is_passed_over() {
    let task = Task { cmd: command(None, false, false, false, true) };
    assert_eq!(task.file("/archive", &leaf("/photos/notes.txt"), 1), None);
    assert_eq!(task.file("/archive", &leaf("/photos/CAM_20230401103000_001"), 1), None);
    assert_eq!(task.file("/archive", &leaf("/photos/.jpg"), 1), None);
}

#[test]
fn reports_name_status_destination_and_time() {
    assert_eq!(report_line("F,3,/p/a.jpg", Outcome::Placed, "/a/b.jpg", 12), "F,3,/p/a.jpg,OK,/a/b.jpg,12");
    assert_eq!(report_line("F,1,x", Outcome::Skipped, "y", 0), "F,1,x,SKIP,y,0");
    assert_eq!(
        report_line("h", Outcome::Placed, "d", 18446744073709551615),
        "h,OK,d,18446744073709551615"
    );
}
