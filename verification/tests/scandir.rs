use iphoto::base::scandir::{scan, DirEntry};

fn listed(path: &str, is_dir: bool) -> DirEntry {
    DirEntry { path: path.to_string(), is_dir }
}

fn paths_of(entries: &Vec<DirEntry>) -> Vec<String> {
    entries.iter().map(|e| e.path.clone()).collect()
}

#[test]
fn scan_parts_files_from_directories() {
    let entries = vec![
        listed("d/b.jpg", false),
        listed("d/sub", true),
        listed("d/a.jpg", false),
    ];
    let (files, dirs) = scan(&entries);
    assert_eq!(paths_of(&files), vec!["d/a.jpg", "d/b.jpg"]);
    assert_eq!(paths_of(&dirs), vec!["d/sub"]);
}

#[test]
fn scan_leaves_the_preview_directory_out() {
    let entries = vec![
        listed("d/preview", true),
        listed("d/previews", true),
        listed("d/Preview", true),
        listed("d/preview", false),
    ];
    let (files, dirs) = scan(&entries);
    assert_eq!(paths_of(&files), vec!["d/preview"]);
    assert_eq!(paths_of(&dirs), vec!["d/Preview", "d/previews"]);
}

#[test]
fn scan_sorts_by_file_name() {
    let entries = vec![
        listed("z/b", false),
        listed("a/c", false),
        listed("m/a", false),
        listed("m/B", false),
        listed("m/ab", false),
        listed("m/", false),
    ];
    let (files, _) = scan(&entries);
    assert_eq!(paths_of(&files), vec!["m/", "m/B", "m/a", "m/ab", "z/b", "a/c"]);
}

#[test]
fn scan_gives_the_same_for_any_order_of_the_entries() {
    let one = vec![listed("d/c", false), listed("d/a", true), listed("d/b", false), listed("d/e", true)];
    let other = vec![listed("d/e", true), listed("d/b", false), listed("d/a", true), listed("d/c", false)];
    assert_eq!(scan(&one), scan(&other));
}

#[test]
fn scan_of_nothing_is_nothing() {
    let (files, dirs) = scan(&Vec::new());
    assert!(files.is_empty());
    assert!(dirs.is_empty());
}

#[test]
fn scan_keeps_the_order_of_entries_of_one_name() {
    let entries = vec![
        listed("y/a", false),
        listed("x/b", false),
        listed("x/a", false),
        listed("z/a", false),
        listed("w/b", false),
    ];
    let (files, _) = scan(&entries);
    assert_eq!(paths_of(&files), vec!["y/a", "x/a", "z/a", "x/b", "w/b"]);
}
