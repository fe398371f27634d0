use iphoto::base::identity::{parse, CaptureStamp, Identity, ParseError};

fn sample() -> Identity {
    Identity::new("CAM", "20230401", "103000", "001", "jpg").unwrap()
}

#[test]
fn canonical_name_joins_the_parts() {
    assert_eq!(sample().canonical_name(), "CAM_20230401103000_001");
}

#[test]
fn compact_name_drops_nine_characters() {
    let id = sample();
    assert_eq!(id.compact_name(), "401103000_001");
    assert_eq!(id.compact_name(), id.canonical_name()[9..].to_string());
}

#[test]
fn parse_reads_a_canonical_file_name() {
    let id = parse("some/dir/CAM_20230401103000_001.JPG").unwrap();
    assert_eq!(id.device_tag(), "CAM");
    assert_eq!(id.capture_date(), "20230401");
    assert_eq!(id.capture_time(), "103000");
    assert_eq!(id.sequence(), "001");
    assert_eq!(id.extension(), "jpg");
}

#[test]
fn parse_rejects_a_camera_name() {
    assert_eq!(parse("IMG_0001.jpg").err(), Some(ParseError::Unrecognized));
}

#[test]
fn round_trip_recovers_the_identity() {
    let id = sample();
    let back = parse(&id.canonical_name()).unwrap();
    assert!(back.is_same_photo(&id));
    assert_eq!(back.extension(), "");
}

#[test]
fn refinement_replaces_date_and_time_only() {
    let stamp = CaptureStamp::new("20230402", "080910").unwrap();
    let id = sample().refine_from_capture_metadata(Some(&stamp));
    assert_eq!(id.canonical_name(), "CAM_20230402080910_001");
    assert_eq!(id.extension(), "jpg");
    let same = sample().refine_from_capture_metadata(None);
    assert_eq!(same.canonical_name(), "CAM_20230401103000_001");
}

#[test]
fn expanded_paths_are_bucketed_by_date() {
    let id = sample();
    let (dir, path) = id.expanded_dir_and_path("/archive", false);
    assert_eq!(dir, "/archive/20230401");
    assert_eq!(path, "/archive/20230401/CAM_20230401103000_001.jpg");
    let (dir, path) = id.expanded_dir_and_path("/archive", true);
    assert_eq!(dir, "/archive/2023/20230401");
    assert_eq!(path, "/archive/2023/20230401/CAM_20230401103000_001.jpg");
}

#[test]
fn compact_paths_are_flat() {
    let (dir, path) = sample().compact_dir_and_path("/archive");
    assert_eq!(dir, "/archive");
    assert_eq!(path, "/archive/401103000_001.jpg");
}

#[test]
fn new_rejects_malformed_parts() {
    assert!(Identity::new("", "20230401", "103000", "001", "jpg").is_none());
    assert!(Identity::new("CA_M", "20230401", "103000", "001", "jpg").is_none());
    assert!(Identity::new("CAM", "2023041", "103000", "001", "jpg").is_none());
    assert!(Identity::new("CAM", "2023040a", "103000", "001", "jpg").is_none());
    assert!(Identity::new("CAM", "20230401", "1030", "001", "jpg").is_none());
    assert!(Identity::new("CAM", "20230401", "103000", "", "jpg").is_none());
    assert!(Identity::new("CAM", "20230401", "103000", "0-1", "jpg").is_none());
    assert!(Identity::new("CAM", "20230401", "103000", "001", "j.pg").is_none());
    assert!(Identity::new("CAM", "20230401", "103000", "001", "j/pg").is_none());
    assert!(Identity::new("CAM", "20230401", "103000", "001", "").is_some());
}

#[test]
fn new_normalizes_the_extension() {
    let id = Identity::new("cam7", "20230401", "103000", "a1", "JPeG").unwrap();
    assert_eq!(id.extension(), "jpeg");
    assert_eq!(id.device_tag(), "cam7");
    assert_eq!(id.sequence(), "a1");
    assert_eq!(id.canonical_date(), "20230401");
}

#[test]
fn capture_stamp_wants_eight_and_six_digits() {
    assert!(CaptureStamp::new("20230401", "103000").is_some());
    assert!(CaptureStamp::new("2023040", "103000").is_none());
    assert!(CaptureStamp::new("20230401", "1030000").is_none());
    assert!(CaptureStamp::new("2023o401", "103000").is_none());
    assert!(CaptureStamp::new("20230401", "1o3000").is_none());
    let stamp = CaptureStamp::new("20230401", "103000").unwrap();
    assert_eq!(stamp.date(), "20230401");
    assert_eq!(stamp.time(), "103000");
}

#[test]
fn parse_rejects_what_is_not_canonical() {
    for name in [
        "",
        "CAM",
        ".jpg",
        ".CAM_20230401103000_001",
        "_20230401103000_001.jpg",
        "CAM_20230401103000_.jpg",
        "CAM_2023040110300_001.jpg",
        "CAM_20230401103000001.jpg",
        "CAM_20230401-103000_001.jpg",
        "CAM_20230401103000_001-Enhanced-NR.jpg",
        "CA.M_20230401103000_001.jpg",
        "CAM_20230401103000_0_1.jpg",
        "401103000_001.jpg",
        "dir/CAM_20230401103000_001.jpg/",
    ] {
        assert_eq!(parse(name).err(), Some(ParseError::Unrecognized), "{}", name);
    }
}

#[test]
fn parse_accepts_names_without_extension_and_with_an_empty_one() {
    assert_eq!(parse("CAM_20230401103000_001").unwrap().extension(), "");
    assert_eq!(parse("CAM_20230401103000_001.").unwrap().extension(), "");
    assert_eq!(parse("a.b/CAM_20230401103000_001").unwrap().canonical_name(), "CAM_20230401103000_001");
}

#[test]
fn round_trip_with_extension_and_directory() {
    let id = Identity::new("D750", "19991231", "235959", "x9", "nef").unwrap();
    let (_, path) = id.expanded_dir_and_path("/a/b", true);
    assert_eq!(path, "/a/b/1999/19991231/D750_19991231235959_x9.nef");
    assert_eq!(parse(&path).unwrap(), id);
}

#[test]
fn same_photo_ignores_the_extension() {
    let a = Identity::new("CAM", "20230401", "103000", "001", "jpg").unwrap();
    let b = Identity::new("CAM", "20230401", "103000", "001", "arw").unwrap();
    let c = Identity::new("CAM", "20230401", "103000", "002", "jpg").unwrap();
    assert!(a.is_same_photo(&b));
    assert_eq!(a.canonical_name(), b.canonical_name());
    assert!(!a.is_same_photo(&c));
    assert_ne!(a.canonical_name(), c.canonical_name());
    assert_eq!(a.clone(), a);
}

#[test]
fn capture_stamps_are_read_from_their_written_form() {
    let stamp = CaptureStamp::from_exif("2023:04:01 10:30:00").unwrap();
    assert_eq!(stamp.date(), "20230401");
    assert_eq!(stamp.time(), "103000");
    assert_eq!(CaptureStamp::from_exif("2023:04:01 10:30:00\0"), CaptureStamp::new("20230401", "103000"));
    for text in [
        "",
        "2023:04:01 10:30:0",
        "2023-04-01 10:30:00",
        "2023:04:01T10:30:00",
        "2023:04:01 10.30.00",
        "2023:04:01 10:30:0x",
        "x023:04:01 10:30:00",
        "    :  :     :  :  ",
    ] {
        assert!(CaptureStamp::from_exif(text).is_none(), "{}", text);
    }
}

#[test]
fn the_shortest_names_are_long_enough_to_be_compacted() {
    let id = Identity::new("A", "20230401", "103000", "1", "").unwrap();
    assert_eq!(id.canonical_name(), "A_20230401103000_1");
    assert_eq!(id.compact_name(), "1103000_1");
    let (dir, path) = id.compact_dir_and_path("");
    assert_eq!(dir, "");
    assert_eq!(path, "/1103000_1.");
}

#[test]
fn only_ascii_letters_and_digits_make_a_tag() {
    assert!(Identity::new("CAMÉ", "20230401", "103000", "001", "jpg").is_none());
    assert!(Identity::new("CAM", "2023040١", "103000", "001", "jpg").is_none());
    assert!(Identity::new("CAM", "20230401", "103000", "00①", "jpg").is_none());
    assert_eq!(Identity::new("CAM", "20230401", "103000", "001", "ÄB").unwrap().extension(), "Äb");
    assert_eq!(parse("CAMÉ_20230401103000_001.jpg").err(), Some(ParseError::Unrecognized));
    assert_eq!(parse("dir é/CAM_20230401103000_001.JPÉG").unwrap().extension(), "jpÉg");
}
