use iphoto::base::labelinfo::LabelInfo;
use iphoto::base::utils::is_img_ext;
use iphoto::text::{chars_of, dotted, leaf_of, name_parts, same_text};

#[test]
fn photographs_are_known_by_their_extension() {
    for ext in ["jpg", "JPG", "Jpeg", "png", "HEIC", "tif", "TIFF", "arw", "NEF", "dng", "cr2"] {
        assert!(is_img_ext(ext), "{}", ext);
    }
    for ext in ["", "txt", "jpg ", "jp", "jpgx", "xmp", "mov", "j.pg"] {
        assert!(!is_img_ext(ext), "{}", ext);
    }
}

#[test]
fn names_part_at_the_last_dot() {
    let p = name_parts("a/b.c/photo.tar.GZ");
    assert_eq!(p.stem, "photo.tar");
    assert_eq!(p.extension, Some("GZ".to_string()));
    let p = name_parts("a/b.c/photo");
    assert_eq!(p.stem, "photo");
    assert_eq!(p.extension, None);
    let p = name_parts(".profile");
    assert_eq!(p.stem, ".profile");
    assert_eq!(p.extension, None);
    let p = name_parts("dir/name.");
    assert_eq!(p.stem, "name");
    assert_eq!(p.extension, Some(String::new()));
    let p = name_parts("dir/");
    assert_eq!(p.stem, "");
    assert_eq!(p.extension, None);
    let p = name_parts("..");
    assert_eq!(p.stem, ".");
    assert_eq!(p.extension, Some(String::new()));
}

#[test]
fn texts_are_taken_apart_and_put_together() {
    assert_eq!(leaf_of("a/b/c.jpg"), "c.jpg");
    assert_eq!(leaf_of("c.jpg"), "c.jpg");
    assert_eq!(leaf_of("a/"), "");
    assert_eq!(dotted("a", "b"), "a.b");
    assert!(same_text("été", "été"));
    assert!(!same_text("ete", "été"));
    let v = chars_of("héllo");
    assert_eq!(v, vec!['h', 'é', 'l', 'l', 'o']);
}

#[test]
fn a_label_holds_colour_and_rating() {
    let label = LabelInfo { color: 3, rate: 5 };
    assert_eq!(label, LabelInfo { color: 3, rate: 5 });
}
