use bevy_embedded_assets::asset_reader::get_meta_path;
use bevy_embedded_assets::path::{has_extension, is_descendant};

#[test]
fn meta_path_appends_to_the_extension() {
    assert_eq!(get_meta_path("image.png"), "image.png.meta");
    assert_eq!(get_meta_path("dir/image.png"), "dir/image.png.meta");
    assert_eq!(get_meta_path("archive.tar.gz"), "archive.tar.gz.meta");
    assert_eq!(get_meta_path("açèt.test"), "açèt.test.meta");
    assert_eq!(get_meta_path("image."), "image..meta");
}

#[test]
fn extension_is_found_in_the_file_name() {
    assert!(has_extension("image.png"));
    assert!(has_extension("dir/image.png"));
    assert!(has_extension("dir.d/image.png"));
    assert!(has_extension("archive.tar.gz"));
    assert!(has_extension("image."));
    assert!(has_extension(".hidden.png"));
    assert!(has_extension("..."));
    assert!(has_extension("..a"));
    assert!(has_extension("é.è"));
}

#[test]
fn extension_is_missed_without_an_inner_dot() {
    assert!(!has_extension("image"));
    assert!(!has_extension(""));
    assert!(!has_extension("dir/image"));
    assert!(!has_extension("dir.d/image"));
    assert!(!has_extension("dir.d/"));
    assert!(!has_extension(".hidden"));
    assert!(!has_extension("dir/.hidden"));
    assert!(!has_extension("."));
    assert!(!has_extension(".."));
    assert!(!has_extension("dir/.."));
    assert!(!has_extension("a.b/.."));
}

#[test]
fn descendant_lies_below_the_folder() {
    assert!(is_descendant("dir", "dir/b.png"));
    assert!(is_descendant("dir/", "dir/b.png"));
    assert!(is_descendant("dir", "dir/sub/c.png"));
    assert!(is_descendant("dir/sub", "dir/sub/c.png"));
    assert!(is_descendant("dir", "dir/"));
    assert!(is_descendant("é", "é/è"));
}

#[test]
fn descendant_is_not_the_folder_nor_beside_it() {
    assert!(!is_descendant("dir", "dir"));
    assert!(!is_descendant("dir/", "dir/"));
    assert!(!is_descendant("dir/", "dir"));
    assert!(!is_descendant("dir", "directory/b.png"));
    assert!(!is_descendant("dir", "dir.png"));
    assert!(!is_descendant("dir/b", "dir/b.png"));
    assert!(!is_descendant("dir/b.png", "dir"));
    assert!(!is_descendant("a", "b/a/c"));
    assert!(!is_descendant("", "a.png"));
    assert!(!is_descendant("", ""));
    assert!(is_descendant("", "/a.png"));
    assert!(!is_descendant("é", "è/a"));
}
