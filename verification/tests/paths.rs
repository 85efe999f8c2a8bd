use pixakit::paths::{astro_file_path, font_file_path, join_path, storage_location, upload_base_path};

#[test]
fn join_adds_separator() {
    assert_eq!(join_path("a", "b"), "a/b");
    assert_eq!(join_path("a/", "b"), "a/b");
    assert_eq!(join_path("", "b"), "b");
    assert_eq!(join_path("a", ""), "a/");
}

#[test]
fn join_absolute_replaces() {
    assert_eq!(join_path("a", "/b"), "/b");
}

#[test]
fn join_matches_path_buf() {
    for (base, part) in [("a", "b"), ("a/", "b"), ("", "b"), ("a", ""), ("a", "/b"), ("/x/y", "z/w.png")] {
        let expected = std::path::PathBuf::from(base).join(part);
        assert_eq!(join_path(base, part), expected.to_str().unwrap());
    }
}

#[test]
fn upload_paths() {
    assert_eq!(upload_base_path(None), "ondisk_storage");
    assert_eq!(upload_base_path(Some("folder1/subfolder1")), "ondisk_storage/folder1/subfolder1");
}

#[test]
fn storage_under_working_dir() {
    assert_eq!(storage_location("/srv/app"), "/srv/app/ondisk_storage");
}

#[test]
fn asset_paths() {
    assert_eq!(font_file_path("inter.woff2"), "./apps/pixakit.ui/dist/fonts/inter.woff2");
    assert_eq!(astro_file_path("index.css"), "./apps/pixakit.ui/dist/_astro/index.css");
}
