use pixakit::reply::{Body, Status};
use pixakit::upload::{directory_failure, extract_filename, is_image_media, plan_file_save, upload_done};

fn text(b: &Body) -> &str {
    match b {
        Body::Text(t) => t.as_str(),
        Body::Bytes(_) => panic!("expected text"),
    }
}

#[test]
fn filename_from_quoted_disposition() {
    let f = extract_filename(Some("form-data; name=\"file\"; filename=\"photo.png\""));
    assert_eq!(f.as_deref(), Some("photo.png"));
}

#[test]
fn filename_unquoted() {
    assert_eq!(extract_filename(Some("attachment; filename=a.jpg")).as_deref(), Some("a.jpg"));
}

#[test]
fn filename_absent() {
    assert_eq!(extract_filename(Some("form-data; name=\"file\"")), None);
    assert_eq!(extract_filename(None), None);
}

#[test]
fn filename_stops_at_second_marker() {
    let f = extract_filename(Some("filename=\"a\"; filename=\"b\""));
    assert_eq!(f.as_deref(), Some("a\"; "));
}

#[test]
fn filename_all_quotes_is_empty() {
    assert_eq!(extract_filename(Some("filename=\"\"\"")).as_deref(), Some(""));
}

#[test]
fn filename_keeps_inner_quotes() {
    assert_eq!(extract_filename(Some("filename=\"a\"b\"")).as_deref(), Some("a\"b"));
}

#[test]
fn image_media_check() {
    assert!(is_image_media(Some("image")));
    assert!(!is_image_media(Some("text")));
    assert!(!is_image_media(Some("Image")));
    assert!(!is_image_media(None));
}

#[test]
fn save_plan_accepts_image() {
    let r = plan_file_save("ondisk_storage/folder1", Some("form-data; filename=\"x.webp\""), Some("image"));
    assert_eq!(r.unwrap(), "ondisk_storage/folder1/x.webp");
}

#[test]
fn save_plan_without_filename() {
    let r = plan_file_save("ondisk_storage", Some("form-data; name=\"f\""), Some("image")).unwrap_err();
    assert_eq!(r.status, Status::BadRequest);
    assert_eq!(r.content_type.as_deref(), Some("text/plain; charset=utf-8"));
    assert_eq!(text(&r.body), "Filename not found in content disposition");
}

#[test]
fn save_plan_filename_checked_before_type() {
    let r = plan_file_save("ondisk_storage", None, Some("text")).unwrap_err();
    assert_eq!(text(&r.body), "Filename not found in content disposition");
}

#[test]
fn save_plan_rejects_non_image() {
    let r = plan_file_save("ondisk_storage", Some("filename=a.txt"), Some("text")).unwrap_err();
    assert_eq!(r.status, Status::BadRequest);
    assert_eq!(text(&r.body), "Only image files are allowed");
}

#[test]
fn failure_and_done_replies() {
    let r = directory_failure("read-only file system");
    assert_eq!(r.status, Status::ServerError);
    assert_eq!(r.content_type.as_deref(), Some("text/plain; charset=utf-8"));
    assert_eq!(text(&r.body), "Failed to create directory: read-only file system");
    let d = upload_done();
    assert_eq!(d.status, Status::Success);
    assert!(d.content_type.is_none());
    assert_eq!(text(&d.body), "File uploaded successfully");
}
