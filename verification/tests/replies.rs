use pixakit::assets::{astro_reply, font_reply};
use pixakit::blob::{storage_failure, BlobDownload};
use pixakit::greetings::{cloud_images_reply, cloud_img_reply, google_cloud_greeting, on_disk_greeting};
use pixakit::provider::{creation_report, names_ondisk, uses_ondisk_storage};
use pixakit::reply::{Body, Status};

fn text(b: &Body) -> &str {
    match b {
        Body::Text(t) => t.as_str(),
        Body::Bytes(_) => panic!("expected text"),
    }
}

#[test]
fn font_found_and_missing() {
    let r = font_reply("./apps/pixakit.ui/dist/fonts/inter.woff2", Some(vec![1]));
    assert_eq!(r.status, Status::Success);
    assert_eq!(r.content_type.as_deref(), Some("font/woff2"));
    let m = font_reply("./apps/pixakit.ui/dist/fonts/x.woff2", None);
    assert_eq!(m.status, Status::NotFound);
    assert!(m.content_type.is_none());
    assert_eq!(text(&m.body), "Font file not found");
}

#[test]
fn astro_found_and_missing() {
    let r = astro_reply("./apps/pixakit.ui/dist/_astro/index.css", Some(vec![b'a']));
    assert_eq!(r.content_type.as_deref(), Some("text/css"));
    match r.body {
        Body::Bytes(b) => assert_eq!(b, vec![b'a']),
        Body::Text(_) => panic!("expected bytes"),
    }
    let m = astro_reply("./apps/pixakit.ui/dist/_astro/x.js", None);
    assert_eq!(m.status, Status::NotFound);
    assert_eq!(text(&m.body), "File not found");
}

#[test]
fn greetings() {
    assert_eq!(text(&on_disk_greeting(Some("x")).body), "Hello, on disk subroute with param: x");
    assert_eq!(text(&on_disk_greeting(None).body), "Hello, on disk subroute without param");
    assert_eq!(text(&google_cloud_greeting(Some("y")).body), "Hello, Google Cloud subroute with param: y");
    assert_eq!(text(&google_cloud_greeting(None).body), "Hello, Google Cloud subroute without param");
    assert_eq!(on_disk_greeting(None).status, Status::Success);
    assert!(on_disk_greeting(None).content_type.is_none());
    assert_eq!(text(&cloud_images_reply().body), "Hello, on disk subroute without param");
    assert_eq!(text(&cloud_img_reply().body), "Hello, ");
    assert_eq!(cloud_img_reply().status, Status::Success);
}

#[test]
fn provider_choice() {
    assert!(uses_ondisk_storage(None));
    assert!(uses_ondisk_storage(Some("OnDisk")));
    assert!(uses_ondisk_storage(Some("ondisk")));
    assert!(!uses_ondisk_storage(Some("AZURE")));
    assert!(!uses_ondisk_storage(Some("ondisk ")));
    assert!(names_ondisk("ondisk"));
    assert!(!names_ondisk("ONDISK"));
}

#[test]
fn creation_reports() {
    assert_eq!(creation_report("/srv/ondisk_storage", Ok(())), "Created directory: /srv/ondisk_storage");
    assert_eq!(creation_report("/srv/ondisk_storage", Err("denied")), "Failed to create directory: denied");
}

#[test]
fn blob_chunks_in_order() {
    let mut d = BlobDownload::new();
    d.receive(&[1, 2]);
    d.receive(&[]);
    d.receive(&[3]);
    let r = d.finish();
    assert_eq!(r.status, Status::Success);
    assert_eq!(r.content_type.as_deref(), Some("image/webp"));
    match r.body {
        Body::Bytes(b) => assert_eq!(b, vec![1, 2, 3]),
        Body::Text(_) => panic!("expected bytes"),
    }
}

#[test]
fn storage_failure_reply() {
    let r = storage_failure("blob not found".to_string());
    assert_eq!(r.status, Status::ServerError);
    assert_eq!(r.content_type.as_deref(), Some("text/plain; charset=utf-8"));
    assert_eq!(text(&r.body), "blob not found");
}
