use pixakit::images::{after_cache_lookup, after_file_read, plan_image_lookup, AfterCache, FileRead};
use pixakit::reply::{Body, Status};

#[test]
fn cache_key_without_sizes() {
    let l = plan_image_lookup("folder1/subfolder1/sebasback.webp", None, None);
    assert_eq!(l.cache_key, "/images/folder1/subfolder1/sebasback.webp");
    assert_eq!(l.file_path, "ondisk_storage/folder1/subfolder1/sebasback.webp");
}

#[test]
fn cache_key_with_both_sizes() {
    let l = plan_image_lookup("folder1/subfolder1/sebasback.webp", Some(300), Some(500));
    assert_eq!(l.cache_key, "/images/folder1/subfolder1/sebasback.webp?width=300&height=500");
}

#[test]
fn cache_key_with_width_only() {
    let l = plan_image_lookup("a.png", Some(0), None);
    assert_eq!(l.cache_key, "/images/a.png?width=0");
}

#[test]
fn cache_key_with_height_only() {
    let l = plan_image_lookup("a.png", None, Some(4294967295));
    assert_eq!(l.cache_key, "/images/a.png?height=4294967295");
}

#[test]
fn distinct_sizes_give_distinct_keys() {
    let a = plan_image_lookup("a.png", Some(12), None);
    let b = plan_image_lookup("a.png", Some(1), Some(2));
    let c = plan_image_lookup("a.png", None, Some(12));
    assert_ne!(a.cache_key, b.cache_key);
    assert_ne!(a.cache_key, c.cache_key);
    assert_ne!(b.cache_key, c.cache_key);
}

#[test]
fn absolute_tail_replaces_storage_dir() {
    let l = plan_image_lookup("/etc/x.png", None, None);
    assert_eq!(l.file_path, "/etc/x.png");
}

#[test]
fn cache_hit_serves_webp() {
    let l = plan_image_lookup("a.png", None, None);
    match after_cache_lookup(&l, Some(vec![1, 2, 3])) {
        AfterCache::Serve(r) => {
            assert_eq!(r.status, Status::Success);
            assert_eq!(r.content_type.as_deref(), Some("image/webp"));
            match r.body {
                Body::Bytes(b) => assert_eq!(b, vec![1, 2, 3]),
                Body::Text(_) => panic!("expected bytes"),
            }
        },
        AfterCache::ReadFile(_) => panic!("expected a cached reply"),
    }
}

#[test]
fn cache_miss_reads_the_file() {
    let l = plan_image_lookup("dir/a.png", Some(3), None);
    match after_cache_lookup(&l, None) {
        AfterCache::ReadFile(p) => assert_eq!(p, "ondisk_storage/dir/a.png"),
        AfterCache::Serve(_) => panic!("expected a file read"),
    }
}

#[test]
fn missing_file_is_not_found() {
    let l = plan_image_lookup("a.png", None, None);
    let o = after_file_read(&l, FileRead::Missing);
    assert!(o.store.is_none());
    assert_eq!(o.reply.status, Status::NotFound);
    assert_eq!(o.reply.content_type.as_deref(), Some("text/plain; charset=utf-8"));
    match o.reply.body {
        Body::Text(t) => assert_eq!(t, "File not found"),
        Body::Bytes(_) => panic!("expected text"),
    }
}

#[test]
fn failed_read_is_server_error() {
    let l = plan_image_lookup("a.png", None, None);
    let o = after_file_read(&l, FileRead::Failed("permission denied".to_string()));
    assert!(o.store.is_none());
    assert_eq!(o.reply.status, Status::ServerError);
    assert_eq!(o.reply.content_type.as_deref(), Some("text/plain; charset=utf-8"));
    match o.reply.body {
        Body::Text(t) => assert_eq!(t, "Failed to read file: permission denied"),
        Body::Bytes(_) => panic!("expected text"),
    }
}

#[test]
fn read_file_is_stored_and_served_with_guessed_type() {
    let l = plan_image_lookup("pics/a.png", Some(10), Some(20));
    let o = after_file_read(&l, FileRead::Read(vec![9, 8]));
    let (k, v) = o.store.expect("an entry to store");
    assert_eq!(k, "/images/pics/a.png?width=10&height=20");
    assert_eq!(v, vec![9, 8]);
    assert_eq!(o.reply.status, Status::Success);
    assert_eq!(o.reply.content_type.as_deref(), Some("image/png"));
    match o.reply.body {
        Body::Bytes(b) => assert_eq!(b, vec![9, 8]),
        Body::Text(_) => panic!("expected bytes"),
    }
}

#[test]
fn stored_image_is_served_on_repeat() {
    let first = plan_image_lookup("a.webp", Some(5), None);
    let o = after_file_read(&first, FileRead::Read(vec![7, 7, 7]));
    let (key, bytes) = o.store.unwrap();
    let second = plan_image_lookup("a.webp", Some(5), None);
    assert_eq!(second.cache_key, key);
    match after_cache_lookup(&second, Some(bytes)) {
        AfterCache::Serve(r) => match r.body {
            Body::Bytes(b) => assert_eq!(b, vec![7, 7, 7]),
            Body::Text(_) => panic!("expected bytes"),
        },
        AfterCache::ReadFile(_) => panic!("expected a cached reply"),
    }
}

#[test]
fn unknown_extension_is_octet_stream() {
    let l = plan_image_lookup("noext", None, None);
    let o = after_file_read(&l, FileRead::Read(vec![]));
    assert_eq!(o.reply.content_type.as_deref(), Some("application/octet-stream"));
}
