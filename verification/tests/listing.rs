use pixakit::listing::{dir_depth_fits, file_list, folder_list, DirNode, Entry};

fn file(n: &str) -> Entry {
    Entry::File(Some(n.to_string()))
}

fn sample() -> DirNode {
    DirNode {
        name: Some("ondisk_storage".to_string()),
        entries: vec![
            file("a.png"),
            Entry::Dir(DirNode {
                name: Some("folder1".to_string()),
                entries: vec![
                    file("b.webp"),
                    Entry::Dir(DirNode { name: None, entries: vec![file("c.jpg")] }),
                    Entry::File(None),
                ],
            }),
            file("d.png"),
        ],
    }
}

#[test]
fn flat_list_in_reading_order() {
    let root = sample();
    assert_eq!(file_list(Some(&root)), vec!["a.png", "b.webp", "c.jpg", "d.png"]);
}

#[test]
fn flat_list_without_storage() {
    assert!(file_list(None).is_empty());
}

#[test]
fn folder_tree() {
    let root = sample();
    let folders = folder_list(Some(&root));
    assert_eq!(folders.len(), 1);
    let top = &folders[0];
    assert_eq!(top.level, 1);
    assert_eq!(top.folder, "ondisk_storage");
    assert_eq!(top.files, vec!["a.png", "d.png"]);
    assert_eq!(top.subfolders.len(), 1);
    let f1 = &top.subfolders[0];
    assert_eq!(f1.level, 2);
    assert_eq!(f1.folder, "folder1");
    assert_eq!(f1.files, vec!["b.webp"]);
    let inner = &f1.subfolders[0];
    assert_eq!(inner.level, 3);
    assert_eq!(inner.folder, "");
    assert_eq!(inner.files, vec!["c.jpg"]);
    assert!(inner.subfolders.is_empty());
}

#[test]
fn root_folder_is_named_after_storage() {
    let root = DirNode { name: Some("elsewhere".to_string()), entries: vec![file("a.png")] };
    let folders = folder_list(Some(&root));
    assert_eq!(folders[0].folder, "ondisk_storage");
    assert_eq!(folders[0].level, 1);
    let unnamed = DirNode { name: None, entries: vec![] };
    assert_eq!(folder_list(Some(&unnamed))[0].folder, "ondisk_storage");
}

#[test]
fn folder_tree_without_storage() {
    assert!(folder_list(None).is_empty());
}

#[test]
fn listings_name_the_same_files() {
    let root = sample();
    let mut flat = file_list(Some(&root));
    let mut tree = Vec::new();
    fn walk(f: &pixakit::listing::Folder, out: &mut Vec<String>) {
        out.extend(f.files.iter().cloned());
        for s in &f.subfolders {
            walk(s, out);
        }
    }
    for f in &folder_list(Some(&root)) {
        walk(f, &mut tree);
    }
    flat.sort();
    tree.sort();
    assert_eq!(flat, tree);
}

#[test]
fn ordinary_nesting_fits() {
    assert!(dir_depth_fits(&sample()));
    assert!(dir_depth_fits(&DirNode { name: None, entries: vec![] }));
}
