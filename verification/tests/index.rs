use sheldrive::index::{child_prefix, collect_children, is_direct_child, DirEntry, DirItem, FileEntry};

fn file(path: &str) -> FileEntry {
    FileEntry {
        id: 0,
        path: path.to_string(),
        cid: "cid".to_string(),
        size_bytes: 1,
        mime_type: None,
        pinned_at: "2026-01-01T00:00:00Z".to_string(),
        modified_at: "2026-01-01T00:00:00Z".to_string(),
        metadata: None,
    }
}

fn dir(path: &str) -> DirEntry {
    DirEntry { id: 0, path: path.to_string(), created_at: "2026-01-01T00:00:00Z".to_string() }
}

fn names(items: &[DirItem]) -> Vec<String> {
    items
        .iter()
        .map(|i| match i {
            DirItem::File(f) => f.path.clone(),
            DirItem::Directory(d) => d.path.clone(),
        })
        .collect()
}

#[test]
fn prefixes_of_root_and_subdirectories() {
    assert_eq!(child_prefix("/"), "/");
    assert_eq!(child_prefix("/docs"), "/docs/");
}

#[test]
fn children_of_root_skip_nested_paths() {
    let items = collect_children(
        "/",
        vec![file("/readme.txt"), file("/docs/notes.md")],
        vec![dir("/docs")],
    );
    assert_eq!(names(&items), vec!["/readme.txt".to_string(), "/docs".to_string()]);
}

#[test]
fn children_of_nested_directory() {
    let items = collect_children(
        "/docs",
        vec![file("/docs/notes.md"), file("/docs/archive/old.md")],
        vec![dir("/docs/archive")],
    );
    assert_eq!(names(&items), vec!["/docs/notes.md".to_string(), "/docs/archive".to_string()]);
    assert!(collect_children("/empty", vec![], vec![]).is_empty());
}

#[test]
fn direct_child_looks_past_the_prefix_only() {
    assert!(is_direct_child("/docs/", "/docs/a"));
    assert!(!is_direct_child("/docs/", "/docs/a/b"));
    assert!(is_direct_child("/docs/", "/docs/"));
    assert!(!is_direct_child("/docs/", "/DOCS/a"));
    assert!(!is_direct_child("/docs/", "/doc"));
}

#[test]
fn rows_outside_the_prefix_are_not_children() {
    // The index query may return rows that only resemble the prefix.
    let items = collect_children(
        "/docs",
        vec![file("/DOCS/a.txt"), file("/docs/b.txt")],
        vec![dir("/Docs/x")],
    );
    assert_eq!(names(&items), vec!["/docs/b.txt".to_string()]);
    let items = collect_children("/my_dir", vec![file("/myXdir/f"), file("/my_dir/g")], vec![]);
    assert_eq!(names(&items), vec!["/my_dir/g".to_string()]);
}

#[test]
fn root_is_not_listed_in_itself() {
    let items = collect_children("/", vec![], vec![dir("/"), dir("/docs")]);
    assert_eq!(names(&items), vec!["/docs".to_string()]);
}
