use sheldrive::drive::{
    base_name, block_count, cid_is_local_only, cid_is_pending, fnv_hash, local_cid,
    parent_dir_path, read_slice, should_unpin, unavailable_placeholder, DriveState, EntryKind,
    FetchAction, FetchEvent, FILE_INO_OFFSET, ROOT_INO,
};
use sheldrive::index::{DirEntry, DirItem, FileEntry};

fn file_item(path: &str) -> DirItem {
    DirItem::File(FileEntry {
        id: 1,
        path: path.to_string(),
        cid: "cid".to_string(),
        size_bytes: 0,
        mime_type: None,
        pinned_at: String::new(),
        modified_at: String::new(),
        metadata: None,
    })
}

fn dir_item(path: &str) -> DirItem {
    DirItem::Directory(DirEntry { id: 1, path: path.to_string(), created_at: String::new() })
}

#[test]
fn fresh_state_knows_only_the_root() {
    let s = DriveState::new();
    assert_eq!(s.ino_of_path("/"), Some(ROOT_INO));
    assert_eq!(s.dir_path(ROOT_INO).unwrap(), "/");
    assert!(s.is_dir(ROOT_INO));
    assert!(!s.is_file(ROOT_INO));
}

#[test]
fn allocation_is_stable_and_kinds_are_apart() {
    let mut s = DriveState::new();
    let d = s.alloc_dir_ino("/docs");
    let f = s.alloc_file_ino("/docs/a.txt");
    assert_eq!(d, 2);
    assert_eq!(f, FILE_INO_OFFSET);
    assert_eq!(s.alloc_dir_ino("/docs"), d);
    assert_eq!(s.alloc_file_ino("/docs/a.txt"), f);
    // a known path keeps its inode whatever kind is asked for
    assert_eq!(s.alloc_file_ino("/docs"), d);
    assert_eq!(s.alloc_file_ino("/b.txt"), FILE_INO_OFFSET + 1);
    assert_eq!(s.file_path(f).unwrap(), "/docs/a.txt");
}

#[test]
fn resolve_joins_parent_and_name() {
    let mut s = DriveState::new();
    let d = s.alloc_dir_ino("/docs");
    assert_eq!(s.resolve_path(ROOT_INO, "x").unwrap(), "/x");
    assert_eq!(s.resolve_path(d, "y").unwrap(), "/docs/y");
    assert!(s.resolve_path(99, "z").is_none());
}

#[test]
fn read_after_write_returns_written_bytes() {
    let mut s = DriveState::new();
    let ino = s.alloc_file_ino("/f");
    assert_eq!(s.write(ino, 0, b"hello"), 5);
    assert_eq!(s.write(ino, 8, b"xy"), 10);
    assert_eq!(s.read_cached(ino, 0, 100).unwrap(), b"hello\0\0\0xy".to_vec());
    assert_eq!(s.read_cached(ino, 8, 2).unwrap(), b"xy".to_vec());
    assert_eq!(s.write(ino, 1, b"EL"), 10);
    assert_eq!(s.read_cached(ino, 0, 5).unwrap(), b"hELlo".to_vec());
    assert_eq!(s.read_cached(ino, 10, 5).unwrap(), Vec::<u8>::new());
    assert!(s.read_cached(ino + 1, 0, 5).is_none());
}

#[test]
fn truncate_cuts_or_zero_extends() {
    let mut s = DriveState::new();
    let ino = s.alloc_file_ino("/f");
    s.write(ino, 0, b"abcdef");
    assert_eq!(s.truncate(ino, 3), 3);
    assert_eq!(s.read_cached(ino, 0, 10).unwrap(), b"abc".to_vec());
    assert_eq!(s.truncate(ino, 5), 5);
    assert_eq!(s.read_cached(ino, 0, 10).unwrap(), b"abc\0\0".to_vec());
}

#[test]
fn sync_jobs_take_dirty_content_once() {
    let mut s = DriveState::new();
    let ino = s.alloc_file_ino("/docs/a.txt");
    assert!(s.take_sync_job(ino).is_none());
    s.write(ino, 0, b"data");
    let (path, content) = s.take_sync_job(ino).unwrap();
    assert_eq!(path, "/docs/a.txt");
    assert_eq!(content, b"data".to_vec());
    assert!(s.take_sync_job(ino).is_none());
    s.mark_dirty(ino);
    assert!(s.take_sync_job(ino).is_some());
    // truncating to zero leaves nothing to pin
    s.truncate(ino, 0);
    s.mark_dirty(ino);
    assert!(s.take_sync_job(ino).is_none());
}

#[test]
fn forgetting_a_file_drops_its_inode_and_buffer() {
    let mut s = DriveState::new();
    let ino = s.alloc_file_ino("/gone.txt");
    s.write(ino, 0, b"bytes");
    s.forget_file("/gone.txt");
    assert!(s.ino_of_path("/gone.txt").is_none());
    assert!(!s.is_file(ino));
    assert!(s.read_cached(ino, 0, 5).is_none());
    let d = s.alloc_dir_ino("/old");
    s.forget_dir("/old");
    assert!(!s.is_dir(d));
    assert_eq!(s.alloc_dir_ino("/old"), d + 1);
}

#[test]
fn listing_has_dots_then_children() {
    let mut s = DriveState::new();
    let docs = s.alloc_dir_ino("/docs");
    let items = vec![dir_item("/docs/archive"), file_item("/docs/notes.md")];
    let entries = s.list_entries(docs, "/docs", &items);
    assert_eq!(entries.len(), 4);
    assert_eq!(entries[0], (docs, EntryKind::Directory, ".".to_string()));
    assert_eq!(entries[1], (ROOT_INO, EntryKind::Directory, "..".to_string()));
    assert_eq!(entries[2], (3, EntryKind::Directory, "archive".to_string()));
    assert_eq!(entries[3], (FILE_INO_OFFSET, EntryKind::RegularFile, "notes.md".to_string()));
    let archive = s.ino_of_path("/docs/archive").unwrap();
    let inner = s.list_entries(archive, "/docs/archive", &vec![]);
    assert_eq!(inner[1], (docs, EntryKind::Directory, "..".to_string()));
    let root = s.list_entries(ROOT_INO, "/", &vec![]);
    assert_eq!(root[1].0, ROOT_INO);
}

#[test]
fn load_index_numbers_directories_then_files() {
    let mut s = DriveState::new();
    s.load_index(&vec!["/a".to_string(), "/b".to_string()], &vec!["/a/x".to_string()]);
    assert_eq!(s.ino_of_path("/a"), Some(2));
    assert_eq!(s.ino_of_path("/b"), Some(3));
    assert_eq!(s.ino_of_path("/a/x"), Some(FILE_INO_OFFSET));
}

#[test]
fn handles_count_up_from_one() {
    let mut s = DriveState::new();
    assert!(s.has_handle_room());
    assert_eq!(s.next_handle(), 1);
    assert_eq!(s.next_handle(), 2);
}

#[test]
fn pin_outcome_gives_the_recorded_identifier() {
    let mut s = DriveState::new();
    let ino = s.alloc_file_ino("/docs/a.txt");
    let (cid, size) = s.after_pin(ino, "/docs/a.txt", 4, Some(("bafy1".to_string(), 99)));
    assert_eq!((cid.as_str(), size), ("bafy1", 99));
    assert!(s.take_sync_job(ino).is_none());
    s.write(ino, 0, b"data");
    let _ = s.take_sync_job(ino).unwrap();
    let (cid, size) = s.after_pin(ino, "/docs/a.txt", 4, None);
    assert_eq!(cid, local_cid("/docs/a.txt"));
    assert_eq!(size, 4);
    // a failed pin is retried by the next sync
    assert!(s.take_sync_job(ino).is_some());
}

fn done(a: FetchAction) -> Option<Vec<u8>> {
    match a {
        FetchAction::Done(d) => d,
        _ => panic!("the fetch should be over"),
    }
}

#[test]
fn fetch_prefers_memory_then_disk_then_network() {
    let mut s = DriveState::new();
    let ino = s.alloc_file_ino("/a.txt");
    // nothing buffered: pending content cannot be had
    assert_eq!(done(s.fetch_step(ino, "pending", FetchEvent::Start)), None);
    assert!(matches!(s.fetch_step(ino, "bafy", FetchEvent::Start), FetchAction::CheckDisk));
    // a disk hit is kept in memory
    assert_eq!(done(s.fetch_step(ino, "bafy", FetchEvent::DiskHit(b"disk".to_vec()))), Some(b"disk".to_vec()));
    assert_eq!(s.read_cached(ino, 0, 100), Some(b"disk".to_vec()));
    assert_eq!(done(s.fetch_step(ino, "bafy", FetchEvent::Start)), Some(b"disk".to_vec()));

    let other = s.alloc_file_ino("/b.txt");
    assert!(matches!(s.fetch_step(other, "bafy2", FetchEvent::DiskMiss), FetchAction::Retrieve));
    assert_eq!(done(s.fetch_step(other, "local:1f", FetchEvent::DiskMiss)), None);
    assert_eq!(done(s.fetch_step(other, "stub:x", FetchEvent::DiskMiss)), None);
    assert_eq!(done(s.fetch_step(other, "bafy2", FetchEvent::RetrieveFailed)), None);
    assert_eq!(s.read_cached(other, 0, 10), None);
    match s.fetch_step(other, "bafy2", FetchEvent::Retrieved("aGVsbG8=".to_string())) {
        FetchAction::StoreOnDisk(d) => assert_eq!(d, b"hello".to_vec()),
        _ => panic!("retrieved content goes to the disk cache"),
    }
    assert_eq!(s.read_cached(other, 0, 10), Some(b"hello".to_vec()));
    match s.fetch_step(other, "bafy2", FetchEvent::Retrieved("%%".to_string())) {
        FetchAction::StoreOnDisk(d) => assert!(d.is_empty()),
        _ => panic!("retrieved content goes to the disk cache"),
    }
}

#[test]
fn read_slice_cuts_at_the_end() {
    assert_eq!(read_slice(b"abcdef", 2, 3), b"cde".to_vec());
    assert_eq!(read_slice(b"abcdef", 4, 10), b"ef".to_vec());
    assert_eq!(read_slice(b"abcdef", 6, 1), Vec::<u8>::new());
    assert_eq!(read_slice(b"abcdef", u64::MAX, u32::MAX), Vec::<u8>::new());
}

#[test]
fn fnv_hash_matches_known_values() {
    assert_eq!(fnv_hash(b""), 0xcbf29ce484222325);
    assert_eq!(fnv_hash(b"a"), 0xaf63dc4c8601ec8c);
    assert_eq!(local_cid("a"), "local:af63dc4c8601ec8c");
}

#[test]
fn paths_split_into_parent_and_name() {
    assert_eq!(parent_dir_path("/docs/archive"), "/docs");
    assert_eq!(parent_dir_path("/docs"), "/");
    assert_eq!(parent_dir_path("docs"), "/");
    assert_eq!(base_name("/docs/notes.md"), "notes.md");
    assert_eq!(base_name("plain"), "plain");
}

#[test]
fn cid_rules() {
    assert!(cid_is_pending("pending"));
    assert!(!cid_is_pending("pending2"));
    assert!(cid_is_local_only("stub:x"));
    assert!(cid_is_local_only("local:1f"));
    assert!(!cid_is_local_only("bafy"));
    assert!(should_unpin("bafy"));
    assert!(should_unpin("local:1"));
    assert!(!should_unpin("stub:1"));
    assert!(!should_unpin("pending"));
}

#[test]
fn attributes_and_placeholder() {
    assert_eq!(block_count(0), 0);
    assert_eq!(block_count(1), 1);
    assert_eq!(block_count(512), 1);
    assert_eq!(block_count(513), 2);
    assert_eq!(
        unavailable_placeholder("bafy1"),
        "[ShelDrive] Content unavailable \u{2014} CID: bafy1\n".as_bytes().to_vec()
    );
}
