//! In-memory state of the mounted drive: inode numbering for directories and
//! files, write buffers with their dirty set, and file handles.
//!
//! The filesystem callbacks (lookup, readdir, read, write, setattr, unlink,
//! rmdir, flush) keep their index, disk and network work outside this
//! module; what they decide about inodes and buffered content, and the steps
//! of fetching and pinning content, are done here.
use vstd::prelude::*;
use vstd::hash_map::StringHashMap;
use std::collections::HashMap;
use std::collections::HashSet;
use crate::index::DirItem;
use crate::crypto::{retrieved, retrieved_bytes};
use crate::text::{
    chars_of, last_index, last_piece, last_piece_chars, push_str, rfind_char,
    string_from_chars, string_from_str, sub_chars, chars_eq_str, starts_with, starts_with_str,
    hexadecimal, push_hex, lemma_hexadecimal_injective,
};
use vstd::utf8::encode_utf8;

verus! {

broadcast use {vstd::std_specs::hash::group_hash_axioms, vstd::hash_map::group_hash_map_axioms};

/// Inode of the root directory.
pub const ROOT_INO: u64 = 1;

/// First inode number given to files; directories number below it.
pub const FILE_INO_OFFSET: u64 = 0x1_0000_0000;

/// Block size reported in file attributes.
pub const BLOCK_SIZE: u64 = 512;

// ---------------------------------------------------------------------------
// Inode numbering
// ---------------------------------------------------------------------------

/// The abstract inode numbering: directory and file inodes with their paths,
/// the inode of each known path, and the next numbers to hand out.
pub struct InodeModel {
    pub dirs: Map<u64, Seq<char>>,
    pub files: Map<u64, Seq<char>>,
    pub paths: Map<Seq<char>, u64>,
    pub next_dir: u64,
    pub next_file: u64,
}

/// The numbering invariant: directory inodes lie in `[1, next_dir)` below
/// `FILE_INO_OFFSET`, file inodes in `[FILE_INO_OFFSET, next_file)`, and the
/// inode recorded for a path is a directory or file inode with that path.
pub open spec fn model_wf(m: InodeModel) -> bool {
    &&& 2 <= m.next_dir <= FILE_INO_OFFSET
    &&& FILE_INO_OFFSET <= m.next_file
    &&& forall|i: u64| #[trigger] m.dirs.contains_key(i) ==> 1 <= i < m.next_dir
    &&& forall|i: u64| #[trigger] m.files.contains_key(i) ==> FILE_INO_OFFSET <= i < m.next_file
    &&& forall|p: Seq<char>| #[trigger]
        m.paths.contains_key(p) ==> {
            ||| (m.dirs.contains_key(m.paths[p]) && m.dirs[m.paths[p]] == p)
            ||| (m.files.contains_key(m.paths[p]) && m.files[m.paths[p]] == p)
        }
}

/// The numbering of a fresh drive: only the root directory.
pub open spec fn initial_model() -> InodeModel {
    InodeModel {
        dirs: Map::empty().insert(ROOT_INO, "/"@),
        files: Map::empty(),
        paths: Map::empty().insert("/"@, ROOT_INO),
        next_dir: 2,
        next_file: FILE_INO_OFFSET,
    }
}

/// Allocating an inode for `p`: a known path keeps its inode (whatever its
/// kind); a new one takes the next directory or file number.
pub open spec fn alloc_model(m: InodeModel, p: Seq<char>, dir: bool) -> (InodeModel, u64) {
    if m.paths.contains_key(p) {
        (m, m.paths[p])
    } else if dir {
        (
            InodeModel {
                dirs: m.dirs.insert(m.next_dir, p),
                paths: m.paths.insert(p, m.next_dir),
                next_dir: (m.next_dir + 1) as u64,
                ..m
            },
            m.next_dir,
        )
    } else {
        (
            InodeModel {
                files: m.files.insert(m.next_file, p),
                paths: m.paths.insert(p, m.next_file),
                next_file: (m.next_file + 1) as u64,
                ..m
            },
            m.next_file,
        )
    }
}

/// There is room to allocate for `p`.
pub open spec fn alloc_room(m: InodeModel, p: Seq<char>, dir: bool) -> bool {
    m.paths.contains_key(p) || (if dir {
        m.next_dir < FILE_INO_OFFSET
    } else {
        m.next_file < u64::MAX
    })
}

/// Forgetting the inode of a removed file path.
pub open spec fn forget_file_model(m: InodeModel, p: Seq<char>) -> InodeModel {
    if m.paths.contains_key(p) {
        InodeModel { paths: m.paths.remove(p), files: m.files.remove(m.paths[p]), ..m }
    } else {
        m
    }
}

/// Forgetting the inode of a removed directory path.
pub open spec fn forget_dir_model(m: InodeModel, p: Seq<char>) -> InodeModel {
    if m.paths.contains_key(p) {
        InodeModel { paths: m.paths.remove(p), dirs: m.dirs.remove(m.paths[p]), ..m }
    } else {
        m
    }
}

/// The path of a child named `name` of the directory at `parent`.
pub open spec fn child_path(parent: Seq<char>, name: Seq<char>) -> Seq<char> {
    if parent == "/"@ {
        "/"@ + name
    } else {
        parent + "/"@ + name
    }
}

/// The bytes after a write of `data` at `start` into `old`: the buffer grows
/// with zeros to the end of the write when needed; bytes outside the write
/// keep their value.
pub open spec fn written(old: Seq<u8>, start: nat, data: Seq<u8>) -> Seq<u8> {
    let end = start + data.len();
    let len = if end > old.len() {
        end
    } else {
        old.len()
    };
    Seq::new(
        len,
        |i: int|
            if start <= i < end {
                data[i - start]
            } else if i < old.len() {
                old[i]
            } else {
                0u8
            },
    )
}

/// The bytes after resizing `old` to `n`: cut, or extended with zeros.
pub open spec fn resized(old: Seq<u8>, n: nat) -> Seq<u8> {
    Seq::new(
        n,
        |i: int|
            if i < old.len() {
                old[i]
            } else {
                0u8
            },
    )
}

/// The bytes a read of `size` bytes at `offset` returns: nothing at or past
/// the end, else up to `size` bytes, cut at the end.
pub open spec fn read_range(data: Seq<u8>, offset: nat, size: nat) -> Seq<u8> {
    if offset >= data.len() {
        Seq::empty()
    } else if offset + size < data.len() {
        data.subrange(offset as int, (offset + size) as int)
    } else {
        data.subrange(offset as int, data.len() as int)
    }
}

/// In-memory state of the mounted drive.
pub struct DriveState {
    dir_ino_map: HashMap<u64, String>,
    file_ino_map: HashMap<u64, String>,
    path_ino_map: StringHashMap<u64>,
    next_dir_ino: u64,
    next_file_ino: u64,
    file_content: HashMap<u64, Vec<u8>>,
    dirty_inodes: HashSet<u64>,
    next_fh: u64,
}

/// The views of the strings of a map.
pub open spec fn string_views(m: Map<u64, String>) -> Map<u64, Seq<char>> {
    m.map_values(|s: String| s@)
}

/// The views of the byte vectors of a map.
pub open spec fn byte_views(m: Map<u64, Vec<u8>>) -> Map<u64, Seq<u8>> {
    m.map_values(|v: Vec<u8>| v@)
}

impl DriveState {
    /// The inode numbering.
    pub closed spec fn model(&self) -> InodeModel {
        InodeModel {
            dirs: string_views(self.dir_ino_map@),
            files: string_views(self.file_ino_map@),
            paths: self.path_ino_map@,
            next_dir: self.next_dir_ino,
            next_file: self.next_file_ino,
        }
    }

    /// Buffered content by inode.
    pub closed spec fn contents(&self) -> Map<u64, Seq<u8>> {
        byte_views(self.file_content@)
    }

    /// Inodes written but not yet synced.
    pub closed spec fn dirty(&self) -> Set<u64> {
        self.dirty_inodes@
    }

    /// The next file handle.
    pub closed spec fn handle(&self) -> u64 {
        self.next_fh
    }

    /// The state invariant.
    pub open spec fn wf(&self) -> bool {
        model_wf(self.model())
    }

    /// A fresh state: the root directory only, no content, handles from 1.
    pub fn new() -> (s: Self)
        ensures
            s.wf(),
            s.model() == initial_model(),
            s.contents() == Map::<u64, Seq<u8>>::empty(),
            s.dirty() == Set::<u64>::empty(),
            s.handle() == 1,
    {
        let mut dirs: HashMap<u64, String> = HashMap::new();
        dirs.insert(ROOT_INO, string_from_str("/"));
        let mut paths: StringHashMap<u64> = StringHashMap::new();
        paths.insert(string_from_str("/"), ROOT_INO);
        let s = DriveState {
            dir_ino_map: dirs,
            file_ino_map: HashMap::new(),
            path_ino_map: paths,
            next_dir_ino: 2,
            next_file_ino: FILE_INO_OFFSET,
            file_content: HashMap::new(),
            dirty_inodes: HashSet::new(),
            next_fh: 1,
        };
        assert(s.model().dirs =~= initial_model().dirs);
        assert(s.model().files =~= initial_model().files);
        assert(s.model().paths =~= initial_model().paths);
        assert(s.contents() =~= Map::<u64, Seq<u8>>::empty());
        s
    }

    /// The inode of a known path.
    pub fn ino_of_path(&self, path: &str) -> (r: Option<u64>)
        ensures
            r == self.model().paths.get(path@),
    {
        match self.path_ino_map.get(path) {
            Some(i) => Some(*i),
            None => None,
        }
    }

    fn alloc_ino(&mut self, path: &str, dir: bool) -> (r: u64)
        requires
            old(self).wf(),
            alloc_room(old(self).model(), path@, dir),
        ensures
            final(self).wf(),
            (final(self).model(), r) == alloc_model(old(self).model(), path@, dir),
            final(self).contents() == old(self).contents(),
            final(self).dirty() == old(self).dirty(),
            final(self).handle() == old(self).handle(),
    {
        if let Some(i) = self.path_ino_map.get(path) {
            return *i;
        }
        let key = string_from_str(path);
        if dir {
            let ino = self.next_dir_ino;
            self.next_dir_ino = self.next_dir_ino + 1;
            self.dir_ino_map.insert(ino, string_from_str(path));
            self.path_ino_map.insert(key, ino);
            assert(self.model().dirs =~= old(self).model().dirs.insert(ino, path@));
            proof {
                let m = self.model();
                let om = old(self).model();
                assert(m.paths =~= om.paths.insert(path@, ino));
                assert forall|i: u64| #[trigger] m.dirs.contains_key(i) implies 1 <= i < m.next_dir by {
                    if i != ino {
                        assert(om.dirs.contains_key(i));
                    }
                }
                assert forall|i: u64| #[trigger] m.files.contains_key(i) implies FILE_INO_OFFSET <= i
                    < m.next_file by {
                    if i != ino {
                        assert(om.files.contains_key(i));
                    }
                }
                assert forall|p: Seq<char>| #[trigger] m.paths.contains_key(p) implies {
                    ||| (m.dirs.contains_key(m.paths[p]) && m.dirs[m.paths[p]] == p)
                    ||| (m.files.contains_key(m.paths[p]) && m.files[m.paths[p]] == p)
                } by {
                    if p != path@ {
                        assert(om.paths.contains_key(p));
                        let j = om.paths[p];
                        if om.dirs.contains_key(j) && om.dirs[j] == p {
                            assert(j != ino);
                        } else {
                            assert(om.files.contains_key(j));
                            assert(j != ino);
                        }
                    }
                }
            }
            ino
        } else {
            let ino = self.next_file_ino;
            self.next_file_ino = self.next_file_ino + 1;
            self.file_ino_map.insert(ino, string_from_str(path));
            self.path_ino_map.insert(key, ino);
            assert(self.model().files =~= old(self).model().files.insert(ino, path@));
            proof {
                let m = self.model();
                let om = old(self).model();
                assert(m.paths =~= om.paths.insert(path@, ino));
                assert forall|i: u64| #[trigger] m.dirs.contains_key(i) implies 1 <= i < m.next_dir by {
                    if i != ino {
                        assert(om.dirs.contains_key(i));
                    }
                }
                assert forall|i: u64| #[trigger] m.files.contains_key(i) implies FILE_INO_OFFSET <= i
                    < m.next_file by {
                    if i != ino {
                        assert(om.files.contains_key(i));
                    }
                }
                assert forall|p: Seq<char>| #[trigger] m.paths.contains_key(p) implies {
                    ||| (m.dirs.contains_key(m.paths[p]) && m.dirs[m.paths[p]] == p)
                    ||| (m.files.contains_key(m.paths[p]) && m.files[m.paths[p]] == p)
                } by {
                    if p != path@ {
                        assert(om.paths.contains_key(p));
                        let j = om.paths[p];
                        if om.dirs.contains_key(j) && om.dirs[j] == p {
                            assert(j != ino);
                        } else {
                            assert(om.files.contains_key(j));
                            assert(j != ino);
                        }
                    }
                }
            }
            ino
        }
    }

    /// The inode of a directory path, allocating the next directory number
    /// for a path not seen before.
    pub fn alloc_dir_ino(&mut self, path: &str) -> (r: u64)
        requires
            old(self).wf(),
            alloc_room(old(self).model(), path@, true),
        ensures
            final(self).wf(),
            (final(self).model(), r) == alloc_model(old(self).model(), path@, true),
            final(self).contents() == old(self).contents(),
            final(self).dirty() == old(self).dirty(),
            final(self).handle() == old(self).handle(),
    {
        self.alloc_ino(path, true)
    }

    /// The inode of a file path, allocating the next file number for a path
    /// not seen before.
    pub fn alloc_file_ino(&mut self, path: &str) -> (r: u64)
        requires
            old(self).wf(),
            alloc_room(old(self).model(), path@, false),
        ensures
            final(self).wf(),
            (final(self).model(), r) == alloc_model(old(self).model(), path@, false),
            final(self).contents() == old(self).contents(),
            final(self).dirty() == old(self).dirty(),
            final(self).handle() == old(self).handle(),
    {
        self.alloc_ino(path, false)
    }

    /// Whether another directory number can be handed out.
    pub fn has_dir_room(&self) -> (r: bool)
        ensures
            r == (self.model().next_dir < FILE_INO_OFFSET),
    {
        self.next_dir_ino < FILE_INO_OFFSET
    }

    /// Whether another file number can be handed out.
    pub fn has_file_room(&self) -> (r: bool)
        ensures
            r == (self.model().next_file < u64::MAX),
    {
        self.next_file_ino < u64::MAX
    }

    /// Whether `n` more directories and `n` more files can be numbered.
    pub fn has_room_for(&self, n: u64) -> (r: bool)
        requires
            self.wf(),
        ensures
            r == (self.model().next_dir + n <= FILE_INO_OFFSET && self.model().next_file + n
                < u64::MAX),
    {
        n <= FILE_INO_OFFSET - self.next_dir_ino && n < u64::MAX - self.next_file_ino
    }

    /// The path of a directory inode.
    pub fn dir_path(&self, ino: u64) -> (r: Option<String>)
        ensures
            match r {
                Some(p) => self.model().dirs.contains_key(ino) && p@ == self.model().dirs[ino],
                None => !self.model().dirs.contains_key(ino),
            },
    {
        match self.dir_ino_map.get(&ino) {
            Some(p) => Some(p.clone()),
            None => None,
        }
    }

    /// The path of a file inode.
    pub fn file_path(&self, ino: u64) -> (r: Option<String>)
        ensures
            match r {
                Some(p) => self.model().files.contains_key(ino) && p@ == self.model().files[ino],
                None => !self.model().files.contains_key(ino),
            },
    {
        match self.file_ino_map.get(&ino) {
            Some(p) => Some(p.clone()),
            None => None,
        }
    }

    /// Whether `ino` is a directory inode.
    pub fn is_dir(&self, ino: u64) -> (r: bool)
        ensures
            r == self.model().dirs.contains_key(ino),
    {
        self.dir_ino_map.contains_key(&ino)
    }

    /// Whether `ino` is a file inode.
    pub fn is_file(&self, ino: u64) -> (r: bool)
        ensures
            r == self.model().files.contains_key(ino),
    {
        self.file_ino_map.contains_key(&ino)
    }

    /// The path of the child `name` of directory inode `parent`.
    pub fn resolve_path(&self, parent: u64, name: &str) -> (r: Option<String>)
        ensures
            match r {
                Some(p) => self.model().dirs.contains_key(parent) && p@ == child_path(
                    self.model().dirs[parent],
                    name@,
                ),
                None => !self.model().dirs.contains_key(parent),
            },
    {
        let parent_path = match self.dir_ino_map.get(&parent) {
            Some(p) => p,
            None => return None,
        };
        let chars = chars_of(parent_path.as_str());
        let root = chars_of("/");
        let mut child = if crate::text::chars_eq(chars.as_slice(), root.as_slice()) {
            string_from_str("/")
        } else {
            let mut s = string_from_str(parent_path.as_str());
            push_str(&mut s, "/");
            s
        };
        push_str(&mut child, name);
        Some(child)
    }

    /// Forgets a removed file path: its inode, buffered content and dirty
    /// mark go.
    pub fn forget_file(&mut self, path: &str)
        requires
            old(self).wf(),
        ensures
            final(self).wf(),
            final(self).model() == forget_file_model(old(self).model(), path@),
            match old(self).model().paths.get(path@) {
                Some(i) => {
                    &&& final(self).contents() == old(self).contents().remove(i)
                    &&& final(self).dirty() == old(self).dirty().remove(i)
                },
                None => final(self).contents() == old(self).contents() && final(self).dirty()
                    == old(self).dirty(),
            },
            final(self).handle() == old(self).handle(),
    {
        let ino = match self.path_ino_map.get(path) {
            Some(i) => *i,
            None => return,
        };
        self.path_ino_map.remove(path);
        self.file_ino_map.remove(&ino);
        self.file_content.remove(&ino);
        self.dirty_inodes.remove(&ino);
        proof {
            let m = self.model();
            let om = old(self).model();
            assert(m.files =~= om.files.remove(ino));
            assert(m.paths =~= om.paths.remove(path@));
            assert(self.contents() =~= old(self).contents().remove(ino));
            assert forall|p: Seq<char>| #[trigger] m.paths.contains_key(p) implies {
                ||| (m.dirs.contains_key(m.paths[p]) && m.dirs[m.paths[p]] == p)
                ||| (m.files.contains_key(m.paths[p]) && m.files[m.paths[p]] == p)
            } by {
                assert(om.paths.contains_key(p));
                if om.paths[p] == ino {
                    assert(p != path@);
                    assert(om.paths.contains_key(path@));
                }
            }
        }
    }

    /// Forgets a removed directory path and its inode.
    pub fn forget_dir(&mut self, path: &str)
        requires
            old(self).wf(),
        ensures
            final(self).wf(),
            final(self).model() == forget_dir_model(old(self).model(), path@),
            final(self).contents() == old(self).contents(),
            final(self).dirty() == old(self).dirty(),
            final(self).handle() == old(self).handle(),
    {
        let ino = match self.path_ino_map.get(path) {
            Some(i) => *i,
            None => return,
        };
        self.path_ino_map.remove(path);
        self.dir_ino_map.remove(&ino);
        proof {
            let m = self.model();
            let om = old(self).model();
            assert(m.dirs =~= om.dirs.remove(ino));
            assert(m.paths =~= om.paths.remove(path@));
            assert forall|p: Seq<char>| #[trigger] m.paths.contains_key(p) implies {
                ||| (m.dirs.contains_key(m.paths[p]) && m.dirs[m.paths[p]] == p)
                ||| (m.files.contains_key(m.paths[p]) && m.files[m.paths[p]] == p)
            } by {
                assert(om.paths.contains_key(p));
                if om.paths[p] == ino {
                    assert(p != path@);
                    assert(om.paths.contains_key(path@));
                }
            }
        }
    }

    /// Whether another file handle can be handed out.
    pub fn has_handle_room(&self) -> (r: bool)
        ensures
            r == (self.handle() < u64::MAX),
    {
        self.next_fh < u64::MAX
    }

    /// Hands out the next file handle.
    pub fn next_handle(&mut self) -> (r: u64)
        requires
            old(self).handle() < u64::MAX,
        ensures
            r == old(self).handle(),
            final(self).handle() == old(self).handle() + 1,
            final(self).model() == old(self).model(),
            final(self).contents() == old(self).contents(),
            final(self).dirty() == old(self).dirty(),
    {
        let h = self.next_fh;
        self.next_fh = self.next_fh + 1;
        h
    }
}


// ---------------------------------------------------------------------------
// Write buffers
// ---------------------------------------------------------------------------

/// Zero bytes appended until the vector holds `target` bytes.
fn pad_zeros(buf: &mut Vec<u8>, target: usize)
    ensures
        final(buf)@ == resized(old(buf)@, if target > old(buf)@.len() {
            target as nat
        } else {
            old(buf)@.len()
        }),
{
    let ghost start = buf@;
    while buf.len() < target
        invariant
            start.len() <= buf@.len(),
            buf@.len() <= target || buf@.len() == start.len(),
            forall|i: int| 0 <= i < start.len() ==> buf@[i] == start[i],
            forall|i: int| start.len() <= i < buf@.len() ==> buf@[i] == 0u8,
        decreases target - buf@.len(),
    {
        buf.push(0u8);
    }
    let ghost n: nat = if target > start.len() {
        target as nat
    } else {
        start.len()
    };
    assert(buf@ =~= resized(start, n));
}

/// The bytes of a read of `size` bytes at `offset`.
pub fn read_slice(data: &[u8], offset: u64, size: u32) -> (r: Vec<u8>)
    ensures
        r@ == read_range(data@, offset as nat, size as nat),
{
    let len = data.len();
    if offset >= len as u64 {
        return Vec::new();
    }
    let start = offset as usize;
    let end = if (size as u64) < (len as u64) - offset {
        start + size as usize
    } else {
        len
    };
    let mut r: Vec<u8> = Vec::new();
    let mut i = start;
    while i < end
        invariant
            start <= i <= end <= len == data@.len(),
            r@ == data@.subrange(start as int, i as int),
        decreases end - i,
    {
        r.push(data[i]);
        i = i + 1;
        assert(r@ =~= data@.subrange(start as int, i as int));
    }
    r
}

fn copy_bytes(data: &[u8]) -> (r: Vec<u8>)
    ensures
        r@ == data@,
{
    let mut r: Vec<u8> = Vec::new();
    let mut i: usize = 0;
    while i < data.len()
        invariant
            i <= data@.len(),
            r@ == data@.subrange(0, i as int),
        decreases data@.len() - i,
    {
        r.push(data[i]);
        i = i + 1;
        assert(r@ =~= data@.subrange(0, i as int));
    }
    assert(r@ =~= data@);
    r
}

/// The buffered bytes of `ino`, empty when nothing is buffered.
pub open spec fn buffer_of(c: Map<u64, Seq<u8>>, ino: u64) -> Seq<u8> {
    if c.contains_key(ino) {
        c[ino]
    } else {
        Seq::empty()
    }
}

/// What a sync of `ino` hands to the network: the file's path and its
/// buffered bytes, when the inode is dirty, is a file inode, and has
/// non-empty buffered content.
pub open spec fn sync_job(s: &DriveState, ino: u64) -> Option<(Seq<char>, Seq<u8>)> {
    if s.dirty().contains(ino) && s.model().files.contains_key(ino) && s.contents().contains_key(
        ino,
    ) && s.contents()[ino].len() > 0 {
        Some((s.model().files[ino], s.contents()[ino]))
    } else {
        None
    }
}

impl DriveState {
    fn take_buffer(&mut self, ino: u64) -> (r: Vec<u8>)
        ensures
            r@ == buffer_of(old(self).contents(), ino),
            final(self).contents() == old(self).contents().remove(ino),
            final(self).model() == old(self).model(),
            final(self).dirty() == old(self).dirty(),
            final(self).handle() == old(self).handle(),
    {
        let r = match self.file_content.remove(&ino) {
            Some(b) => b,
            None => Vec::new(),
        };
        assert(self.contents() =~= old(self).contents().remove(ino));
        r
    }

    fn put_buffer(&mut self, ino: u64, buf: Vec<u8>)
        ensures
            final(self).contents() == old(self).contents().insert(ino, buf@),
            final(self).model() == old(self).model(),
            final(self).dirty() == old(self).dirty(),
            final(self).handle() == old(self).handle(),
    {
        let ghost v = buf@;
        self.file_content.insert(ino, buf);
        assert(self.contents() =~= old(self).contents().insert(ino, v));
    }

    /// Buffers a write of `data` at `offset` into the content of `ino`, marks
    /// the inode dirty, and returns the new content length.
    pub fn write(&mut self, ino: u64, offset: u64, data: &[u8]) -> (r: usize)
        requires
            offset + data@.len() <= usize::MAX,
        ensures
            final(self).contents() == old(self).contents().insert(
                ino,
                written(buffer_of(old(self).contents(), ino), offset as nat, data@),
            ),
            r == written(buffer_of(old(self).contents(), ino), offset as nat, data@).len(),
            final(self).dirty() == old(self).dirty().insert(ino),
            final(self).model() == old(self).model(),
            final(self).handle() == old(self).handle(),
    {
        let mut buf = self.take_buffer(ino);
        let ghost old_buf = buf@;
        let start = offset as usize;
        pad_zeros(&mut buf, start);
        let ghost step = buf@;
        let end = start + data.len();
        pad_zeros(&mut buf, end);
        let ghost padded = buf@;
        proof {
            let w = written(old_buf, offset as nat, data@);
            assert(padded.len() == w.len());
            assert forall|i: int| 0 <= i < padded.len() implies padded[i] == (if i < old_buf.len() {
                old_buf[i]
            } else {
                0u8
            }) by {
                if i < step.len() {
                    assert(padded[i] == step[i]);
                }
            }
        }
        assert(padded.len() >= end);
        let mut k: usize = 0;
        while k < data.len()
            invariant
                start == offset,
                end == start + data@.len(),
                padded.len() >= end,
                k <= data@.len(),
                buf@.len() == padded.len(),
                forall|i: int| 0 <= i < buf@.len() && !(start <= i < start + k) ==> buf@[i] == padded[i],
                forall|i: int| start <= i < start + k ==> buf@[i] == data@[i - start],
            decreases data@.len() - k,
        {
            buf.set(start + k, data[k]);
            k = k + 1;
        }
        proof {
            let w = written(old_buf, offset as nat, data@);
            assert forall|i: int| 0 <= i < w.len() implies buf@[i] == w[i] by {
                if start <= i < end {
                } else {
                    assert(buf@[i] == padded[i]);
                }
            }
            assert(buf@ =~= w);
        }
        let n = buf.len();
        self.put_buffer(ino, buf);
        self.dirty_inodes.insert(ino);
        n
    }

    /// Resizes the content of `ino` to `size` bytes (cut, or zero-extended);
    /// a non-zero size marks the inode dirty. Returns the new length.
    pub fn truncate(&mut self, ino: u64, size: u64) -> (r: usize)
        requires
            size <= usize::MAX,
        ensures
            final(self).contents() == old(self).contents().insert(
                ino,
                resized(buffer_of(old(self).contents(), ino), size as nat),
            ),
            r == size,
            final(self).dirty() == if size > 0 {
                old(self).dirty().insert(ino)
            } else {
                old(self).dirty()
            },
            final(self).model() == old(self).model(),
            final(self).handle() == old(self).handle(),
    {
        let mut buf = self.take_buffer(ino);
        let ghost old_buf = buf@;
        let n = size as usize;
        if n <= buf.len() {
            buf.truncate(n);
            assert(buf@ =~= resized(old_buf, n as nat));
        } else {
            pad_zeros(&mut buf, n);
        }
        let len = buf.len();
        self.put_buffer(ino, buf);
        if size > 0 {
            self.dirty_inodes.insert(ino);
        }
        len
    }

    /// A read served from buffered content, when `ino` has any.
    pub fn read_cached(&self, ino: u64, offset: u64, size: u32) -> (r: Option<Vec<u8>>)
        ensures
            match r {
                Some(d) => self.contents().contains_key(ino) && d@ == read_range(
                    self.contents()[ino],
                    offset as nat,
                    size as nat,
                ),
                None => !self.contents().contains_key(ino),
            },
    {
        match self.file_content.get(&ino) {
            Some(data) => Some(read_slice(data.as_slice(), offset, size)),
            None => None,
        }
    }

    /// Keeps fetched content of `ino` in memory.
    pub fn cache_content(&mut self, ino: u64, data: Vec<u8>)
        ensures
            final(self).contents() == old(self).contents().insert(ino, data@),
            final(self).model() == old(self).model(),
            final(self).dirty() == old(self).dirty(),
            final(self).handle() == old(self).handle(),
    {
        self.put_buffer(ino, data);
    }

    /// Marks `ino` dirty again (a sync that failed is retried later).
    pub fn mark_dirty(&mut self, ino: u64)
        ensures
            final(self).dirty() == old(self).dirty().insert(ino),
            final(self).contents() == old(self).contents(),
            final(self).model() == old(self).model(),
            final(self).handle() == old(self).handle(),
    {
        self.dirty_inodes.insert(ino);
    }

    /// Starts a sync of `ino`: clears its dirty mark and returns the path and
    /// bytes to pin, when there is anything to pin.
    pub fn take_sync_job(&mut self, ino: u64) -> (r: Option<(String, Vec<u8>)>)
        ensures
            match (r, sync_job(old(self), ino)) {
                (Some((p, c)), Some((sp, sc))) => p@ == sp && c@ == sc,
                (None, None) => true,
                _ => false,
            },
            final(self).dirty() == old(self).dirty().remove(ino),
            final(self).contents() == old(self).contents(),
            final(self).model() == old(self).model(),
            final(self).handle() == old(self).handle(),
    {
        let was_dirty = self.dirty_inodes.remove(&ino);
        if !was_dirty {
            return None;
        }
        let path = match self.file_ino_map.get(&ino) {
            Some(p) => p.clone(),
            None => return None,
        };
        let content = match self.file_content.get(&ino) {
            Some(c) => copy_bytes(c.as_slice()),
            None => return None,
        };
        if content.len() == 0 {
            return None;
        }
        Some((path, content))
    }
}

// ---------------------------------------------------------------------------
// Pinning and fetching content
// ---------------------------------------------------------------------------

impl DriveState {
    /// Ends a sync of `ino` at `path` once the network has answered, and
    /// returns the identifier and size to record in the index. A pin gives
    /// its identifier and size; a failed pin gives the local identifier of
    /// the path and the content length `len`, and marks the inode dirty again
    /// so that the sync is retried.
    pub fn after_pin(&mut self, ino: u64, path: &str, len: usize, pinned: Option<(String, i64)>) -> (r: (
        String,
        i64,
    ))
        requires
            len <= i64::MAX,
        ensures
            match pinned {
                Some((cid, size)) => {
                    &&& r.0@ == cid@
                    &&& r.1 == size
                    &&& final(self).dirty() == old(self).dirty()
                },
                None => {
                    &&& r.0@ == local_cid_text(path@)
                    &&& r.1 == len
                    &&& final(self).dirty() == old(self).dirty().insert(ino)
                },
            },
            final(self).contents() == old(self).contents(),
            final(self).model() == old(self).model(),
            final(self).handle() == old(self).handle(),
    {
        match pinned {
            Some((cid, size)) => (cid, size),
            None => {
                self.mark_dirty(ino);
                (local_cid(path), len as i64)
            },
        }
    }
}

/// What a fetch of content asks for next.
pub enum FetchAction {
    /// Look the identifier up in the disk cache.
    CheckDisk,
    /// Retrieve the identifier from the network.
    Retrieve,
    /// Put these bytes in the disk cache under the identifier; they are the
    /// content.
    StoreOnDisk(Vec<u8>),
    /// The fetch is over: the content, or `None` when it cannot be had.
    Done(Option<Vec<u8>>),
}

/// What the last action of a fetch came to.
pub enum FetchEvent {
    /// The fetch begins.
    Start,
    /// The disk cache held these bytes.
    DiskHit(Vec<u8>),
    /// The disk cache did not hold the identifier.
    DiskMiss,
    /// The network returned this base64 text.
    Retrieved(String),
    /// The network could not return the content.
    RetrieveFailed,
}

impl DriveState {
    /// One step of fetching the content of `ino`, whose index entry has
    /// identifier `cid`: buffered content first, then the disk cache, then
    /// the network. Nothing is fetched for pending content, nor from the
    /// network for an identifier that exists only on this machine. Content
    /// found on disk or on the network is kept in memory; content from the
    /// network is also put in the disk cache.
    pub fn fetch_step(&mut self, ino: u64, cid: &str, event: FetchEvent) -> (r: FetchAction)
        ensures
            match event {
                FetchEvent::Start => {
                    &&& final(self).contents() == old(self).contents()
                    &&& if old(self).contents().contains_key(ino) {
                        r matches FetchAction::Done(Some(d)) && d@ == old(self).contents()[ino]
                    } else if cid@ == pending_cid() {
                        r matches FetchAction::Done(None)
                    } else {
                        r is CheckDisk
                    }
                },
                FetchEvent::DiskHit(data) => {
                    &&& final(self).contents() == old(self).contents().insert(ino, data@)
                    &&& r matches FetchAction::Done(Some(d)) && d@ == data@
                },
                FetchEvent::DiskMiss => {
                    &&& final(self).contents() == old(self).contents()
                    &&& if is_local_only(cid@) {
                        r matches FetchAction::Done(None)
                    } else {
                        r is Retrieve
                    }
                },
                FetchEvent::Retrieved(text) => {
                    &&& final(self).contents() == old(self).contents().insert(ino, retrieved(text@))
                    &&& r matches FetchAction::StoreOnDisk(d) && d@ == retrieved(text@)
                },
                FetchEvent::RetrieveFailed => {
                    &&& final(self).contents() == old(self).contents()
                    &&& r matches FetchAction::Done(None)
                },
            },
            final(self).dirty() == old(self).dirty(),
            final(self).model() == old(self).model(),
            final(self).handle() == old(self).handle(),
    {
        match event {
            FetchEvent::Start => {
                match self.file_content.get(&ino) {
                    Some(data) => FetchAction::Done(Some(copy_bytes(data.as_slice()))),
                    None => if cid_is_pending(cid) {
                        FetchAction::Done(None)
                    } else {
                        FetchAction::CheckDisk
                    },
                }
            },
            FetchEvent::DiskHit(data) => {
                let copy = copy_bytes(data.as_slice());
                self.cache_content(ino, data);
                FetchAction::Done(Some(copy))
            },
            FetchEvent::DiskMiss => if cid_is_local_only(cid) {
                FetchAction::Done(None)
            } else {
                FetchAction::Retrieve
            },
            FetchEvent::Retrieved(text) => {
                let data = retrieved_bytes(text.as_str());
                let copy = copy_bytes(data.as_slice());
                self.cache_content(ino, data);
                FetchAction::StoreOnDisk(copy)
            },
            FetchEvent::RetrieveFailed => FetchAction::Done(None),
        }
    }
}


// ---------------------------------------------------------------------------
// Directory listings
// ---------------------------------------------------------------------------

/// The kind of a directory-listing entry.
#[derive(PartialEq, Eq, Structural, Clone, Copy, Debug)]
pub enum EntryKind {
    Directory,
    RegularFile,
}

/// The kind of a listed item.
pub open spec fn item_kind(it: DirItem) -> EntryKind {
    match it {
        DirItem::File(_) => EntryKind::RegularFile,
        DirItem::Directory(_) => EntryKind::Directory,
    }
}

/// The numbering after allocating inodes for the listed items, in order.
pub open spec fn alloc_all(m: InodeModel, items: Seq<DirItem>) -> InodeModel
    decreases items.len(),
{
    if items.len() == 0 {
        m
    } else {
        alloc_model(
            alloc_all(m, items.drop_last()),
            items.last().spec_path(),
            items.last() is Directory,
        ).0
    }
}

/// The listing entry of item `k`: its inode (allocated after the items
/// before it), kind and name (the text after the last `/`).
pub open spec fn item_entry(m: InodeModel, items: Seq<DirItem>, k: int) -> (
    u64,
    EntryKind,
    Seq<char>,
) {
    (
        alloc_model(
            alloc_all(m, items.take(k)),
            items[k].spec_path(),
            items[k] is Directory,
        ).1,
        item_kind(items[k]),
        last_piece(items[k].spec_path(), '/'),
    )
}

/// The parent path of a directory path (`rsplitn(2, '/')`): the text before
/// the last `/` when that is not empty, else `"/"`.
pub open spec fn parent_of(path: Seq<char>) -> Seq<char> {
    if path.contains('/') && last_index(path, '/') > 0 {
        path.take(last_index(path, '/'))
    } else {
        "/"@
    }
}

/// The inode listed as `..`: the root for the root, else the inode of the
/// parent path when known, else the root.
pub open spec fn parent_ino(m: InodeModel, ino: u64, dir_path: Seq<char>) -> u64 {
    if ino == ROOT_INO {
        ROOT_INO
    } else if m.paths.contains_key(parent_of(dir_path)) {
        m.paths[parent_of(dir_path)]
    } else {
        ROOT_INO
    }
}

/// A listing entry as plain values.
pub open spec fn entry_view(e: (u64, EntryKind, String)) -> (u64, EntryKind, Seq<char>) {
    (e.0, e.1, e.2@)
}

/// Allocation keeps the numbering invariant and moves each counter by at
/// most one.
pub proof fn lemma_alloc_wf(m: InodeModel, p: Seq<char>, dir: bool)
    requires
        model_wf(m),
        alloc_room(m, p, dir),
    ensures
        model_wf(alloc_model(m, p, dir).0),
        alloc_model(m, p, dir).0.next_dir <= m.next_dir + 1,
        alloc_model(m, p, dir).0.next_file <= m.next_file + 1,
        m.next_dir <= alloc_model(m, p, dir).0.next_dir,
        m.next_file <= alloc_model(m, p, dir).0.next_file,
        forall|q: Seq<char>| #[trigger]
            m.paths.contains_key(q) ==> alloc_model(m, p, dir).0.paths.contains_key(q)
                && alloc_model(m, p, dir).0.paths[q] == m.paths[q],
        alloc_model(m, p, dir).0.paths.contains_key(p),
        alloc_model(m, p, dir).0.paths[p] == alloc_model(m, p, dir).1,
{
    let m2 = alloc_model(m, p, dir).0;
    let ino = alloc_model(m, p, dir).1;
    if !m.paths.contains_key(p) {
        assert forall|i: u64| #[trigger] m2.dirs.contains_key(i) implies 1 <= i < m2.next_dir by {
            if i != ino {
                assert(m.dirs.contains_key(i));
            }
        }
        assert forall|i: u64| #[trigger] m2.files.contains_key(i) implies FILE_INO_OFFSET <= i
            < m2.next_file by {
            if i != ino {
                assert(m.files.contains_key(i));
            }
        }
        assert forall|q: Seq<char>| #[trigger] m2.paths.contains_key(q) implies {
            ||| (m2.dirs.contains_key(m2.paths[q]) && m2.dirs[m2.paths[q]] == q)
            ||| (m2.files.contains_key(m2.paths[q]) && m2.files[m2.paths[q]] == q)
        } by {
            if q != p {
                assert(m.paths.contains_key(q));
                let j = m.paths[q];
                if m.dirs.contains_key(j) && m.dirs[j] == q {
                    assert(j != ino);
                } else {
                    assert(m.files.contains_key(j));
                    assert(j != ino);
                }
            }
        }
    }
}

/// Distinct known paths have distinct inodes.
pub proof fn lemma_paths_injective(m: InodeModel, p: Seq<char>, q: Seq<char>)
    requires
        model_wf(m),
        m.paths.contains_key(p),
        m.paths.contains_key(q),
        p != q,
    ensures
        m.paths[p] != m.paths[q],
{
    let i = m.paths[p];
    let j = m.paths[q];
    if i == j {
        if m.dirs.contains_key(i) && m.dirs[i] == p {
            if m.files.contains_key(j) && m.files[j] == q {
                assert(i < FILE_INO_OFFSET);
            }
        } else {
            if m.dirs.contains_key(j) && m.dirs[j] == q {
                assert(i >= FILE_INO_OFFSET);
            }
        }
    }
}

/// No inode is both a directory inode and a file inode.
pub proof fn lemma_kinds_disjoint(m: InodeModel, i: u64)
    requires
        model_wf(m),
    ensures
        !(m.dirs.contains_key(i) && m.files.contains_key(i)),
{
}

/// Allocating again for a path, of either kind, gives the same inode and
/// changes nothing.
pub proof fn lemma_alloc_stable(m: InodeModel, p: Seq<char>, first: bool, second: bool)
    requires
        model_wf(m),
        alloc_room(m, p, first),
    ensures
        alloc_model(alloc_model(m, p, first).0, p, second) == alloc_model(m, p, first),
{
    lemma_alloc_wf(m, p, first);
}

/// A read at the offset of a write, of the write's length, returns the
/// written bytes; bytes outside the write keep their value.
pub proof fn lemma_read_after_write(old: Seq<u8>, start: nat, data: Seq<u8>)
    ensures
        read_range(written(old, start, data), start, data.len()) =~= data,
        forall|i: int|
            0 <= i < old.len() && !(start <= i < start + data.len()) ==> #[trigger] written(
                old,
                start,
                data,
            )[i] == old[i],
{
    let w = written(old, start, data);
    if data.len() > 0 {
        assert(start < w.len());
        assert(read_range(w, start, data.len()) =~= w.subrange(start as int, (start + data.len()) as int));
    } else {
        assert(read_range(w, start, data.len()) =~= Seq::<u8>::empty());
    }
}

proof fn lemma_alloc_all_step(m: InodeModel, items: Seq<DirItem>, k: int)
    requires
        0 <= k < items.len(),
    ensures
        alloc_all(m, items.take(k + 1)) == alloc_model(
            alloc_all(m, items.take(k)),
            items[k].spec_path(),
            items[k] is Directory,
        ).0,
{
    assert(items.take(k + 1).drop_last() =~= items.take(k));
}

/// The parent path of a directory path.
pub fn parent_dir_path(path: &str) -> (r: String)
    ensures
        r@ == parent_of(path@),
{
    let chars = chars_of(path);
    match rfind_char(chars.as_slice(), '/') {
        Some(i) => {
            if i > 0 {
                let head = sub_chars(chars.as_slice(), 0, i);
                assert(head@ =~= path@.take(i as int));
                string_from_chars(head.as_slice())
            } else {
                string_from_str("/")
            }
        },
        None => string_from_str("/"),
    }
}

/// The name of a path: the text after its last `/`.
pub fn base_name(path: &str) -> (r: String)
    ensures
        r@ == last_piece(path@, '/'),
{
    let chars = chars_of(path);
    let name = last_piece_chars(chars.as_slice(), '/');
    string_from_chars(name.as_slice())
}

fn item_path(item: &DirItem) -> (r: &str)
    ensures
        r@ == item.spec_path(),
{
    match item {
        DirItem::File(f) => f.path.as_str(),
        DirItem::Directory(d) => d.path.as_str(),
    }
}

impl DriveState {
    /// The entries of a directory listing: `.`, `..`, then one entry per
    /// listed item with an inode allocated for its path.
    pub fn list_entries(&mut self, ino: u64, dir_path: &str, items: &Vec<DirItem>) -> (r: Vec<
        (u64, EntryKind, String),
    >)
        requires
            old(self).wf(),
            old(self).model().next_dir + items@.len() <= FILE_INO_OFFSET,
            old(self).model().next_file + items@.len() < u64::MAX,
        ensures
            final(self).wf(),
            final(self).model() == alloc_all(old(self).model(), items@),
            r@.len() == items@.len() + 2,
            entry_view(r@[0]) == (ino, EntryKind::Directory, "."@),
            entry_view(r@[1]) == (
                parent_ino(old(self).model(), ino, dir_path@),
                EntryKind::Directory,
                ".."@,
            ),
            forall|k: int|
                0 <= k < items@.len() ==> entry_view(#[trigger] r@[k + 2]) == item_entry(
                    old(self).model(),
                    items@,
                    k,
                ),
            final(self).contents() == old(self).contents(),
            final(self).dirty() == old(self).dirty(),
            final(self).handle() == old(self).handle(),
    {
        let ghost m0 = self.model();
        let mut entries: Vec<(u64, EntryKind, String)> = Vec::new();
        entries.push((ino, EntryKind::Directory, string_from_str(".")));
        let parent = if ino == ROOT_INO {
            ROOT_INO
        } else {
            let pp = parent_dir_path(dir_path);
            match self.ino_of_path(pp.as_str()) {
                Some(i) => i,
                None => ROOT_INO,
            }
        };
        entries.push((parent, EntryKind::Directory, string_from_str("..")));
        assert(items@.take(0) =~= Seq::<DirItem>::empty());
        let mut k: usize = 0;
        while k < items.len()
            invariant
                k <= items@.len(),
                model_wf(self.model()),
                self.model() == alloc_all(m0, items@.take(k as int)),
                self.model().next_dir <= m0.next_dir + k,
                self.model().next_file <= m0.next_file + k,
                m0.next_dir + items@.len() <= FILE_INO_OFFSET,
                m0.next_file + items@.len() < u64::MAX,
                entries@.len() == k + 2,
                entry_view(entries@[0]) == (ino, EntryKind::Directory, "."@),
                entry_view(entries@[1]) == (
                    parent_ino(m0, ino, dir_path@),
                    EntryKind::Directory,
                    ".."@,
                ),
                forall|j: int| 0 <= j < k ==> entry_view(#[trigger] entries@[j + 2]) == item_entry(
                    m0,
                    items@,
                    j,
                ),
                self.contents() == old(self).contents(),
                self.dirty() == old(self).dirty(),
                self.handle() == old(self).handle(),
            decreases items@.len() - k,
        {
            let item = &items[k];
            let path = item_path(item);
            let is_dir = match item {
                DirItem::Directory(_) => true,
                DirItem::File(_) => false,
            };
            proof {
                lemma_alloc_wf(self.model(), path@, is_dir);
                lemma_alloc_all_step(m0, items@, k as int);
            }
            let child = if is_dir {
                self.alloc_dir_ino(path)
            } else {
                self.alloc_file_ino(path)
            };
            let name = base_name(path);
            let kind = if is_dir {
                EntryKind::Directory
            } else {
                EntryKind::RegularFile
            };
            entries.push((child, kind, name));
            k = k + 1;
        }
        assert(items@.take(items@.len() as int) =~= items@);
        entries
    }
}

// ---------------------------------------------------------------------------
// Content identifiers and attributes
// ---------------------------------------------------------------------------

/// FNV-1a offset basis.
pub const FNV_OFFSET_BASIS: u64 = 0xcbf29ce484222325;

/// FNV-1a prime.
pub const FNV_PRIME: u64 = 0x100000001b3;

/// The 64-bit FNV-1a hash of `data`.
pub open spec fn fnv1a(data: Seq<u8>) -> u64
    decreases data.len(),
{
    if data.len() == 0 {
        FNV_OFFSET_BASIS
    } else {
        vstd::wrapping::u64_specs::wrapping_mul(
            fnv1a(data.drop_last()) ^ (data.last() as u64),
            FNV_PRIME,
        )
    }
}

/// The 64-bit FNV-1a hash.
pub fn fnv_hash(data: &[u8]) -> (r: u64)
    ensures
        r == fnv1a(data@),
{
    let mut hash: u64 = FNV_OFFSET_BASIS;
    let mut i: usize = 0;
    while i < data.len()
        invariant
            i <= data@.len(),
            hash == fnv1a(data@.take(i as int)),
        decreases data@.len() - i,
    {
        assert(data@.take(i + 1).drop_last() =~= data@.take(i as int));
        hash = hash ^ (data[i] as u64);
        hash = hash.wrapping_mul(FNV_PRIME);
        i = i + 1;
    }
    assert(data@.take(data@.len() as int) =~= data@);
    hash
}

/// The identifier under which content that could not be pinned is cached:
/// `local:` and the FNV-1a hash of the path's UTF-8 bytes in hex.
pub open spec fn local_cid_text(path: Seq<char>) -> Seq<char> {
    "local:"@ + hexadecimal(fnv1a(encode_utf8(path)) as nat)
}

/// The local identifier stands for the whole path: two paths share it
/// exactly when the FNV-1a hashes of their complete UTF-8 bytes agree, so
/// files of the same name in different directories keep apart whenever
/// their full paths hash apart.
pub proof fn lemma_local_cid_hashes_whole_path(p: Seq<char>, q: Seq<char>)
    ensures
        local_cid_text(p) == local_cid_text(q) <==> fnv1a(encode_utf8(p)) == fnv1a(encode_utf8(q)),
{
    let hp = hexadecimal(fnv1a(encode_utf8(p)) as nat);
    let hq = hexadecimal(fnv1a(encode_utf8(q)) as nat);
    if local_cid_text(p) == local_cid_text(q) {
        let n = "local:"@.len() as int;
        assert(local_cid_text(p).skip(n) =~= hp);
        assert(local_cid_text(q).skip(n) =~= hq);
        lemma_hexadecimal_injective(fnv1a(encode_utf8(p)) as nat, fnv1a(encode_utf8(q)) as nat);
    }
}

/// The local identifier of content that could not be pinned.
pub fn local_cid(path: &str) -> (r: String)
    ensures
        r@ == local_cid_text(path@),
{
    let h = fnv_hash(path.as_bytes());
    let mut s = string_from_str("local:");
    push_hex(&mut s, h);
    s
}

/// Blocks of `BLOCK_SIZE` bytes that `size` bytes take.
pub fn block_count(size: u64) -> (r: u64)
    requires
        size <= u64::MAX - BLOCK_SIZE,
    ensures
        r == (size + BLOCK_SIZE - 1) / (BLOCK_SIZE as int),
{
    (size + BLOCK_SIZE - 1) / BLOCK_SIZE
}

/// The identifier of a file whose content is not yet pinned.
pub open spec fn pending_cid() -> Seq<char> {
    "pending"@
}

/// Whether the file's content is not yet pinned.
pub fn cid_is_pending(cid: &str) -> (r: bool)
    ensures
        r == (cid@ == pending_cid()),
{
    let chars = chars_of(cid);
    chars_eq_str(chars.as_slice(), "pending")
}

/// Identifiers that exist only on this machine and cannot be fetched.
pub open spec fn is_local_only(cid: Seq<char>) -> bool {
    starts_with(cid, "stub:"@) || starts_with(cid, "local:"@)
}

/// Whether the identifier exists only on this machine.
pub fn cid_is_local_only(cid: &str) -> (r: bool)
    ensures
        r == is_local_only(cid@),
{
    let chars = chars_of(cid);
    starts_with_str(chars.as_slice(), "stub:") || starts_with_str(chars.as_slice(), "local:")
}

/// Whether removing a file unpins its content from the network: not for
/// stub identifiers and not for pending content.
pub fn should_unpin(cid: &str) -> (r: bool)
    ensures
        r == (!starts_with(cid@, "stub:"@) && cid@ != pending_cid()),
{
    let chars = chars_of(cid);
    !starts_with_str(chars.as_slice(), "stub:") && !chars_eq_str(chars.as_slice(), "pending")
}

/// The text served for a file whose content cannot be had.
pub open spec fn placeholder_text(cid: Seq<char>) -> Seq<char> {
    "[ShelDrive] Content unavailable \u{2014} CID: "@ + cid + "\n"@
}

/// The bytes served for a file whose content cannot be had.
pub fn unavailable_placeholder(cid: &str) -> (r: Vec<u8>)
    ensures
        r@ == encode_utf8(placeholder_text(cid@)),
{
    let mut s = string_from_str("[ShelDrive] Content unavailable \u{2014} CID: ");
    push_str(&mut s, cid);
    push_str(&mut s, "\n");
    copy_bytes(s.as_str().as_bytes())
}

// ---------------------------------------------------------------------------
// Loading the index
// ---------------------------------------------------------------------------

/// The numbering after allocating inodes for the given paths, in order, all
/// of one kind.
pub open spec fn alloc_paths(m: InodeModel, ps: Seq<Seq<char>>, dir: bool) -> InodeModel
    decreases ps.len(),
{
    if ps.len() == 0 {
        m
    } else {
        alloc_model(alloc_paths(m, ps.drop_last(), dir), ps.last(), dir).0
    }
}

/// The views of a sequence of strings.
pub open spec fn path_views(v: Seq<String>) -> Seq<Seq<char>> {
    v.map_values(|s: String| s@)
}

impl DriveState {
    fn alloc_each(&mut self, paths: &Vec<String>, dir: bool)
        requires
            old(self).wf(),
            dir ==> old(self).model().next_dir + paths@.len() <= FILE_INO_OFFSET,
            !dir ==> old(self).model().next_file + paths@.len() < u64::MAX,
        ensures
            final(self).wf(),
            final(self).model() == alloc_paths(old(self).model(), path_views(paths@), dir),
            final(self).model().next_dir <= old(self).model().next_dir + paths@.len(),
            final(self).model().next_file <= old(self).model().next_file + paths@.len(),
            dir ==> final(self).model().next_file == old(self).model().next_file,
            final(self).contents() == old(self).contents(),
            final(self).dirty() == old(self).dirty(),
            final(self).handle() == old(self).handle(),
    {
        let ghost m0 = self.model();
        let ghost ps = path_views(paths@);
        assert(ps.take(0) =~= Seq::<Seq<char>>::empty());
        let mut k: usize = 0;
        while k < paths.len()
            invariant
                k <= paths@.len(),
                ps == path_views(paths@),
                model_wf(self.model()),
                self.model() == alloc_paths(m0, ps.take(k as int), dir),
                self.model().next_dir <= m0.next_dir + k,
                self.model().next_file <= m0.next_file + k,
                m0.next_dir <= self.model().next_dir,
                m0.next_file <= self.model().next_file,
                dir ==> self.model().next_file == m0.next_file,
                dir ==> m0.next_dir + paths@.len() <= FILE_INO_OFFSET,
                !dir ==> m0.next_file + paths@.len() < u64::MAX,
                self.contents() == old(self).contents(),
                self.dirty() == old(self).dirty(),
                self.handle() == old(self).handle(),
            decreases paths@.len() - k,
        {
            let p = paths[k].as_str();
            proof {
                lemma_alloc_wf(self.model(), p@, dir);
                assert(ps.take(k + 1).drop_last() =~= ps.take(k as int));
                assert(ps[k as int] == p@);
            }
            if dir {
                self.alloc_dir_ino(p);
            } else {
                self.alloc_file_ino(p);
            }
            k = k + 1;
        }
        assert(ps.take(paths@.len() as int) =~= ps);
    }

    /// Gives inodes to the paths already in the index: the directories
    /// other than the root first, then the files, each in the given order.
    pub fn load_index(&mut self, dir_paths: &Vec<String>, file_paths: &Vec<String>)
        requires
            old(self).wf(),
            old(self).model().next_dir + dir_paths@.len() <= FILE_INO_OFFSET,
            old(self).model().next_file + file_paths@.len() < u64::MAX,
        ensures
            final(self).wf(),
            final(self).model() == alloc_paths(
                alloc_paths(old(self).model(), path_views(dir_paths@), true),
                path_views(file_paths@),
                false,
            ),
            final(self).contents() == old(self).contents(),
            final(self).dirty() == old(self).dirty(),
            final(self).handle() == old(self).handle(),
    {
        self.alloc_each(dir_paths, true);
        self.alloc_each(file_paths, false);
    }
}

} // verus!
