//! Records of the file index and the rule that picks the immediate children
//! of a directory out of the rows that the index returns for its prefix.
use vstd::prelude::*;
use crate::text::{chars_eq, chars_of, push_str, starts_with, starts_with_chars, string_from_str};

verus! {

/// A pinned file as the index records it.
pub struct FileEntry {
    pub id: i64,
    pub path: String,
    pub cid: String,
    pub size_bytes: i64,
    pub mime_type: Option<String>,
    pub pinned_at: String,
    pub modified_at: String,
    pub metadata: Option<String>,
}

/// A directory as the index records it.
pub struct DirEntry {
    pub id: i64,
    pub path: String,
    pub created_at: String,
}

/// One entry of a directory listing: a file or a subdirectory.
pub enum DirItem {
    File(FileEntry),
    Directory(DirEntry),
}

impl DirItem {
    /// The path of the entry.
    pub open spec fn spec_path(&self) -> Seq<char> {
        match self {
            DirItem::File(f) => f.path@,
            DirItem::Directory(d) => d.path@,
        }
    }
}

/// The prefix shared by the children of `dir_path`: `"/"` for the root,
/// else the path followed by `/`.
pub open spec fn children_prefix(dir_path: Seq<char>) -> Seq<char> {
    if dir_path == "/"@ {
        "/"@
    } else {
        dir_path + "/"@
    }
}

/// The prefix shared by the children of `dir_path`.
pub fn child_prefix(dir_path: &str) -> (r: String)
    ensures
        r@ == children_prefix(dir_path@),
{
    let chars = chars_of(dir_path);
    let root = chars_of("/");
    if chars_eq(chars.as_slice(), root.as_slice()) {
        string_from_str("/")
    } else {
        let mut s = string_from_str(dir_path);
        push_str(&mut s, "/");
        s
    }
}

/// A row is an immediate child of the directory with prefix `prefix`: its
/// path starts with the prefix, and the text after the prefix holds no `/`.
pub open spec fn is_child(path: Seq<char>, prefix: Seq<char>) -> bool {
    starts_with(path, prefix) && !path.skip(prefix.len() as int).contains('/')
}

/// The listed children among file rows, in order.
pub open spec fn file_children(rows: Seq<FileEntry>, prefix: Seq<char>) -> Seq<DirItem>
    decreases rows.len(),
{
    if rows.len() == 0 {
        Seq::empty()
    } else {
        file_children(rows.drop_last(), prefix) + if is_child(rows.last().path@, prefix) {
            seq![DirItem::File(rows.last())]
        } else {
            Seq::empty()
        }
    }
}

/// The listed children among directory rows, in order; the directory itself
/// is never its own child.
pub open spec fn dir_children(rows: Seq<DirEntry>, prefix: Seq<char>, dir_path: Seq<char>) -> Seq<
    DirItem,
>
    decreases rows.len(),
{
    if rows.len() == 0 {
        Seq::empty()
    } else {
        dir_children(rows.drop_last(), prefix, dir_path) + if is_child(rows.last().path@, prefix)
            && rows.last().path@ != dir_path {
            seq![DirItem::Directory(rows.last())]
        } else {
            Seq::empty()
        }
    }
}

/// A path is a child of the directory with prefix `prefix` exactly when it
/// is the prefix followed by a name that holds no `/`, whatever else the
/// name holds: every such name is listed, and a path that does not begin
/// with the prefix, or goes deeper, is not.
pub proof fn lemma_children_are_prefix_and_name(prefix: Seq<char>, name: Seq<char>, path: Seq<char>)
    ensures
        is_child(prefix + name, prefix) <==> (forall|i: int| 0 <= i < name.len() ==> name[i] != '/'),
        is_child(path, prefix) <==> (path.len() >= prefix.len() && path.take(prefix.len() as int)
            == prefix && forall|i: int| prefix.len() <= i < path.len() ==> path[i] != '/'),
{
    let p = prefix + name;
    assert(p.subrange(0, prefix.len() as int) =~= prefix);
    assert(p.skip(prefix.len() as int) =~= name);
    assert(path.take(prefix.len() as int) =~= path.subrange(0, prefix.len() as int));
    if path.len() >= prefix.len() {
        let rest = path.skip(prefix.len() as int);
        if rest.contains('/') {
            let k = choose|k: int| 0 <= k < rest.len() && rest[k] == '/';
            assert(path[prefix.len() + k] == '/');
        }
        if exists|i: int| prefix.len() <= i < path.len() && path[i] == '/' {
            let i = choose|i: int| prefix.len() <= i < path.len() && path[i] == '/';
            assert(rest[i - prefix.len()] == '/');
        }
    }
    if name.contains('/') {
        let k = choose|k: int| 0 <= k < name.len() && name[k] == '/';
        assert(name[k] == '/');
    }
}

/// The files listed for a directory are the file rows that are its
/// children, each once, in row order.
pub proof fn lemma_file_children_filter(rows: Seq<FileEntry>, prefix: Seq<char>)
    ensures
        file_children(rows, prefix) == rows.filter(|f: FileEntry| is_child(f.path@, prefix)).map_values(
            |f: FileEntry| DirItem::File(f),
        ),
    decreases rows.len(),
{
    if rows.len() > 0 {
        lemma_file_children_filter(rows.drop_last(), prefix);
        let pred = |f: FileEntry| is_child(f.path@, prefix);
        let sub = rows.drop_last().filter(pred);
        reveal(Seq::filter);
        assert(rows.filter(pred) == if pred(rows.last()) {
            sub.push(rows.last())
        } else {
            sub
        });
        if pred(rows.last()) {
            assert(sub.push(rows.last()).map_values(|f: FileEntry| DirItem::File(f)) =~= sub.map_values(
                |f: FileEntry| DirItem::File(f),
            ) + seq![DirItem::File(rows.last())]);
        } else {
            assert(sub.map_values(|f: FileEntry| DirItem::File(f)) =~= sub.map_values(
                |f: FileEntry| DirItem::File(f),
            ) + Seq::<DirItem>::empty());
        }
    } else {
        reveal(Seq::filter);
        assert(rows.filter(|f: FileEntry| is_child(f.path@, prefix)).map_values(
            |f: FileEntry| DirItem::File(f),
        ) =~= Seq::<DirItem>::empty());
    }
}

/// The directories listed for a directory are the directory rows that are
/// its children, other than itself, each once, in row order.
pub proof fn lemma_dir_children_filter(rows: Seq<DirEntry>, prefix: Seq<char>, dir_path: Seq<char>)
    ensures
        dir_children(rows, prefix, dir_path) == rows.filter(
            |d: DirEntry| is_child(d.path@, prefix) && d.path@ != dir_path,
        ).map_values(|d: DirEntry| DirItem::Directory(d)),
    decreases rows.len(),
{
    if rows.len() > 0 {
        lemma_dir_children_filter(rows.drop_last(), prefix, dir_path);
        let pred = |d: DirEntry| is_child(d.path@, prefix) && d.path@ != dir_path;
        let sub = rows.drop_last().filter(pred);
        reveal(Seq::filter);
        assert(rows.filter(pred) == if pred(rows.last()) {
            sub.push(rows.last())
        } else {
            sub
        });
        if pred(rows.last()) {
            assert(sub.push(rows.last()).map_values(|d: DirEntry| DirItem::Directory(d))
                =~= sub.map_values(|d: DirEntry| DirItem::Directory(d)) + seq![
                DirItem::Directory(rows.last()),
            ]);
        } else {
            assert(sub.map_values(|d: DirEntry| DirItem::Directory(d)) =~= sub.map_values(
                |d: DirEntry| DirItem::Directory(d),
            ) + Seq::<DirItem>::empty());
        }
    } else {
        reveal(Seq::filter);
        assert(rows.filter(|d: DirEntry| is_child(d.path@, prefix) && d.path@ != dir_path).map_values(
            |d: DirEntry| DirItem::Directory(d),
        ) =~= Seq::<DirItem>::empty());
    }
}

/// Whether `path` is an immediate child under `prefix`.
pub fn is_direct_child(prefix: &str, path: &str) -> (r: bool)
    ensures
        r == is_child(path@, prefix@),
{
    let p = chars_of(prefix);
    let v = chars_of(path);
    if !starts_with_chars(v.as_slice(), p.as_slice()) {
        return false;
    }
    let n = v.len();
    let mut i = p.len();
    while i < n
        invariant
            v@ == path@,
            p@ == prefix@,
            n == v@.len(),
            p@.len() <= i <= n,
            forall|j: int| p@.len() <= j < i ==> v@[j] != '/',
        decreases n - i,
    {
        if v[i] == '/' {
            assert(v@.skip(p@.len() as int)[i - p@.len()] == '/');
            return false;
        }
        i = i + 1;
    }
    assert(!v@.skip(p@.len() as int).contains('/')) by {
        if v@.skip(p@.len() as int).contains('/') {
            let k = choose|k: int|
                0 <= k < v@.skip(p@.len() as int).len() && v@.skip(p@.len() as int)[k] == '/';
            assert(v@[p@.len() + k] == '/');
        }
    }
    true
}

/// The immediate children of a directory among the given file rows and
/// directory rows: the files first, then the directories, each in row
/// order, keeping a row when its path starts with the directory's prefix
/// (`child_prefix`) and nothing after the prefix holds a `/`; a directory
/// row for the directory itself is left out.
pub fn collect_children(dir_path: &str, files: Vec<FileEntry>, dirs: Vec<DirEntry>) -> (r: Vec<
    DirItem,
>)
    ensures
        r@ == file_children(files@, children_prefix(dir_path@)) + dir_children(
            dirs@,
            children_prefix(dir_path@),
            dir_path@,
        ),
{
    let prefix = child_prefix(dir_path);
    let dir_chars = chars_of(dir_path);
    let ghost pre = children_prefix(dir_path@);
    let ghost all_files = files@;
    let ghost all_dirs = dirs@;
    let file_total = files.len();
    let dir_total = dirs.len();
    let mut files = files;
    let mut dirs = dirs;
    let mut items: Vec<DirItem> = Vec::new();
    let mut k: usize = 0;
    while files.len() > 0
        invariant
            prefix@ == pre,
            k <= all_files.len(),
            all_files.len() == file_total,
            files@ == all_files.skip(k as int),
            items@ == file_children(all_files.take(k as int), pre),
        decreases files@.len(),
    {
        let entry = files.remove(0);
        assert(entry == all_files[k as int]);
        let keep = is_direct_child(prefix.as_str(), entry.path.as_str());
        assert(all_files.take(k + 1).drop_last() =~= all_files.take(k as int));
        if keep {
            items.push(DirItem::File(entry));
        }
        proof {
            assert(files@ =~= all_files.skip(k + 1));
        }
        k = k + 1;
        assert(items@ =~= file_children(all_files.take(k as int), pre));
    }
    assert(all_files.take(k as int) =~= all_files);
    let ghost file_part = items@;
    let mut m: usize = 0;
    assert(dir_children(all_dirs.take(0), pre, dir_path@) =~= Seq::<DirItem>::empty());
    while dirs.len() > 0
        invariant
            prefix@ == pre,
            dir_chars@ == dir_path@,
            m <= all_dirs.len(),
            all_dirs.len() == dir_total,
            dirs@ == all_dirs.skip(m as int),
            items@ == file_part + dir_children(all_dirs.take(m as int), pre, dir_path@),
        decreases dirs@.len(),
    {
        let entry = dirs.remove(0);
        assert(entry == all_dirs[m as int]);
        let path_chars = chars_of(entry.path.as_str());
        let keep = is_direct_child(prefix.as_str(), entry.path.as_str()) && !chars_eq(
            path_chars.as_slice(),
            dir_chars.as_slice(),
        );
        assert(all_dirs.take(m + 1).drop_last() =~= all_dirs.take(m as int));
        if keep {
            items.push(DirItem::Directory(entry));
        }
        proof {
            assert(dirs@ =~= all_dirs.skip(m + 1));
        }
        m = m + 1;
        assert(items@ =~= file_part + dir_children(all_dirs.take(m as int), pre, dir_path@));
    }
    assert(all_dirs.take(m as int) =~= all_dirs);
    items
}

} // verus!
