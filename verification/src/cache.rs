//! Layout of the on-disk content cache and write staging area, and the order
//! in which the cache evicts files once it outgrows its budget.
use vstd::prelude::*;
use crate::text::{
    chars_of, hexadecimal, is_alphanumeric, lemma_hexadecimal_injective, push_chars, push_hex,
    push_str, string_from_str, unicode_alphanumeric,
};

verus! {

/// `dir` joined with a relative `name`, as `Path::join` does: a `/` goes
/// between them unless `dir` is empty or already ends with one.
pub open spec fn joined(dir: Seq<char>, name: Seq<char>) -> Seq<char> {
    if dir.len() == 0 || dir.last() == '/' {
        dir + name
    } else {
        dir + "/"@ + name
    }
}

/// A content identifier made safe as a file name: letters, digits, `-` and
/// `_` stay, anything else becomes `_`.
pub open spec fn sanitized(cid: Seq<char>) -> Seq<char> {
    Seq::new(
        cid.len(),
        |i: int|
            if unicode_alphanumeric(cid[i]) || cid[i] == '-' || cid[i] == '_' {
                cid[i]
            } else {
                '_'
            },
    )
}

fn join_name(dir: &str, name: &[char]) -> (r: String)
    ensures
        r@ == joined(dir@, name@),
{
    let d = chars_of(dir);
    let mut s = string_from_str(dir);
    if d.len() == 0 || d[d.len() - 1] == '/' {
        push_chars(&mut s, name);
    } else {
        push_str(&mut s, "/");
        push_chars(&mut s, name);
    }
    s
}

/// Content cache on disk, one file per content identifier.
pub struct DiskCache {
    dir: String,
    max_bytes: u64,
}

impl DiskCache {
    /// A cache kept in `dir` within `max_bytes` bytes.
    pub fn new(dir: String, max_bytes: u64) -> (c: Self)
        ensures
            c.dir_view() == dir@,
            c.max_view() == max_bytes,
    {
        DiskCache { dir, max_bytes }
    }

    /// The cache directory.
    pub closed spec fn dir_view(&self) -> Seq<char> {
        self.dir@
    }

    /// The byte budget.
    pub closed spec fn max_view(&self) -> u64 {
        self.max_bytes
    }

    /// The cache directory.
    pub fn dir(&self) -> (r: &str)
        ensures
            r@ == self.dir_view(),
    {
        self.dir.as_str()
    }

    /// The byte budget.
    pub fn max_bytes(&self) -> (r: u64)
        ensures
            r == self.max_view(),
    {
        self.max_bytes
    }

    /// The file that holds the content of `cid`.
    pub fn cid_path(&self, cid: &str) -> (r: String)
        ensures
            r@ == joined(self.dir_view(), sanitized(cid@)),
    {
        let chars = chars_of(cid);
        let mut safe: Vec<char> = Vec::new();
        let mut i: usize = 0;
        while i < chars.len()
            invariant
                chars@ == cid@,
                i <= chars@.len(),
                safe@ == sanitized(cid@).take(i as int),
            decreases chars@.len() - i,
        {
            let c = chars[i];
            let keep = is_alphanumeric(c) || c == '-' || c == '_';
            if keep {
                safe.push(c);
            } else {
                safe.push('_');
            }
            i = i + 1;
            assert(safe@ =~= sanitized(cid@).take(i as int));
        }
        assert(sanitized(cid@).take(chars@.len() as int) =~= sanitized(cid@));
        join_name(self.dir.as_str(), safe.as_slice())
    }
}

/// Staging area on disk for writes in progress, one file per inode.
pub struct StagingArea {
    dir: String,
}

impl StagingArea {
    /// A staging area kept in `dir`.
    pub fn new(dir: String) -> (s: Self)
        ensures
            s.dir_view() == dir@,
    {
        StagingArea { dir }
    }

    /// The staging directory.
    pub closed spec fn dir_view(&self) -> Seq<char> {
        self.dir@
    }

    /// The staging directory.
    pub fn dir(&self) -> (r: &str)
        ensures
            r@ == self.dir_view(),
    {
        self.dir.as_str()
    }

    /// The file that stages inode `ino`: its number in lower-case hex.
    pub fn ino_path(&self, ino: u64) -> (r: String)
        ensures
            r@ == joined(self.dir_view(), hexadecimal(ino as nat)),
    {
        let mut name = String::new();
        push_hex(&mut name, ino);
        let chars = chars_of(name.as_str());
        join_name(self.dir.as_str(), chars.as_slice())
    }
}

/// How many bytes a read of `size` bytes at `offset` takes from a staging
/// file of `file_len` bytes: none at or past the end, else the smaller of
/// `size` and what is left.
pub fn staged_read_len(file_len: u64, offset: u64, size: u32) -> (r: u32)
    ensures
        r == (if offset >= file_len {
            0
        } else if file_len - offset < size {
            file_len - offset
        } else {
            size as int
        }),
{
    if offset >= file_len {
        0
    } else if file_len - offset < size as u64 {
        (file_len - offset) as u32
    } else {
        size
    }
}

/// Distinct inodes are staged in distinct files.
pub proof fn lemma_distinct_staging_names(s: StagingArea, a: u64, b: u64)
    requires
        a != b,
    ensures
        joined(s.dir_view(), hexadecimal(a as nat)) != joined(s.dir_view(), hexadecimal(b as nat)),
{
    let dir = s.dir_view();
    let pre = if dir.len() == 0 || dir.last() == '/' {
        dir
    } else {
        dir + "/"@
    };
    let ha = hexadecimal(a as nat);
    let hb = hexadecimal(b as nat);
    assert(joined(dir, ha) == pre + ha);
    assert(joined(dir, hb) == pre + hb);
    if pre + ha == pre + hb {
        assert((pre + ha).skip(pre.len() as int) =~= ha);
        assert((pre + hb).skip(pre.len() as int) =~= hb);
        lemma_hexadecimal_injective(a as nat, b as nat);
    }
}

// ---------------------------------------------------------------------------
// Eviction
// ---------------------------------------------------------------------------

/// `order` lists the indices of the entries oldest first, entries of equal
/// modification time in their original order (a stable sort by time).
pub open spec fn is_eviction_order(mtimes: Seq<u64>, order: Seq<usize>) -> bool {
    &&& order.len() == mtimes.len()
    &&& forall|k: int| 0 <= k < order.len() ==> #[trigger] order[k] < mtimes.len()
    &&& forall|a: int, b: int|
        0 <= a < b < order.len() ==> {
            ||| mtimes[#[trigger] order[a] as int] < mtimes[#[trigger] order[b] as int]
            ||| (mtimes[order[a] as int] == mtimes[order[b] as int] && order[a] < order[b])
        }
}

/// The stable order by modification time, oldest first.
pub fn eviction_order(mtimes: &Vec<u64>) -> (order: Vec<usize>)
    ensures
        is_eviction_order(mtimes@, order@),
{
    let n = mtimes.len();
    let mut order: Vec<usize> = Vec::new();
    let mut i: usize = 0;
    while i < n
        invariant
            n == mtimes@.len(),
            i <= n,
            order@.len() == i,
            is_eviction_order(mtimes@.take(i as int), order@),
            forall|k: int| 0 <= k < order@.len() ==> #[trigger] order@[k] < i,
        decreases n - i,
    {
        let m = mtimes[i];
        let mut p = order.len();
        while p > 0 && mtimes[order[p - 1]] > m
            invariant
                n == mtimes@.len(),
                i < n,
                m == mtimes@[i as int],
                p <= order@.len(),
                order@.len() == i,
                forall|k: int| 0 <= k < order@.len() ==> #[trigger] order@[k] < i,
                forall|k: int| p <= k < order@.len() ==> mtimes@[#[trigger] order@[k] as int] > m,
            decreases p,
        {
            p = p - 1;
        }
        let ghost before = order@;
        proof {
            assert forall|k: int| 0 <= k < p implies mtimes@[#[trigger] before[k] as int] <= m by {
                if k < p - 1 {
                    let a = k;
                    let b = p - 1;
                    assert(mtimes@.take(i as int)[before[a] as int] == mtimes@[before[a] as int]);
                    assert(mtimes@.take(i as int)[before[b] as int] == mtimes@[before[b] as int]);
                }
            }
        }
        order.insert(p, i);
        proof {
            let t = mtimes@.take(i + 1);
            assert forall|k: int| 0 <= k < order@.len() implies #[trigger] order@[k] < i + 1 by {
                if k < p {
                    assert(order@[k] == before[k]);
                } else if k > p {
                    assert(order@[k] == before[k - 1]);
                }
            }
            assert forall|a: int, b: int| 0 <= a < b < order@.len() implies {
                ||| t[#[trigger] order@[a] as int] < t[#[trigger] order@[b] as int]
                ||| (t[order@[a] as int] == t[order@[b] as int] && order@[a] < order@[b])
            } by {
                let ta = mtimes@.take(i as int);
                if a < p && b < p {
                    assert(order@[a] == before[a] && order@[b] == before[b]);
                    assert(ta[before[a] as int] == t[before[a] as int]);
                    assert(ta[before[b] as int] == t[before[b] as int]);
                } else if a < p && b == p {
                    assert(order@[a] == before[a]);
                    assert(before[a] < i);
                } else if a < p && b > p {
                    assert(order@[a] == before[a] && order@[b] == before[b - 1]);
                    assert(ta[before[a] as int] == t[before[a] as int]);
                    assert(ta[before[b - 1] as int] == t[before[b - 1] as int]);
                } else if a == p {
                    assert(order@[b] == before[b - 1]);
                } else {
                    assert(order@[a] == before[a - 1] && order@[b] == before[b - 1]);
                    assert(ta[before[a - 1] as int] == t[before[a - 1] as int]);
                    assert(ta[before[b - 1] as int] == t[before[b - 1] as int]);
                }
            }
        }
        i = i + 1;
    }
    assert(mtimes@.take(n as int) =~= mtimes@);
    order
}

/// The total of `sizes`.
pub open spec fn total_size(sizes: Seq<u64>) -> nat
    decreases sizes.len(),
{
    if sizes.len() == 0 {
        0
    } else {
        total_size(sizes.drop_last()) + sizes.last() as nat
    }
}

/// The total of the sizes not marked removed.
pub open spec fn kept_size(sizes: Seq<u64>, removed: Seq<bool>) -> nat
    decreases sizes.len(),
{
    if sizes.len() == 0 || removed.len() != sizes.len() {
        0
    } else {
        kept_size(sizes.drop_last(), removed.drop_last()) + if removed.last() {
            0
        } else {
            sizes.last() as nat
        }
    }
}

proof fn lemma_kept_all(sizes: Seq<u64>, removed: Seq<bool>)
    requires
        removed.len() == sizes.len(),
        forall|i: int| 0 <= i < removed.len() ==> !removed[i],
    ensures
        kept_size(sizes, removed) == total_size(sizes),
    decreases sizes.len(),
{
    if sizes.len() > 0 {
        lemma_kept_all(sizes.drop_last(), removed.drop_last());
    }
}

proof fn lemma_kept_remove(sizes: Seq<u64>, removed: Seq<bool>, i: int)
    requires
        removed.len() == sizes.len(),
        0 <= i < sizes.len(),
        !removed[i],
    ensures
        kept_size(sizes, removed.update(i, true)) + sizes[i] == kept_size(sizes, removed),
    decreases sizes.len(),
{
    let r2 = removed.update(i, true);
    if i < sizes.len() - 1 {
        assert(r2.drop_last() =~= removed.drop_last().update(i, true));
        lemma_kept_remove(sizes.drop_last(), removed.drop_last(), i);
    } else {
        assert(r2.drop_last() =~= removed.drop_last());
    }
}

/// The eviction of an over-budget cache, one file at a time: the entries
/// oldest first, the bytes still held, and which entries are gone.
pub struct EvictionPlan {
    sizes: Vec<u64>,
    order: Vec<usize>,
    pos: usize,
    current: u64,
    max: u64,
    removed: Ghost<Seq<bool>>,
    pending: Option<usize>,
}

impl EvictionPlan {
    /// The sizes of the entries.
    pub closed spec fn sizes(&self) -> Seq<u64> {
        self.sizes@
    }

    /// The entries in eviction order.
    pub closed spec fn order(&self) -> Seq<usize> {
        self.order@
    }

    /// How many entries of the order have been offered.
    pub closed spec fn position(&self) -> nat {
        self.pos as nat
    }

    /// The bytes still held.
    pub closed spec fn current(&self) -> u64 {
        self.current
    }

    /// The byte budget.
    pub closed spec fn budget(&self) -> u64 {
        self.max
    }

    /// The entry offered last and not yet reported removed.
    pub closed spec fn pending(&self) -> Option<usize> {
        self.pending
    }

    /// The plan's invariant: the bytes held are the sizes of the entries
    /// not removed, and only offered entries are removed.
    pub closed spec fn wf(&self) -> bool {
        &&& self.removed@.len() == self.sizes@.len()
        &&& self.current == kept_size(self.sizes@, self.removed@)
        &&& self.pos <= self.order@.len()
        &&& self.order@.len() == self.sizes@.len()
        &&& forall|k: int| 0 <= k < self.order@.len() ==> #[trigger] self.order@[k] < self.sizes@.len()
        &&& self.order@.no_duplicates()
        &&& forall|i: int|
            0 <= i < self.removed@.len() && #[trigger] self.removed@[i] ==> exists|k: int|
                0 <= k < self.pos && self.order@[k] == i && (self.pending != Some(i as usize))
        &&& match self.pending {
            Some(v) => self.pos > 0 && self.order@[self.pos - 1] == v && !self.removed@[v as int],
            None => true,
        }
    }

    /// Plans the eviction of entries of the given sizes and modification
    /// times against `max_bytes`: nothing when the total is within budget,
    /// else a plan over the entries oldest first.
    pub fn new(sizes: Vec<u64>, mtimes: &Vec<u64>, max_bytes: u64) -> (r: Option<Self>)
        requires
            sizes@.len() == mtimes@.len(),
            total_size(sizes@) <= u64::MAX,
        ensures
            match r {
                None => total_size(sizes@) <= max_bytes,
                Some(p) => {
                    &&& total_size(sizes@) > max_bytes
                    &&& p.wf()
                    &&& p.sizes() == sizes@
                    &&& is_eviction_order(mtimes@, p.order())
                    &&& p.position() == 0
                    &&& p.current() == total_size(sizes@)
                    &&& p.budget() == max_bytes
                    &&& p.pending() is None
                },
            },
    {
        let n = sizes.len();
        let mut total: u64 = 0;
        let mut i: usize = 0;
        while i < n
            invariant
                n == sizes@.len(),
                i <= n,
                total == total_size(sizes@.take(i as int)),
                total_size(sizes@) <= u64::MAX,
            decreases n - i,
        {
            assert(sizes@.take(i + 1).drop_last() =~= sizes@.take(i as int));
            proof {
                lemma_total_prefix(sizes@, i + 1);
            }
            total = total + sizes[i];
            i = i + 1;
        }
        assert(sizes@.take(n as int) =~= sizes@);
        if total <= max_bytes {
            return None;
        }
        let order = eviction_order(mtimes);
        let ghost removed = Seq::new(n as nat, |k: int| false);
        proof {
            lemma_kept_all(sizes@, removed);
            lemma_order_distinct(mtimes@, order@);
        }
        Some(
            EvictionPlan {
                sizes,
                order,
                pos: 0,
                current: total,
                max: max_bytes,
                removed: Ghost(removed),
                pending: None,
            },
        )
    }

    /// The next entry to remove while the cache is over budget and entries
    /// remain; `None` ends the eviction.
    pub fn next_victim(&mut self) -> (r: Option<usize>)
        requires
            old(self).wf(),
        ensures
            final(self).wf(),
            final(self).sizes() == old(self).sizes(),
            final(self).order() == old(self).order(),
            final(self).current() == old(self).current(),
            final(self).budget() == old(self).budget(),
            if old(self).position() < old(self).order().len() && old(self).current()
                > old(self).budget() {
                &&& r == Some(old(self).order()[old(self).position() as int])
                &&& final(self).position() == old(self).position() + 1
                &&& final(self).pending() == r
            } else {
                &&& r is None
                &&& final(self).position() == old(self).position()
                &&& final(self).pending() is None
            },
    {
        if self.pos >= self.order.len() || self.current <= self.max {
            self.pending = None;
            return None;
        }
        let v = self.order[self.pos];
        proof {
            assert forall|i: int|
                0 <= i < self.removed@.len() && #[trigger] self.removed@[i] implies self.order@[self.pos as int]
                != i by {
                let k = choose|k: int|
                    0 <= k < self.pos && self.order@[k] == i && (self.pending != Some(
                        i as usize,
                    ));
                assert(k != self.pos as int);
                assert(self.order@[k] != self.order@[self.pos as int]);
            }
        }
        self.pos = self.pos + 1;
        self.pending = Some(v);
        Some(v)
    }

    /// Reports that the entry offered last was removed: its size is no
    /// longer held.
    pub fn confirm_removed(&mut self)
        requires
            old(self).wf(),
            old(self).pending() is Some,
        ensures
            final(self).wf(),
            final(self).current() == old(self).current() - old(self).sizes()[old(
                self,
            ).pending()->0 as int],
            final(self).pending() is None,
            final(self).sizes() == old(self).sizes(),
            final(self).order() == old(self).order(),
            final(self).position() == old(self).position(),
            final(self).budget() == old(self).budget(),
    {
        let v = self.order[self.pos - 1];
        proof {
            lemma_kept_remove(self.sizes@, self.removed@, v as int);
        }
        self.current = self.current - self.sizes[v];
        let ghost old_removed = self.removed@;
        self.removed = Ghost(self.removed@.update(v as int, true));
        self.pending = None;
        proof {
            assert forall|i: int|
                0 <= i < self.removed@.len() && #[trigger] self.removed@[i] implies exists|k: int|
                0 <= k < self.pos && self.order@[k] == i && (self.pending != Some(i as usize)) by {
                if i == v as int {
                    let k = self.pos - 1;
                    assert(0 <= k < self.pos && self.order@[k] == i && self.pending != Some(
                        i as usize,
                    ));
                } else {
                    assert(old_removed[i]);
                    let k = choose|k: int|
                        0 <= k < old(self).pos && old(self).order@[k] == i && (old(self).pending
                            != Some(i as usize));
                    assert(0 <= k < self.pos && self.order@[k] == i && self.pending != Some(
                        i as usize,
                    ));
                }
            }
        }
    }

    /// Whether an entry offered last awaits a report.
    pub fn has_pending(&self) -> (r: bool)
        ensures
            r == self.pending() is Some,
    {
        self.pending.is_some()
    }
}

/// A whole eviction run over the entries in `order`, from `held` bytes at
/// position `pos` with the entries marked in `removed` gone: while over budget
/// and entries remain, the next entry is offered, and when its removal
/// succeeds (`ok` at its position) its size is freed and it is marked gone.
/// The result is the bytes held, the entries offered, and the marks at the end.
/// `EvictionPlan::next_victim` and `EvictionPlan::confirm_removed` carry out
/// such a run one step at a time.
pub open spec fn eviction_run(
    sizes: Seq<u64>,
    order: Seq<usize>,
    max: u64,
    held: int,
    pos: int,
    removed: Seq<bool>,
    ok: Seq<bool>,
) -> (int, int, Seq<bool>)
    decreases order.len() - pos,
{
    if pos < 0 || pos >= order.len() || pos >= ok.len() || held <= max {
        (held, pos, removed)
    } else {
        let v = order[pos] as int;
        eviction_run(
            sizes,
            order,
            max,
            if ok[pos] {
                held - sizes[v]
            } else {
                held
            },
            pos + 1,
            if ok[pos] {
                removed.update(v, true)
            } else {
                removed
            },
            ok,
        )
    }
}

proof fn lemma_eviction_run_from(
    sizes: Seq<u64>,
    order: Seq<usize>,
    max: u64,
    held: int,
    pos: int,
    removed: Seq<bool>,
    ok: Seq<bool>,
)
    requires
        order.len() == sizes.len(),
        forall|k: int| 0 <= k < order.len() ==> #[trigger] order[k] < sizes.len(),
        order.no_duplicates(),
        ok.len() >= order.len(),
        0 <= pos <= order.len(),
        removed.len() == sizes.len(),
        held == kept_size(sizes, removed),
        forall|j: int| pos <= j < order.len() ==> !removed[#[trigger] order[j] as int],
    ensures
        ({
            let (h, q, rm) = eviction_run(sizes, order, max, held, pos, removed, ok);
            &&& pos <= q <= order.len()
            &&& h <= max || q == order.len()
            &&& rm.len() == sizes.len()
            &&& h == kept_size(sizes, rm)
            &&& forall|j: int| pos <= j < q ==> rm[#[trigger] order[j] as int] == ok[j]
            &&& forall|j: int| q <= j < order.len() ==> !rm[#[trigger] order[j] as int]
            &&& forall|i: int|
                0 <= i < sizes.len() && (forall|j: int| pos <= j < q ==> #[trigger] order[j] != i)
                    ==> rm[i] == removed[i]
        }),
    decreases order.len() - pos,
{
    if pos >= order.len() || held <= max {
    } else {
        let v = order[pos] as int;
        let held2 = if ok[pos] {
            held - sizes[v]
        } else {
            held
        };
        let removed2 = if ok[pos] {
            removed.update(v, true)
        } else {
            removed
        };
        if ok[pos] {
            lemma_kept_remove(sizes, removed, v);
        }
        assert forall|j: int| pos + 1 <= j < order.len() implies !removed2[#[trigger] order[j] as int] by {
            assert(order[j] != order[pos]);
        }
        lemma_eviction_run_from(sizes, order, max, held2, pos + 1, removed2, ok);
        let (h, q, rm) = eviction_run(sizes, order, max, held2, pos + 1, removed2, ok);
        assert(rm[v] == removed2[v]) by {
            assert forall|j: int| pos + 1 <= j < q implies #[trigger] order[j] != v by {
                assert(order[j] != order[pos]);
            }
        }
        assert forall|i: int|
            0 <= i < sizes.len() && (forall|j: int| pos <= j < q ==> #[trigger] order[j] != i)
                implies rm[i] == removed[i] by {
            assert(order[pos] != i);
            assert forall|j: int| pos + 1 <= j < q implies #[trigger] order[j] != i by {}
        }
    }
}

/// A whole eviction run, oldest first from a full cache, given the outcome
/// of removing each entry: it ends within budget or after offering every
/// entry; the bytes held at the end are those of the entries not removed;
/// an offered entry is removed exactly when its removal succeeded, and no
/// entry past the last one offered is removed.
pub proof fn lemma_eviction_run(
    sizes: Seq<u64>,
    mtimes: Seq<u64>,
    order: Seq<usize>,
    max: u64,
    ok: Seq<bool>,
)
    requires
        sizes.len() == mtimes.len(),
        is_eviction_order(mtimes, order),
        ok.len() >= order.len(),
    ensures
        ({
            let (h, q, rm) = eviction_run(
                sizes,
                order,
                max,
                total_size(sizes) as int,
                0,
                Seq::new(sizes.len(), |i: int| false),
                ok,
            );
            &&& 0 <= q <= order.len()
            &&& h <= max || q == order.len()
            &&& h == kept_size(sizes, rm)
            &&& forall|j: int| 0 <= j < q ==> rm[#[trigger] order[j] as int] == ok[j]
            &&& forall|j: int| q <= j < order.len() ==> !rm[#[trigger] order[j] as int]
        }),
{
    let none = Seq::new(sizes.len(), |i: int| false);
    lemma_kept_all(sizes, none);
    lemma_order_distinct(mtimes, order);
    lemma_eviction_run_from(sizes, order, max, total_size(sizes) as int, 0, none, ok);
}

proof fn lemma_total_prefix(sizes: Seq<u64>, k: int)
    requires
        0 <= k <= sizes.len(),
    ensures
        total_size(sizes.take(k)) <= total_size(sizes),
    decreases sizes.len() - k,
{
    if k < sizes.len() {
        lemma_total_prefix(sizes, k + 1);
        assert(sizes.take(k + 1).drop_last() =~= sizes.take(k));
    } else {
        assert(sizes.take(k) =~= sizes);
    }
}

proof fn lemma_order_distinct(mtimes: Seq<u64>, order: Seq<usize>)
    requires
        is_eviction_order(mtimes, order),
    ensures
        order.no_duplicates(),
{
    assert forall|a: int, b: int|
        0 <= a < order.len() && 0 <= b < order.len() && a != b implies order[a] != order[b] by {
        if a < b {
            assert(mtimes[order[a] as int] < mtimes[order[b] as int] || order[a] < order[b]);
        } else {
            assert(mtimes[order[b] as int] < mtimes[order[a] as int] || order[b] < order[a]);
        }
    }
}

} // verus!
