//! The commits of a repository: a graph in which every commit but the first
//! has a parent, and a commit that a merge made has a second one.

use crate::models::{DoltLog, LogView};
use crate::table::{Table, TableView};
use crate::text::decimal;
use vstd::prelude::*;

verus! {

/// What a commit is, as mathematical values: its log entry, the places of its
/// parents among the commits, and the state of the table that it recorded.
pub struct CommitView {
    pub info: LogView,
    pub parent: Option<int>,
    pub merged: Option<int>,
    pub table: TableView,
}

/// The view of a place that may be absent.
pub open spec fn place_view(o: Option<usize>) -> Option<int> {
    match o {
        Some(i) => Some(i as int),
        None => None,
    }
}

/// An immutable snapshot of the table, with the entry that the log shows for
/// it.
#[derive(Debug)]
pub struct Commit {
    info: DoltLog,
    parent: Option<usize>,
    merged: Option<usize>,
    table: Table,
}

impl View for Commit {
    type V = CommitView;

    closed spec fn view(&self) -> CommitView {
        CommitView {
            info: self.info@,
            parent: place_view(self.parent),
            merged: place_view(self.merged),
            table: self.table@,
        }
    }
}

impl Commit {
    /// A commit with the given entry, parents and snapshot.
    pub fn new(info: DoltLog, parent: Option<usize>, merged: Option<usize>, table: Table) -> (c:
        Commit)
        ensures
            c@ == (CommitView {
                info: info@,
                parent: place_view(parent),
                merged: place_view(merged),
                table: table@,
            }),
    {
        Commit { info, parent, merged, table }
    }

    /// The entry that the log shows for this commit.
    pub fn info(&self) -> (r: &DoltLog)
        ensures
            r@ == self@.info,
    {
        &self.info
    }

    /// The place of the first parent.
    pub fn parent(&self) -> (r: Option<usize>)
        ensures
            place_view(r) == self@.parent,
    {
        self.parent
    }

    /// The place of the parent that a merge added.
    pub fn merged(&self) -> (r: Option<usize>)
        ensures
            place_view(r) == self@.merged,
    {
        self.merged
    }

    /// The state of the table that this commit recorded.
    pub fn table(&self) -> (r: &Table)
        ensures
            r@ == self@.table,
    {
        &self.table
    }
}

/// The views of a sequence of commits.
pub open spec fn commit_views(v: Seq<Commit>) -> Seq<CommitView> {
    Seq::new(v.len(), |i: int| v[i]@)
}

/// Commit `j` has commit `k` as one of its parents.
pub open spec fn is_parent(c: Seq<CommitView>, j: int, k: int) -> bool {
    c[j].parent == Some(k) || c[j].merged == Some(k)
}

/// Commit `i` is as the graph wants it: a sorted snapshot, its place as its
/// hash, and parents that were made before it. A table that a parent has
/// is not lost in the commit.
pub open spec fn node_wf(c: Seq<CommitView>, i: int) -> bool {
    &&& c[i].table.wf()
    &&& c[i].info.commit_hash == decimal(i as nat)
    &&& i == 0 ==> c[i].parent is None && c[i].merged is None
    &&& i > 0 ==> c[i].parent is Some
    &&& c[i].parent matches Some(p) ==> 0 <= p < i && (c[p].table.created ==> c[i].table.created)
    &&& c[i].merged matches Some(q) ==> 0 <= q < i && (c[q].table.created ==> c[i].table.created)
}

/// The commits form a graph with one root, the first commit.
pub open spec fn graph_wf(c: Seq<CommitView>) -> bool {
    &&& c.len() > 0
    &&& forall|i: int| 0 <= i < c.len() ==> #[trigger] node_wf(c, i)
}

/// Commit `k` belongs to the ancestry of commit `from`: it is `from` itself
/// or belongs to the ancestry of one of its parents.
pub open spec fn reaches(c: Seq<CommitView>, from: int, k: int) -> bool
    decreases from,
{
    &&& 0 <= k <= from < c.len()
    &&& {
        ||| from == k
        ||| (c[from].parent matches Some(p) && 0 <= p < from && reaches(c, p, k))
        ||| (c[from].merged matches Some(q) && 0 <= q < from && reaches(c, q, k))
    }
}

/// The ancestry is closed under taking a parent.
pub proof fn lemma_reaches_parent(c: Seq<CommitView>, from: int, j: int, k: int)
    requires
        graph_wf(c),
        reaches(c, from, j),
        is_parent(c, j, k),
    ensures
        reaches(c, from, k),
    decreases from,
{
    assert(node_wf(c, j));
    if from == j {
        assert(reaches(c, k, k));
    } else {
        if c[from].parent matches Some(p) && 0 <= p < from && reaches(c, p, j) {
            lemma_reaches_parent(c, c[from].parent->0, j, k);
        } else {
            let q = c[from].merged->0;
            lemma_reaches_parent(c, q, j, k);
        }
    }
}

/// A commit of the ancestry other than its head is the parent of a later
/// commit of the ancestry.
pub proof fn lemma_reaches_child(c: Seq<CommitView>, from: int, k: int) -> (j: int)
    requires
        graph_wf(c),
        reaches(c, from, k),
        k != from,
    ensures
        k < j <= from,
        reaches(c, from, j),
        is_parent(c, j, k),
    decreases from,
{
    assert(node_wf(c, from));
    if c[from].parent matches Some(p) && 0 <= p < from && reaches(c, p, k) {
        let p = c[from].parent->0;
        if p == k {
            from
        } else {
            let j = lemma_reaches_child(c, p, k);
            j
        }
    } else {
        let q = c[from].merged->0;
        if q == k {
            from
        } else {
            let j = lemma_reaches_child(c, q, k);
            j
        }
    }
}

/// A table that a commit of the ancestry has, the head of the ancestry has
/// too.
pub proof fn lemma_created_kept(c: Seq<CommitView>, from: int, k: int)
    requires
        graph_wf(c),
        reaches(c, from, k),
        c[k].table.created,
    ensures
        c[from].table.created,
    decreases from,
{
    assert(node_wf(c, from));
    if from != k {
        if c[from].parent matches Some(p) && 0 <= p < from && reaches(c, p, k) {
            lemma_created_kept(c, c[from].parent->0, k);
        } else {
            lemma_created_kept(c, c[from].merged->0, k);
        }
    }
}

/// The first commit belongs to every ancestry.
pub proof fn lemma_reaches_root(c: Seq<CommitView>, from: int)
    requires
        graph_wf(c),
        0 <= from < c.len(),
    ensures
        reaches(c, from, 0),
    decreases from,
{
    assert(node_wf(c, from));
    if from > 0 {
        lemma_reaches_root(c, c[from].parent->0);
    }
}

/// Marks the ancestry of the commit at `head`: the answer has an entry for
/// each commit up to `head`, which says whether it belongs to the ancestry.
pub fn ancestry(commits: &Vec<Commit>, head: usize) -> (marks: Vec<bool>)
    requires
        graph_wf(commit_views(commits@)),
        head < commits.len(),
    ensures
        marks.len() == head + 1,
        forall|k: int| 0 <= k <= head ==> #[trigger] marks[k] == reaches(
            commit_views(commits@),
            head as int,
            k,
        ),
{
    let ghost c = commit_views(commits@);
    let mut marks: Vec<bool> = Vec::new();
    let mut n: usize = 0;
    while n < head
        invariant
            n <= head,
            marks.len() == n,
            forall|k: int| 0 <= k < n ==> !(#[trigger] marks[k]),
        decreases head - n,
    {
        marks.push(false);
        n += 1;
    }
    marks.push(true);
    let mut i: usize = head + 1;
    while i > 0
        invariant
            c == commit_views(commits@),
            graph_wf(c),
            head < commits.len(),
            i <= head + 1,
            marks.len() == head + 1,
            marks[head as int],
            forall|k: int| 0 <= k <= head && #[trigger] marks[k] ==> reaches(c, head as int, k),
            forall|j: int, k: int|
                i <= j <= head && reaches(c, head as int, j) && #[trigger] is_parent(c, j, k)
                    ==> 0 <= k <= head && marks[k],
        decreases i,
    {
        i -= 1;
        let node = &commits[i];
        assert(node@ == c[i as int]);
        assert(node_wf(c, i as int));
        proof {
            if reaches(c, head as int, i as int) && i != head {
                let j = lemma_reaches_child(c, head as int, i as int);
                assert(is_parent(c, j, i as int));
            }
        }
        if marks[i] {
            let ghost before = marks@;
            if let Some(p) = node.parent() {
                proof {
                    lemma_reaches_parent(c, head as int, i as int, p as int);
                }
                marks.set(p, true);
            }
            if let Some(q) = node.merged() {
                proof {
                    lemma_reaches_parent(c, head as int, i as int, q as int);
                }
                marks.set(q, true);
            }
            assert(forall|k: int| 0 <= k <= head && before[k] ==> #[trigger] marks[k]);
        }
    }
    proof {
        assert forall|k: int| 0 <= k <= head implies #[trigger] marks[k] == reaches(
            c,
            head as int,
            k,
        ) by {
            if reaches(c, head as int, k) && k != head {
                let j = lemma_reaches_child(c, head as int, k);
                assert(is_parent(c, j, k));
            }
        }
    }
    marks
}

/// The places of the commits of the ancestry of `head` that stand at `lo` or
/// later, the latest first.
pub open spec fn ancestry_from(c: Seq<CommitView>, head: int, lo: int) -> Seq<int>
    decreases head - lo + 1,
{
    if lo > head || lo < 0 {
        Seq::empty()
    } else if reaches(c, head, lo) {
        ancestry_from(c, head, lo + 1).push(lo)
    } else {
        ancestry_from(c, head, lo + 1)
    }
}

/// The log entries of the commits at the given places.
pub open spec fn entries_at(c: Seq<CommitView>, places: Seq<int>) -> Seq<LogView> {
    Seq::new(places.len(), |i: int| c[places[i]].info)
}

/// The log of the commit at `head`: the entries of its ancestry, the latest
/// first.
pub open spec fn log_of(c: Seq<CommitView>, head: int) -> Seq<LogView> {
    entries_at(c, ancestry_from(c, head, 0))
}

/// The views of a sequence of log entries.
pub open spec fn log_views(v: Seq<DoltLog>) -> Seq<LogView> {
    Seq::new(v.len(), |i: int| v[i]@)
}

/// The places that `ancestry_from` lists are those of the ancestry from `lo`
/// on, each once, in descending order.
pub proof fn lemma_ancestry_from(c: Seq<CommitView>, head: int, lo: int)
    requires
        0 <= lo,
    ensures
        forall|i: int|
            0 <= i < ancestry_from(c, head, lo).len() ==> lo <= (#[trigger] ancestry_from(
                c,
                head,
                lo,
            )[i]) <= head && reaches(c, head, ancestry_from(c, head, lo)[i]),
        forall|k: int|
            lo <= k <= head && reaches(c, head, k) ==> #[trigger] ancestry_from(
                c,
                head,
                lo,
            ).contains(k),
        forall|i: int, j: int|
            0 <= i < j < ancestry_from(c, head, lo).len() ==> (#[trigger] ancestry_from(
                c,
                head,
                lo,
            )[i]) > (#[trigger] ancestry_from(c, head, lo)[j]),
    decreases head - lo + 1,
{
    if lo <= head {
        lemma_ancestry_from(c, head, lo + 1);
        let rest = ancestry_from(c, head, lo + 1);
        let all = ancestry_from(c, head, lo);
        assert forall|k: int| lo <= k <= head && reaches(c, head, k) implies #[trigger] all.contains(
            k,
        ) by {
            if k == lo {
                assert(all[all.len() - 1] == k);
            } else {
                assert(rest.contains(k));
                let i = choose|i: int| 0 <= i < rest.len() && rest[i] == k;
                assert(all[i] == k);
            }
        }
    }
}

/// The log of the commit at `head`: the entries of its ancestry, the latest
/// first.
pub fn log_entries(commits: &Vec<Commit>, head: usize) -> (out: Vec<DoltLog>)
    requires
        graph_wf(commit_views(commits@)),
        head < commits.len(),
    ensures
        log_views(out@) == log_of(commit_views(commits@), head as int),
{
    let ghost c = commit_views(commits@);
    let marks = ancestry(commits, head);
    let mut out: Vec<DoltLog> = Vec::new();
    let mut i: usize = head + 1;
    proof {
        assert(log_views(out@) =~= entries_at(c, ancestry_from(c, head as int, i as int)));
    }
    while i > 0
        invariant
            c == commit_views(commits@),
            head < commits.len(),
            i <= head + 1,
            marks.len() == head + 1,
            forall|k: int| 0 <= k <= head ==> #[trigger] marks[k] == reaches(c, head as int, k),
            log_views(out@) == entries_at(c, ancestry_from(c, head as int, i as int)),
        decreases i,
    {
        i -= 1;
        if marks[i] {
            let ghost before = log_views(out@);
            let node = &commits[i];
            assert(node@ == c[i as int]);
            out.push(node.info().duplicate());
            proof {
                let later = ancestry_from(c, head as int, i + 1);
                let places = ancestry_from(c, head as int, i as int);
                assert(places == later.push(i as int));
                assert(log_views(out@) =~= before.push(c[i as int].info));
                assert(entries_at(c, places) =~= entries_at(c, later).push(c[i as int].info));
            }
        }
    }
    out
}

/// Commit `k` is the latest commit that the ancestries of `a` and `b` share.
pub open spec fn is_merge_base(c: Seq<CommitView>, a: int, b: int, k: int) -> bool {
    &&& reaches(c, a, k)
    &&& reaches(c, b, k)
    &&& forall|j: int| reaches(c, a, j) && #[trigger] reaches(c, b, j) ==> j <= k
}

/// The place of the latest commit that the ancestries of `a` and `b` share.
pub open spec fn merge_base_of(c: Seq<CommitView>, a: int, b: int) -> int {
    choose|k: int| is_merge_base(c, a, b, k)
}

/// Finds the latest commit that the ancestries of `a` and `b` share.
pub fn merge_base(commits: &Vec<Commit>, a: usize, b: usize) -> (k: usize)
    requires
        graph_wf(commit_views(commits@)),
        a < commits.len(),
        b < commits.len(),
    ensures
        is_merge_base(commit_views(commits@), a as int, b as int, k as int),
        k as int == merge_base_of(commit_views(commits@), a as int, b as int),
        k < commits.len(),
{
    let ghost c = commit_views(commits@);
    let of_a = ancestry(commits, a);
    let of_b = ancestry(commits, b);
    let mut i: usize = if a < b {
        a
    } else {
        b
    };
    proof {
        lemma_reaches_root(c, a as int);
        lemma_reaches_root(c, b as int);
    }
    while i > 0 && !(of_a[i] && of_b[i])
        invariant
            i <= a,
            i <= b,
            a < commits.len(),
            b < commits.len(),
            of_a.len() == a + 1,
            of_b.len() == b + 1,
            forall|k: int| 0 <= k <= a ==> #[trigger] of_a[k] == reaches(c, a as int, k),
            forall|k: int| 0 <= k <= b ==> #[trigger] of_b[k] == reaches(c, b as int, k),
            forall|j: int| reaches(c, a as int, j) && #[trigger] reaches(c, b as int, j) ==> j <= i,
            reaches(c, a as int, 0),
            reaches(c, b as int, 0),
        decreases i,
    {
        i -= 1;
    }
    proof {
        assert(is_merge_base(c, a as int, b as int, i as int));
        let m = merge_base_of(c, a as int, b as int);
        assert(is_merge_base(c, a as int, b as int, m));
    }
    i
}

} // verus!
