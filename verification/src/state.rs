//! The state of a session as mathematical values, and what each operation
//! makes of it.

use crate::diff::diff_rows;
use crate::error::StoreError;
use crate::history::{graph_wf, merge_base_of, node_wf, CommitView};
use crate::merge::{conflicts, merged_map};
use crate::models::{DiffView, LogView, MovieView};
use crate::table::{rated, sorted_rows, TableView};
use crate::text::decimal;
use vstd::prelude::*;

verus! {

/// What a branch is: a name, and the place of the commit that it points at.
pub struct BranchView {
    pub name: Seq<char>,
    pub head: int,
}

/// What a session is: who commits and when, the commits made so far, the
/// branches, the place of the active branch, and the working set and the
/// staging area of the active branch.
pub struct SessionView {
    pub committer: Seq<char>,
    pub email: Seq<char>,
    pub date: Seq<char>,
    pub commits: Seq<CommitView>,
    pub branches: Seq<BranchView>,
    pub active: int,
    pub working: TableView,
    pub staged: TableView,
}

impl SessionView {
    /// The place of the commit that the active branch points at.
    pub open spec fn head(self) -> int {
        self.branches[self.active].head
    }

    /// The table as the last commit of the active branch recorded it.
    pub open spec fn head_table(self) -> TableView {
        self.commits[self.head()].table
    }

    /// Some branch has this name.
    pub open spec fn has_branch(self, name: Seq<char>) -> bool {
        exists|i: int| 0 <= i < self.branches.len() && (#[trigger] self.branches[i]).name == name
    }

    /// The place of the branch with this name, where there is one.
    pub open spec fn branch_index(self, name: Seq<char>) -> int {
        choose|i: int| 0 <= i < self.branches.len() && (#[trigger] self.branches[i]).name == name
    }

    /// The place of the commit that the branch with this name points at.
    pub open spec fn tip(self, name: Seq<char>) -> int {
        self.branches[self.branch_index(name)].head
    }

    /// The working set or the staging area holds a change that no commit has.
    pub open spec fn dirty(self) -> bool {
        self.working != self.head_table() || self.staged != self.head_table()
    }

    /// The invariant of a session.
    pub open spec fn wf(self) -> bool {
        &&& graph_wf(self.commits)
        &&& forall|i: int|
            0 <= i < self.branches.len() ==> 0 <= (#[trigger] self.branches[i]).head
                < self.commits.len()
        &&& forall|i: int, j: int|
            0 <= i < j < self.branches.len() ==> (#[trigger] self.branches[i]).name != (
            #[trigger] self.branches[j]).name
        &&& 0 <= self.active < self.branches.len()
        &&& self.working.wf()
        &&& self.staged.wf()
        &&& self.head_table().created ==> self.staged.created
        &&& self.staged.created ==> self.working.created
    }
}

/// In a session that keeps its invariant a branch name is found at one place.
pub proof fn lemma_branch_index(s: SessionView, i: int)
    requires
        s.wf(),
        0 <= i < s.branches.len(),
    ensures
        s.has_branch(s.branches[i].name),
        s.branch_index(s.branches[i].name) == i,
        s.tip(s.branches[i].name) == s.branches[i].head,
{
    let j = s.branch_index(s.branches[i].name);
    if j < i {
        assert(s.branches[j].name != s.branches[i].name);
    } else if i < j {
        assert(s.branches[i].name != s.branches[j].name);
    }
}

/// The message of the first commit of a repository.
pub open spec fn root_message() -> Seq<char> {
    "Initialize data repository"@
}

/// The name of the branch that a new repository has.
pub open spec fn main_branch() -> Seq<char> {
    "main"@
}

/// The name under which diff records refer to the working set.
pub open spec fn working_ref() -> Seq<char> {
    "WORKING"@
}

/// The name of the table.
pub open spec fn table_name() -> Seq<char> {
    "movies"@
}

/// The log entry of a commit made at place `n` of the session `s`.
pub open spec fn entry(s: SessionView, n: int, message: Seq<char>) -> LogView {
    LogView {
        commit_hash: decimal(n as nat),
        committer: s.committer,
        email: s.email,
        date: s.date,
        message,
    }
}

/// The state of a new repository: one commit, which has no table, and the
/// branch `main`, which points at it.
pub open spec fn initial(committer: Seq<char>, email: Seq<char>, date: Seq<char>) -> SessionView {
    let empty = TableView { created: false, rows: Seq::empty() };
    SessionView {
        committer,
        email,
        date,
        commits: seq![
            CommitView {
                info: LogView {
                    commit_hash: decimal(0),
                    committer,
                    email,
                    date,
                    message: root_message(),
                },
                parent: None,
                merged: None,
                table: empty,
            },
        ],
        branches: seq![BranchView { name: main_branch(), head: 0 }],
        active: 0,
        working: empty,
        staged: empty,
    }
}

/// The session with another date for the commits to come.
pub open spec fn dated(s: SessionView, date: Seq<char>) -> SessionView {
    SessionView { date, ..s }
}

/// The session with the rows of the working set replaced by those that form
/// the map `m`.
pub open spec fn with_rows(s: SessionView, m: Map<Seq<char>, MovieView>) -> SessionView {
    SessionView {
        working: TableView { created: s.working.created, rows: sorted_rows(m) },
        ..s
    }
}

/// What the creation of the table answers.
pub open spec fn create_outcome(s: SessionView) -> Result<(), StoreError> {
    if s.working.created {
        Err(StoreError::QueryFailure)
    } else {
        Ok(())
    }
}

/// The session after the table was created in the working set.
pub open spec fn created(s: SessionView) -> SessionView {
    SessionView { working: TableView { created: true, rows: s.working.rows }, ..s }
}

/// The session after the row `m` was inserted into the working set.
pub open spec fn inserted(s: SessionView, m: MovieView) -> SessionView {
    with_rows(s, s.working.map().insert(m.title, m))
}

/// The session after the row with title `t` was deleted from the working set.
pub open spec fn deleted(s: SessionView, t: Seq<char>) -> SessionView {
    with_rows(s, s.working.map().remove(t))
}

/// The session after the row with title `t` was given the rating `r`.
pub open spec fn rerated(s: SessionView, t: Seq<char>, r: Option<i32>) -> SessionView {
    with_rows(s, s.working.map().insert(t, rated(s.working.map()[t], r)))
}

/// A scope that staging accepts: the whole store, or the table by its name.
pub open spec fn scope_ok(scope: Seq<char>) -> bool {
    scope == "."@ || scope == table_name()
}

/// What staging under `scope` answers.
pub open spec fn stage_outcome(scope: Seq<char>) -> Result<(), StoreError> {
    if scope_ok(scope) {
        Ok(())
    } else {
        Err(StoreError::QueryFailure)
    }
}

/// The session after all changes of the working set were staged.
pub open spec fn staged_all(s: SessionView) -> SessionView {
    SessionView { staged: s.working, ..s }
}

/// What a commit answers.
pub open spec fn commit_outcome(s: SessionView) -> Result<(), StoreError> {
    if s.staged == s.head_table() {
        Err(StoreError::NothingToCommit)
    } else {
        Ok(())
    }
}

/// The session after a commit to the active branch, which records the table
/// `table` and has `merged` as its second parent.
pub open spec fn advanced(
    s: SessionView,
    message: Seq<char>,
    merged: Option<int>,
    table: TableView,
) -> SessionView {
    let n = s.commits.len() as int;
    SessionView {
        commits: s.commits.push(
            CommitView { info: entry(s, n, message), parent: Some(s.head()), merged, table },
        ),
        branches: s.branches.update(
            s.active,
            BranchView { name: s.branches[s.active].name, head: n },
        ),
        ..s
    }
}

/// The session after the staged changes were committed: a new commit
/// records the staging area, and the active branch points at it.
pub open spec fn committed(s: SessionView, message: Seq<char>) -> SessionView {
    advanced(s, message, None, s.staged)
}

/// What the creation of a branch answers.
pub open spec fn branch_outcome(s: SessionView, name: Seq<char>) -> Result<(), StoreError> {
    if s.has_branch(name) {
        Err(StoreError::BranchExists)
    } else {
        Ok(())
    }
}

/// The session after a branch was created: it points at the commit that the
/// active branch points at.
pub open spec fn branched(s: SessionView, name: Seq<char>) -> SessionView {
    SessionView { branches: s.branches.push(BranchView { name, head: s.head() }), ..s }
}

/// What a checkout answers.
pub open spec fn checkout_outcome(s: SessionView, name: Seq<char>) -> Result<(), StoreError> {
    if !s.has_branch(name) {
        Err(StoreError::BranchNotFound)
    } else if s.dirty() {
        Err(StoreError::DirtyCheckout)
    } else {
        Ok(())
    }
}

/// The session after a checkout: the named branch is active, and the working
/// set and the staging area are as its last commit recorded the table.
pub open spec fn checked_out(s: SessionView, name: Seq<char>) -> SessionView {
    let table = s.commits[s.tip(name)].table;
    SessionView { active: s.branch_index(name), working: table, staged: table, ..s }
}

/// The place of the commit from which the active branch and the branch
/// `source` both grew.
pub open spec fn base_of(s: SessionView, source: Seq<char>) -> int {
    merge_base_of(s.commits, s.head(), s.tip(source))
}

/// Some row was changed in different ways on the active branch and on the
/// branch `source` since their common base.
pub open spec fn merge_conflicts(s: SessionView, source: Seq<char>) -> bool {
    conflicts(
        s.commits[base_of(s, source)].table.rows,
        s.head_table().rows,
        s.commits[s.tip(source)].table.rows,
    )
}

/// What a merge answers.
pub open spec fn merge_outcome(s: SessionView, source: Seq<char>) -> Result<(), StoreError> {
    if !s.has_branch(source) {
        Err(StoreError::BranchNotFound)
    } else if s.dirty() {
        Err(StoreError::DirtyCheckout)
    } else if merge_conflicts(s, source) {
        Err(StoreError::MergeConflict)
    } else {
        Ok(())
    }
}

/// The table that a merge of the branch `source` into the active branch
/// gives.
pub open spec fn merged_table(s: SessionView, source: Seq<char>) -> TableView {
    let theirs = s.commits[s.tip(source)].table;
    TableView {
        created: s.head_table().created || theirs.created,
        rows: sorted_rows(
            merged_map(s.commits[base_of(s, source)].table.rows, s.head_table().rows, theirs.rows),
        ),
    }
}

/// The message of the commit that a merge makes.
pub open spec fn merge_message(source: Seq<char>, target: Seq<char>) -> Seq<char> {
    "Merge branch '"@ + source + "' into "@ + target
}

/// The session after the branch `source` was merged into the active branch:
/// a new commit with both branches' commits as parents records the merged
/// table, the active branch points at it, and the working set and the
/// staging area hold the merged table.
pub open spec fn merged(s: SessionView, source: Seq<char>) -> SessionView {
    let table = merged_table(s, source);
    let next = advanced(
        s,
        merge_message(source, s.branches[s.active].name),
        Some(s.tip(source)),
        table,
    );
    SessionView { working: table, staged: table, ..next }
}

/// The differences between the last commit of the active branch and the
/// working set.
pub open spec fn working_diff_of(s: SessionView) -> Seq<DiffView> {
    diff_rows(
        s.head_table().rows,
        s.working.rows,
        s.commits[s.head()].info.commit_hash,
        working_ref(),
    )
}

/// The differences between the last commits of the branches `from` and `to`.
pub open spec fn branch_diff_of(s: SessionView, from: Seq<char>, to: Seq<char>) -> Seq<DiffView> {
    diff_rows(
        s.commits[s.tip(from)].table.rows,
        s.commits[s.tip(to)].table.rows,
        s.commits[s.tip(from)].info.commit_hash,
        s.commits[s.tip(to)].info.commit_hash,
    )
}

/// A commit to the active branch keeps the invariant, where the table that
/// it records is sorted and keeps the tables of both parents.
pub proof fn lemma_advanced_wf(
    s: SessionView,
    message: Seq<char>,
    merged: Option<int>,
    table: TableView,
)
    requires
        s.wf(),
        table.wf(),
        s.head_table().created ==> table.created,
        merged matches Some(q) ==> 0 <= q < s.commits.len() && (s.commits[q].table.created
            ==> table.created),
    ensures
        graph_wf(advanced(s, message, merged, table).commits),
        advanced(s, message, merged, table).head() == s.commits.len(),
        advanced(s, message, merged, table).head_table() == table,
        (SessionView { working: table, staged: table, ..advanced(s, message, merged, table) }).wf(),
        table == s.staged ==> advanced(s, message, merged, table).wf(),
{
    let a = advanced(s, message, merged, table);
    let n = s.commits.len() as int;
    assert forall|i: int| 0 <= i < a.commits.len() implies #[trigger] node_wf(a.commits, i) by {
        if i < n {
            assert(node_wf(s.commits, i));
            assert(a.commits[i] == s.commits[i]);
        }
    }
    assert forall|i: int| 0 <= i < a.branches.len() implies 0 <= (#[trigger] a.branches[i]).head
        < a.commits.len() by {
        if i != s.active {
            assert(a.branches[i] == s.branches[i]);
        }
    }
    assert forall|i: int, j: int| 0 <= i < j < a.branches.len() implies (
    #[trigger] a.branches[i]).name != (#[trigger] a.branches[j]).name by {
        assert(a.branches[i].name == s.branches[i].name);
        assert(a.branches[j].name == s.branches[j].name);
    }
}

/// A new branch keeps the invariant.
pub proof fn lemma_branched_wf(s: SessionView, name: Seq<char>)
    requires
        s.wf(),
        !s.has_branch(name),
    ensures
        branched(s, name).wf(),
{
    let b = branched(s, name);
    let n = s.branches.len() as int;
    assert forall|i: int| 0 <= i < b.branches.len() implies 0 <= (#[trigger] b.branches[i]).head
        < b.commits.len() by {
        if i < n {
            assert(b.branches[i] == s.branches[i]);
        }
    }
    assert forall|i: int, j: int| 0 <= i < j < b.branches.len() implies (
    #[trigger] b.branches[i]).name != (#[trigger] b.branches[j]).name by {
        assert(b.branches[i] == s.branches[i]);
        if j < n {
            assert(b.branches[j] == s.branches[j]);
        }
    }
}

/// A checkout keeps the invariant.
pub proof fn lemma_checked_out_wf(s: SessionView, name: Seq<char>)
    requires
        s.wf(),
        s.has_branch(name),
    ensures
        checked_out(s, name).wf(),
        !checked_out(s, name).dirty(),
{
    let i = s.branch_index(name);
    assert(0 <= s.branches[i].head < s.commits.len());
    assert(node_wf(s.commits, s.branches[i].head));
}

} // verus!
