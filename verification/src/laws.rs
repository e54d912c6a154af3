//! What holds of the operations of a session taken together.

use crate::diff::{flip, flip_all, lemma_diff_reverse, lemma_diff_same};
use crate::error::StoreError;
use crate::history::{
    ancestry_from, graph_wf, lemma_ancestry_from, lemma_reaches_root, log_of, reaches, CommitView,
};
use crate::models::{DiffView, MovieView};
use crate::state::{
    branch_diff_of, checked_out, checkout_outcome, commit_outcome, committed, deleted, inserted,
    lemma_advanced_wf, lemma_checked_out_wf, rerated, staged_all, working_diff_of, working_ref,
    SessionView,
};
use crate::table::{
    has_title, index_of, insert_outcome, lemma_gap_exists, lemma_insert_row, lemma_remove_row,
    lemma_replace_row, lemma_sorted_index, lemma_sorted_rows, lookup_outcome, rated, rows_map,
    sorted,
};
use vstd::prelude::*;

verus! {

/// A change to the rows of the working set.
pub enum RowOp {
    Insert(MovieView),
    Delete(Seq<char>),
    UpdateRating(Seq<char>, Option<i32>),
}

/// What a change makes of the rows, as a map: an insertion adds a row where
/// the title is free, a deletion takes the row of the title away, an update
/// replaces the rating of the row of the title; each leaves the rows as they
/// are where it does not apply.
pub open spec fn net_effect(m: Map<Seq<char>, MovieView>, op: RowOp) -> Map<Seq<char>, MovieView> {
    match op {
        RowOp::Insert(r) => if m.dom().contains(r.title) {
            m
        } else {
            m.insert(r.title, r)
        },
        RowOp::Delete(t) => m.remove(t),
        RowOp::UpdateRating(t, x) => if m.dom().contains(t) {
            m.insert(t, rated(m[t], x))
        } else {
            m
        },
    }
}

/// What a sequence of changes makes of the rows, the first change first.
pub open spec fn net_effects(m: Map<Seq<char>, MovieView>, ops: Seq<RowOp>) -> Map<
    Seq<char>,
    MovieView,
>
    decreases ops.len(),
{
    if ops.len() == 0 {
        m
    } else {
        net_effects(net_effect(m, ops[0]), ops.skip(1))
    }
}

/// The session after a call of the operation that makes the change, whether
/// the call succeeded or failed.
pub open spec fn applied(s: SessionView, op: RowOp) -> SessionView {
    match op {
        RowOp::Insert(r) => if insert_outcome(s.working, r.title) is Ok {
            inserted(s, r)
        } else {
            s
        },
        RowOp::Delete(t) => if lookup_outcome(s.working, t) is Ok {
            deleted(s, t)
        } else {
            s
        },
        RowOp::UpdateRating(t, x) => if lookup_outcome(s.working, t) is Ok {
            rerated(s, t, x)
        } else {
            s
        },
    }
}

/// The session after a sequence of such calls.
pub open spec fn applied_all(s: SessionView, ops: Seq<RowOp>) -> SessionView
    decreases ops.len(),
{
    if ops.len() == 0 {
        s
    } else {
        applied_all(applied(s, ops[0]), ops.skip(1))
    }
}

/// One change to the rows keeps the invariant, changes nothing but the rows
/// of the working set, and leaves rows that form the net effect of the
/// change.
pub proof fn lemma_applied(s: SessionView, op: RowOp)
    requires
        s.wf(),
        s.working.created,
    ensures
        applied(s, op).wf(),
        applied(s, op).working.map() == net_effect(s.working.map(), op),
        applied(s, op) == (SessionView { working: applied(s, op).working, ..s }),
        applied(s, op).working.created,
{
    let rows = s.working.rows;
    match op {
        RowOp::Insert(r) => {
            if !has_title(rows, r.title) {
                let p = lemma_gap_exists(rows, r.title);
                lemma_insert_row(rows, p, r);
                lemma_sorted_rows(rows.insert(p, r));
            }
        },
        RowOp::Delete(t) => {
            if has_title(rows, t) {
                let p = index_of(rows, t);
                lemma_remove_row(rows, p);
                lemma_sorted_rows(rows.remove(p));
            } else {
                assert(rows_map(rows).remove(t) =~= rows_map(rows));
            }
        },
        RowOp::UpdateRating(t, x) => {
            if has_title(rows, t) {
                let p = index_of(rows, t);
                lemma_sorted_index(rows, p);
                let now = rated(rows[p], x);
                lemma_replace_row(rows, p, now);
                lemma_sorted_rows(rows.update(p, now));
            }
        },
    }
}

/// After any sequence of insertions, deletions and updates of ratings, the
/// rows of the working set are sorted and form exactly the net effect of the
/// sequence; the staging area, the commits and the branches are as before.
pub proof fn lemma_rows_reflect_net_effect(s: SessionView, ops: Seq<RowOp>)
    requires
        s.wf(),
        s.working.created,
    ensures
        applied_all(s, ops).wf(),
        applied_all(s, ops).working.map() == net_effects(s.working.map(), ops),
        applied_all(s, ops) == (SessionView { working: applied_all(s, ops).working, ..s }),
    decreases ops.len(),
{
    if ops.len() > 0 {
        lemma_applied(s, ops[0]);
        lemma_rows_reflect_net_effect(applied(s, ops[0]), ops.skip(1));
    }
}

/// A row that is inserted and then deleted is absent: the session is as it
/// was before the two calls.
pub proof fn lemma_insert_then_delete(s: SessionView, m: MovieView)
    requires
        s.wf(),
        insert_outcome(s.working, m.title) is Ok,
    ensures
        lookup_outcome(inserted(s, m).working, m.title) is Ok,
        !has_title(deleted(inserted(s, m), m.title).working.rows, m.title),
        deleted(inserted(s, m), m.title) == s,
{
    let i = inserted(s, m);
    lemma_applied(s, RowOp::Insert(m));
    lemma_applied(i, RowOp::Delete(m.title));
    let d = deleted(i, m.title);
    assert(d.working.map() =~= s.working.map());
    lemma_sorted_rows(s.working.rows);
    lemma_sorted_rows(d.working.rows);
}

/// Staging twice is staging once.
pub proof fn lemma_stage_idempotent(s: SessionView)
    ensures
        staged_all(staged_all(s)) == staged_all(s),
{
}

/// A commit keeps the invariant, and a commit that follows it at once, with
/// nothing staged in between, fails with `NothingToCommit`.
pub proof fn lemma_commit_twice(s: SessionView, message: Seq<char>)
    requires
        s.wf(),
    ensures
        committed(s, message).wf(),
        commit_outcome(committed(s, message)) == Err::<(), StoreError>(StoreError::NothingToCommit),
{
    lemma_advanced_wf(s, message, None, s.staged);
}

/// The same of a commit that follows staging: after `stage_all` and a
/// commit, a second commit fails with `NothingToCommit`.
pub proof fn lemma_stage_commit_commit(s: SessionView, message: Seq<char>)
    requires
        s.wf(),
        commit_outcome(staged_all(s)) is Ok,
    ensures
        commit_outcome(committed(staged_all(s), message)) == Err::<(), StoreError>(
            StoreError::NothingToCommit,
        ),
{
    lemma_commit_twice(staged_all(s), message);
}

/// Right after a checkout the working set does not differ from the last
/// commit: the working diff is empty, and nothing is staged.
pub proof fn lemma_checkout_clean(s: SessionView, name: Seq<char>)
    requires
        s.wf(),
        checkout_outcome(s, name) is Ok,
    ensures
        checked_out(s, name).wf(),
        working_diff_of(checked_out(s, name)) == Seq::<DiffView>::empty(),
        commit_outcome(checked_out(s, name)) == Err::<(), StoreError>(StoreError::NothingToCommit),
{
    lemma_checked_out_wf(s, name);
    let c = checked_out(s, name);
    assert(c.head() == s.tip(name));
    lemma_diff_same(c.working.rows, c.commits[c.head()].info.commit_hash, working_ref());
}

/// The log of a commit holds one entry for each commit of its ancestry and
/// none for any other commit, the latest first: it begins with the commit
/// itself and ends with the first commit of the repository.
pub proof fn lemma_log_is_ancestry(c: Seq<CommitView>, head: int)
    requires
        graph_wf(c),
        0 <= head < c.len(),
    ensures
        log_of(c, head).len() == ancestry_from(c, head, 0).len(),
        forall|i: int|
            0 <= i < log_of(c, head).len() ==> reaches(c, head, ancestry_from(c, head, 0)[i])
                && #[trigger] log_of(c, head)[i] == c[ancestry_from(c, head, 0)[i]].info,
        forall|k: int| reaches(c, head, k) ==> #[trigger] ancestry_from(c, head, 0).contains(k),
        forall|i: int, j: int|
            0 <= i < j < log_of(c, head).len() ==> (#[trigger] ancestry_from(c, head, 0)[i]) > (
            #[trigger] ancestry_from(c, head, 0)[j]),
        log_of(c, head).len() > 0,
        log_of(c, head).first() == c[head].info,
        log_of(c, head).last() == c[0].info,
{
    let places = ancestry_from(c, head, 0);
    lemma_ancestry_from(c, head, 0);
    lemma_reaches_root(c, head);
    assert(reaches(c, head, head));
    assert(places.contains(head));
    assert(places.contains(0));
    let a = choose|i: int| 0 <= i < places.len() && places[i] == head;
    let z = choose|i: int| 0 <= i < places.len() && places[i] == 0;
    if a > 0 {
        assert(places[0] > places[a]);
    }
    if z < places.len() - 1 {
        assert(places[z] > places[places.len() - 1]);
    }
}

/// The diff from branch `b` to branch `a` is the diff from `a` to `b` read
/// in the other direction: it has as many records, every `added` record of
/// the one is a `removed` record of the other with its two sides exchanged,
/// and every `modified` record has its two sides exchanged.
pub proof fn lemma_branch_diff_reverse(s: SessionView, a: Seq<char>, b: Seq<char>)
    ensures
        branch_diff_of(s, b, a) == flip_all(branch_diff_of(s, a, b)),
        branch_diff_of(s, b, a).len() == branch_diff_of(s, a, b).len(),
        forall|k: int|
            0 <= k < branch_diff_of(s, a, b).len() ==> #[trigger] branch_diff_of(s, b, a)[k]
                == flip(branch_diff_of(s, a, b)[k]),
{
    lemma_diff_reverse(
        s.commits[s.tip(a)].table.rows,
        s.commits[s.tip(b)].table.rows,
        s.commits[s.tip(a)].info.commit_hash,
        s.commits[s.tip(b)].info.commit_hash,
    );
}

} // verus!
