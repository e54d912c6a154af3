//! A session on a repository that holds the table `movies`: the row store,
//! the version control operations and the readers of history and diffs.

use crate::diff::{classifies, diff_tables, diff_views};
use crate::error::StoreError;
use crate::history::{
    commit_views, lemma_created_kept, log_entries, log_of, log_views, merge_base, node_wf,
    place_view, Commit,
};
use crate::merge::merge_tables;
use crate::models::{DoltBranches, DoltDiffMovies, DoltLog, Movie, NewMovie};
use crate::state::{
    advanced, branch_diff_of, branch_outcome, branched, checked_out, checkout_outcome,
    commit_outcome, committed, create_outcome, created, dated, deleted, initial, inserted,
    lemma_advanced_wf, lemma_branch_index, lemma_branched_wf, lemma_checked_out_wf, merge_message,
    merge_outcome, merged, merged_table, rerated, stage_outcome, staged_all, working_diff_of,
    working_ref, BranchView, SessionView,
};
use crate::table::{insert_outcome, lemma_sorted_rows, lookup_outcome, views, Table};
use crate::text::{decimal, push_decimal, same_text};
use vstd::prelude::*;
use vstd::string::*;

verus! {

#[derive(Debug)]
struct Branch {
    name: String,
    head: usize,
}

impl View for Branch {
    type V = BranchView;

    closed spec fn view(&self) -> BranchView {
        BranchView { name: self.name@, head: self.head as int }
    }
}

spec fn branch_views(v: Seq<Branch>) -> Seq<BranchView> {
    Seq::new(v.len(), |i: int| v[i]@)
}

/// The names of a sequence of branch records.
pub open spec fn branch_names(v: Seq<DoltBranches>) -> Seq<Seq<char>> {
    Seq::new(v.len(), |i: int| v[i]@)
}

/// The names of the branches of a session, in the order of their creation.
pub open spec fn names_of(s: SessionView) -> Seq<Seq<char>> {
    Seq::new(s.branches.len(), |i: int| s.branches[i].name)
}

/// A session on a repository. The active branch is part of the session, not
/// of the repository at large.
#[derive(Debug)]
pub struct Session {
    committer: String,
    email: String,
    date: String,
    commits: Vec<Commit>,
    branches: Vec<Branch>,
    active: usize,
    working: Table,
    staged: Table,
}

impl View for Session {
    type V = SessionView;

    closed spec fn view(&self) -> SessionView {
        SessionView {
            committer: self.committer@,
            email: self.email@,
            date: self.date@,
            commits: commit_views(self.commits@),
            branches: branch_views(self.branches@),
            active: self.active as int,
            working: self.working@,
            staged: self.staged@,
        }
    }
}

fn hash_text(n: usize) -> (h: String)
    ensures
        h@ == decimal(n as nat),
{
    let mut h = String::new();
    push_decimal(&mut h, n as u64);
    assert(Seq::<char>::empty() + decimal(n as nat) =~= decimal(n as nat));
    h
}

impl Session {
    /// The invariant of a session: see `SessionView::wf`.
    pub open spec fn wf(&self) -> bool {
        self@.wf()
    }

    /// Opens a session on a new repository. Commits will carry the given
    /// committer, email and date.
    pub fn new(committer: &str, email: &str, date: &str) -> (s: Session)
        ensures
            s.wf(),
            s@ == initial(committer@, email@, date@),
    {
        let info = DoltLog {
            commit_hash: hash_text(0),
            committer: String::from_str(committer),
            email: String::from_str(email),
            date: String::from_str(date),
            message: String::from_str("Initialize data repository"),
        };
        let root = Commit::new(info, None, None, Table::new());
        let mut commits: Vec<Commit> = Vec::new();
        commits.push(root);
        let mut branches: Vec<Branch> = Vec::new();
        branches.push(Branch { name: String::from_str("main"), head: 0 });
        let s = Session {
            committer: String::from_str(committer),
            email: String::from_str(email),
            date: String::from_str(date),
            commits,
            branches,
            active: 0,
            working: Table::new(),
            staged: Table::new(),
        };
        proof {
            let v = initial(committer@, email@, date@);
            assert(s@.commits =~= v.commits);
            assert(s@.branches =~= v.branches);
            assert(node_wf(s@.commits, 0));
        }
        s
    }

    /// Sets the date that the commits to come will carry.
    pub fn set_date(&mut self, date: &str)
        requires
            old(self).wf(),
        ensures
            final(self).wf(),
            final(self)@ == dated(old(self)@, date@),
    {
        self.date = String::from_str(date);
    }

    /// The name of the active branch.
    pub fn active_branch(&self) -> (name: String)
        requires
            self.wf(),
        ensures
            name@ == self@.branches[self@.active].name,
    {
        self.branches[self.active].name.clone()
    }

    fn find_branch(&self, name: &str) -> (r: Option<usize>)
        requires
            self.wf(),
        ensures
            match r {
                Some(i) => i < self@.branches.len() && self@.has_branch(name@)
                    && self@.branch_index(name@) == i && self@.branches[i as int].name == name@,
                None => !self@.has_branch(name@),
            },
    {
        let mut i: usize = 0;
        while i < self.branches.len()
            invariant
                self.wf(),
                i <= self.branches.len(),
                forall|j: int| 0 <= j < i ==> (#[trigger] self@.branches[j]).name != name@,
            decreases self.branches.len() - i,
        {
            if same_text(self.branches[i].name.as_str(), name) {
                proof {
                    lemma_branch_index(self@, i as int);
                }
                return Some(i);
            }
            i += 1;
        }
        None
    }

    fn head(&self) -> (h: usize)
        requires
            self.wf(),
        ensures
            h == self@.head(),
            h < self.commits.len(),
            self.commits[h as int]@ == self@.commits[h as int],
            node_wf(self@.commits, h as int),
    {
        let h = self.branches[self.active].head;
        assert(self@.branches[self.active as int].head == h);
        h
    }

    fn is_dirty(&self) -> (r: bool)
        requires
            self.wf(),
        ensures
            r == self@.dirty(),
    {
        let h = self.head();
        let table = self.commits[h].table();
        !self.working.same_as(table) || !self.staged.same_as(table)
    }

    /// Creates the table in the working set. Fails with `QueryFailure` where
    /// the working set has it already.
    pub fn create_table(&mut self) -> (r: Result<(), StoreError>)
        requires
            old(self).wf(),
        ensures
            final(self).wf(),
            r == create_outcome(old(self)@),
            r is Ok ==> final(self)@ == created(old(self)@),
            r is Err ==> final(self)@ == old(self)@,
    {
        self.working.create()
    }

    /// Inserts a row into the working set. Fails with `QueryFailure` where
    /// the table has not been created and with `DuplicateKey` where a row of
    /// the working set has the title already.
    pub fn insert(&mut self, movie: &NewMovie) -> (r: Result<(), StoreError>)
        requires
            old(self).wf(),
        ensures
            final(self).wf(),
            r == insert_outcome(old(self)@.working, movie@.title),
            r is Ok ==> final(self)@ == inserted(old(self)@, movie@),
            r is Err ==> final(self)@ == old(self)@,
    {
        let r = self.working.insert(movie.to_movie());
        proof {
            lemma_sorted_rows(self.working@.rows);
        }
        r
    }

    /// Deletes the row with the given title from the working set. Fails
    /// with `NotFound` where no row has the title.
    pub fn delete(&mut self, title: &str) -> (r: Result<(), StoreError>)
        requires
            old(self).wf(),
        ensures
            final(self).wf(),
            r == lookup_outcome(old(self)@.working, title@),
            r is Ok ==> final(self)@ == deleted(old(self)@, title@),
            r is Err ==> final(self)@ == old(self)@,
    {
        let r = self.working.remove(title);
        proof {
            lemma_sorted_rows(self.working@.rows);
        }
        r
    }

    /// Sets the rating of the row with the given title in the working set.
    /// Fails with `NotFound` where no row has the title.
    pub fn update_rating(&mut self, title: &str, rating: Option<i32>) -> (r: Result<
        (),
        StoreError,
    >)
        requires
            old(self).wf(),
        ensures
            final(self).wf(),
            r == lookup_outcome(old(self)@.working, title@),
            r is Ok ==> final(self)@ == rerated(old(self)@, title@, rating),
            r is Err ==> final(self)@ == old(self)@,
    {
        let r = self.working.set_rating(title, rating);
        proof {
            lemma_sorted_rows(self.working@.rows);
        }
        r
    }

    /// The rows of the working set, in the order of their titles.
    pub fn list_all(&self) -> (rows: Vec<Movie>)
        ensures
            views(rows@) == self@.working.rows,
    {
        self.working.to_rows()
    }

    /// Stages all changes of the working set under `scope`, which is the name
    /// of the table or `.` for the whole store. Fails with `QueryFailure` for
    /// any other scope.
    pub fn stage_all(&mut self, scope: &str) -> (r: Result<(), StoreError>)
        requires
            old(self).wf(),
        ensures
            final(self).wf(),
            r == stage_outcome(scope@),
            r is Ok ==> final(self)@ == staged_all(old(self)@),
            r is Err ==> final(self)@ == old(self)@,
    {
        if same_text(scope, ".") || same_text(scope, "movies") {
            self.staged = self.working.duplicate();
            Ok(())
        } else {
            Err(StoreError::QueryFailure)
        }
    }

    fn advance(&mut self, message: String, merged: Option<usize>, table: Table)
        requires
            old(self).wf(),
            table.wf(),
            old(self)@.head_table().created ==> table@.created,
            merged matches Some(q) ==> q < old(self)@.commits.len() && (old(
                self,
            )@.commits[q as int].table.created ==> table@.created),
        ensures
            final(self)@ == advanced(
                old(self)@,
                message@,
                place_view(merged),
                table@,
            ),
    {
        let h = self.head();
        let n = self.commits.len();
        let info = DoltLog {
            commit_hash: hash_text(n),
            committer: self.committer.clone(),
            email: self.email.clone(),
            date: self.date.clone(),
            message,
        };
        let ghost before = self@;
        self.commits.push(Commit::new(info, Some(h), merged, table));
        let name = self.branches[self.active].name.clone();
        self.branches.set(self.active, Branch { name, head: n });
        proof {
            let after = advanced(before, message@, place_view(merged), table@);
            assert(self@.commits =~= after.commits);
            assert(self@.branches =~= after.branches);
        }
    }

    /// Commits the staged changes to the active branch. Fails with
    /// `NothingToCommit` where nothing is staged.
    pub fn commit(&mut self, message: &str) -> (r: Result<(), StoreError>)
        requires
            old(self).wf(),
        ensures
            final(self).wf(),
            r == commit_outcome(old(self)@),
            r is Ok ==> final(self)@ == committed(old(self)@, message@),
            r is Err ==> final(self)@ == old(self)@,
    {
        let h = self.head();
        if self.staged.same_as(self.commits[h].table()) {
            return Err(StoreError::NothingToCommit);
        }
        proof {
            lemma_advanced_wf(self@, message@, None, self.staged@);
        }
        let table = self.staged.duplicate();
        self.advance(String::from_str(message), None, table);
        Ok(())
    }

    /// Creates a branch that points at the last commit of the active branch.
    /// Fails with `BranchExists` where a branch has the name already.
    pub fn create_branch(&mut self, name: &str) -> (r: Result<(), StoreError>)
        requires
            old(self).wf(),
        ensures
            final(self).wf(),
            r == branch_outcome(old(self)@, name@),
            r is Ok ==> final(self)@ == branched(old(self)@, name@),
            r is Err ==> final(self)@ == old(self)@,
    {
        match self.find_branch(name) {
            Some(_) => Err(StoreError::BranchExists),
            None => {
                let h = self.head();
                proof {
                    lemma_branched_wf(self@, name@);
                }
                let ghost before = self@;
                self.branches.push(Branch { name: String::from_str(name), head: h });
                assert(self@.branches =~= branched(before, name@).branches);
                Ok(())
            },
        }
    }

    /// Makes the named branch the active one, and sets the working set and
    /// the staging area to the table of its last commit. Fails with
    /// `BranchNotFound` where no branch has the name, and with
    /// `DirtyCheckout` where the working set or the staging area holds a
    /// change that no commit has.
    pub fn checkout(&mut self, name: &str) -> (r: Result<(), StoreError>)
        requires
            old(self).wf(),
        ensures
            final(self).wf(),
            r == checkout_outcome(old(self)@, name@),
            r is Ok ==> final(self)@ == checked_out(old(self)@, name@),
            r is Err ==> final(self)@ == old(self)@,
    {
        match self.find_branch(name) {
            None => Err(StoreError::BranchNotFound),
            Some(i) => {
                if self.is_dirty() {
                    return Err(StoreError::DirtyCheckout);
                }
                proof {
                    lemma_checked_out_wf(self@, name@);
                }
                let tip = self.branches[i].head;
                assert(self@.branches[i as int].head == tip);
                assert(self.commits[tip as int]@ == self@.commits[tip as int]);
                self.working = self.commits[tip].table().duplicate();
                self.staged = self.commits[tip].table().duplicate();
                self.active = i;
                Ok(())
            },
        }
    }

    /// Merges the named branch into the active one. Fails with
    /// `BranchNotFound` where no branch has the name, with `DirtyCheckout`
    /// where the working set or the staging area holds a change that no
    /// commit has, and with `MergeConflict` where both branches changed a row
    /// in different ways since their common base.
    pub fn merge(&mut self, source: &str) -> (r: Result<(), StoreError>)
        requires
            old(self).wf(),
        ensures
            final(self).wf(),
            r == merge_outcome(old(self)@, source@),
            r is Ok ==> final(self)@ == merged(old(self)@, source@),
            r is Err ==> final(self)@ == old(self)@,
    {
        match self.find_branch(source) {
            None => Err(StoreError::BranchNotFound),
            Some(i) => {
                if self.is_dirty() {
                    return Err(StoreError::DirtyCheckout);
                }
                let ghost before = self@;
                let h = self.head();
                let tip = self.branches[i].head;
                assert(self@.branches[i as int].head == tip);
                assert(self.commits[tip as int]@ == self@.commits[tip as int]);
                assert(node_wf(self@.commits, tip as int));
                let base = merge_base(&self.commits, h, tip);
                assert(self.commits[base as int]@ == self@.commits[base as int]);
                assert(node_wf(self@.commits, base as int));
                proof {
                    if self@.commits[base as int].table.created {
                        lemma_created_kept(self@.commits, h as int, base as int);
                        lemma_created_kept(self@.commits, tip as int, base as int);
                    }
                }
                let outcome = merge_tables(
                    self.commits[base].table(),
                    self.commits[h].table(),
                    self.commits[tip].table(),
                );
                match outcome {
                    Err(_) => Err(StoreError::MergeConflict),
                    Ok(table) => {
                        proof {
                            lemma_sorted_rows(table@.rows);
                            assert(table@ == merged_table(before, source@));
                            lemma_advanced_wf(
                                before,
                                merge_message(source@, before.branches[before.active].name),
                                Some(tip as int),
                                table@,
                            );
                        }
                        let mut message = String::from_str("Merge branch '");
                        message.append(source);
                        message.append("' into ");
                        message.append(self.branches[self.active].name.as_str());
                        self.advance(message, Some(tip), table.duplicate());
                        self.working = table.duplicate();
                        self.staged = table;
                        Ok(())
                    },
                }
            },
        }
    }

    /// The log of the active branch: the entries of the commits of its
    /// ancestry, the latest first.
    pub fn log(&self) -> (entries: Vec<DoltLog>)
        requires
            self.wf(),
        ensures
            log_views(entries@) == log_of(self@.commits, self@.head()),
    {
        let h = self.head();
        log_entries(&self.commits, h)
    }

    /// The differences between the last commit of the active branch and the
    /// working set.
    pub fn working_diff(&self) -> (d: Vec<DoltDiffMovies>)
        requires
            self.wf(),
        ensures
            diff_views(d@) == working_diff_of(self@),
            classifies(
                diff_views(d@),
                self@.head_table().rows,
                self@.working.rows,
                self@.commits[self@.head()].info.commit_hash,
                working_ref(),
            ),
    {
        let h = self.head();
        let node = &self.commits[h];
        diff_tables(node.table(), &self.working, node.info().commit_hash.as_str(), "WORKING")
    }

    /// The differences between the last commits of two branches. Fails with
    /// `BranchNotFound` where one of the names is the name of no branch.
    pub fn branch_diff(&self, from_branch: &str, to_branch: &str) -> (r: Result<
        Vec<DoltDiffMovies>,
        StoreError,
    >)
        requires
            self.wf(),
        ensures
            r is Ok <==> self@.has_branch(from_branch@) && self@.has_branch(to_branch@),
            r matches Err(e) ==> e == StoreError::BranchNotFound,
            r matches Ok(d) ==> diff_views(d@) == branch_diff_of(self@, from_branch@, to_branch@),
            r matches Ok(d) ==> classifies(
                diff_views(d@),
                self@.commits[self@.tip(from_branch@)].table.rows,
                self@.commits[self@.tip(to_branch@)].table.rows,
                self@.commits[self@.tip(from_branch@)].info.commit_hash,
                self@.commits[self@.tip(to_branch@)].info.commit_hash,
            ),
    {
        match (self.find_branch(from_branch), self.find_branch(to_branch)) {
            (Some(i), Some(j)) => {
                let a = self.branches[i].head;
                let b = self.branches[j].head;
                assert(self@.branches[i as int].head == a);
                assert(self@.branches[j as int].head == b);
                assert(self.commits[a as int]@ == self@.commits[a as int]);
                assert(self.commits[b as int]@ == self@.commits[b as int]);
                assert(node_wf(self@.commits, a as int));
                assert(node_wf(self@.commits, b as int));
                let from = &self.commits[a];
                let to = &self.commits[b];
                Ok(
                    diff_tables(
                        from.table(),
                        to.table(),
                        from.info().commit_hash.as_str(),
                        to.info().commit_hash.as_str(),
                    ),
                )
            },
            _ => Err(StoreError::BranchNotFound),
        }
    }

    /// The branches, in the order of their creation.
    pub fn list_branches(&self) -> (list: Vec<DoltBranches>)
        ensures
            branch_names(list@) == names_of(self@),
    {
        let mut list: Vec<DoltBranches> = Vec::new();
        let mut i: usize = 0;
        while i < self.branches.len()
            invariant
                i <= self.branches.len(),
                list.len() == i,
                forall|j: int| 0 <= j < i ==> (#[trigger] list[j])@ == self@.branches[j].name,
            decreases self.branches.len() - i,
        {
            list.push(DoltBranches { name: self.branches[i].name.clone() });
            i += 1;
        }
        assert(branch_names(list@) =~= names_of(self@));
        list
    }
}

} // verus!
