use vstd::prelude::*;

verus! {

/// The failures that an operation on the versioned table can report.
#[derive(Clone, Copy, Debug, PartialEq, Eq, Structural)]
pub enum StoreError {
    /// A row with the same title already exists in the working set.
    DuplicateKey,
    /// No row of the working set has the given title.
    NotFound,
    /// A commit was asked for while nothing is staged.
    NothingToCommit,
    /// The branch name is already taken.
    BranchExists,
    /// No branch has the given name.
    BranchNotFound,
    /// The working set or the staging area holds changes that a switch of
    /// branches would lose.
    DirtyCheckout,
    /// Both branches changed the same row in different ways.
    MergeConflict,
    /// The store could not be reached.
    ConnectionFailure,
    /// The store refused a statement.
    QueryFailure,
}

/// The name of a failure.
pub open spec fn failure_name(e: StoreError) -> Seq<char> {
    match e {
        StoreError::DuplicateKey => "DuplicateKey"@,
        StoreError::NotFound => "NotFound"@,
        StoreError::NothingToCommit => "NothingToCommit"@,
        StoreError::BranchExists => "BranchExists"@,
        StoreError::BranchNotFound => "BranchNotFound"@,
        StoreError::DirtyCheckout => "DirtyCheckout"@,
        StoreError::MergeConflict => "MergeConflict"@,
        StoreError::ConnectionFailure => "ConnectionFailure"@,
        StoreError::QueryFailure => "QueryFailure"@,
    }
}

impl StoreError {
    /// The name of the failure, for reports.
    pub fn name(&self) -> (s: &'static str)
        ensures
            s@ == failure_name(*self),
    {
        match self {
            StoreError::DuplicateKey => "DuplicateKey",
            StoreError::NotFound => "NotFound",
            StoreError::NothingToCommit => "NothingToCommit",
            StoreError::BranchExists => "BranchExists",
            StoreError::BranchNotFound => "BranchNotFound",
            StoreError::DirtyCheckout => "DirtyCheckout",
            StoreError::MergeConflict => "MergeConflict",
            StoreError::ConnectionFailure => "ConnectionFailure",
            StoreError::QueryFailure => "QueryFailure",
        }
    }
}

} // verus!
