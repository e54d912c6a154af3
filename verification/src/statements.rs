//! The statements that drive a versioned store over SQL.
//!
//! A text that the caller gives is put between the quotes as it is.

use vstd::prelude::*;
use vstd::string::*;

verus! {

/// The query that reads the commit log.
pub const LOG_QUERY: &'static str =
    "SELECT commit_hash, committer, CAST(date as CHAR) as date, email, message FROM dolt_log";

/// The query that reads the names of the branches.
pub const BRANCHES_QUERY: &'static str = "select name from dolt_branches";

/// The query that reads the differences between the last commit and the
/// working set.
pub const WORKING_DIFF_QUERY: &'static str =
    "SELECT to_title, to_genre, to_year, to_rating, to_commit, from_title, from_genre, from_year, from_rating, from_commit, diff_type FROM dolt_diff_movies WHERE to_commit = 'WORKING'";

/// The call of the procedure `name` with one quoted argument.
pub open spec fn call_text(name: Seq<char>, argument: Seq<char>) -> Seq<char> {
    "CALL "@ + name + "('"@ + argument + "')"@
}

/// The statement that commits with `message`.
pub open spec fn commit_text(message: Seq<char>) -> Seq<char> {
    "CALL dolt_commit('-m', '"@ + message + "')"@
}

/// The query that reads the differences between two branches.
pub open spec fn branch_diff_text(from_branch: Seq<char>, to_branch: Seq<char>) -> Seq<char> {
    "SELECT to_title, to_genre, to_year, to_rating, to_commit, from_title, from_genre, from_year, from_rating, from_commit, diff_type FROM dolt_diff('"@
        + from_branch + "', '"@ + to_branch + "', 'movies')"@
}

fn call(name: &str, argument: &str) -> (q: String)
    ensures
        q@ == call_text(name@, argument@),
{
    let mut q = String::from_str("CALL ");
    q.append(name);
    q.append("('");
    q.append(argument);
    q.append("')");
    q
}

/// The statement that stages the changes under `scope`.
pub fn stage_statement(scope: &str) -> (q: String)
    ensures
        q@ == call_text("dolt_add"@, scope@),
{
    call("dolt_add", scope)
}

/// The statement that commits the staged changes with `message`.
pub fn commit_statement(message: &str) -> (q: String)
    ensures
        q@ == commit_text(message@),
{
    let mut q = String::from_str("CALL dolt_commit('-m', '");
    q.append(message);
    q.append("')");
    q
}

/// The statement that creates the branch `name`.
pub fn branch_statement(name: &str) -> (q: String)
    ensures
        q@ == call_text("dolt_branch"@, name@),
{
    call("dolt_branch", name)
}

/// The statement that makes the branch `name` the active one.
pub fn checkout_statement(name: &str) -> (q: String)
    ensures
        q@ == call_text("dolt_checkout"@, name@),
{
    call("dolt_checkout", name)
}

/// The statement that merges the branch `name` into the active one.
pub fn merge_statement(name: &str) -> (q: String)
    ensures
        q@ == call_text("dolt_merge"@, name@),
{
    call("dolt_merge", name)
}

/// The query that reads the differences that lead from the last commit of
/// `from_branch` to the last commit of `to_branch`.
pub fn branch_diff_query(from_branch: &str, to_branch: &str) -> (q: String)
    ensures
        q@ == branch_diff_text(from_branch@, to_branch@),
{
    let mut q = String::from_str(
        "SELECT to_title, to_genre, to_year, to_rating, to_commit, from_title, from_genre, from_year, from_rating, from_commit, diff_type FROM dolt_diff('",
    );
    q.append(from_branch);
    q.append("', '");
    q.append(to_branch);
    q.append("', 'movies')");
    q
}

} // verus!
