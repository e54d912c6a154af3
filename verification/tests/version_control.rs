use versioned_movies::error::StoreError;
use versioned_movies::models::{DoltDiffMovies, DoltLog, Movie, NewMovie};
use versioned_movies::session::Session;

fn row(title: &str, genre: &str, year: i32, rating: Option<i32>) -> Movie {
    Movie { title: title.to_string(), genre: genre.to_string(), year, rating }
}

fn add(s: &mut Session, title: &str, genre: &str, year: i32, rating: Option<i32>) {
    assert_eq!(s.insert(&NewMovie { title, genre, year, rating }), Ok(()));
}

fn save(s: &mut Session, message: &str) {
    assert_eq!(s.stage_all("movies"), Ok(()));
    assert_eq!(s.commit(message), Ok(()));
}

/// A repository with the table committed on `main`.
fn repo() -> Session {
    let mut s = Session::new("Ada", "ada@example.com", "2024-01-01");
    assert_eq!(s.create_table(), Ok(()));
    assert_eq!(s.stage_all("."), Ok(()));
    assert_eq!(s.commit("Create table"), Ok(()));
    s
}

/// A repository with three movies committed on `main`.
fn stocked() -> Session {
    let mut s = repo();
    add(&mut s, "The Shawshank Redemption", "Prison Drama", 1994, Some(93));
    add(&mut s, "The Godfather", "Mafia", 1972, Some(92));
    add(&mut s, "The Dark Knight", "Action", 2008, None);
    save(&mut s, "Added 3 movies");
    s
}

fn kinds(d: &[DoltDiffMovies]) -> Vec<String> {
    d.iter().map(|r| r.diff_type.clone()).collect()
}

fn messages(log: &[DoltLog]) -> Vec<String> {
    log.iter().map(|e| e.message.clone()).collect()
}

fn branch_list(s: &Session) -> Vec<String> {
    s.list_branches().into_iter().map(|b| b.name).collect()
}

fn some(text: &str) -> Option<String> {
    Some(text.to_string())
}

#[test]
fn new_repository_has_one_commit_and_the_branch_main() {
    let s = Session::new("Ada", "ada@example.com", "2024-01-01");
    assert_eq!(
        s.log(),
        vec![DoltLog {
            commit_hash: "0".to_string(),
            committer: "Ada".to_string(),
            email: "ada@example.com".to_string(),
            date: "2024-01-01".to_string(),
            message: "Initialize data repository".to_string(),
        }]
    );
    assert_eq!(branch_list(&s), vec!["main"]);
    assert_eq!(s.active_branch(), "main");
    assert!(s.list_all().is_empty());
    assert!(s.working_diff().is_empty());
}

#[test]
fn commit_with_nothing_staged_fails() {
    let mut s = Session::new("Ada", "ada@example.com", "2024-01-01");
    assert_eq!(s.commit("empty"), Err(StoreError::NothingToCommit));
    assert_eq!(s.stage_all("."), Ok(()));
    assert_eq!(s.commit("still empty"), Err(StoreError::NothingToCommit));
    assert_eq!(s.log().len(), 1);
}

#[test]
fn second_commit_without_new_changes_fails() {
    let mut s = repo();
    add(&mut s, "Heat", "Crime", 1995, None);
    assert_eq!(s.stage_all("movies"), Ok(()));
    assert_eq!(s.commit("first"), Ok(()));
    assert_eq!(s.commit("second"), Err(StoreError::NothingToCommit));
    assert_eq!(messages(&s.log()), vec!["first", "Create table", "Initialize data repository"]);
}

#[test]
fn staging_twice_is_staging_once() {
    let mut s = repo();
    add(&mut s, "Heat", "Crime", 1995, None);
    assert_eq!(s.stage_all("movies"), Ok(()));
    assert_eq!(s.stage_all("movies"), Ok(()));
    assert_eq!(s.stage_all("."), Ok(()));
    assert_eq!(s.commit("once"), Ok(()));
    assert_eq!(s.commit("twice"), Err(StoreError::NothingToCommit));
    assert!(s.working_diff().is_empty());
}

#[test]
fn staging_an_unknown_scope_is_a_query_failure() {
    let mut s = repo();
    add(&mut s, "Heat", "Crime", 1995, None);
    assert_eq!(s.stage_all("actors"), Err(StoreError::QueryFailure));
    assert_eq!(s.stage_all(""), Err(StoreError::QueryFailure));
    assert_eq!(s.stage_all("Movies"), Err(StoreError::QueryFailure));
    assert_eq!(s.commit("nothing"), Err(StoreError::NothingToCommit));
}

#[test]
fn commit_records_what_was_staged_and_no_more() {
    let mut s = repo();
    add(&mut s, "Heat", "Crime", 1995, None);
    assert_eq!(s.stage_all("movies"), Ok(()));
    add(&mut s, "Alien", "Horror", 1979, Some(85));
    assert_eq!(s.commit("Heat only"), Ok(()));
    let d = s.working_diff();
    assert_eq!(kinds(&d), vec!["added"]);
    assert_eq!(d[0].to_title, some("Alien"));
    assert_eq!(s.list_all().len(), 2);
}

#[test]
fn commits_carry_place_committer_and_date() {
    let mut s = repo();
    s.set_date("2024-02-02");
    add(&mut s, "Heat", "Crime", 1995, None);
    save(&mut s, "Added Heat");
    let log = s.log();
    assert_eq!(
        log[0],
        DoltLog {
            commit_hash: "2".to_string(),
            committer: "Ada".to_string(),
            email: "ada@example.com".to_string(),
            date: "2024-02-02".to_string(),
            message: "Added Heat".to_string(),
        }
    );
    assert_eq!(log[1].commit_hash, "1");
    assert_eq!(log[1].date, "2024-01-01");
    assert_eq!(log[2].commit_hash, "0");
}

#[test]
fn create_branch_twice_fails_and_checkout_of_unknown_branch_fails() {
    let mut s = stocked();
    assert_eq!(s.create_branch("other"), Ok(()));
    assert_eq!(s.create_branch("other"), Err(StoreError::BranchExists));
    assert_eq!(s.checkout("nope"), Err(StoreError::BranchNotFound));
    assert_eq!(branch_list(&s), vec!["main", "other"]);
    assert_eq!(s.active_branch(), "main");
}

#[test]
fn main_exists_from_the_start() {
    let mut s = Session::new("Ada", "ada@example.com", "2024-01-01");
    assert_eq!(s.create_branch("main"), Err(StoreError::BranchExists));
    assert_eq!(s.create_branch("Main"), Ok(()));
    assert_eq!(branch_list(&s), vec!["main", "Main"]);
}

#[test]
fn working_diff_after_checkout_is_empty() {
    let mut s = stocked();
    assert_eq!(s.create_branch("other"), Ok(()));
    assert_eq!(s.checkout("other"), Ok(()));
    assert_eq!(s.active_branch(), "other");
    assert!(s.working_diff().is_empty());
    assert_eq!(s.delete("The Godfather"), Ok(()));
    save(&mut s, "Removed one");
    assert_eq!(s.checkout("main"), Ok(()));
    assert!(s.working_diff().is_empty());
    assert_eq!(s.list_all().len(), 3);
    assert_eq!(s.checkout("other"), Ok(()));
    assert!(s.working_diff().is_empty());
    assert_eq!(s.list_all().len(), 2);
    assert_eq!(s.checkout("other"), Ok(()));
    assert_eq!(s.commit("nothing"), Err(StoreError::NothingToCommit));
}

#[test]
fn checkout_with_uncommitted_changes_is_refused() {
    let mut s = stocked();
    assert_eq!(s.create_branch("other"), Ok(()));
    assert_eq!(s.update_rating("The Dark Knight", Some(90)), Ok(()));
    assert_eq!(s.checkout("other"), Err(StoreError::DirtyCheckout));
    assert_eq!(s.stage_all("movies"), Ok(()));
    assert_eq!(s.checkout("other"), Err(StoreError::DirtyCheckout));
    assert_eq!(s.checkout("main"), Err(StoreError::DirtyCheckout));
    assert_eq!(s.checkout("nope"), Err(StoreError::BranchNotFound));
    assert_eq!(s.active_branch(), "main");
    assert_eq!(s.list_all()[0], row("The Dark Knight", "Action", 2008, Some(90)));
    assert_eq!(s.commit("Rated"), Ok(()));
    assert_eq!(s.checkout("other"), Ok(()));
    assert_eq!(s.list_all()[0], row("The Dark Knight", "Action", 2008, None));
}

#[test]
fn checkout_is_refused_when_staged_changes_were_undone_in_the_working_set() {
    let mut s = stocked();
    assert_eq!(s.create_branch("other"), Ok(()));
    assert_eq!(s.update_rating("The Dark Knight", Some(90)), Ok(()));
    assert_eq!(s.stage_all("movies"), Ok(()));
    assert_eq!(s.update_rating("The Dark Knight", None), Ok(()));
    assert!(s.working_diff().is_empty());
    assert_eq!(s.checkout("other"), Err(StoreError::DirtyCheckout));
}

#[test]
fn working_diff_shows_one_modified_record_for_a_new_rating() {
    let mut s = repo();
    add(&mut s, "The Dark Knight", "Action", 2008, None);
    save(&mut s, "Added The Dark Knight");
    assert_eq!(s.update_rating("The Dark Knight", Some(90)), Ok(()));
    let d = s.working_diff();
    assert_eq!(
        d,
        vec![DoltDiffMovies {
            to_title: some("The Dark Knight"),
            to_genre: some("Action"),
            to_year: Some(2008),
            to_rating: Some(90),
            to_commit: some("WORKING"),
            from_title: some("The Dark Knight"),
            from_genre: some("Action"),
            from_year: Some(2008),
            from_rating: None,
            from_commit: some("2"),
            diff_type: "modified".to_string(),
        }]
    );
}

#[test]
fn branch_diff_shows_removed_and_added_rows() {
    let mut s = stocked();
    assert_eq!(s.create_branch("other"), Ok(()));
    assert_eq!(s.checkout("other"), Ok(()));
    assert_eq!(s.delete("The Godfather"), Ok(()));
    add(&mut s, "The Godfather Part II", "Mafia", 1974, Some(90));
    save(&mut s, "Replaced Godfather with Godfather Part II");
    let d = s.branch_diff("main", "other").unwrap();
    assert_eq!(
        d,
        vec![
            DoltDiffMovies {
                to_title: None,
                to_genre: None,
                to_year: None,
                to_rating: None,
                to_commit: some("3"),
                from_title: some("The Godfather"),
                from_genre: some("Mafia"),
                from_year: Some(1972),
                from_rating: Some(92),
                from_commit: some("2"),
                diff_type: "removed".to_string(),
            },
            DoltDiffMovies {
                to_title: some("The Godfather Part II"),
                to_genre: some("Mafia"),
                to_year: Some(1974),
                to_rating: Some(90),
                to_commit: some("3"),
                from_title: None,
                from_genre: None,
                from_year: None,
                from_rating: None,
                from_commit: some("2"),
                diff_type: "added".to_string(),
            },
        ]
    );
    let removed: Vec<&DoltDiffMovies> = d.iter().filter(|r| r.diff_type == "removed").collect();
    let added: Vec<&DoltDiffMovies> = d.iter().filter(|r| r.diff_type == "added").collect();
    assert_eq!(removed.len(), 1);
    assert_eq!(added.len(), 1);
}

#[test]
fn branch_diff_does_not_depend_on_the_active_branch() {
    let mut s = stocked();
    assert_eq!(s.create_branch("other"), Ok(()));
    assert_eq!(s.checkout("other"), Ok(()));
    assert_eq!(s.delete("The Godfather"), Ok(()));
    save(&mut s, "Removed one");
    let on_other = s.branch_diff("main", "other").unwrap();
    assert_eq!(s.checkout("main"), Ok(()));
    assert_eq!(s.update_rating("The Dark Knight", Some(1)), Ok(()));
    let on_main = s.branch_diff("main", "other").unwrap();
    assert_eq!(on_other, on_main);
    assert!(s.branch_diff("main", "main").unwrap().is_empty());
}

#[test]
fn branch_diff_of_an_unknown_branch_fails() {
    let s = stocked();
    assert_eq!(s.branch_diff("main", "nope"), Err(StoreError::BranchNotFound));
    assert_eq!(s.branch_diff("nope", "main"), Err(StoreError::BranchNotFound));
    assert_eq!(s.branch_diff("nope", "nope"), Err(StoreError::BranchNotFound));
}

fn flipped(d: &DoltDiffMovies) -> DoltDiffMovies {
    let diff_type = match d.diff_type.as_str() {
        "added" => "removed".to_string(),
        "removed" => "added".to_string(),
        other => other.to_string(),
    };
    DoltDiffMovies {
        to_title: d.from_title.clone(),
        to_genre: d.from_genre.clone(),
        to_year: d.from_year,
        to_rating: d.from_rating,
        to_commit: d.from_commit.clone(),
        from_title: d.to_title.clone(),
        from_genre: d.to_genre.clone(),
        from_year: d.to_year,
        from_rating: d.to_rating,
        from_commit: d.to_commit.clone(),
        diff_type,
    }
}

#[test]
fn branch_diff_read_backwards_is_the_reverse_diff() {
    let mut s = stocked();
    assert_eq!(s.create_branch("other"), Ok(()));
    assert_eq!(s.checkout("other"), Ok(()));
    assert_eq!(s.delete("The Godfather"), Ok(()));
    add(&mut s, "The Godfather Part II", "Mafia", 1974, Some(90));
    assert_eq!(s.update_rating("The Shawshank Redemption", None), Ok(()));
    save(&mut s, "Changes on other");
    assert_eq!(s.checkout("main"), Ok(()));
    assert_eq!(s.update_rating("The Dark Knight", Some(90)), Ok(()));
    save(&mut s, "Changes on main");
    let forth = s.branch_diff("main", "other").unwrap();
    let back = s.branch_diff("other", "main").unwrap();
    assert_eq!(kinds(&forth), vec!["modified", "removed", "added", "modified"]);
    assert_eq!(kinds(&back), vec!["modified", "added", "removed", "modified"]);
    let expected: Vec<DoltDiffMovies> = forth.iter().map(flipped).collect();
    assert_eq!(back, expected);
    assert_eq!(back[1].to_title, some("The Godfather"));
    assert_eq!(back[1].from_title, None);
    assert_eq!(back[0].from_rating, None);
    assert_eq!(back[0].to_rating, Some(90));
}

#[test]
fn log_is_scoped_to_the_ancestry_of_the_active_branch() {
    let mut s = stocked();
    assert_eq!(s.create_branch("other"), Ok(()));
    assert_eq!(s.update_rating("The Dark Knight", Some(90)), Ok(()));
    save(&mut s, "On main");
    assert_eq!(s.checkout("other"), Ok(()));
    assert_eq!(
        messages(&s.log()),
        vec!["Added 3 movies", "Create table", "Initialize data repository"]
    );
    assert_eq!(s.delete("The Godfather"), Ok(()));
    save(&mut s, "On other");
    assert_eq!(
        messages(&s.log()),
        vec!["On other", "Added 3 movies", "Create table", "Initialize data repository"]
    );
    assert_eq!(s.checkout("main"), Ok(()));
    assert_eq!(
        messages(&s.log()),
        vec!["On main", "Added 3 movies", "Create table", "Initialize data repository"]
    );
}

#[test]
fn merge_combines_changes_to_different_rows() {
    let mut s = stocked();
    assert_eq!(s.create_branch("other"), Ok(()));
    assert_eq!(s.checkout("other"), Ok(()));
    assert_eq!(s.delete("The Godfather"), Ok(()));
    add(&mut s, "The Godfather Part II", "Mafia", 1974, Some(90));
    save(&mut s, "On other");
    assert_eq!(s.checkout("main"), Ok(()));
    assert_eq!(s.update_rating("The Dark Knight", Some(90)), Ok(()));
    save(&mut s, "On main");
    assert_eq!(s.merge("other"), Ok(()));
    assert_eq!(
        s.list_all(),
        vec![
            row("The Dark Knight", "Action", 2008, Some(90)),
            row("The Godfather Part II", "Mafia", 1974, Some(90)),
            row("The Shawshank Redemption", "Prison Drama", 1994, Some(93)),
        ]
    );
    let log = s.log();
    assert_eq!(
        messages(&log),
        vec![
            "Merge branch 'other' into main",
            "On main",
            "On other",
            "Added 3 movies",
            "Create table",
            "Initialize data repository"
        ]
    );
    assert_eq!(log[0].commit_hash, "5");
    assert!(s.working_diff().is_empty());
    assert_eq!(s.commit("after merge"), Err(StoreError::NothingToCommit));
    assert_eq!(s.active_branch(), "main");
    let d = s.branch_diff("other", "main").unwrap();
    assert_eq!(kinds(&d), vec!["modified"]);
}

#[test]
fn merge_of_an_unknown_branch_fails() {
    let mut s = stocked();
    assert_eq!(s.merge("nope"), Err(StoreError::BranchNotFound));
    assert_eq!(s.log().len(), 3);
}

#[test]
fn merge_with_uncommitted_changes_is_refused() {
    let mut s = stocked();
    assert_eq!(s.create_branch("other"), Ok(()));
    assert_eq!(s.update_rating("The Dark Knight", Some(90)), Ok(()));
    assert_eq!(s.merge("other"), Err(StoreError::DirtyCheckout));
    assert_eq!(s.log().len(), 3);
    assert_eq!(s.list_all()[0].rating, Some(90));
}

#[test]
fn merge_fails_where_both_branches_changed_a_row_differently() {
    let mut s = stocked();
    assert_eq!(s.create_branch("other"), Ok(()));
    assert_eq!(s.checkout("other"), Ok(()));
    assert_eq!(s.update_rating("The Dark Knight", Some(80)), Ok(()));
    save(&mut s, "Rated 80");
    assert_eq!(s.checkout("main"), Ok(()));
    assert_eq!(s.update_rating("The Dark Knight", Some(90)), Ok(()));
    save(&mut s, "Rated 90");
    let before = s.log();
    assert_eq!(s.merge("other"), Err(StoreError::MergeConflict));
    assert_eq!(s.log(), before);
    assert_eq!(s.list_all()[0].rating, Some(90));
    assert!(s.working_diff().is_empty());
}

#[test]
fn merge_fails_where_one_branch_deleted_what_the_other_changed() {
    let mut s = stocked();
    assert_eq!(s.create_branch("other"), Ok(()));
    assert_eq!(s.checkout("other"), Ok(()));
    assert_eq!(s.delete("The Dark Knight"), Ok(()));
    save(&mut s, "Deleted");
    assert_eq!(s.checkout("main"), Ok(()));
    assert_eq!(s.update_rating("The Dark Knight", Some(90)), Ok(()));
    save(&mut s, "Rated 90");
    assert_eq!(s.merge("other"), Err(StoreError::MergeConflict));
    assert_eq!(s.checkout("other"), Ok(()));
    assert_eq!(s.merge("main"), Err(StoreError::MergeConflict));
}

#[test]
fn merge_fails_where_both_branches_added_a_title_with_different_values() {
    let mut s = stocked();
    assert_eq!(s.create_branch("other"), Ok(()));
    assert_eq!(s.checkout("other"), Ok(()));
    add(&mut s, "Heat", "Crime", 1995, Some(83));
    save(&mut s, "Heat on other");
    assert_eq!(s.checkout("main"), Ok(()));
    add(&mut s, "Heat", "Crime", 1995, Some(84));
    save(&mut s, "Heat on main");
    assert_eq!(s.merge("other"), Err(StoreError::MergeConflict));
}

#[test]
fn merge_accepts_the_same_change_on_both_branches() {
    let mut s = stocked();
    assert_eq!(s.create_branch("other"), Ok(()));
    assert_eq!(s.checkout("other"), Ok(()));
    assert_eq!(s.update_rating("The Dark Knight", Some(90)), Ok(()));
    assert_eq!(s.delete("The Godfather"), Ok(()));
    add(&mut s, "Heat", "Crime", 1995, Some(83));
    save(&mut s, "On other");
    assert_eq!(s.checkout("main"), Ok(()));
    assert_eq!(s.update_rating("The Dark Knight", Some(90)), Ok(()));
    assert_eq!(s.delete("The Godfather"), Ok(()));
    add(&mut s, "Heat", "Crime", 1995, Some(83));
    save(&mut s, "On main");
    assert_eq!(s.merge("other"), Ok(()));
    assert_eq!(
        s.list_all(),
        vec![
            row("Heat", "Crime", 1995, Some(83)),
            row("The Dark Knight", "Action", 2008, Some(90)),
            row("The Shawshank Redemption", "Prison Drama", 1994, Some(93)),
        ]
    );
}

#[test]
fn merge_uses_the_latest_common_commit_as_base() {
    let mut s = stocked();
    assert_eq!(s.create_branch("other"), Ok(()));
    assert_eq!(s.checkout("other"), Ok(()));
    assert_eq!(s.update_rating("The Dark Knight", Some(80)), Ok(()));
    save(&mut s, "Rated 80 on other");
    assert_eq!(s.checkout("main"), Ok(()));
    assert_eq!(s.merge("other"), Ok(()));
    assert_eq!(s.list_all()[0].rating, Some(80));
    assert_eq!(s.update_rating("The Dark Knight", Some(90)), Ok(()));
    save(&mut s, "Rated 90 on main");
    assert_eq!(s.merge("other"), Ok(()));
    assert_eq!(s.list_all()[0].rating, Some(90));
    assert_eq!(s.checkout("other"), Ok(()));
    assert_eq!(s.merge("main"), Ok(()));
    assert_eq!(s.list_all()[0].rating, Some(90));
    let log = messages(&s.log());
    assert_eq!(log[0], "Merge branch 'main' into other");
    assert_eq!(log.len(), 8);
}

#[test]
fn merge_brings_the_table_to_a_branch_that_had_none() {
    let mut s = Session::new("Ada", "ada@example.com", "2024-01-01");
    assert_eq!(s.create_branch("bare"), Ok(()));
    assert_eq!(s.create_table(), Ok(()));
    add(&mut s, "Heat", "Crime", 1995, None);
    assert_eq!(s.stage_all("."), Ok(()));
    assert_eq!(s.commit("Table and Heat"), Ok(()));
    assert_eq!(s.checkout("bare"), Ok(()));
    assert!(s.list_all().is_empty());
    let m = NewMovie { title: "Alien", genre: "Horror", year: 1979, rating: None };
    assert_eq!(s.insert(&m), Err(StoreError::QueryFailure));
    assert_eq!(s.merge("main"), Ok(()));
    assert_eq!(s.list_all(), vec![row("Heat", "Crime", 1995, None)]);
    assert_eq!(s.insert(&m), Ok(()));
}
