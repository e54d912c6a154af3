use versioned_movies::error::StoreError;
use versioned_movies::models::{DoltDiffMovies, Movie, NewMovie};
use versioned_movies::session::Session;

fn new_movie<'a>(title: &'a str, genre: &'a str, year: i32, rating: Option<i32>) -> NewMovie<'a> {
    NewMovie { title, genre, year, rating }
}

fn movie(title: &str, genre: &str, year: i32, rating: Option<i32>) -> Movie {
    Movie { title: title.to_string(), genre: genre.to_string(), year, rating }
}

fn seeded() -> Session {
    let mut s = Session::new("Ada", "ada@example.com", "2024-01-01 00:00:00");
    assert_eq!(s.create_table(), Ok(()));
    assert_eq!(s.stage_all("."), Ok(()));
    assert_eq!(s.commit("Diesel migrate and initialize movies table"), Ok(()));
    assert_eq!(s.insert(&new_movie("The Shawshank Redemption", "Prison Drama", 1994, Some(93))), Ok(()));
    assert_eq!(s.insert(&new_movie("The Godfather", "Mafia", 1972, Some(92))), Ok(()));
    assert_eq!(s.insert(&new_movie("The Dark Knight", "Action", 2008, None)), Ok(()));
    s
}

fn messages(s: &Session) -> Vec<String> {
    s.log().into_iter().map(|e| e.message).collect()
}

fn kinds(d: &[DoltDiffMovies]) -> Vec<String> {
    d.iter().map(|r| r.diff_type.clone()).collect()
}

#[test]
fn scenario_runs_from_seed_to_merge() {
    let mut s = seeded();
    assert_eq!(
        s.list_all(),
        vec![
            movie("The Dark Knight", "Action", 2008, None),
            movie("The Godfather", "Mafia", 1972, Some(92)),
            movie("The Shawshank Redemption", "Prison Drama", 1994, Some(93)),
        ]
    );
    assert_eq!(kinds(&s.working_diff()), vec!["added", "added", "added"]);
    assert_eq!(s.stage_all("movies"), Ok(()));
    assert_eq!(s.commit("Added 3 movies"), Ok(()));
    assert_eq!(
        messages(&s),
        vec![
            "Added 3 movies",
            "Diesel migrate and initialize movies table",
            "Initialize data repository"
        ]
    );
    let names: Vec<String> = s.list_branches().into_iter().map(|b| b.name).collect();
    assert_eq!(names, vec!["main"]);

    assert_eq!(s.create_branch("other"), Ok(()));
    assert_eq!(s.checkout("other"), Ok(()));
    assert_eq!(s.delete("The Godfather"), Ok(()));
    assert_eq!(s.insert(&new_movie("The Godfather Part II", "Mafia", 1974, Some(90))), Ok(()));
    assert_eq!(kinds(&s.working_diff()), vec!["removed", "added"]);
    assert_eq!(s.stage_all("movies"), Ok(()));
    assert_eq!(s.commit("Replaced Godfather with Godfather Part II"), Ok(()));

    assert_eq!(s.checkout("main"), Ok(()));
    assert_eq!(s.update_rating("The Dark Knight", Some(90)), Ok(()));
    assert_eq!(kinds(&s.working_diff()), vec!["modified"]);
    assert_eq!(s.stage_all("movies"), Ok(()));
    assert_eq!(s.commit("Updated The Dark Knight rating"), Ok(()));

    let d = s.branch_diff("main", "other").unwrap();
    assert_eq!(kinds(&d), vec!["modified", "removed", "added"]);

    assert_eq!(s.merge("other"), Ok(()));
    assert_eq!(
        s.list_all(),
        vec![
            movie("The Dark Knight", "Action", 2008, Some(90)),
            movie("The Godfather Part II", "Mafia", 1974, Some(90)),
            movie("The Shawshank Redemption", "Prison Drama", 1994, Some(93)),
        ]
    );
    assert_eq!(
        messages(&s),
        vec![
            "Merge branch 'other' into main",
            "Updated The Dark Knight rating",
            "Replaced Godfather with Godfather Part II",
            "Added 3 movies",
            "Diesel migrate and initialize movies table",
            "Initialize data repository"
        ]
    );
    assert!(s.working_diff().is_empty());
    assert_eq!(s.commit("again"), Err(StoreError::NothingToCommit));
}
