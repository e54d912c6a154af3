use versioned_movies::models::{DoltBranches, DoltDiffMovies, DoltLog, Movie};
use versioned_movies::report::{
    branches_report, comparing_notice, diff_lines, diff_report, log_lines, log_report,
    movie_lines, movies_report, notice, DELIMITER,
};
use versioned_movies::statements::{
    branch_diff_query, branch_statement, checkout_statement, commit_statement, merge_statement,
    stage_statement, BRANCHES_QUERY, LOG_QUERY, WORKING_DIFF_QUERY,
};

fn some(text: &str) -> Option<String> {
    Some(text.to_string())
}

fn diff(kind: &str) -> DoltDiffMovies {
    DoltDiffMovies {
        to_title: some("Heat"),
        to_genre: some("Crime"),
        to_year: Some(1995),
        to_rating: Some(90),
        to_commit: some("WORKING"),
        from_title: some("Heat (old)"),
        from_genre: some("Drama"),
        from_year: Some(1994),
        from_rating: None,
        from_commit: some("4"),
        diff_type: kind.to_string(),
    }
}

#[test]
fn statements_quote_their_argument() {
    assert_eq!(stage_statement("."), "CALL dolt_add('.')");
    assert_eq!(stage_statement("movies"), "CALL dolt_add('movies')");
    assert_eq!(commit_statement("Added 3 movies"), "CALL dolt_commit('-m', 'Added 3 movies')");
    assert_eq!(commit_statement(""), "CALL dolt_commit('-m', '')");
    assert_eq!(branch_statement("other"), "CALL dolt_branch('other')");
    assert_eq!(checkout_statement("main"), "CALL dolt_checkout('main')");
    assert_eq!(merge_statement("other"), "CALL dolt_merge('other')");
}

#[test]
fn queries_name_their_columns() {
    assert_eq!(
        branch_diff_query("main", "other"),
        "SELECT to_title, to_genre, to_year, to_rating, to_commit, from_title, from_genre, from_year, from_rating, from_commit, diff_type FROM dolt_diff('main', 'other', 'movies')"
    );
    assert_eq!(
        WORKING_DIFF_QUERY,
        "SELECT to_title, to_genre, to_year, to_rating, to_commit, from_title, from_genre, from_year, from_rating, from_commit, diff_type FROM dolt_diff_movies WHERE to_commit = 'WORKING'"
    );
    assert_eq!(
        LOG_QUERY,
        "SELECT commit_hash, committer, CAST(date as CHAR) as date, email, message FROM dolt_log"
    );
    assert_eq!(BRANCHES_QUERY, "select name from dolt_branches");
}

#[test]
fn notices_name_what_is_acted_on() {
    assert_eq!(notice("Inserting", "The Godfather"), "Inserting 'The Godfather'...");
    assert_eq!(notice("Switching to branch", "other"), "Switching to branch 'other'...");
    assert_eq!(notice("Deleting", ""), "Deleting ''...");
    assert_eq!(comparing_notice("main", "other"), "Comparing diff from main to other...");
}

#[test]
fn movie_lines_show_null_for_what_is_absent() {
    assert_eq!(
        movie_lines(&some("Heat"), &some("Crime"), Some(1995), Some(83)),
        vec!["Title:  Heat", "Genre:  Crime", "Year:   1995", "Rating: 83"]
    );
    assert_eq!(
        movie_lines(&None, &None, None, None),
        vec!["Title:  NULL", "Genre:  NULL", "Year:   NULL", "Rating: NULL"]
    );
    assert_eq!(
        movie_lines(&some(""), &None, Some(-44), Some(0)),
        vec!["Title:  ", "Genre:  NULL", "Year:   -44", "Rating: 0"]
    );
}

#[test]
fn added_record_shows_the_new_row() {
    assert_eq!(
        diff_lines(&diff("added")),
        vec!["Added movie: ", "Title:  Heat", "Genre:  Crime", "Year:   1995", "Rating: 90"]
    );
}

#[test]
fn removed_record_shows_the_old_row() {
    assert_eq!(
        diff_lines(&diff("removed")),
        vec![
            "Removed movie: ",
            "Title:  Heat (old)",
            "Genre:  Drama",
            "Year:   1994",
            "Rating: NULL"
        ]
    );
}

#[test]
fn modified_record_shows_both_ratings() {
    assert_eq!(
        diff_lines(&diff("modified")),
        vec![
            "Updated movie rating:",
            "Title:  Heat",
            "Genre:  Crime",
            "Year:   1995",
            "Rating: NULL -> 90"
        ]
    );
    let mut d = diff("modified");
    d.from_rating = Some(80);
    d.to_rating = None;
    d.to_title = None;
    assert_eq!(diff_lines(&d)[1], "Title:  NULL");
    assert_eq!(diff_lines(&d)[4], "Rating: 80 -> NULL");
}

#[test]
fn unknown_record_shows_its_word() {
    assert_eq!(diff_lines(&diff("renamed")), vec!["Unknown diff type: renamed"]);
    assert_eq!(diff_lines(&diff("")), vec!["Unknown diff type: "]);
    assert_eq!(diff_lines(&diff("ADDED")), vec!["Unknown diff type: ADDED"]);
}

#[test]
fn log_lines_show_the_entry() {
    let e = DoltLog {
        commit_hash: "abc123".to_string(),
        committer: "Ada".to_string(),
        email: "ada@example.com".to_string(),
        date: "2024-01-01 10:00:00".to_string(),
        message: "Added 3 movies".to_string(),
    };
    assert_eq!(
        log_lines(&e),
        vec![
            "commit_hash: abc123",
            "author:      Ada <ada@example.com>",
            "date:        2024-01-01 10:00:00",
            "message:     Added 3 movies"
        ]
    );
    assert_eq!(
        log_report(&vec![e.clone(), e]),
        vec![
            "-----------",
            "commit_hash: abc123",
            "author:      Ada <ada@example.com>",
            "date:        2024-01-01 10:00:00",
            "message:     Added 3 movies",
            "-----------",
            "commit_hash: abc123",
            "author:      Ada <ada@example.com>",
            "date:        2024-01-01 10:00:00",
            "message:     Added 3 movies",
            "-----------",
            ""
        ]
    );
}

#[test]
fn reports_part_their_entries_with_the_delimiter() {
    assert_eq!(DELIMITER, "-----------");
    let rows = vec![
        Movie { title: "Alien".to_string(), genre: "Horror".to_string(), year: 1979, rating: None },
        Movie {
            title: "Heat".to_string(),
            genre: "Crime".to_string(),
            year: 1995,
            rating: Some(83),
        },
    ];
    assert_eq!(
        movies_report(&rows),
        vec![
            "-----------",
            "Title:  Alien",
            "Genre:  Horror",
            "Year:   1979",
            "Rating: NULL",
            "-----------",
            "Title:  Heat",
            "Genre:  Crime",
            "Year:   1995",
            "Rating: 83",
            "-----------",
            ""
        ]
    );
    assert_eq!(
        diff_report(&vec![diff("renamed"), diff("added")]),
        vec![
            "-----------",
            "Unknown diff type: renamed",
            "-----------",
            "Added movie: ",
            "Title:  Heat",
            "Genre:  Crime",
            "Year:   1995",
            "Rating: 90",
            "-----------",
            ""
        ]
    );
}

#[test]
fn empty_reports_hold_the_closing_lines_only() {
    assert_eq!(movies_report(&vec![]), vec!["-----------", ""]);
    assert_eq!(diff_report(&vec![]), vec!["-----------", ""]);
    assert_eq!(log_report(&vec![]), vec!["-----------", ""]);
    assert_eq!(branches_report(&vec![]), vec![""]);
}

#[test]
fn branches_report_lists_the_names() {
    let branches = vec![
        DoltBranches { name: "main".to_string() },
        DoltBranches { name: "other".to_string() },
    ];
    assert_eq!(branches_report(&branches), vec!["main", "other", ""]);
}
