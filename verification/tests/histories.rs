use versioned_movies::history::{ancestry, log_entries, merge_base, Commit};
use versioned_movies::models::DoltLog;
use versioned_movies::table::Table;

fn entry(place: usize, message: &str) -> DoltLog {
    DoltLog {
        commit_hash: place.to_string(),
        committer: "Ada".to_string(),
        email: "ada@example.com".to_string(),
        date: "2024-01-01".to_string(),
        message: message.to_string(),
    }
}

/// The graph
///
/// ```text
/// 0 - 1 - 2 ----- 5 - 6
///      \         /
///       3 ----- 4
/// ```
fn graph() -> Vec<Commit> {
    vec![
        Commit::new(entry(0, "root"), None, None, Table::new()),
        Commit::new(entry(1, "one"), Some(0), None, Table::new()),
        Commit::new(entry(2, "two"), Some(1), None, Table::new()),
        Commit::new(entry(3, "three"), Some(1), None, Table::new()),
        Commit::new(entry(4, "four"), Some(3), None, Table::new()),
        Commit::new(entry(5, "five"), Some(2), Some(4), Table::new()),
        Commit::new(entry(6, "six"), Some(5), None, Table::new()),
    ]
}

fn messages(log: &[DoltLog]) -> Vec<String> {
    log.iter().map(|e| e.message.clone()).collect()
}

#[test]
fn commit_gives_back_what_it_was_made_of() {
    let c = Commit::new(entry(5, "five"), Some(2), Some(4), Table::new());
    assert_eq!(c.info(), &entry(5, "five"));
    assert_eq!(c.parent(), Some(2));
    assert_eq!(c.merged(), Some(4));
    assert!(!c.table().is_created());
}

#[test]
fn ancestry_marks_what_a_commit_grew_from() {
    let g = graph();
    assert_eq!(ancestry(&g, 0), vec![true]);
    assert_eq!(ancestry(&g, 2), vec![true, true, true]);
    assert_eq!(ancestry(&g, 4), vec![true, true, false, true, true]);
    assert_eq!(ancestry(&g, 5), vec![true, true, true, true, true, true]);
    assert_eq!(ancestry(&g, 6), vec![true; 7]);
}

#[test]
fn log_lists_the_ancestry_latest_first() {
    let g = graph();
    assert_eq!(messages(&log_entries(&g, 0)), vec!["root"]);
    assert_eq!(messages(&log_entries(&g, 2)), vec!["two", "one", "root"]);
    assert_eq!(messages(&log_entries(&g, 4)), vec!["four", "three", "one", "root"]);
    assert_eq!(
        messages(&log_entries(&g, 6)),
        vec!["six", "five", "four", "three", "two", "one", "root"]
    );
}

#[test]
fn merge_base_is_the_latest_common_commit() {
    let g = graph();
    assert_eq!(merge_base(&g, 2, 4), 1);
    assert_eq!(merge_base(&g, 4, 2), 1);
    assert_eq!(merge_base(&g, 2, 3), 1);
    assert_eq!(merge_base(&g, 5, 4), 4);
    assert_eq!(merge_base(&g, 6, 2), 2);
    assert_eq!(merge_base(&g, 3, 3), 3);
    assert_eq!(merge_base(&g, 0, 6), 0);
    assert_eq!(merge_base(&g, 1, 4), 1);
}
