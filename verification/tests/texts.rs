use versioned_movies::error::StoreError;
use versioned_movies::text::{push_decimal, push_signed, rank_texts, same_text, signed_text, Rank};

#[test]
fn equal_texts_rank_the_same() {
    assert_eq!(rank_texts("", ""), Rank::Same);
    assert_eq!(rank_texts("Heat", "Heat"), Rank::Same);
    assert_eq!(rank_texts("Éclair", "Éclair"), Rank::Same);
}

#[test]
fn a_prefix_ranks_before_the_longer_text() {
    assert_eq!(rank_texts("", "a"), Rank::Before);
    assert_eq!(rank_texts("a", ""), Rank::After);
    assert_eq!(rank_texts("The Godfather", "The Godfather Part II"), Rank::Before);
    assert_eq!(rank_texts("The Godfather Part II", "The Godfather"), Rank::After);
}

#[test]
fn the_first_differing_character_decides() {
    assert_eq!(rank_texts("abc", "abd"), Rank::Before);
    assert_eq!(rank_texts("abd", "abc"), Rank::After);
    assert_eq!(rank_texts("b", "abc"), Rank::After);
    assert_eq!(rank_texts("Zebra", "apple"), Rank::Before);
    assert_eq!(rank_texts("z", "é"), Rank::Before);
    assert_eq!(rank_texts("é", "日"), Rank::Before);
    assert_eq!(rank_texts("日本", "日"), Rank::After);
}

#[test]
fn rank_agrees_with_the_order_of_strings() {
    let words = ["", "A", "a", "ab", "abc", "b", "Heat", "heat", "é", "日本", " ", "10", "9"];
    for a in words {
        for b in words {
            let expected = if a < b {
                Rank::Before
            } else if a == b {
                Rank::Same
            } else {
                Rank::After
            };
            assert_eq!(rank_texts(a, b), expected);
            assert_eq!(same_text(a, b), a == b);
        }
    }
}

#[test]
fn integers_are_written_in_decimal() {
    assert_eq!(signed_text(0), "0");
    assert_eq!(signed_text(7), "7");
    assert_eq!(signed_text(10), "10");
    assert_eq!(signed_text(1994), "1994");
    assert_eq!(signed_text(-1), "-1");
    assert_eq!(signed_text(-90), "-90");
    assert_eq!(signed_text(i32::MAX), "2147483647");
    assert_eq!(signed_text(i32::MIN), "-2147483648");
}

#[test]
fn decimal_notation_is_appended() {
    let mut s = String::from("n=");
    push_decimal(&mut s, 0);
    push_decimal(&mut s, 105);
    assert_eq!(s, "n=0105");
    let mut t = String::new();
    push_decimal(&mut t, u64::MAX);
    assert_eq!(t, "18446744073709551615");
    let mut u = String::from("[");
    push_signed(&mut u, -40);
    push_signed(&mut u, 2);
    assert_eq!(u, "[-402");
}

#[test]
fn decimal_notation_agrees_with_the_standard_one() {
    for v in [0, 1, 9, 10, 11, 99, 100, 101, 999, 1000, 65535, 123456789, -9, -10, -100, -123456789]
    {
        assert_eq!(signed_text(v), format!("{}", v));
    }
}

#[test]
fn failures_have_names() {
    assert_eq!(StoreError::DuplicateKey.name(), "DuplicateKey");
    assert_eq!(StoreError::NotFound.name(), "NotFound");
    assert_eq!(StoreError::NothingToCommit.name(), "NothingToCommit");
    assert_eq!(StoreError::BranchExists.name(), "BranchExists");
    assert_eq!(StoreError::BranchNotFound.name(), "BranchNotFound");
    assert_eq!(StoreError::DirtyCheckout.name(), "DirtyCheckout");
    assert_eq!(StoreError::MergeConflict.name(), "MergeConflict");
    assert_eq!(StoreError::ConnectionFailure.name(), "ConnectionFailure");
    assert_eq!(StoreError::QueryFailure.name(), "QueryFailure");
}
