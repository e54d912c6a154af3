//! Row-level differences between two states of the table.
//!
//! A row that only the later state has is `added`, a row that only the
//! earlier state has is `removed`, a row that both have with different values
//! is `modified`, and a row that both have unchanged is left out.

use crate::models::{DiffView, DoltDiffMovies, Movie, MovieView};
use crate::table::{
    has_title, index_of, lemma_gap_absent, lemma_skip_first, lemma_sorted_index, row_of, sorted,
    views, Table,
};
use crate::text::{
    lemma_text_lt_irreflexive, lemma_text_lt_total, lemma_text_lt_transitive, rank_texts,
    same_text, text_lt, Rank,
};
use vstd::prelude::*;
use vstd::string::*;

verus! {

/// The kind of a row-level difference.
#[derive(Clone, Copy, Debug, PartialEq, Eq, Structural)]
pub enum DiffKind {
    Added,
    Removed,
    Modified,
}

/// The word that a diff record carries for a kind.
pub open spec fn kind_name(k: DiffKind) -> Seq<char> {
    match k {
        DiffKind::Added => "added"@,
        DiffKind::Removed => "removed"@,
        DiffKind::Modified => "modified"@,
    }
}

/// The kind that a word names, if it names one.
pub open spec fn kind_of(word: Seq<char>) -> Option<DiffKind> {
    if word == "added"@ {
        Some(DiffKind::Added)
    } else if word == "removed"@ {
        Some(DiffKind::Removed)
    } else if word == "modified"@ {
        Some(DiffKind::Modified)
    } else {
        None
    }
}

/// The three words differ, so each kind is read back from its word.
pub proof fn lemma_kind_words(k: DiffKind)
    ensures
        kind_of(kind_name(k)) == Some(k),
{
    reveal_strlit("added");
    reveal_strlit("removed");
    reveal_strlit("modified");
    assert("added"@.len() == 5);
    assert("removed"@.len() == 7);
    assert("modified"@.len() == 8);
}

impl DiffKind {
    /// The word for this kind.
    pub fn name(&self) -> (s: &'static str)
        ensures
            s@ == kind_name(*self),
    {
        match self {
            DiffKind::Added => "added",
            DiffKind::Removed => "removed",
            DiffKind::Modified => "modified",
        }
    }

    /// Reads a kind from its word.
    pub fn parse(word: &str) -> (r: Option<DiffKind>)
        ensures
            r == kind_of(word@),
    {
        if same_text(word, "added") {
            Some(DiffKind::Added)
        } else if same_text(word, "removed") {
            Some(DiffKind::Removed)
        } else if same_text(word, "modified") {
            Some(DiffKind::Modified)
        } else {
            None
        }
    }
}

/// The record of a row that only the later state has.
pub open spec fn added(m: MovieView, from_ref: Seq<char>, to_ref: Seq<char>) -> DiffView {
    DiffView {
        to_title: Some(m.title),
        to_genre: Some(m.genre),
        to_year: Some(m.year),
        to_rating: m.rating,
        to_commit: Some(to_ref),
        from_title: None,
        from_genre: None,
        from_year: None,
        from_rating: None,
        from_commit: Some(from_ref),
        diff_type: kind_name(DiffKind::Added),
    }
}

/// The record of a row that only the earlier state has.
pub open spec fn removed(m: MovieView, from_ref: Seq<char>, to_ref: Seq<char>) -> DiffView {
    DiffView {
        to_title: None,
        to_genre: None,
        to_year: None,
        to_rating: None,
        to_commit: Some(to_ref),
        from_title: Some(m.title),
        from_genre: Some(m.genre),
        from_year: Some(m.year),
        from_rating: m.rating,
        from_commit: Some(from_ref),
        diff_type: kind_name(DiffKind::Removed),
    }
}

/// The record of a row that both states have, with different values.
pub open spec fn modified(
    was: MovieView,
    now: MovieView,
    from_ref: Seq<char>,
    to_ref: Seq<char>,
) -> DiffView {
    DiffView {
        to_title: Some(now.title),
        to_genre: Some(now.genre),
        to_year: Some(now.year),
        to_rating: now.rating,
        to_commit: Some(to_ref),
        from_title: Some(was.title),
        from_genre: Some(was.genre),
        from_year: Some(was.year),
        from_rating: was.rating,
        from_commit: Some(from_ref),
        diff_type: kind_name(DiffKind::Modified),
    }
}

/// The record, if any, for one title: `was` is the row of the earlier state
/// and `now` the row of the later one.
pub open spec fn change_of(
    was: Option<MovieView>,
    now: Option<MovieView>,
    from_ref: Seq<char>,
    to_ref: Seq<char>,
) -> Option<DiffView> {
    match (was, now) {
        (None, None) => None,
        (None, Some(n)) => Some(added(n, from_ref, to_ref)),
        (Some(w), None) => Some(removed(w, from_ref, to_ref)),
        (Some(w), Some(n)) => if w == n {
            None
        } else {
            Some(modified(w, n, from_ref, to_ref))
        },
    }
}

/// The differences between two sequences of sorted rows, in the order of the
/// titles: the two are walked together, and the smaller title goes first.
pub open spec fn diff_rows(
    from: Seq<MovieView>,
    to: Seq<MovieView>,
    from_ref: Seq<char>,
    to_ref: Seq<char>,
) -> Seq<DiffView>
    decreases from.len() + to.len(),
{
    if from.len() == 0 && to.len() == 0 {
        Seq::empty()
    } else if from.len() == 0 {
        seq![added(to[0], from_ref, to_ref)] + diff_rows(from, to.skip(1), from_ref, to_ref)
    } else if to.len() == 0 {
        seq![removed(from[0], from_ref, to_ref)] + diff_rows(from.skip(1), to, from_ref, to_ref)
    } else if text_lt(from[0].title, to[0].title) {
        seq![removed(from[0], from_ref, to_ref)] + diff_rows(from.skip(1), to, from_ref, to_ref)
    } else if text_lt(to[0].title, from[0].title) {
        seq![added(to[0], from_ref, to_ref)] + diff_rows(from, to.skip(1), from_ref, to_ref)
    } else if from[0] == to[0] {
        diff_rows(from.skip(1), to.skip(1), from_ref, to_ref)
    } else {
        seq![modified(from[0], to[0], from_ref, to_ref)] + diff_rows(
            from.skip(1),
            to.skip(1),
            from_ref,
            to_ref,
        )
    }
}

/// The views of a sequence of diff records.
pub open spec fn diff_views(v: Seq<DoltDiffMovies>) -> Seq<DiffView> {
    Seq::new(v.len(), |i: int| v[i]@)
}

/// The title of the row that a record is about.
pub open spec fn diff_title(d: DiffView) -> Seq<char> {
    match d.to_title {
        Some(t) => t,
        None => match d.from_title {
            Some(t) => t,
            None => Seq::empty(),
        },
    }
}

/// A record read in the other direction: the two sides change places, an
/// addition becomes a removal and a removal an addition.
pub open spec fn flip(d: DiffView) -> DiffView {
    DiffView {
        to_title: d.from_title,
        to_genre: d.from_genre,
        to_year: d.from_year,
        to_rating: d.from_rating,
        to_commit: d.from_commit,
        from_title: d.to_title,
        from_genre: d.to_genre,
        from_year: d.to_year,
        from_rating: d.to_rating,
        from_commit: d.to_commit,
        diff_type: match kind_of(d.diff_type) {
            Some(DiffKind::Added) => kind_name(DiffKind::Removed),
            Some(DiffKind::Removed) => kind_name(DiffKind::Added),
            _ => d.diff_type,
        },
    }
}

/// The records of a sequence, each read in the other direction.
pub open spec fn flip_all(d: Seq<DiffView>) -> Seq<DiffView> {
    Seq::new(d.len(), |i: int| flip(d[i]))
}

/// How the three forms of record read in the other direction.
pub proof fn lemma_flip_forms(was: MovieView, now: MovieView, from_ref: Seq<char>, to_ref: Seq<char>)
    ensures
        flip(added(now, from_ref, to_ref)) == removed(now, to_ref, from_ref),
        flip(removed(was, from_ref, to_ref)) == added(was, to_ref, from_ref),
        flip(modified(was, now, from_ref, to_ref)) == modified(now, was, to_ref, from_ref),
{
    lemma_kind_words(DiffKind::Added);
    lemma_kind_words(DiffKind::Removed);
    lemma_kind_words(DiffKind::Modified);
}

/// The differences from `to` back to `from` are the differences from `from`
/// to `to`, each read in the other direction: what was added one way is
/// removed the other way, and a modified row has its two sides exchanged.
pub proof fn lemma_diff_reverse(
    from: Seq<MovieView>,
    to: Seq<MovieView>,
    from_ref: Seq<char>,
    to_ref: Seq<char>,
)
    ensures
        diff_rows(to, from, to_ref, from_ref) == flip_all(diff_rows(from, to, from_ref, to_ref)),
        diff_rows(to, from, to_ref, from_ref).len() == diff_rows(from, to, from_ref, to_ref).len(),
        forall|k: int|
            0 <= k < diff_rows(from, to, from_ref, to_ref).len() ==> #[trigger] diff_rows(
                to,
                from,
                to_ref,
                from_ref,
            )[k] == flip(diff_rows(from, to, from_ref, to_ref)[k]),
    decreases from.len() + to.len(),
{
    let forth = diff_rows(from, to, from_ref, to_ref);
    let back = diff_rows(to, from, to_ref, from_ref);
    if from.len() == 0 && to.len() == 0 {
        assert(back =~= flip_all(forth));
    } else {
        if from.len() > 0 && to.len() > 0 {
            lemma_text_lt_total(from[0].title, to[0].title);
            lemma_flip_forms(from[0], to[0], from_ref, to_ref);
        }
        if from.len() > 0 {
            lemma_flip_forms(from[0], from[0], from_ref, to_ref);
        }
        if to.len() > 0 {
            lemma_flip_forms(to[0], to[0], from_ref, to_ref);
        }
        if from.len() == 0 || (to.len() > 0 && text_lt(to[0].title, from[0].title)) {
            lemma_diff_reverse(from, to.skip(1), from_ref, to_ref);
        } else if to.len() == 0 || text_lt(from[0].title, to[0].title) {
            lemma_diff_reverse(from.skip(1), to, from_ref, to_ref);
        } else {
            lemma_diff_reverse(from.skip(1), to.skip(1), from_ref, to_ref);
        }
        assert(back =~= flip_all(forth));
    }
}

/// A state of the table does not differ from itself.
pub proof fn lemma_diff_same(rows: Seq<MovieView>, from_ref: Seq<char>, to_ref: Seq<char>)
    ensures
        diff_rows(rows, rows, from_ref, to_ref) == Seq::<DiffView>::empty(),
    decreases rows.len(),
{
    if rows.len() > 0 {
        lemma_text_lt_irreflexive(rows[0].title);
        lemma_diff_same(rows.skip(1), from_ref, to_ref);
    }
}

/// What it is for `d` to be the differences from `from` to `to`: each
/// record is the change of the row that it is about, every row that changed
/// has its record, and the records stand in the order of the titles.
pub open spec fn classifies(
    d: Seq<DiffView>,
    from: Seq<MovieView>,
    to: Seq<MovieView>,
    from_ref: Seq<char>,
    to_ref: Seq<char>,
) -> bool {
    &&& forall|k: int|
        0 <= k < d.len() ==> change_of(
            row_of(from, diff_title(#[trigger] d[k])),
            row_of(to, diff_title(d[k])),
            from_ref,
            to_ref,
        ) == Some(d[k])
    &&& forall|t: Seq<char>|
        (#[trigger] change_of(row_of(from, t), row_of(to, t), from_ref, to_ref)) is Some
            ==> exists|k: int| 0 <= k < d.len() && diff_title(#[trigger] d[k]) == t
    &&& forall|a: int, b: int|
        0 <= a < b < d.len() ==> text_lt(diff_title(#[trigger] d[a]), diff_title(#[trigger] d[b]))
}

/// The zero or one records for one title.
pub open spec fn change_seq(
    was: Option<MovieView>,
    now: Option<MovieView>,
    from_ref: Seq<char>,
    to_ref: Seq<char>,
) -> Seq<DiffView> {
    match change_of(was, now, from_ref, to_ref) {
        Some(c) => seq![c],
        None => Seq::empty(),
    }
}

proof fn lemma_classifies_step(
    from: Seq<MovieView>,
    to: Seq<MovieView>,
    from_rest: Seq<MovieView>,
    to_rest: Seq<MovieView>,
    h: Seq<char>,
    rest: Seq<DiffView>,
    from_ref: Seq<char>,
    to_ref: Seq<char>,
)
    requires
        classifies(rest, from_rest, to_rest, from_ref, to_ref),
        has_title(from, h) || has_title(to, h),
        forall|t: Seq<char>| t != h ==> #[trigger] row_of(from_rest, t) == row_of(from, t),
        forall|t: Seq<char>| t != h ==> #[trigger] row_of(to_rest, t) == row_of(to, t),
        !has_title(from_rest, h),
        !has_title(to_rest, h),
        forall|t: Seq<char>| #[trigger] has_title(from_rest, t) ==> text_lt(h, t),
        forall|t: Seq<char>| #[trigger] has_title(to_rest, t) ==> text_lt(h, t),
    ensures
        classifies(
            change_seq(row_of(from, h), row_of(to, h), from_ref, to_ref) + rest,
            from,
            to,
            from_ref,
            to_ref,
        ),
{
    let hd = change_seq(row_of(from, h), row_of(to, h), from_ref, to_ref);
    let d = hd + rest;
    let n = hd.len() as int;
    assert forall|k: int| 0 <= k < rest.len() implies diff_title(#[trigger] rest[k]) != h
        && text_lt(h, diff_title(rest[k])) && row_of(from, diff_title(rest[k])) == row_of(
        from_rest,
        diff_title(rest[k]),
    ) && row_of(to, diff_title(rest[k])) == row_of(to_rest, diff_title(rest[k])) by {
        let t = diff_title(rest[k]);
        assert(change_of(row_of(from_rest, t), row_of(to_rest, t), from_ref, to_ref) == Some(
            rest[k],
        ));
        assert(has_title(from_rest, t) || has_title(to_rest, t));
        lemma_text_lt_irreflexive(h);
    }
    assert forall|k: int| 0 <= k < d.len() implies change_of(
        row_of(from, diff_title(#[trigger] d[k])),
        row_of(to, diff_title(d[k])),
        from_ref,
        to_ref,
    ) == Some(d[k]) by {
        if k < n {
            assert(d[k] == hd[0]);
        } else {
            assert(d[k] == rest[k - n]);
        }
    }
    assert forall|t: Seq<char>|
        (#[trigger] change_of(row_of(from, t), row_of(to, t), from_ref, to_ref)) is Some implies exists|
        k: int,
    |
        0 <= k < d.len() && diff_title(#[trigger] d[k]) == t by {
        if t == h {
            assert(d[0] == hd[0]);
            assert(diff_title(d[0]) == t);
        } else {
            assert(row_of(from_rest, t) == row_of(from, t));
            assert(row_of(to_rest, t) == row_of(to, t));
            assert(change_of(row_of(from_rest, t), row_of(to_rest, t), from_ref, to_ref) is Some);
            let k = choose|k: int| 0 <= k < rest.len() && diff_title(#[trigger] rest[k]) == t;
            assert(d[k + n] == rest[k]);
            assert(diff_title(d[k + n]) == t);
        }
    }
    assert forall|a: int, b: int| 0 <= a < b < d.len() implies text_lt(
        diff_title(#[trigger] d[a]),
        diff_title(#[trigger] d[b]),
    ) by {
        if a < n {
            assert(d[a] == hd[0]);
            assert(d[b] == rest[b - n]);
            assert(diff_title(d[a]) == h);
        } else {
            assert(d[a] == rest[a - n]);
            assert(d[b] == rest[b - n]);
        }
    }
}

/// The classification rule: the differences between two sorted tables hold,
/// for each title whose row differs between them, exactly one record, which
/// is `added` where only `to` has the row, `removed` where only `from` has it
/// and `modified` where both have it with different values; a row that is the
/// same in both has no record. The records stand in the order of the titles.
pub proof fn lemma_diff_classifies(
    from: Seq<MovieView>,
    to: Seq<MovieView>,
    from_ref: Seq<char>,
    to_ref: Seq<char>,
)
    requires
        sorted(from),
        sorted(to),
    ensures
        classifies(diff_rows(from, to, from_ref, to_ref), from, to, from_ref, to_ref),
    decreases from.len() + to.len(),
{
    if from.len() == 0 && to.len() == 0 {
    } else {
        let take_from = from.len() > 0 && (to.len() == 0 || !text_lt(to[0].title, from[0].title));
        let take_to = to.len() > 0 && (from.len() == 0 || !text_lt(from[0].title, to[0].title));
        let from_rest = if take_from {
            from.skip(1)
        } else {
            from
        };
        let to_rest = if take_to {
            to.skip(1)
        } else {
            to
        };
        let h = if take_from {
            from[0].title
        } else {
            to[0].title
        };
        if from.len() > 0 && to.len() > 0 {
            lemma_text_lt_total(from[0].title, to[0].title);
        }
        if from.len() > 0 {
            lemma_skip_first(from);
        }
        if to.len() > 0 {
            lemma_skip_first(to);
        }
        lemma_text_lt_irreflexive(h);
        if take_from {
            lemma_sorted_index(from, 0);
            assert forall|t: Seq<char>| #[trigger] has_title(from_rest, t) implies text_lt(h, t) by {
                let k = index_of(from_rest, t);
                assert(from_rest[k] == from[k + 1]);
            }
        } else {
            assert forall|j: int| 0 <= j < from.len() implies text_lt(h, (#[trigger] from[j]).title) by {
                if j > 0 {
                    lemma_text_lt_transitive(h, from[0].title, from[j].title);
                }
            }
            lemma_gap_absent(from, h, 0);
            assert forall|t: Seq<char>| #[trigger] has_title(from_rest, t) implies text_lt(h, t) by {
                let k = index_of(from_rest, t);
                assert(text_lt(h, from[k].title));
            }
        }
        if take_to {
            lemma_sorted_index(to, 0);
            assert forall|t: Seq<char>| #[trigger] has_title(to_rest, t) implies text_lt(h, t) by {
                let k = index_of(to_rest, t);
                assert(to_rest[k] == to[k + 1]);
            }
        } else {
            assert forall|j: int| 0 <= j < to.len() implies text_lt(h, (#[trigger] to[j]).title) by {
                if j > 0 {
                    lemma_text_lt_transitive(h, to[0].title, to[j].title);
                }
            }
            lemma_gap_absent(to, h, 0);
            assert forall|t: Seq<char>| #[trigger] has_title(to_rest, t) implies text_lt(h, t) by {
                let k = index_of(to_rest, t);
                assert(text_lt(h, to[k].title));
            }
        }
        lemma_diff_classifies(from_rest, to_rest, from_ref, to_ref);
        let rest = diff_rows(from_rest, to_rest, from_ref, to_ref);
        lemma_classifies_step(from, to, from_rest, to_rest, h, rest, from_ref, to_ref);
        assert(diff_rows(from, to, from_ref, to_ref) =~= change_seq(
            row_of(from, h),
            row_of(to, h),
            from_ref,
            to_ref,
        ) + rest);
    }
}

impl DoltDiffMovies {
    /// The record of a row that only the later state has.
    pub fn added(m: &Movie, from_ref: &str, to_ref: &str) -> (d: DoltDiffMovies)
        ensures
            d@ == added(m@, from_ref@, to_ref@),
    {
        DoltDiffMovies {
            to_title: Some(m.title.clone()),
            to_genre: Some(m.genre.clone()),
            to_year: Some(m.year),
            to_rating: m.rating,
            to_commit: Some(String::from_str(to_ref)),
            from_title: None,
            from_genre: None,
            from_year: None,
            from_rating: None,
            from_commit: Some(String::from_str(from_ref)),
            diff_type: String::from_str(DiffKind::Added.name()),
        }
    }

    /// The record of a row that only the earlier state has.
    pub fn removed(m: &Movie, from_ref: &str, to_ref: &str) -> (d: DoltDiffMovies)
        ensures
            d@ == removed(m@, from_ref@, to_ref@),
    {
        DoltDiffMovies {
            to_title: None,
            to_genre: None,
            to_year: None,
            to_rating: None,
            to_commit: Some(String::from_str(to_ref)),
            from_title: Some(m.title.clone()),
            from_genre: Some(m.genre.clone()),
            from_year: Some(m.year),
            from_rating: m.rating,
            from_commit: Some(String::from_str(from_ref)),
            diff_type: String::from_str(DiffKind::Removed.name()),
        }
    }

    /// The record of a row that both states have, with different values.
    pub fn modified(was: &Movie, now: &Movie, from_ref: &str, to_ref: &str) -> (d: DoltDiffMovies)
        ensures
            d@ == modified(was@, now@, from_ref@, to_ref@),
    {
        DoltDiffMovies {
            to_title: Some(now.title.clone()),
            to_genre: Some(now.genre.clone()),
            to_year: Some(now.year),
            to_rating: now.rating,
            to_commit: Some(String::from_str(to_ref)),
            from_title: Some(was.title.clone()),
            from_genre: Some(was.genre.clone()),
            from_year: Some(was.year),
            from_rating: was.rating,
            from_commit: Some(String::from_str(from_ref)),
            diff_type: String::from_str(DiffKind::Modified.name()),
        }
    }

    /// The kind of the record, if its word names one.
    pub fn kind(&self) -> (k: Option<DiffKind>)
        ensures
            k == kind_of(self@.diff_type),
    {
        DiffKind::parse(self.diff_type.as_str())
    }
}

/// The row-level differences that lead from the table `from` to the table
/// `to`, in the order of the titles. `from_ref` and `to_ref` name the two
/// states in each record. Of two tables that keep their invariant the answer
/// holds exactly one record for each title whose row differs, of the kind
/// that the classification rule gives.
pub fn diff_tables(from: &Table, to: &Table, from_ref: &str, to_ref: &str) -> (out: Vec<
    DoltDiffMovies,
>)
    ensures
        diff_views(out@) == diff_rows(from@.rows, to@.rows, from_ref@, to_ref@),
        from.wf() && to.wf() ==> classifies(
            diff_views(out@),
            from@.rows,
            to@.rows,
            from_ref@,
            to_ref@,
        ),
{
    let ghost f = from@.rows;
    let ghost t = to@.rows;
    let ghost whole = diff_rows(f, t, from_ref@, to_ref@);
    let n = from.len();
    let m = to.len();
    let mut out: Vec<DoltDiffMovies> = Vec::new();
    let mut i: usize = 0;
    let mut j: usize = 0;
    proof {
        assert(f.skip(0) =~= f);
        assert(t.skip(0) =~= t);
        assert(diff_views(out@) + whole =~= whole);
    }
    while i < n || j < m
        invariant
            f == from@.rows,
            t == to@.rows,
            n == f.len(),
            m == t.len(),
            i <= n,
            j <= m,
            whole == diff_rows(f, t, from_ref@, to_ref@),
            diff_views(out@) + diff_rows(f.skip(i as int), t.skip(j as int), from_ref@, to_ref@)
                == whole,
        decreases (n - i) + (m - j),
    {
        let ghost fs = f.skip(i as int);
        let ghost ts = t.skip(j as int);
        let ghost before = diff_views(out@);
        proof {
            if i < n {
                assert(fs.skip(1) =~= f.skip(i + 1));
            }
            if j < m {
                assert(ts.skip(1) =~= t.skip(j + 1));
            }
        }
        let step: Rank = if i >= n {
            Rank::After
        } else if j >= m {
            Rank::Before
        } else {
            rank_texts(from.row(i).title.as_str(), to.row(j).title.as_str())
        };
        match step {
            Rank::Before => {
                let d = DoltDiffMovies::removed(from.row(i), from_ref, to_ref);
                out.push(d);
                i += 1;
                proof {
                    assert(diff_views(out@) =~= before.push(d@));
                    assert(diff_rows(fs, ts, from_ref@, to_ref@) == seq![d@] + diff_rows(
                        fs.skip(1),
                        ts,
                        from_ref@,
                        to_ref@,
                    ));
                    assert(before.push(d@) + diff_rows(fs.skip(1), ts, from_ref@, to_ref@)
                        =~= before + (seq![d@] + diff_rows(fs.skip(1), ts, from_ref@, to_ref@)));
                }
            },
            Rank::After => {
                let d = DoltDiffMovies::added(to.row(j), from_ref, to_ref);
                out.push(d);
                j += 1;
                proof {
                    if fs.len() > 0 {
                        lemma_text_lt_total(fs[0].title, ts[0].title);
                    }
                    assert(diff_views(out@) =~= before.push(d@));
                    assert(diff_rows(fs, ts, from_ref@, to_ref@) == seq![d@] + diff_rows(
                        fs,
                        ts.skip(1),
                        from_ref@,
                        to_ref@,
                    ));
                    assert(before.push(d@) + diff_rows(fs, ts.skip(1), from_ref@, to_ref@)
                        =~= before + (seq![d@] + diff_rows(fs, ts.skip(1), from_ref@, to_ref@)));
                }
            },
            Rank::Same => {
                proof {
                    lemma_text_lt_irreflexive(fs[0].title);
                }
                if !from.row(i).same_as(to.row(j)) {
                    let d = DoltDiffMovies::modified(from.row(i), to.row(j), from_ref, to_ref);
                    out.push(d);
                    proof {
                        assert(diff_views(out@) =~= before.push(d@));
                        assert(diff_rows(fs, ts, from_ref@, to_ref@) == seq![d@] + diff_rows(
                            fs.skip(1),
                            ts.skip(1),
                            from_ref@,
                            to_ref@,
                        ));
                        assert(before.push(d@) + diff_rows(
                            fs.skip(1),
                            ts.skip(1),
                            from_ref@,
                            to_ref@,
                        ) =~= before + (seq![d@] + diff_rows(
                            fs.skip(1),
                            ts.skip(1),
                            from_ref@,
                            to_ref@,
                        )));
                    }
                }
                i += 1;
                j += 1;
            },
        }
    }
    proof {
        assert(diff_views(out@) + Seq::<DiffView>::empty() =~= diff_views(out@));
        if from.wf() && to.wf() {
            lemma_diff_classifies(f, t, from_ref@, to_ref@);
        }
    }
    out
}

} // verus!
