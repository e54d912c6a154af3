//! The lines in which the state of the store is reported.

use crate::diff::{diff_views, kind_of, DiffKind};
use crate::history::log_views;
use crate::models::{
    text_view, DiffView, DoltBranches, DoltDiffMovies, DoltLog, LogView, Movie, MovieView,
};
use crate::session::branch_names;
use crate::table::views;
use crate::text::{push_signed, signed_decimal};
use vstd::prelude::*;
use vstd::string::*;

verus! {

/// The line that parts the entries of a report.
pub const DELIMITER: &'static str = "-----------";

/// The views of a sequence of lines.
pub open spec fn texts(v: Seq<String>) -> Seq<Seq<char>> {
    Seq::new(v.len(), |i: int| v[i]@)
}

/// A text, or `NULL` where there is none.
pub open spec fn text_or_null(o: Option<Seq<char>>) -> Seq<char> {
    match o {
        Some(s) => s,
        None => "NULL"@,
    }
}

/// A number in decimal notation, or `NULL` where there is none.
pub open spec fn number_or_null(o: Option<i32>) -> Seq<char> {
    match o {
        Some(n) => signed_decimal(n as int),
        None => "NULL"@,
    }
}

/// The four lines that show a row.
pub open spec fn movie_text(
    title: Option<Seq<char>>,
    genre: Option<Seq<char>>,
    year: Option<i32>,
    rating: Option<i32>,
) -> Seq<Seq<char>> {
    seq![
        "Title:  "@ + text_or_null(title),
        "Genre:  "@ + text_or_null(genre),
        "Year:   "@ + number_or_null(year),
        "Rating: "@ + number_or_null(rating),
    ]
}

/// The lines that show a diff record: an added row as it is, a removed row as
/// it was, a modified row as it is with its rating before and after the
/// change, and a record of no known kind by its word.
pub open spec fn diff_text(d: DiffView) -> Seq<Seq<char>> {
    match kind_of(d.diff_type) {
        Some(DiffKind::Added) => seq!["Added movie: "@] + movie_text(
            d.to_title,
            d.to_genre,
            d.to_year,
            d.to_rating,
        ),
        Some(DiffKind::Removed) => seq!["Removed movie: "@] + movie_text(
            d.from_title,
            d.from_genre,
            d.from_year,
            d.from_rating,
        ),
        Some(DiffKind::Modified) => seq![
            "Updated movie rating:"@,
            "Title:  "@ + text_or_null(d.to_title),
            "Genre:  "@ + text_or_null(d.to_genre),
            "Year:   "@ + number_or_null(d.to_year),
            "Rating: "@ + number_or_null(d.from_rating) + " -> "@ + number_or_null(d.to_rating),
        ],
        None => seq!["Unknown diff type: "@ + d.diff_type],
    }
}

/// The four lines that show an entry of the log.
pub open spec fn log_text(e: LogView) -> Seq<Seq<char>> {
    seq![
        "commit_hash: "@ + e.commit_hash,
        "author:      "@ + e.committer + " <"@ + e.email + ">"@,
        "date:        "@ + e.date,
        "message:     "@ + e.message,
    ]
}

/// The two lines that end a report: the delimiter and an empty line.
pub open spec fn closing() -> Seq<Seq<char>> {
    seq![DELIMITER@, Seq::empty()]
}

/// The lines of the rows, each after a delimiter.
pub open spec fn movies_body(rows: Seq<MovieView>) -> Seq<Seq<char>>
    decreases rows.len(),
{
    if rows.len() == 0 {
        Seq::empty()
    } else {
        let m = rows.last();
        movies_body(rows.drop_last()) + seq![DELIMITER@] + movie_text(
            Some(m.title),
            Some(m.genre),
            Some(m.year),
            m.rating,
        )
    }
}

/// The lines of the diff records, each after a delimiter.
pub open spec fn diffs_body(diffs: Seq<DiffView>) -> Seq<Seq<char>>
    decreases diffs.len(),
{
    if diffs.len() == 0 {
        Seq::empty()
    } else {
        diffs_body(diffs.drop_last()) + seq![DELIMITER@] + diff_text(diffs.last())
    }
}

/// The lines of the log entries, each after a delimiter.
pub open spec fn log_body(entries: Seq<LogView>) -> Seq<Seq<char>>
    decreases entries.len(),
{
    if entries.len() == 0 {
        Seq::empty()
    } else {
        log_body(entries.drop_last()) + seq![DELIMITER@] + log_text(entries.last())
    }
}

/// The line that announces an action on something that has a name.
pub open spec fn notice_text(action: Seq<char>, name: Seq<char>) -> Seq<char> {
    action + " '"@ + name + "'..."@
}

/// The line that announces an action on something that has a name, such as
/// `Inserting 'Alien'...`.
pub fn notice(action: &str, name: &str) -> (line: String)
    ensures
        line@ == notice_text(action@, name@),
{
    let mut line = String::from_str(action);
    line.append(" '");
    line.append(name);
    line.append("'...");
    line
}

/// The line that announces the comparison of two branches.
pub open spec fn comparing_text(from_branch: Seq<char>, to_branch: Seq<char>) -> Seq<char> {
    "Comparing diff from "@ + from_branch + " to "@ + to_branch + "..."@
}

/// The line that announces the comparison of two branches.
pub fn comparing_notice(from_branch: &str, to_branch: &str) -> (line: String)
    ensures
        line@ == comparing_text(from_branch@, to_branch@),
{
    let mut line = String::from_str("Comparing diff from ");
    line.append(from_branch);
    line.append(" to ");
    line.append(to_branch);
    line.append("...");
    line
}

fn labelled(label: &str, value: &str) -> (line: String)
    ensures
        line@ == label@ + value@,
{
    let mut line = String::from_str(label);
    line.append(value);
    line
}

fn text_line(label: &str, value: &Option<String>) -> (line: String)
    ensures
        line@ == label@ + text_or_null(text_view(*value)),
{
    match value {
        Some(s) => labelled(label, s.as_str()),
        None => labelled(label, "NULL"),
    }
}

fn push_number(line: &mut String, value: Option<i32>)
    ensures
        final(line)@ == old(line)@ + number_or_null(value),
{
    match value {
        Some(n) => push_signed(line, n),
        None => line.append("NULL"),
    }
}

fn number_line(label: &str, value: Option<i32>) -> (line: String)
    ensures
        line@ == label@ + number_or_null(value),
{
    let mut line = String::from_str(label);
    push_number(&mut line, value);
    line
}

/// The four lines that show a row of which any value may be absent.
pub fn movie_lines(
    title: &Option<String>,
    genre: &Option<String>,
    year: Option<i32>,
    rating: Option<i32>,
) -> (lines: Vec<String>)
    ensures
        texts(lines@) == movie_text(
            text_view(*title),
            text_view(*genre),
            year,
            rating,
        ),
{
    let mut lines: Vec<String> = Vec::new();
    lines.push(text_line("Title:  ", title));
    lines.push(text_line("Genre:  ", genre));
    lines.push(number_line("Year:   ", year));
    lines.push(number_line("Rating: ", rating));
    assert(texts(lines@) =~= movie_text(
        text_view(*title),
        text_view(*genre),
        year,
        rating,
    ));
    lines
}

fn push_all(out: &mut Vec<String>, lines: Vec<String>)
    ensures
        texts(final(out)@) == texts(old(out)@) + texts(lines@),
{
    let mut lines = lines;
    let ghost added = lines@;
    out.append(&mut lines);
    assert(texts(out@) =~= texts(old(out)@) + texts(added));
}

/// The lines that show a diff record.
pub fn diff_lines(diff: &DoltDiffMovies) -> (lines: Vec<String>)
    ensures
        texts(lines@) == diff_text(diff@),
{
    let mut lines: Vec<String> = Vec::new();
    match diff.kind() {
        Some(DiffKind::Added) => {
            lines.push(String::from_str("Added movie: "));
            push_all(
                &mut lines,
                movie_lines(&diff.to_title, &diff.to_genre, diff.to_year, diff.to_rating),
            );
        },
        Some(DiffKind::Removed) => {
            lines.push(String::from_str("Removed movie: "));
            push_all(
                &mut lines,
                movie_lines(&diff.from_title, &diff.from_genre, diff.from_year, diff.from_rating),
            );
        },
        Some(DiffKind::Modified) => {
            lines.push(String::from_str("Updated movie rating:"));
            lines.push(text_line("Title:  ", &diff.to_title));
            lines.push(text_line("Genre:  ", &diff.to_genre));
            lines.push(number_line("Year:   ", diff.to_year));
            let mut rating = number_line("Rating: ", diff.from_rating);
            rating.append(" -> ");
            push_number(&mut rating, diff.to_rating);
            lines.push(rating);
        },
        None => {
            lines.push(labelled("Unknown diff type: ", diff.diff_type.as_str()));
        },
    }
    assert(texts(lines@) =~= diff_text(diff@));
    lines
}

/// The four lines that show an entry of the log.
pub fn log_lines(entry: &DoltLog) -> (lines: Vec<String>)
    ensures
        texts(lines@) == log_text(entry@),
{
    let mut lines: Vec<String> = Vec::new();
    lines.push(labelled("commit_hash: ", entry.commit_hash.as_str()));
    let mut author = labelled("author:      ", entry.committer.as_str());
    author.append(" <");
    author.append(entry.email.as_str());
    author.append(">");
    lines.push(author);
    lines.push(labelled("date:        ", entry.date.as_str()));
    lines.push(labelled("message:     ", entry.message.as_str()));
    assert(texts(lines@) =~= log_text(entry@));
    lines
}

fn close(out: &mut Vec<String>)
    ensures
        texts(final(out)@) == texts(old(out)@) + closing(),
{
    out.push(String::from_str(DELIMITER));
    out.push(String::new());
    assert(texts(out@) =~= texts(old(out)@) + closing());
}

/// The report of the rows of the table: each row after a delimiter, then the
/// delimiter and an empty line.
pub fn movies_report(rows: &Vec<Movie>) -> (lines: Vec<String>)
    ensures
        texts(lines@) == movies_body(views(rows@)) + closing(),
{
    let ghost all = views(rows@);
    let mut lines: Vec<String> = Vec::new();
    let mut i: usize = 0;
    proof {
        assert(all.take(0) =~= Seq::<MovieView>::empty());
        assert(texts(lines@) =~= movies_body(all.take(0)));
    }
    while i < rows.len()
        invariant
            all == views(rows@),
            i <= rows.len(),
            texts(lines@) == movies_body(all.take(i as int)),
        decreases rows.len() - i,
    {
        let m = &rows[i];
        let ghost before = texts(lines@);
        lines.push(String::from_str(DELIMITER));
        let title = Some(m.title.clone());
        let genre = Some(m.genre.clone());
        push_all(&mut lines, movie_lines(&title, &genre, Some(m.year), m.rating));
        proof {
            let next = all.take(i + 1);
            assert(next.drop_last() =~= all.take(i as int));
            assert(next.last() == m@);
            assert(texts(lines@) =~= before + seq![DELIMITER@] + movie_text(
                Some(m@.title),
                Some(m@.genre),
                Some(m@.year),
                m@.rating,
            ));
        }
        i += 1;
    }
    assert(all.take(i as int) =~= all);
    close(&mut lines);
    lines
}

/// The report of a diff: each record after a delimiter, then the delimiter
/// and an empty line.
pub fn diff_report(diffs: &Vec<DoltDiffMovies>) -> (lines: Vec<String>)
    ensures
        texts(lines@) == diffs_body(diff_views(diffs@)) + closing(),
{
    let ghost all = diff_views(diffs@);
    let mut lines: Vec<String> = Vec::new();
    let mut i: usize = 0;
    proof {
        assert(all.take(0) =~= Seq::<DiffView>::empty());
        assert(texts(lines@) =~= diffs_body(all.take(0)));
    }
    while i < diffs.len()
        invariant
            all == diff_views(diffs@),
            i <= diffs.len(),
            texts(lines@) == diffs_body(all.take(i as int)),
        decreases diffs.len() - i,
    {
        let ghost before = texts(lines@);
        lines.push(String::from_str(DELIMITER));
        push_all(&mut lines, diff_lines(&diffs[i]));
        proof {
            let next = all.take(i + 1);
            assert(next.drop_last() =~= all.take(i as int));
            assert(next.last() == diffs[i as int]@);
            assert(texts(lines@) =~= before + seq![DELIMITER@] + diff_text(diffs[i as int]@));
        }
        i += 1;
    }
    assert(all.take(i as int) =~= all);
    close(&mut lines);
    lines
}

/// The report of the log: each entry after a delimiter, then the delimiter
/// and an empty line.
pub fn log_report(entries: &Vec<DoltLog>) -> (lines: Vec<String>)
    ensures
        texts(lines@) == log_body(log_views(entries@)) + closing(),
{
    let ghost all = log_views(entries@);
    let mut lines: Vec<String> = Vec::new();
    let mut i: usize = 0;
    proof {
        assert(all.take(0) =~= Seq::<LogView>::empty());
        assert(texts(lines@) =~= log_body(all.take(0)));
    }
    while i < entries.len()
        invariant
            all == log_views(entries@),
            i <= entries.len(),
            texts(lines@) == log_body(all.take(i as int)),
        decreases entries.len() - i,
    {
        let ghost before = texts(lines@);
        lines.push(String::from_str(DELIMITER));
        push_all(&mut lines, log_lines(&entries[i]));
        proof {
            let next = all.take(i + 1);
            assert(next.drop_last() =~= all.take(i as int));
            assert(next.last() == entries[i as int]@);
            assert(texts(lines@) =~= before + seq![DELIMITER@] + log_text(entries[i as int]@));
        }
        i += 1;
    }
    assert(all.take(i as int) =~= all);
    close(&mut lines);
    lines
}

/// The report of the branches: each name on a line, then an empty line.
pub fn branches_report(branches: &Vec<DoltBranches>) -> (lines: Vec<String>)
    ensures
        texts(lines@) == branch_names(branches@).push(Seq::empty()),
{
    let mut lines: Vec<String> = Vec::new();
    let mut i: usize = 0;
    while i < branches.len()
        invariant
            i <= branches.len(),
            lines.len() == i,
            forall|j: int| 0 <= j < i ==> (#[trigger] lines[j])@ == branches[j]@,
        decreases branches.len() - i,
    {
        lines.push(branches[i].name.clone());
        i += 1;
    }
    lines.push(String::new());
    assert(texts(lines@) =~= branch_names(branches@).push(Seq::empty()));
    lines
}

} // verus!
