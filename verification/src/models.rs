//! The records that travel between the store and its callers.

use vstd::prelude::*;
use vstd::string::*;

verus! {

/// What a movie row holds, as mathematical values.
pub struct MovieView {
    pub title: Seq<char>,
    pub genre: Seq<char>,
    pub year: i32,
    pub rating: Option<i32>,
}

/// A row of the table `movies`. The title identifies the row.
#[derive(Clone, Debug, PartialEq, Eq)]
pub struct Movie {
    pub title: String,
    pub genre: String,
    pub year: i32,
    pub rating: Option<i32>,
}

impl View for Movie {
    type V = MovieView;

    open spec fn view(&self) -> MovieView {
        MovieView { title: self.title@, genre: self.genre@, year: self.year, rating: self.rating }
    }
}

impl Movie {
    /// A copy of the row.
    pub fn duplicate(&self) -> (r: Movie)
        ensures
            r@ == self@,
    {
        Movie {
            title: self.title.clone(),
            genre: self.genre.clone(),
            year: self.year,
            rating: self.rating,
        }
    }

    /// Whether two rows hold the same values.
    pub fn same_as(&self, other: &Movie) -> (r: bool)
        ensures
            r == (self@ == other@),
    {
        let same_rating = match (self.rating, other.rating) {
            (Some(a), Some(b)) => a == b,
            (None, None) => true,
            _ => false,
        };
        self.title == other.title && self.genre == other.genre && self.year == other.year
            && same_rating
    }
}

/// A row that is about to be inserted; it borrows its texts.
#[derive(Clone, Copy, Debug, PartialEq, Eq)]
pub struct NewMovie<'a> {
    pub title: &'a str,
    pub genre: &'a str,
    pub year: i32,
    pub rating: Option<i32>,
}

impl<'a> View for NewMovie<'a> {
    type V = MovieView;

    open spec fn view(&self) -> MovieView {
        MovieView { title: self.title@, genre: self.genre@, year: self.year, rating: self.rating }
    }
}

impl<'a> NewMovie<'a> {
    /// The row that the store will hold once this one is inserted.
    pub fn to_movie(&self) -> (r: Movie)
        ensures
            r@ == self@,
    {
        Movie {
            title: String::from_str(self.title),
            genre: String::from_str(self.genre),
            year: self.year,
            rating: self.rating,
        }
    }
}

/// The view of a text that may be absent.
pub open spec fn text_view(o: Option<String>) -> Option<Seq<char>> {
    match o {
        Some(s) => Some(s@),
        None => None,
    }
}

/// What a diff record holds, as mathematical values.
pub struct DiffView {
    pub to_title: Option<Seq<char>>,
    pub to_genre: Option<Seq<char>>,
    pub to_year: Option<i32>,
    pub to_rating: Option<i32>,
    pub to_commit: Option<Seq<char>>,
    pub from_title: Option<Seq<char>>,
    pub from_genre: Option<Seq<char>>,
    pub from_year: Option<i32>,
    pub from_rating: Option<i32>,
    pub from_commit: Option<Seq<char>>,
    pub diff_type: Seq<char>,
}

/// One row-level difference between two states of the table: the row as it
/// was (`from_*`), the row as it is (`to_*`) and the kind of change.
#[derive(Clone, Debug, PartialEq, Eq)]
pub struct DoltDiffMovies {
    pub to_title: Option<String>,
    pub to_genre: Option<String>,
    pub to_year: Option<i32>,
    pub to_rating: Option<i32>,
    pub to_commit: Option<String>,
    pub from_title: Option<String>,
    pub from_genre: Option<String>,
    pub from_year: Option<i32>,
    pub from_rating: Option<i32>,
    pub from_commit: Option<String>,
    pub diff_type: String,
}

impl View for DoltDiffMovies {
    type V = DiffView;

    open spec fn view(&self) -> DiffView {
        DiffView {
            to_title: text_view(self.to_title),
            to_genre: text_view(self.to_genre),
            to_year: self.to_year,
            to_rating: self.to_rating,
            to_commit: text_view(self.to_commit),
            from_title: text_view(self.from_title),
            from_genre: text_view(self.from_genre),
            from_year: self.from_year,
            from_rating: self.from_rating,
            from_commit: text_view(self.from_commit),
            diff_type: self.diff_type@,
        }
    }
}

/// What an entry of the commit log holds, as mathematical values.
pub struct LogView {
    pub commit_hash: Seq<char>,
    pub committer: Seq<char>,
    pub email: Seq<char>,
    pub date: Seq<char>,
    pub message: Seq<char>,
}

/// One entry of the commit log.
#[derive(Clone, Debug, PartialEq, Eq)]
pub struct DoltLog {
    pub commit_hash: String,
    pub committer: String,
    pub email: String,
    pub date: String,
    pub message: String,
}

impl View for DoltLog {
    type V = LogView;

    open spec fn view(&self) -> LogView {
        LogView {
            commit_hash: self.commit_hash@,
            committer: self.committer@,
            email: self.email@,
            date: self.date@,
            message: self.message@,
        }
    }
}

impl DoltLog {
    /// A copy of the entry.
    pub fn duplicate(&self) -> (r: DoltLog)
        ensures
            r@ == self@,
    {
        DoltLog {
            commit_hash: self.commit_hash.clone(),
            committer: self.committer.clone(),
            email: self.email.clone(),
            date: self.date.clone(),
            message: self.message.clone(),
        }
    }
}

/// One entry of the list of branches.
#[derive(Clone, Debug, PartialEq, Eq)]
pub struct DoltBranches {
    pub name: String,
}

impl View for DoltBranches {
    type V = Seq<char>;

    open spec fn view(&self) -> Seq<char> {
        self.name@
    }
}

} // verus!
