//! One state of the table `movies`: its rows, kept in the order of their
//! titles, so that no two rows share a title.

use crate::error::StoreError;
use crate::models::{Movie, MovieView};
use crate::text::{
    lemma_text_lt_irreflexive, lemma_text_lt_total, lemma_text_lt_transitive, rank_texts, text_lt,
    Rank,
};
use vstd::prelude::*;

verus! {

/// The rows stand in the strict order of their titles.
pub open spec fn sorted(s: Seq<MovieView>) -> bool {
    forall|i: int, j: int| 0 <= i < j < s.len() ==> text_lt(#[trigger] s[i].title, #[trigger] s[j].title)
}

/// Some row has the title `t`.
pub open spec fn has_title(s: Seq<MovieView>, t: Seq<char>) -> bool {
    exists|i: int| 0 <= i < s.len() && (#[trigger] s[i]).title == t
}

/// A place at which `t` is found, where it is found at all.
pub open spec fn index_of(s: Seq<MovieView>, t: Seq<char>) -> int {
    choose|i: int| 0 <= i < s.len() && (#[trigger] s[i]).title == t
}

/// The rows as a map from title to row.
pub open spec fn rows_map(s: Seq<MovieView>) -> Map<Seq<char>, MovieView> {
    Map::new(|t: Seq<char>| has_title(s, t), |t: Seq<char>| s[index_of(s, t)])
}

/// The row with title `t`, if there is one.
pub open spec fn row_of(s: Seq<MovieView>, t: Seq<char>) -> Option<MovieView> {
    if has_title(s, t) {
        Some(s[index_of(s, t)])
    } else {
        None
    }
}

/// The row of a title, read from the map of the rows.
pub proof fn lemma_row_of_map(s: Seq<MovieView>, t: Seq<char>)
    ensures
        row_of(s, t) == (if rows_map(s).dom().contains(t) {
            Some(rows_map(s)[t])
        } else {
            None
        }),
{
}

/// In sorted rows each title is found at one place only.
pub proof fn lemma_sorted_index(s: Seq<MovieView>, i: int)
    requires
        sorted(s),
        0 <= i < s.len(),
    ensures
        has_title(s, s[i].title),
        index_of(s, s[i].title) == i,
        row_of(s, s[i].title) == Some(s[i]),
        rows_map(s).dom().contains(s[i].title),
        rows_map(s)[s[i].title] == s[i],
{
    let t = s[i].title;
    let j = index_of(s, t);
    lemma_text_lt_irreflexive(t);
    if j < i {
        assert(text_lt(s[j].title, s[i].title));
    } else if i < j {
        assert(text_lt(s[i].title, s[j].title));
    }
}

/// Sorted rows are determined by the map that they form.
pub proof fn lemma_sorted_unique(a: Seq<MovieView>, b: Seq<MovieView>)
    requires
        sorted(a),
        sorted(b),
        rows_map(a) == rows_map(b),
    ensures
        a == b,
    decreases a.len(),
{
    if a.len() == 0 {
        if b.len() > 0 {
            lemma_sorted_index(b, 0);
            assert(rows_map(a).dom().contains(b[0].title));
        }
        assert(a =~= b);
    } else if b.len() == 0 {
        lemma_sorted_index(a, 0);
        assert(rows_map(b).dom().contains(a[0].title));
    } else {
        // The first rows agree: each is the least title of the common map.
        lemma_sorted_index(a, 0);
        lemma_sorted_index(b, 0);
        assert(has_title(b, a[0].title));
        assert(has_title(a, b[0].title));
        let ja = index_of(b, a[0].title);
        let jb = index_of(a, b[0].title);
        lemma_text_lt_total(a[0].title, b[0].title);
        if ja > 0 {
            assert(text_lt(b[0].title, b[ja].title));
        }
        if jb > 0 {
            assert(text_lt(a[0].title, a[jb].title));
        }
        assert(a[0].title == b[0].title);
        assert(a[0] == b[0]);
        let ta = a.skip(1);
        let tb = b.skip(1);
        lemma_skip_first(a);
        lemma_skip_first(b);
        assert(rows_map(ta) =~= rows_map(a).remove(a[0].title));
        assert(rows_map(tb) =~= rows_map(b).remove(b[0].title));
        lemma_sorted_unique(ta, tb);
        assert(a =~= seq![a[0]] + ta);
        assert(b =~= seq![b[0]] + tb);
    }
}

/// The sorted rows that form the map `m`.
pub open spec fn sorted_rows(m: Map<Seq<char>, MovieView>) -> Seq<MovieView> {
    choose|r: Seq<MovieView>| sorted(r) && rows_map(r) == m
}

/// Sorted rows are the sorted rows of their map.
pub proof fn lemma_sorted_rows(r: Seq<MovieView>)
    requires
        sorted(r),
    ensures
        sorted_rows(rows_map(r)) == r,
{
    let c = sorted_rows(rows_map(r));
    assert(sorted(c) && rows_map(c) == rows_map(r));
    lemma_sorted_unique(c, r);
}

/// Without their first row, sorted rows are sorted and form the same map
/// less the first title.
pub proof fn lemma_skip_first(s: Seq<MovieView>)
    requires
        sorted(s),
        s.len() > 0,
    ensures
        sorted(s.skip(1)),
        !has_title(s.skip(1), s[0].title),
        forall|t: Seq<char>| t != s[0].title ==> row_of(s.skip(1), t) == row_of(s, t),
        row_of(s, s[0].title) == Some(s[0]),
        rows_map(s.skip(1)) == rows_map(s).remove(s[0].title),
{
    let r = s.skip(1);
    assert forall|i: int, j: int| 0 <= i < j < r.len() implies text_lt(
        #[trigger] r[i].title,
        #[trigger] r[j].title,
    ) by {
        assert(r[i] == s[i + 1] && r[j] == s[j + 1]);
    }
    lemma_sorted_index(s, 0);
    if has_title(r, s[0].title) {
        let k = index_of(r, s[0].title);
        assert(r[k] == s[k + 1]);
        assert(text_lt(s[0].title, s[k + 1].title));
        lemma_text_lt_irreflexive(s[0].title);
    }
    assert forall|t: Seq<char>| t != s[0].title implies row_of(r, t) == row_of(s, t) by {
        if has_title(r, t) {
            let k = index_of(r, t);
            assert(r[k] == s[k + 1]);
            lemma_sorted_index(r, k);
            lemma_sorted_index(s, k + 1);
        } else if has_title(s, t) {
            let k = index_of(s, t);
            assert(k > 0);
            assert(r[k - 1] == s[k]);
        }
    }
    assert(rows_map(r) =~= rows_map(s).remove(s[0].title)) by {
        assert forall|t: Seq<char>| rows_map(r).dom().contains(t) <==> rows_map(s).remove(
            s[0].title,
        ).dom().contains(t) by {
            if t != s[0].title {
                assert(row_of(r, t) == row_of(s, t));
            }
        }
        assert forall|t: Seq<char>| rows_map(r).dom().contains(t) implies rows_map(r)[t]
            == rows_map(s).remove(s[0].title)[t] by {
            assert(row_of(r, t) == row_of(s, t));
        }
    }
}

/// Where `t` stands among sorted rows: every row before place `p` has a
/// smaller title, every row from `p` on a greater one.
pub open spec fn gap_at(s: Seq<MovieView>, t: Seq<char>, p: int) -> bool {
    &&& 0 <= p <= s.len()
    &&& forall|j: int| 0 <= j < p ==> text_lt((#[trigger] s[j]).title, t)
    &&& forall|j: int| p <= j < s.len() ==> text_lt(t, (#[trigger] s[j]).title)
}

/// A title that stands in a gap is the title of no row.
pub proof fn lemma_gap_absent(s: Seq<MovieView>, t: Seq<char>, p: int)
    requires
        gap_at(s, t, p),
    ensures
        !has_title(s, t),
        row_of(s, t) is None,
        !rows_map(s).dom().contains(t),
{
    lemma_text_lt_irreflexive(t);
    if has_title(s, t) {
        let k = index_of(s, t);
        if k < p {
            assert(text_lt(s[k].title, t));
        } else {
            assert(text_lt(t, s[k].title));
        }
    }
}

/// A title that no row has stands in some gap.
pub proof fn lemma_gap_exists(s: Seq<MovieView>, t: Seq<char>) -> (p: int)
    requires
        sorted(s),
        !has_title(s, t),
    ensures
        gap_at(s, t, p),
    decreases s.len(),
{
    if s.len() == 0 {
        0
    } else {
        let last = s.len() - 1;
        lemma_text_lt_total(s[last].title, t);
        assert(s[last].title != t);
        if text_lt(s[last].title, t) {
            assert forall|j: int| 0 <= j < s.len() implies text_lt((#[trigger] s[j]).title, t) by {
                if j < last {
                    lemma_text_lt_transitive(s[j].title, s[last].title, t);
                }
            }
            s.len() as int
        } else {
            let front = s.drop_last();
            assert(forall|j: int| 0 <= j < front.len() ==> front[j] == s[j]);
            if has_title(front, t) {
                let k = index_of(front, t);
                assert(s[k].title == t);
            }
            let p = lemma_gap_exists(front, t);
            assert forall|j: int| p <= j < s.len() implies text_lt(t, (#[trigger] s[j]).title) by {
                if j < last {
                    assert(front[j] == s[j]);
                }
            }
            assert forall|j: int| 0 <= j < p implies text_lt((#[trigger] s[j]).title, t) by {
                assert(front[j] == s[j]);
            }
            p
        }
    }
}

/// A row put into its gap keeps the rows sorted and adds one entry to the map.
pub proof fn lemma_insert_row(s: Seq<MovieView>, p: int, m: MovieView)
    requires
        sorted(s),
        gap_at(s, m.title, p),
    ensures
        sorted(s.insert(p, m)),
        rows_map(s.insert(p, m)) == rows_map(s).insert(m.title, m),
{
    let r = s.insert(p, m);
    assert forall|i: int, j: int| 0 <= i < j < r.len() implies text_lt(
        #[trigger] r[i].title,
        #[trigger] r[j].title,
    ) by {
        if j < p {
            assert(r[i] == s[i] && r[j] == s[j]);
        } else if j == p {
            assert(r[i] == s[i]);
        } else if i < p {
            assert(r[i] == s[i] && r[j] == s[j - 1]);
        } else if i == p {
            assert(r[j] == s[j - 1]);
        } else {
            assert(r[i] == s[i - 1] && r[j] == s[j - 1]);
        }
    }
    lemma_gap_absent(s, m.title, p);
    assert(r[p] == m);
    lemma_sorted_index(r, p);
    assert forall|t: Seq<char>| t != m.title implies row_of(r, t) == row_of(s, t) by {
        if has_title(s, t) {
            let k = index_of(s, t);
            lemma_sorted_index(s, k);
            if k < p {
                assert(r[k] == s[k]);
                lemma_sorted_index(r, k);
            } else {
                assert(r[k + 1] == s[k]);
                lemma_sorted_index(r, k + 1);
            }
        } else if has_title(r, t) {
            let k = index_of(r, t);
            if k < p {
                assert(r[k] == s[k]);
            } else {
                assert(r[k] == s[k - 1]);
            }
        }
    }
    assert(rows_map(r) =~= rows_map(s).insert(m.title, m)) by {
        assert forall|t: Seq<char>| rows_map(r).dom().contains(t) <==> rows_map(s).insert(
            m.title,
            m,
        ).dom().contains(t) by {
            if t != m.title {
                assert(row_of(r, t) == row_of(s, t));
            }
        }
        assert forall|t: Seq<char>| rows_map(r).dom().contains(t) implies rows_map(r)[t]
            == rows_map(s).insert(m.title, m)[t] by {
            if t != m.title {
                assert(row_of(r, t) == row_of(s, t));
            }
        }
    }
}

/// A row taken out leaves the rows sorted and takes one entry from the map.
pub proof fn lemma_remove_row(s: Seq<MovieView>, p: int)
    requires
        sorted(s),
        0 <= p < s.len(),
    ensures
        sorted(s.remove(p)),
        rows_map(s.remove(p)) == rows_map(s).remove(s[p].title),
{
    let r = s.remove(p);
    let gone = s[p].title;
    assert forall|i: int, j: int| 0 <= i < j < r.len() implies text_lt(
        #[trigger] r[i].title,
        #[trigger] r[j].title,
    ) by {
        if j < p {
            assert(r[i] == s[i] && r[j] == s[j]);
        } else if i < p {
            assert(r[i] == s[i] && r[j] == s[j + 1]);
        } else {
            assert(r[i] == s[i + 1] && r[j] == s[j + 1]);
        }
    }
    lemma_sorted_index(s, p);
    lemma_text_lt_irreflexive(gone);
    if has_title(r, gone) {
        let k = index_of(r, gone);
        if k < p {
            assert(r[k] == s[k]);
            assert(text_lt(s[k].title, s[p].title));
        } else {
            assert(r[k] == s[k + 1]);
            assert(text_lt(s[p].title, s[k + 1].title));
        }
    }
    assert forall|t: Seq<char>| t != gone implies row_of(r, t) == row_of(s, t) by {
        if has_title(s, t) {
            let k = index_of(s, t);
            lemma_sorted_index(s, k);
            if k < p {
                assert(r[k] == s[k]);
                lemma_sorted_index(r, k);
            } else {
                assert(r[k - 1] == s[k]);
                lemma_sorted_index(r, k - 1);
            }
        } else if has_title(r, t) {
            let k = index_of(r, t);
            if k < p {
                assert(r[k] == s[k]);
            } else {
                assert(r[k] == s[k + 1]);
            }
        }
    }
    assert(rows_map(r) =~= rows_map(s).remove(gone)) by {
        assert forall|t: Seq<char>| rows_map(r).dom().contains(t) <==> rows_map(s).remove(
            gone,
        ).dom().contains(t) by {
            if t != gone {
                assert(row_of(r, t) == row_of(s, t));
            }
        }
        assert forall|t: Seq<char>| rows_map(r).dom().contains(t) implies rows_map(r)[t]
            == rows_map(s).remove(gone)[t] by {
            assert(row_of(r, t) == row_of(s, t));
        }
    }
}

/// A row replaced by one of the same title leaves the rows sorted and
/// replaces one entry of the map.
pub proof fn lemma_replace_row(s: Seq<MovieView>, p: int, m: MovieView)
    requires
        sorted(s),
        0 <= p < s.len(),
        m.title == s[p].title,
    ensures
        sorted(s.update(p, m)),
        rows_map(s.update(p, m)) == rows_map(s).insert(m.title, m),
{
    let r = s.update(p, m);
    assert forall|i: int, j: int| 0 <= i < j < r.len() implies text_lt(
        #[trigger] r[i].title,
        #[trigger] r[j].title,
    ) by {
        assert(r[i].title == s[i].title && r[j].title == s[j].title);
    }
    lemma_sorted_index(s, p);
    lemma_sorted_index(r, p);
    assert forall|t: Seq<char>| t != m.title implies row_of(r, t) == row_of(s, t) by {
        if has_title(s, t) {
            let k = index_of(s, t);
            lemma_sorted_index(s, k);
            assert(r[k] == s[k]);
            lemma_sorted_index(r, k);
        } else if has_title(r, t) {
            let k = index_of(r, t);
            assert(r[k] == s[k]);
        }
    }
    assert(rows_map(r) =~= rows_map(s).insert(m.title, m)) by {
        assert forall|t: Seq<char>| rows_map(r).dom().contains(t) <==> rows_map(s).insert(
            m.title,
            m,
        ).dom().contains(t) by {
            if t != m.title {
                assert(row_of(r, t) == row_of(s, t));
            }
        }
        assert forall|t: Seq<char>| rows_map(r).dom().contains(t) implies rows_map(r)[t]
            == rows_map(s).insert(m.title, m)[t] by {
            if t != m.title {
                assert(row_of(r, t) == row_of(s, t));
            }
        }
    }
}

/// The views of a sequence of rows.
pub open spec fn views(v: Seq<Movie>) -> Seq<MovieView> {
    Seq::new(v.len(), |i: int| v[i]@)
}

/// What a table is, as mathematical values: whether it has been created, and
/// its rows in the order of their titles.
pub struct TableView {
    pub created: bool,
    pub rows: Seq<MovieView>,
}

impl TableView {
    /// The rows as a map from title to row.
    pub open spec fn map(self) -> Map<Seq<char>, MovieView> {
        rows_map(self.rows)
    }

    /// The rows are sorted, and a table that was never created has none.
    pub open spec fn wf(self) -> bool {
        sorted(self.rows) && (!self.created ==> self.rows.len() == 0)
    }
}

/// Where a title stands in a table.
#[derive(Clone, Copy, Debug, PartialEq, Eq, Structural)]
pub enum Place {
    /// The row at this index has the title.
    At(usize),
    /// No row has the title; a row with it belongs at this index.
    Gap(usize),
}

/// One state of the table `movies`.
#[derive(Debug)]
pub struct Table {
    created: bool,
    rows: Vec<Movie>,
}

impl View for Table {
    type V = TableView;

    closed spec fn view(&self) -> TableView {
        TableView { created: self.created, rows: views(self.rows@) }
    }
}

impl Table {
    /// The invariant of a table: see `TableView::wf`.
    pub open spec fn wf(&self) -> bool {
        self@.wf()
    }

    /// The state of a store in which the table has not been created.
    pub fn new() -> (t: Table)
        ensures
            t.wf(),
            !t@.created,
            t@.rows == Seq::<MovieView>::empty(),
    {
        let t = Table { created: false, rows: Vec::new() };
        assert(t@.rows =~= Seq::<MovieView>::empty());
        t
    }

    /// Whether the table has been created.
    pub fn is_created(&self) -> (r: bool)
        ensures
            r == self@.created,
    {
        self.created
    }

    /// Creates the table, with no rows. Fails with `QueryFailure`, and
    /// changes nothing, where it exists already.
    pub fn create(&mut self) -> (r: Result<(), StoreError>)
        requires
            old(self).wf(),
        ensures
            final(self).wf(),
            old(self)@.created ==> r == Err::<(), StoreError>(StoreError::QueryFailure)
                && final(self)@ == old(self)@,
            !old(self)@.created ==> r == Ok::<(), StoreError>(()) && final(self)@ == (TableView {
                created: true,
                rows: old(self)@.rows,
            }),
    {
        if self.created {
            Err(StoreError::QueryFailure)
        } else {
            self.created = true;
            Ok(())
        }
    }

    /// The number of rows.
    pub fn len(&self) -> (n: usize)
        ensures
            n == self@.rows.len(),
    {
        self.rows.len()
    }

    /// The row at index `i` in the order of titles.
    pub fn row(&self, i: usize) -> (m: &Movie)
        requires
            i < self@.rows.len(),
        ensures
            m@ == self@.rows[i as int],
    {
        &self.rows[i]
    }

    /// Finds the place of `title` by bisection.
    pub fn find(&self, title: &str) -> (r: Place)
        requires
            self.wf(),
        ensures
            match r {
                Place::At(i) => i < self@.rows.len() && self@.rows[i as int].title == title@
                    && self@.map().dom().contains(title@) && self@.map()[title@]
                    == self@.rows[i as int],
                Place::Gap(p) => gap_at(self@.rows, title@, p as int) && !self@.map().dom().contains(
                    title@,
                ),
            },
    {
        let ghost s = self@.rows;
        let mut lo: usize = 0;
        let mut hi: usize = self.rows.len();
        while lo < hi
            invariant
                s == views(self.rows@),
                sorted(s),
                lo <= hi <= s.len(),
                forall|j: int| 0 <= j < lo ==> text_lt((#[trigger] s[j]).title, title@),
                forall|j: int| hi <= j < s.len() ==> text_lt(title@, (#[trigger] s[j]).title),
            decreases hi - lo,
        {
            let mid = lo + (hi - lo) / 2;
            let here = &self.rows[mid];
            assert(here@ == s[mid as int]);
            match rank_texts(here.title.as_str(), title) {
                Rank::Same => {
                    proof {
                        lemma_sorted_index(s, mid as int);
                    }
                    return Place::At(mid);
                },
                Rank::Before => {
                    proof {
                        assert forall|j: int| 0 <= j < mid + 1 implies text_lt(
                            (#[trigger] s[j]).title,
                            title@,
                        ) by {
                            if j < mid {
                                assert(text_lt(s[j].title, s[mid as int].title));
                                lemma_text_lt_transitive(s[j].title, s[mid as int].title, title@);
                            }
                        }
                    }
                    lo = mid + 1;
                },
                Rank::After => {
                    proof {
                        assert forall|j: int| mid <= j < s.len() implies text_lt(
                            title@,
                            (#[trigger] s[j]).title,
                        ) by {
                            if j > mid {
                                assert(text_lt(s[mid as int].title, s[j].title));
                                lemma_text_lt_transitive(title@, s[mid as int].title, s[j].title);
                            }
                        }
                    }
                    hi = mid;
                },
            }
        }
        proof {
            lemma_gap_absent(s, title@, lo as int);
        }
        Place::Gap(lo)
    }

    /// A copy of the row with the given title, if there is one.
    pub fn get(&self, title: &str) -> (r: Option<Movie>)
        requires
            self.wf(),
        ensures
            match r {
                Some(m) => self@.map().dom().contains(title@) && m@ == self@.map()[title@],
                None => !self@.map().dom().contains(title@),
            },
    {
        match self.find(title) {
            Place::At(i) => Some(self.rows[i].duplicate()),
            Place::Gap(_) => None,
        }
    }

    /// The row with the given title, if there is one.
    pub fn peek(&self, title: &str) -> (r: Option<&Movie>)
        requires
            self.wf(),
        ensures
            match r {
                Some(m) => row_of(self@.rows, title@) == Some(m@),
                None => row_of(self@.rows, title@) is None,
            },
    {
        match self.find(title) {
            Place::At(i) => Some(&self.rows[i]),
            Place::Gap(_) => None,
        }
    }

    /// Puts a row into a table that has been created: the row takes the
    /// place of the row with its title, or is inserted where there is none.
    pub fn put(&mut self, movie: Movie)
        requires
            old(self).wf(),
            old(self)@.created,
        ensures
            final(self).wf(),
            final(self)@.created,
            final(self)@.map() == old(self)@.map().insert(movie@.title, movie@),
    {
        match self.find(movie.title.as_str()) {
            Place::At(p) => {
                proof {
                    lemma_replace_row(self@.rows, p as int, movie@);
                }
                let ghost before = self.rows@;
                self.rows.set(p, movie);
                assert(views(self.rows@) =~= views(before).update(p as int, movie@));
            },
            Place::Gap(p) => {
                proof {
                    lemma_insert_row(self@.rows, p as int, movie@);
                }
                let ghost before = self.rows@;
                self.rows.insert(p, movie);
                assert(views(self.rows@) =~= views(before).insert(p as int, movie@));
            },
        }
    }

    /// Inserts a row. Fails with `QueryFailure` where the table has not been
    /// created and with `DuplicateKey` where a row has the title already; the
    /// table is then unchanged.
    pub fn insert(&mut self, movie: Movie) -> (r: Result<(), StoreError>)
        requires
            old(self).wf(),
        ensures
            final(self).wf(),
            final(self)@.created == old(self)@.created,
            r == insert_outcome(old(self)@, movie@.title),
            r is Ok ==> final(self)@.map() == old(self)@.map().insert(movie@.title, movie@),
            r is Err ==> final(self)@ == old(self)@,
    {
        if !self.created {
            return Err(StoreError::QueryFailure);
        }
        match self.find(movie.title.as_str()) {
            Place::At(_) => Err(StoreError::DuplicateKey),
            Place::Gap(p) => {
                proof {
                    lemma_insert_row(self@.rows, p as int, movie@);
                }
                let ghost before = self.rows@;
                self.rows.insert(p, movie);
                assert(views(self.rows@) =~= views(before).insert(p as int, movie@));
                Ok(())
            },
        }
    }

    /// Deletes the row with the given title. Fails with `NotFound` where
    /// there is none; the table is then unchanged.
    pub fn remove(&mut self, title: &str) -> (r: Result<(), StoreError>)
        requires
            old(self).wf(),
        ensures
            final(self).wf(),
            final(self)@.created == old(self)@.created,
            r == lookup_outcome(old(self)@, title@),
            r is Ok ==> final(self)@.map() == old(self)@.map().remove(title@),
            r is Err ==> final(self)@ == old(self)@,
    {
        match self.find(title) {
            Place::Gap(_) => Err(StoreError::NotFound),
            Place::At(p) => {
                proof {
                    lemma_remove_row(self@.rows, p as int);
                }
                let ghost before = self.rows@;
                let _ = self.rows.remove(p);
                assert(views(self.rows@) =~= views(before).remove(p as int));
                Ok(())
            },
        }
    }

    /// Sets the rating of the row with the given title. Fails with `NotFound`
    /// where there is none; the table is then unchanged.
    pub fn set_rating(&mut self, title: &str, rating: Option<i32>) -> (r: Result<(), StoreError>)
        requires
            old(self).wf(),
        ensures
            final(self).wf(),
            final(self)@.created == old(self)@.created,
            r == lookup_outcome(old(self)@, title@),
            r is Ok ==> final(self)@.map() == old(self)@.map().insert(
                title@,
                rated(old(self)@.map()[title@], rating),
            ),
            r is Err ==> final(self)@ == old(self)@,
    {
        match self.find(title) {
            Place::Gap(_) => Err(StoreError::NotFound),
            Place::At(p) => {
                let was = &self.rows[p];
                let now = Movie {
                    title: was.title.clone(),
                    genre: was.genre.clone(),
                    year: was.year,
                    rating,
                };
                proof {
                    lemma_replace_row(self@.rows, p as int, now@);
                }
                let ghost before = self.rows@;
                self.rows.set(p, now);
                assert(views(self.rows@) =~= views(before).update(p as int, now@));
                Ok(())
            },
        }
    }

    /// A copy of the table.
    pub fn duplicate(&self) -> (t: Table)
        ensures
            t@ == self@,
    {
        let mut rows: Vec<Movie> = Vec::new();
        let mut i: usize = 0;
        while i < self.rows.len()
            invariant
                i <= self.rows.len(),
                rows.len() == i,
                forall|j: int| 0 <= j < i ==> (#[trigger] rows[j])@ == self.rows[j]@,
            decreases self.rows.len() - i,
        {
            rows.push(self.rows[i].duplicate());
            i += 1;
        }
        let t = Table { created: self.created, rows };
        assert(t@.rows =~= self@.rows);
        t
    }

    /// Copies of the rows, in the order of their titles.
    pub fn to_rows(&self) -> (rows: Vec<Movie>)
        ensures
            views(rows@) == self@.rows,
    {
        let t = self.duplicate();
        assert(views(t.rows@) == t@.rows);
        t.rows
    }

    /// Whether two tables are in the same state.
    pub fn same_as(&self, other: &Table) -> (r: bool)
        ensures
            r == (self@ == other@),
    {
        if self.created != other.created || self.rows.len() != other.rows.len() {
            assert(self@.rows.len() != other@.rows.len() || self@.created != other@.created);
            return false;
        }
        let mut i: usize = 0;
        while i < self.rows.len()
            invariant
                i <= self.rows.len(),
                self.rows.len() == other.rows.len(),
                forall|j: int| 0 <= j < i ==> (#[trigger] self.rows[j])@ == other.rows[j]@,
            decreases self.rows.len() - i,
        {
            if !self.rows[i].same_as(&other.rows[i]) {
                assert(self@.rows[i as int] != other@.rows[i as int]);
                return false;
            }
            i += 1;
        }
        assert(self@.rows =~= other@.rows);
        true
    }
}

/// What an insertion of a row with title `t` answers.
pub open spec fn insert_outcome(v: TableView, t: Seq<char>) -> Result<(), StoreError> {
    if !v.created {
        Err(StoreError::QueryFailure)
    } else if v.map().dom().contains(t) {
        Err(StoreError::DuplicateKey)
    } else {
        Ok(())
    }
}

/// What a deletion or an update of the row with title `t` answers.
pub open spec fn lookup_outcome(v: TableView, t: Seq<char>) -> Result<(), StoreError> {
    if v.map().dom().contains(t) {
        Ok(())
    } else {
        Err(StoreError::NotFound)
    }
}

/// The row `m` with its rating replaced.
pub open spec fn rated(m: MovieView, rating: Option<i32>) -> MovieView {
    MovieView { title: m.title, genre: m.genre, year: m.year, rating }
}

} // verus!
