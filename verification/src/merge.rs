//! The three-way merge of two states of the table that grew from a common
//! base.

use crate::error::StoreError;
use crate::models::{Movie, MovieView};
use crate::table::{
    has_title, index_of, lemma_row_of_map, lemma_sorted_index, row_of, sorted, Table,
};
use crate::text::{lemma_text_lt_irreflexive, text_lt};
use vstd::prelude::*;

verus! {

/// The row that a merge gives for one title, from the row of the base, of
/// our side and of their side (each may be absent). Where the two sides
/// agree, or one side left the row as the base has it, the merge takes the
/// other side's row; where both changed it in different ways, there is none.
pub open spec fn merge_row(
    base: Option<MovieView>,
    ours: Option<MovieView>,
    theirs: Option<MovieView>,
) -> Option<Option<MovieView>> {
    if ours == theirs {
        Some(ours)
    } else if ours == base {
        Some(theirs)
    } else if theirs == base {
        Some(ours)
    } else {
        None
    }
}

/// Both sides changed the row with title `t` in different ways.
pub open spec fn conflict_at(
    base: Seq<MovieView>,
    ours: Seq<MovieView>,
    theirs: Seq<MovieView>,
    t: Seq<char>,
) -> bool {
    merge_row(row_of(base, t), row_of(ours, t), row_of(theirs, t)) is None
}

/// Some row was changed by both sides in different ways.
pub open spec fn conflicts(
    base: Seq<MovieView>,
    ours: Seq<MovieView>,
    theirs: Seq<MovieView>,
) -> bool {
    exists|t: Seq<char>| conflict_at(base, ours, theirs, t)
}

/// The row with title `t` after the merge, if there is one.
pub open spec fn merged_row(
    base: Seq<MovieView>,
    ours: Seq<MovieView>,
    theirs: Seq<MovieView>,
    t: Seq<char>,
) -> Option<MovieView> {
    match merge_row(row_of(base, t), row_of(ours, t), row_of(theirs, t)) {
        Some(r) => r,
        None => None,
    }
}

/// The rows after the merge, as a map from title to row.
pub open spec fn merged_map(
    base: Seq<MovieView>,
    ours: Seq<MovieView>,
    theirs: Seq<MovieView>,
) -> Map<Seq<char>, MovieView> {
    Map::new(
        |t: Seq<char>| merged_row(base, ours, theirs, t) is Some,
        |t: Seq<char>| merged_row(base, ours, theirs, t)->0,
    )
}

spec fn row_view(o: Option<&Movie>) -> Option<MovieView> {
    match o {
        Some(m) => Some(m@),
        None => None,
    }
}

fn same_rows(a: Option<&Movie>, b: Option<&Movie>) -> (r: bool)
    ensures
        r == (row_view(a) == row_view(b)),
{
    match (a, b) {
        (Some(x), Some(y)) => x.same_as(y),
        (None, None) => true,
        _ => false,
    }
}

// The row that the merge has for title `t` once the first `n` rows of their
// side have been dealt with.
spec fn after_theirs(
    base: Seq<MovieView>,
    ours: Seq<MovieView>,
    theirs: Seq<MovieView>,
    n: int,
    t: Seq<char>,
) -> Option<MovieView> {
    if has_title(theirs.take(n), t) {
        merged_row(base, ours, theirs, t)
    } else {
        row_of(ours, t)
    }
}

// The row that the merge has for title `t` once all rows of their side and
// the first `n` rows of the base have been dealt with.
spec fn after_base(
    base: Seq<MovieView>,
    ours: Seq<MovieView>,
    theirs: Seq<MovieView>,
    n: int,
    t: Seq<char>,
) -> Option<MovieView> {
    if has_title(theirs, t) || has_title(base.take(n), t) {
        merged_row(base, ours, theirs, t)
    } else {
        row_of(ours, t)
    }
}

proof fn lemma_take_next(s: Seq<MovieView>, n: int, t: Seq<char>)
    requires
        0 <= n < s.len(),
    ensures
        has_title(s.take(n + 1), t) <==> has_title(s.take(n), t) || s[n].title == t,
{
    let a = s.take(n);
    let b = s.take(n + 1);
    if has_title(b, t) {
        let k = index_of(b, t);
        if k < n {
            assert(a[k] == b[k]);
        }
    }
    if has_title(a, t) {
        let k = index_of(a, t);
        assert(b[k] == a[k]);
    }
    if s[n].title == t {
        assert(b[n] == s[n]);
    }
}

proof fn lemma_take_none(s: Seq<MovieView>, n: int)
    requires
        sorted(s),
        0 <= n < s.len(),
    ensures
        !has_title(s.take(n), s[n].title),
{
    let a = s.take(n);
    if has_title(a, s[n].title) {
        let k = index_of(a, s[n].title);
        assert(a[k] == s[k]);
        assert(text_lt(s[k].title, s[n].title));
        lemma_text_lt_irreflexive(s[n].title);
    }
}

/// Merges their side into our side, both grown from `base`. Fails with
/// `MergeConflict` exactly where some row was changed by both sides in
/// different ways; otherwise the result holds, for every title, the row that
/// `merge_row` gives.
pub fn merge_tables(base: &Table, ours: &Table, theirs: &Table) -> (r: Result<Table, StoreError>)
    requires
        base.wf(),
        ours.wf(),
        theirs.wf(),
        base@.created ==> ours@.created && theirs@.created,
    ensures
        r is Err <==> conflicts(base@.rows, ours@.rows, theirs@.rows),
        r matches Err(e) ==> e == StoreError::MergeConflict,
        r matches Ok(m) ==> m.wf() && m@.created == (ours@.created || theirs@.created) && m@.map()
            == merged_map(base@.rows, ours@.rows, theirs@.rows),
{
    let ghost b = base@.rows;
    let ghost o = ours@.rows;
    let ghost t = theirs@.rows;
    let mut out = ours.duplicate();
    if theirs.is_created() && !out.is_created() {
        let _ = out.create();
    }
    let mut j: usize = 0;
    proof {
        assert(t.take(0).len() == 0);
    }
    while j < theirs.len()
        invariant
            b == base@.rows,
            o == ours@.rows,
            t == theirs@.rows,
            base.wf(),
            ours.wf(),
            theirs.wf(),
            out.wf(),
            out@.created == (ours@.created || theirs@.created),
            j <= t.len(),
            forall|x: Seq<char>| #[trigger] row_of(out@.rows, x) == after_theirs(b, o, t, j as int, x),
            forall|x: Seq<char>| #[trigger]
                has_title(t.take(j as int), x) ==> !conflict_at(b, o, t, x),
        decreases t.len() - j,
    {
        let their_row = theirs.row(j);
        let ghost k = their_row@.title;
        let ghost was = out@.rows;
        let our_row = ours.peek(their_row.title.as_str());
        let base_row = base.peek(their_row.title.as_str());
        proof {
            lemma_sorted_index(t, j as int);
            lemma_take_none(t, j as int);
            assert forall|x: Seq<char>|
                has_title(t.take(j + 1), x) <==> has_title(t.take(j as int), x) || x == k by {
                lemma_take_next(t, j as int, x);
            }
            assert(row_of(was, k) == after_theirs(b, o, t, j as int, k));
            assert(row_of(t, k) == Some(their_row@));
            assert(row_view(our_row) == row_of(o, k));
            assert(row_view(base_row) == row_of(b, k));
        }
        if same_rows(our_row, Some(their_row)) {
        } else if same_rows(our_row, base_row) {
            out.put(their_row.duplicate());
            proof {
                assert forall|x: Seq<char>| #[trigger]
                    row_of(out@.rows, x) == after_theirs(b, o, t, j + 1, x) by {
                    assert(row_of(was, x) == after_theirs(b, o, t, j as int, x));
                    lemma_row_of_map(was, x);
                    lemma_row_of_map(out@.rows, x);
                }
            }
        } else if same_rows(Some(their_row), base_row) {
        } else {
            proof {
                assert(conflict_at(b, o, t, k));
            }
            return Err(StoreError::MergeConflict);
        }
        proof {
            assert(!conflict_at(b, o, t, k));
            assert forall|x: Seq<char>| #[trigger]
                row_of(out@.rows, x) == after_theirs(b, o, t, j + 1, x) by {
                assert(row_of(was, x) == after_theirs(b, o, t, j as int, x));
            }
            assert forall|x: Seq<char>| #[trigger] has_title(t.take(j + 1), x) implies !conflict_at(
                b,
                o,
                t,
                x,
            ) by {
                lemma_take_next(t, j as int, x);
            }
        }
        j += 1;
    }
    proof {
        assert(t.take(t.len() as int) =~= t);
        assert(b.take(0).len() == 0);
    }
    let mut i: usize = 0;
    while i < base.len()
        invariant
            b == base@.rows,
            o == ours@.rows,
            t == theirs@.rows,
            base.wf(),
            ours.wf(),
            theirs.wf(),
            out.wf(),
            out@.created == (ours@.created || theirs@.created),
            i <= b.len(),
            forall|x: Seq<char>| #[trigger] row_of(out@.rows, x) == after_base(b, o, t, i as int, x),
            forall|x: Seq<char>| #[trigger] has_title(t, x) ==> !conflict_at(b, o, t, x),
            forall|x: Seq<char>| #[trigger]
                has_title(b.take(i as int), x) ==> !conflict_at(b, o, t, x),
        decreases b.len() - i,
    {
        let base_row = base.row(i);
        let ghost k = base_row@.title;
        let ghost was = out@.rows;
        proof {
            lemma_sorted_index(b, i as int);
            lemma_take_none(b, i as int);
            assert forall|x: Seq<char>|
                has_title(b.take(i + 1), x) <==> has_title(b.take(i as int), x) || x == k by {
                lemma_take_next(b, i as int, x);
            }
            assert(row_of(was, k) == after_base(b, o, t, i as int, k));
            assert(row_of(b, k) == Some(base_row@));
        }
        let their_row = theirs.peek(base_row.title.as_str());
        assert(row_view(their_row) == row_of(t, k));
        if their_row.is_none() {
            let our_row = ours.peek(base_row.title.as_str());
            assert(row_view(our_row) == row_of(o, k));
            if our_row.is_none() {
            } else if same_rows(our_row, Some(base_row)) {
                proof {
                    lemma_row_of_map(was, k);
                }
                let _ = out.remove(base_row.title.as_str());
                proof {
                    assert forall|x: Seq<char>| #[trigger]
                        row_of(out@.rows, x) == after_base(b, o, t, i + 1, x) by {
                        assert(row_of(was, x) == after_base(b, o, t, i as int, x));
                        lemma_row_of_map(was, x);
                        lemma_row_of_map(out@.rows, x);
                    }
                }
            } else {
                proof {
                    assert(conflict_at(b, o, t, k));
                }
                return Err(StoreError::MergeConflict);
            }
        }
        proof {
            assert(!conflict_at(b, o, t, k));
            assert forall|x: Seq<char>| #[trigger]
                row_of(out@.rows, x) == after_base(b, o, t, i + 1, x) by {
                assert(row_of(was, x) == after_base(b, o, t, i as int, x));
            }
            assert forall|x: Seq<char>| #[trigger] has_title(b.take(i + 1), x) implies !conflict_at(
                b,
                o,
                t,
                x,
            ) by {
                lemma_take_next(b, i as int, x);
            }
        }
        i += 1;
    }
    proof {
        assert(b.take(b.len() as int) =~= b);
        assert forall|x: Seq<char>| !conflict_at(b, o, t, x) by {
            if has_title(t, x) {
            } else if has_title(b, x) {
            } else {
            }
        }
        assert forall|x: Seq<char>| row_of(out@.rows, x) == merged_row(b, o, t, x) by {
            assert(row_of(out@.rows, x) == after_base(b, o, t, b.len() as int, x));
        }
        assert(out@.map() =~= merged_map(b, o, t)) by {
            assert forall|x: Seq<char>| out@.map().dom().contains(x) <==> merged_map(
                b,
                o,
                t,
            ).dom().contains(x) by {
                assert(row_of(out@.rows, x) == merged_row(b, o, t, x));
            }
            assert forall|x: Seq<char>| out@.map().dom().contains(x) implies out@.map()[x]
                == merged_map(b, o, t)[x] by {
                assert(row_of(out@.rows, x) == merged_row(b, o, t, x));
            }
        }
    }
    Ok(out)
}

} // verus!
