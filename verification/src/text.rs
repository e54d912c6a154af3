//! Text as sequences of characters: the order of titles and the decimal
//! notation of integers.

use vstd::prelude::*;
use vstd::std_specs::iter::IteratorSpec;
use vstd::string::*;

verus! {

/// The lexicographic order of two texts by the code points of their
/// characters; a proper prefix comes before the longer text.
pub open spec fn text_lt(a: Seq<char>, b: Seq<char>) -> bool
    decreases a.len(),
{
    if b.len() == 0 {
        false
    } else if a.len() == 0 {
        true
    } else if a[0] != b[0] {
        (a[0] as int) < (b[0] as int)
    } else {
        text_lt(a.skip(1), b.skip(1))
    }
}

/// No text comes before itself.
pub proof fn lemma_text_lt_irreflexive(a: Seq<char>)
    ensures
        !text_lt(a, a),
    decreases a.len(),
{
    if a.len() > 0 {
        lemma_text_lt_irreflexive(a.skip(1));
    }
}

/// Of two different texts exactly one comes before the other.
pub proof fn lemma_text_lt_total(a: Seq<char>, b: Seq<char>)
    ensures
        a == b || text_lt(a, b) || text_lt(b, a),
        !(text_lt(a, b) && text_lt(b, a)),
        a == b ==> !text_lt(a, b),
    decreases a.len(),
{
    if a.len() == 0 || b.len() == 0 {
        if a.len() == 0 && b.len() == 0 {
            assert(a =~= b);
        }
    } else if a[0] != b[0] {
    } else {
        lemma_text_lt_total(a.skip(1), b.skip(1));
        if a.skip(1) == b.skip(1) {
            assert(a =~= seq![a[0]] + a.skip(1));
            assert(b =~= seq![b[0]] + b.skip(1));
        }
    }
    if a == b {
        lemma_text_lt_irreflexive(a);
    }
}

/// The order of texts is transitive.
pub proof fn lemma_text_lt_transitive(a: Seq<char>, b: Seq<char>, c: Seq<char>)
    requires
        text_lt(a, b),
        text_lt(b, c),
    ensures
        text_lt(a, c),
    decreases a.len(),
{
    if a.len() > 0 && a[0] == b[0] && b[0] == c[0] {
        lemma_text_lt_transitive(a.skip(1), b.skip(1), c.skip(1));
    }
}

/// How one text stands to another in the order of `text_lt`.
#[derive(Clone, Copy, Debug, PartialEq, Eq, Structural)]
pub enum Rank {
    Before,
    Same,
    After,
}

/// The rank of `a` relative to `b`.
pub open spec fn rank_of(a: Seq<char>, b: Seq<char>) -> Rank {
    if a == b {
        Rank::Same
    } else if text_lt(a, b) {
        Rank::Before
    } else {
        Rank::After
    }
}

spec fn step_holds(l: Seq<char>, r: Seq<char>) -> bool {
    if l.len() == 0 && r.len() == 0 {
        rank_of(l, r) == Rank::Same
    } else if l.len() == 0 {
        rank_of(l, r) == Rank::Before && !text_lt(r, l)
    } else if r.len() == 0 {
        rank_of(l, r) == Rank::After && text_lt(r, l)
    } else if l[0] != r[0] {
        &&& rank_of(l, r) == (if (l[0] as int) < (r[0] as int) {
            Rank::Before
        } else {
            Rank::After
        })
        &&& text_lt(r, l) == ((r[0] as int) < (l[0] as int))
    } else {
        &&& rank_of(l, r) == rank_of(l.drop_first(), r.drop_first())
        &&& text_lt(r, l) == text_lt(r.drop_first(), l.drop_first())
    }
}

proof fn lemma_step(l: Seq<char>, r: Seq<char>)
    ensures
        step_holds(l, r),
{
    lemma_text_lt_total(l, r);
    if l.len() > 0 && r.len() > 0 {
        assert(l.drop_first() =~= l.skip(1));
        assert(r.drop_first() =~= r.skip(1));
        lemma_text_lt_total(l.skip(1), r.skip(1));
        if l[0] == r[0] && l.skip(1) == r.skip(1) {
            assert(l =~= seq![l[0]] + l.skip(1));
            assert(r =~= seq![r[0]] + r.skip(1));
        }
    } else if l.len() == 0 && r.len() == 0 {
        assert(l =~= r);
    }
}

/// Compares two texts character by character, in one pass over both.
pub fn rank_texts(a: &str, b: &str) -> (r: Rank)
    ensures
        r == rank_of(a@, b@),
        r == Rank::After ==> text_lt(b@, a@),
{
    let mut left = a.chars();
    let mut right = b.chars();
    proof {
        axiom_spec_iter(a);
        axiom_spec_iter(b);
    }
    loop
        invariant
            left.decrease() is Some,
            rank_of(a@, b@) == rank_of(left.remaining(), right.remaining()),
            text_lt(b@, a@) == text_lt(right.remaining(), left.remaining()),
        decreases left.decrease()->0,
    {
        let ghost was_left = left;
        let ghost was_right = right;
        let x = left.next();
        let y = right.next();
        proof {
            next_postcondition(&was_left, &left, x);
            next_postcondition(&was_right, &right, y);
            assert forall|l: Seq<char>, r: Seq<char>| #[trigger] step_holds(l, r) by {
                lemma_step(l, r);
            }
            assert(step_holds(was_left.remaining(), was_right.remaining()));
        }
        match (x, y) {
            (None, None) => {
                return Rank::Same;
            },
            (None, Some(_)) => {
                return Rank::Before;
            },
            (Some(_), None) => {
                return Rank::After;
            },
            (Some(c), Some(d)) => {
                if c != d {
                    if c < d {
                        return Rank::Before;
                    } else {
                        return Rank::After;
                    }
                }
            },
        }
    }
}

/// Whether two texts are the same.
pub fn same_text(a: &str, b: &str) -> (r: bool)
    ensures
        r == (a@ == b@),
{
    match rank_texts(a, b) {
        Rank::Same => true,
        _ => false,
    }
}

/// The character that writes the digit `d`.
pub open spec fn digit_char(d: int) -> char {
    if d == 0 {
        '0'
    } else if d == 1 {
        '1'
    } else if d == 2 {
        '2'
    } else if d == 3 {
        '3'
    } else if d == 4 {
        '4'
    } else if d == 5 {
        '5'
    } else if d == 6 {
        '6'
    } else if d == 7 {
        '7'
    } else if d == 8 {
        '8'
    } else {
        '9'
    }
}

/// The decimal notation of a natural number, without leading zeros.
pub open spec fn decimal(n: nat) -> Seq<char>
    decreases n,
{
    if n < 10 {
        seq![digit_char(n as int)]
    } else {
        decimal(n / 10).push(digit_char((n % 10) as int))
    }
}

/// The decimal notation of an integer, with a minus sign where it is negative.
pub open spec fn signed_decimal(i: int) -> Seq<char> {
    if i < 0 {
        seq!['-'] + decimal((-i) as nat)
    } else {
        decimal(i as nat)
    }
}

fn digit_str(d: u64) -> (s: &'static str)
    requires
        d < 10,
    ensures
        s@ == seq![digit_char(d as int)],
{
    proof {
        reveal_strlit("0");
        reveal_strlit("1");
        reveal_strlit("2");
        reveal_strlit("3");
        reveal_strlit("4");
        reveal_strlit("5");
        reveal_strlit("6");
        reveal_strlit("7");
        reveal_strlit("8");
        reveal_strlit("9");
    }
    let s = if d == 0 {
        "0"
    } else if d == 1 {
        "1"
    } else if d == 2 {
        "2"
    } else if d == 3 {
        "3"
    } else if d == 4 {
        "4"
    } else if d == 5 {
        "5"
    } else if d == 6 {
        "6"
    } else if d == 7 {
        "7"
    } else if d == 8 {
        "8"
    } else {
        "9"
    };
    assert(s@ =~= seq![digit_char(d as int)]);
    s
}

/// Appends the decimal notation of `n` to `out`.
pub fn push_decimal(out: &mut String, n: u64)
    ensures
        final(out)@ == old(out)@ + decimal(n as nat),
    decreases n,
{
    if n >= 10 {
        push_decimal(out, n / 10);
    }
    out.append(digit_str(n % 10));
    proof {
        if n >= 10 {
            assert(old(out)@ + decimal((n / 10) as nat) + seq![digit_char((n % 10) as int)]
                =~= old(out)@ + decimal(n as nat));
        }
    }
}

/// Appends the decimal notation of `v` to `out`.
pub fn push_signed(out: &mut String, v: i32)
    ensures
        final(out)@ == old(out)@ + signed_decimal(v as int),
{
    if v < 0 {
        proof {
            reveal_strlit("-");
        }
        out.append("-");
        let m: u64 = (-(v as i64)) as u64;
        push_decimal(out, m);
        proof {
            assert("-"@ =~= seq!['-']);
            assert(old(out)@ + seq!['-'] + decimal(m as nat) =~= old(out)@ + (seq!['-'] + decimal(
                m as nat,
            )));
        }
    } else {
        push_decimal(out, v as u64);
    }
}

/// The decimal notation of `v` as a string of its own.
pub fn signed_text(v: i32) -> (s: String)
    ensures
        s@ == signed_decimal(v as int),
{
    let mut s = String::new();
    push_signed(&mut s, v);
    assert(Seq::<char>::empty() + signed_decimal(v as int) =~= signed_decimal(v as int));
    s
}

} // verus!
