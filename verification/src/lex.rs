//! Lexicographic ordering of character sequences.
//!
//! Alias indices and department rosters are kept sorted by string keys;
//! this module defines the strict lexicographic order those structures
//! use, proves that it is a strict total order, and provides an
//! executable three-way comparison on `&str` values.

use vstd::prelude::*;
use core::cmp::Ordering;

verus! {

/// Strict lexicographic order on character sequences, comparing
/// characters by Unicode scalar value: `a` comes before `b` when `a` is
/// a proper prefix of `b`, or when the two differ first at a position
/// where `a` holds the smaller character.
pub open spec fn lex_lt(a: Seq<char>, b: Seq<char>) -> bool
    decreases a.len(),
{
    if b.len() == 0 {
        false
    } else if a.len() == 0 {
        true
    } else if a[0] < b[0] {
        true
    } else if b[0] < a[0] {
        false
    } else {
        lex_lt(a.skip(1), b.skip(1))
    }
}

/// The order is total: of `lex_lt(a, b)`, `a == b` and `lex_lt(b, a)`,
/// exactly one holds.
pub proof fn lemma_lex_total(a: Seq<char>, b: Seq<char>)
    ensures
        lex_lt(a, b) || lex_lt(b, a) || a == b,
        lex_lt(a, b) ==> !lex_lt(b, a),
        lex_lt(a, b) ==> a != b,
    decreases a.len(),
{
    if b.len() == 0 || a.len() == 0 {
        if a.len() == 0 && b.len() == 0 {
            assert(a =~= b);
        }
    } else if a[0] < b[0] || b[0] < a[0] {
        if a == b {
            assert(a[0] == b[0]);
        }
    } else {
        assert(a[0] == b[0]);
        lemma_lex_total(a.skip(1), b.skip(1));
        if a.skip(1) == b.skip(1) {
            assert(a =~= b) by {
                assert(a.len() == b.len());
                assert forall|i: int| 0 <= i < a.len() implies a[i] == b[i] by {
                    if i > 0 {
                        assert(a[i] == a.skip(1)[i - 1]);
                        assert(b[i] == b.skip(1)[i - 1]);
                    }
                }
            }
        }
        if a == b {
            assert(a.skip(1) == b.skip(1));
        }
    }
}

/// The order is transitive.
pub proof fn lemma_lex_trans(a: Seq<char>, b: Seq<char>, c: Seq<char>)
    requires
        lex_lt(a, b),
        lex_lt(b, c),
    ensures
        lex_lt(a, c),
    decreases a.len(),
{
    if a.len() == 0 || b.len() == 0 || c.len() == 0 {
        // lex_lt(b, c) forces c to be non-empty; an empty a then decides.
    } else {
        if a[0] == b[0] && b[0] == c[0] {
            lemma_lex_trans(a.skip(1), b.skip(1), c.skip(1));
        }
    }
}

/// A shared strict prefix decides the order: if `a` and `b` agree on
/// their first `i` characters and `a` either ends there or holds the
/// smaller character at position `i`, then `a` comes before `b`.
pub proof fn lemma_lex_from_prefix(a: Seq<char>, b: Seq<char>, i: int)
    requires
        0 <= i <= a.len(),
        i <= b.len(),
        forall|j: int| 0 <= j < i ==> a[j] == b[j],
        (i == a.len() && i < b.len()) || (i < a.len() && i < b.len() && a[i] < b[i]),
    ensures
        lex_lt(a, b),
    decreases i,
{
    if i == 0 {
    } else {
        assert(a[0] == b[0]);
        assert forall|j: int| 0 <= j < i - 1 implies a.skip(1)[j] == b.skip(1)[j] by {
            assert(a.skip(1)[j] == a[j + 1]);
            assert(b.skip(1)[j] == b[j + 1]);
        }
        if i < a.len() {
            assert(a.skip(1)[i - 1] == a[i]);
            assert(b.skip(1)[i - 1] == b[i]);
        }
        lemma_lex_from_prefix(a.skip(1), b.skip(1), i - 1);
    }
}

/// Strict order on pairs of character sequences: by the first component,
/// ties broken by the second. Department rosters sort people this way,
/// with the last name first.
pub open spec fn lex2_lt(a1: Seq<char>, a2: Seq<char>, b1: Seq<char>, b2: Seq<char>) -> bool {
    lex_lt(a1, b1) || (a1 == b1 && lex_lt(a2, b2))
}

/// The pair order is total: of `lex2_lt(a, b)`, component-wise equality
/// and `lex2_lt(b, a)`, exactly one holds.
pub proof fn lemma_lex2_total(a1: Seq<char>, a2: Seq<char>, b1: Seq<char>, b2: Seq<char>)
    ensures
        lex2_lt(a1, a2, b1, b2) || lex2_lt(b1, b2, a1, a2) || (a1 == b1 && a2 == b2),
        lex2_lt(a1, a2, b1, b2) ==> !lex2_lt(b1, b2, a1, a2),
        lex2_lt(a1, a2, b1, b2) ==> !(a1 == b1 && a2 == b2),
{
    lemma_lex_total(a1, b1);
    lemma_lex_total(a2, b2);
}

/// The pair order is transitive.
pub proof fn lemma_lex2_trans(
    a1: Seq<char>,
    a2: Seq<char>,
    b1: Seq<char>,
    b2: Seq<char>,
    c1: Seq<char>,
    c2: Seq<char>,
)
    requires
        lex2_lt(a1, a2, b1, b2),
        lex2_lt(b1, b2, c1, c2),
    ensures
        lex2_lt(a1, a2, c1, c2),
{
    if lex_lt(a1, b1) && lex_lt(b1, c1) {
        lemma_lex_trans(a1, b1, c1);
    } else if lex_lt(a2, b2) && lex_lt(b2, c2) {
        lemma_lex_trans(a2, b2, c2);
    }
}

/// Three-way comparison of two strings under `lex_lt`.
pub fn str_compare(a: &str, b: &str) -> (o: Ordering)
    ensures
        o == Ordering::Less <==> lex_lt(a@, b@),
        o == Ordering::Equal <==> a@ == b@,
        o == Ordering::Greater <==> lex_lt(b@, a@),
{
    let a_len = a.unicode_len();
    let b_len = b.unicode_len();
    let mut i: usize = 0;
    loop
        invariant
            i <= a_len,
            i <= b_len,
            a_len == a@.len(),
            b_len == b@.len(),
            forall|j: int| 0 <= j < i ==> a@[j] == b@[j],
        decreases a_len - i,
    {
        if i == a_len && i == b_len {
            proof {
                assert(a@ =~= b@);
                lemma_lex_total(a@, b@);
            }
            return Ordering::Equal;
        }
        if i == a_len {
            proof {
                lemma_lex_from_prefix(a@, b@, i as int);
                lemma_lex_total(a@, b@);
            }
            return Ordering::Less;
        }
        if i == b_len {
            proof {
                lemma_lex_from_prefix(b@, a@, i as int);
                lemma_lex_total(b@, a@);
            }
            return Ordering::Greater;
        }
        let ca = a.get_char(i);
        let cb = b.get_char(i);
        if ca < cb {
            proof {
                lemma_lex_from_prefix(a@, b@, i as int);
                lemma_lex_total(a@, b@);
            }
            return Ordering::Less;
        }
        if cb < ca {
            proof {
                lemma_lex_from_prefix(b@, a@, i as int);
                lemma_lex_total(b@, a@);
            }
            return Ordering::Greater;
        }
        proof {
            assert(a@[i as int] == b@[i as int]);
        }
        i = i + 1;
    }
}

} // verus!
