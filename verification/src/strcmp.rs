//! Verified character-by-character string comparison: equality, and the
//! strict lexicographic order (by code point) that the application listing
//! is sorted by. On UTF-8 text, code-point order agrees with byte order.
//!
//! `lex_lt` is opaque: callers reason about it only through `str_cmp`'s
//! contract and the order lemmas, which keeps its quantifier out of
//! unrelated proofs.

use vstd::prelude::*;
use vstd::string::StrSliceExecFns;

verus! {

/// Strict lexicographic order on character sequences: `a` is a proper
/// prefix of `b`, or they agree up to a position where `a`'s character has
/// the smaller code point.
#[verifier::opaque]
pub open spec fn lex_lt(a: Seq<char>, b: Seq<char>) -> bool {
    ||| (a.len() < b.len() && a == b.take(a.len() as int))
    ||| (exists|j: int|
        0 <= j < a.len() && j < b.len() && a.take(j) == b.take(j) && (a[j] as u32) < (#[trigger] b[j]
            as u32))
}

/// If `a` and `b` agree up to `j` and `b`'s character at `j` is smaller,
/// then `a` is not lexicographically below `b`.
proof fn lemma_not_lt_diff(a: Seq<char>, b: Seq<char>, j: int)
    requires
        0 <= j < a.len(),
        j < b.len(),
        a.take(j) == b.take(j),
        (b[j] as u32) < (a[j] as u32),
    ensures
        !lex_lt(a, b),
{
    reveal(crate::strcmp::lex_lt);
    assert forall|j2: int|
        0 <= j2 < a.len() && j2 < b.len() && a.take(j2) == b.take(j2) implies !((a[j2] as u32) < (
    #[trigger] b[j2] as u32)) by {
        if j2 < j {
            assert(a.take(j)[j2] == a[j2]);
            assert(b.take(j)[j2] == b[j2]);
            assert(a[j2] == b[j2]);
        } else if j2 > j {
            assert(a.take(j2)[j] == a[j]);
            assert(b.take(j2)[j] == b[j]);
            assert(a[j] == b[j]);
        }
    }
    if a.len() < b.len() && a == b.take(a.len() as int) {
        assert(a[j] == b.take(a.len() as int)[j]);
    }
}

/// If `b` is no longer than `a` and they agree along all of `b`, then `a`
/// is not lexicographically below `b`.
proof fn lemma_not_lt_prefix(a: Seq<char>, b: Seq<char>)
    requires
        b.len() <= a.len(),
        a.take(b.len() as int) == b.take(b.len() as int),
    ensures
        !lex_lt(a, b),
{
    reveal(crate::strcmp::lex_lt);
    assert forall|j2: int|
        0 <= j2 < a.len() && j2 < b.len() && a.take(j2) == b.take(j2) implies !((a[j2] as u32) < (
    #[trigger] b[j2] as u32)) by {
        assert(a.take(b.len() as int)[j2] == a[j2]);
        assert(b.take(b.len() as int)[j2] == b[j2]);
        assert(a[j2] == b[j2]);
    }
}

/// The order is strict: two sequences in it differ.
pub proof fn lemma_lex_lt_ne(a: Seq<char>, b: Seq<char>)
    requires
        lex_lt(a, b),
    ensures
        a != b,
{
    reveal(crate::strcmp::lex_lt);
    if a.len() < b.len() && a == b.take(a.len() as int) {
    } else {
        let j = choose|j: int|
            0 <= j < a.len() && j < b.len() && a.take(j) == b.take(j) && (a[j] as u32) < (
            #[trigger] b[j] as u32);
        assert(a[j] != b[j]);
    }
}

/// The order is transitive, so a pairwise-sorted listing stays sorted when
/// an element is inserted between its neighbours.
pub proof fn lemma_lex_trans(a: Seq<char>, b: Seq<char>, c: Seq<char>)
    requires
        lex_lt(a, b),
        lex_lt(b, c),
    ensures
        lex_lt(a, c),
{
    reveal(crate::strcmp::lex_lt);
    if a.len() < b.len() && a == b.take(a.len() as int) {
        if b.len() < c.len() && b == c.take(b.len() as int) {
            assert(a =~= c.take(a.len() as int));
        } else {
            let j2 = choose|j: int|
                0 <= j < b.len() && j < c.len() && b.take(j) == c.take(j) && (b[j] as u32) < (
                #[trigger] c[j] as u32);
            if j2 < a.len() {
                assert(a.take(j2) =~= b.take(j2));
                assert(a[j2] == b.take(a.len() as int)[j2]);
                assert(0 <= j2 < a.len() && j2 < c.len() && a.take(j2) == c.take(j2) && (a[j2]
                    as u32) < (c[j2] as u32));
            } else {
                assert(a =~= c.take(a.len() as int)) by {
                    assert(forall|m: int|
                        0 <= m < a.len() ==> a[m] == #[trigger] b.take(a.len() as int)[m]);
                    assert(forall|m: int|
                        0 <= m < a.len() ==> b[m] == #[trigger] b.take(j2)[m] && c[m] == c.take(
                            j2,
                        )[m]);
                }
                assert(a.len() <= j2 < c.len());
            }
        }
    } else {
        let j1 = choose|j: int|
            0 <= j < a.len() && j < b.len() && a.take(j) == b.take(j) && (a[j] as u32) < (
            #[trigger] b[j] as u32);
        if b.len() < c.len() && b == c.take(b.len() as int) {
            assert(b[j1] == c.take(b.len() as int)[j1]);
            assert(b.take(j1) =~= c.take(j1)) by {
                assert(forall|m: int|
                    0 <= m < j1 ==> b[m] == #[trigger] c.take(b.len() as int)[m]);
            }
            assert(0 <= j1 < a.len() && j1 < c.len() && a.take(j1) == c.take(j1) && (a[j1] as u32)
                < (c[j1] as u32));
        } else {
            let j2 = choose|j: int|
                0 <= j < b.len() && j < c.len() && b.take(j) == c.take(j) && (b[j] as u32) < (
                #[trigger] c[j] as u32);
            if j1 <= j2 {
                assert(a.take(j1) =~= c.take(j1)) by {
                    assert(forall|m: int|
                        0 <= m < j1 ==> b[m] == #[trigger] b.take(j2)[m] && c[m] == c.take(j2)[m]);
                    assert(forall|m: int|
                        0 <= m < j1 ==> a[m] == #[trigger] a.take(j1)[m] && b[m] == b.take(j1)[m]);
                }
                if j1 < j2 {
                    assert(b[j1] == b.take(j2)[j1] && c[j1] == c.take(j2)[j1]);
                }
                assert(0 <= j1 < a.len() && j1 < c.len() && a.take(j1) == c.take(j1) && (a[j1]
                    as u32) < (c[j1] as u32));
            } else {
                assert(a.take(j2) =~= b.take(j2)) by {
                    assert(forall|m: int|
                        0 <= m < j2 ==> a[m] == #[trigger] a.take(j1)[m] && b[m] == b.take(j1)[m]);
                }
                assert(a[j2] == a.take(j1)[j2] && b[j2] == b.take(j1)[j2]);
                assert(0 <= j2 < a.len() && j2 < c.len() && a.take(j2) == c.take(j2) && (a[j2]
                    as u32) < (c[j2] as u32));
            }
        }
    }
}

/// Verified string equality: `true` exactly when the two views are the same
/// character sequence. Relies on no unchecked code.
pub fn str_eq(a: &str, b: &str) -> (r: bool)
    ensures
        r == (a@ == b@),
{
    let n = a.unicode_len();
    let m = b.unicode_len();
    if n != m {
        return false;
    }
    let mut j: usize = 0;
    while j < n
        invariant
            n == a@.len(),
            n == b@.len(),
            j <= n,
            forall|k: int| 0 <= k < j ==> a@[k] == b@[k],
        decreases n - j,
    {
        if a.get_char(j) != b.get_char(j) {
            return false;
        }
        j += 1;
    }
    proof {
        assert(a@ =~= b@);
    }
    true
}

/// Verified three-way comparison: negative, zero or positive as `a@` is
/// below, equal to, or above `b@` in the lexicographic order.
pub fn str_cmp(a: &str, b: &str) -> (r: i8)
    ensures
        (r == 0) == (a@ == b@),
        (r < 0) == lex_lt(a@, b@),
        (r > 0) == lex_lt(b@, a@),
{
    let n = a.unicode_len();
    let m = b.unicode_len();
    let min: usize = if n < m {
        n
    } else {
        m
    };
    let mut j: usize = 0;
    while j < min
        invariant
            n == a@.len(),
            m == b@.len(),
            min == if n < m { n } else { m },
            j <= min,
            a@.take(j as int) == b@.take(j as int),
        decreases min - j,
    {
        let ca = a.get_char(j);
        let cb = b.get_char(j);
        if (ca as u32) < (cb as u32) {
            proof {
                assert(0 <= j < a@.len() && (j as int) < b@.len() && a@.take(j as int) == b@.take(
                    j as int,
                ) && (a@[j as int] as u32) < (b@[j as int] as u32));
                reveal(crate::strcmp::lex_lt);
                lemma_not_lt_diff(b@, a@, j as int);
            }
            return -1;
        }
        if (cb as u32) < (ca as u32) {
            proof {
                assert(0 <= j < b@.len() && (j as int) < a@.len() && b@.take(j as int) == a@.take(
                    j as int,
                ) && (b@[j as int] as u32) < (a@[j as int] as u32));
                reveal(crate::strcmp::lex_lt);
                lemma_not_lt_diff(a@, b@, j as int);
            }
            return 1;
        }
        proof {
            assert(a@.take(j as int + 1) =~= b@.take(j as int + 1));
        }
        j += 1;
    }
    if n < m {
        proof {
            reveal(crate::strcmp::lex_lt);
            assert(a@ =~= a@.take(n as int));
            lemma_not_lt_prefix(b@, a@);
        }
        -1
    } else if m < n {
        proof {
            reveal(crate::strcmp::lex_lt);
            assert(b@ =~= b@.take(m as int));
            lemma_not_lt_prefix(a@, b@);
        }
        1
    } else {
        proof {
            reveal(crate::strcmp::lex_lt);
            assert forall|k: int| 0 <= k < n implies #[trigger] a@[k] == b@[k] by {
                assert(a@.take(n as int)[k] == b@.take(n as int)[k]);
            }
            assert(a@ =~= b@);
            lemma_not_lt_prefix(a@, b@);
            lemma_not_lt_prefix(b@, a@);
        }
        0
    }
}

} // verus!
