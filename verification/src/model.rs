//! Mathematical definitions of the two distances, as recursive functions
//! over prefixes of the two character sequences, together with the basic
//! facts about them that the implementations and the laws rely on.

use vstd::prelude::*;

verus! {

/// The smaller of two integers.
pub open spec fn min2(a: int, b: int) -> int {
    if a <= b {
        a
    } else {
        b
    }
}

/// The smallest of three integers.
pub open spec fn min3(a: int, b: int, c: int) -> int {
    min2(a, min2(b, c))
}

/// The Levenshtein distance between the length-`i` prefix of `s` and the
/// length-`j` prefix of `t`: the least number of single-character
/// insertions, deletions and substitutions that turn the one into the
/// other.
pub open spec fn lev_prefix(s: Seq<char>, t: Seq<char>, i: int, j: int) -> int
    recommends
        0 <= i <= s.len(),
        0 <= j <= t.len(),
    decreases i + j,
{
    if i <= 0 {
        j
    } else if j <= 0 {
        i
    } else {
        let cost: int = if s[i - 1] == t[j - 1] {
            0
        } else {
            1
        };
        min3(
            lev_prefix(s, t, i - 1, j) + 1,
            lev_prefix(s, t, i, j - 1) + 1,
            lev_prefix(s, t, i - 1, j - 1) + cost,
        )
    }
}

/// The Levenshtein distance between `s` and `t`.
pub open spec fn levenshtein_distance(s: Seq<char>, t: Seq<char>) -> int {
    lev_prefix(s, t, s.len() as int, t.len() as int)
}

/// The largest one-based position `p <= i` with `s[p - 1] == c`, or 0 when
/// no position up to `i` holds `c`.
pub open spec fn last_eq_before(s: Seq<char>, c: char, i: int) -> int
    recommends
        i <= s.len(),
    decreases i,
{
    if i <= 0 {
        0
    } else if s[i - 1] == c {
        i
    } else {
        last_eq_before(s, c, i - 1)
    }
}

pub proof fn lemma_last_eq_before_bounds(s: Seq<char>, c: char, i: int)
    ensures
        0 <= last_eq_before(s, c, i),
        i >= 0 ==> last_eq_before(s, c, i) <= i,
        i < 0 ==> last_eq_before(s, c, i) == 0,
    decreases i,
{
    if i > 0 && s[i - 1] != c {
        lemma_last_eq_before_bounds(s, c, i - 1);
    }
}

/// The Damerau-Levenshtein distance between the length-`i` prefix of `s`
/// and the length-`j` prefix of `t`, by the recurrence of Lowrance and
/// Wagner: besides insertion, deletion and substitution, two adjacent
/// characters may be transposed at unit cost, at the price of deleting the
/// characters recorded between the transposed pair on the one side and
/// inserting those between it on the other.
pub open spec fn dl_prefix(s: Seq<char>, t: Seq<char>, i: int, j: int) -> int
    recommends
        0 <= i <= s.len(),
        0 <= j <= t.len(),
    decreases i + j,
        when true
        via dl_prefix_decreases
{
    if i <= 0 {
        j
    } else if j <= 0 {
        i
    } else {
        let cost: int = if s[i - 1] == t[j - 1] {
            0
        } else {
            1
        };
        let base = min3(
            dl_prefix(s, t, i - 1, j) + 1,
            dl_prefix(s, t, i, j - 1) + 1,
            dl_prefix(s, t, i - 1, j - 1) + cost,
        );
        let k = last_eq_before(s, t[j - 1], i - 1);
        let l = last_eq_before(t, s[i - 1], j - 1);
        if k > 0 && l > 0 {
            min2(base, dl_prefix(s, t, k - 1, l - 1) + (i - 1 - k) + 1 + (j - 1 - l))
        } else {
            base
        }
    }
}

#[via_fn]
proof fn dl_prefix_decreases(s: Seq<char>, t: Seq<char>, i: int, j: int) {
    if i > 0 && j > 0 {
        lemma_last_eq_before_bounds(s, t[j - 1], i - 1);
        lemma_last_eq_before_bounds(t, s[i - 1], j - 1);
    }
}

/// The Damerau-Levenshtein distance between `s` and `t`.
pub open spec fn damerau_levenshtein_distance(s: Seq<char>, t: Seq<char>) -> int {
    dl_prefix(s, t, s.len() as int, t.len() as int)
}

pub proof fn lemma_lev_prefix_bounds(s: Seq<char>, t: Seq<char>, i: int, j: int)
    requires
        0 <= i <= s.len(),
        0 <= j <= t.len(),
    ensures
        i - j <= lev_prefix(s, t, i, j),
        j - i <= lev_prefix(s, t, i, j),
        lev_prefix(s, t, i, j) <= i + j,
    decreases i + j,
{
    if i > 0 && j > 0 {
        lemma_lev_prefix_bounds(s, t, i - 1, j);
        lemma_lev_prefix_bounds(s, t, i, j - 1);
        lemma_lev_prefix_bounds(s, t, i - 1, j - 1);
    }
}

pub proof fn lemma_dl_prefix_bounds(s: Seq<char>, t: Seq<char>, i: int, j: int)
    requires
        0 <= i <= s.len(),
        0 <= j <= t.len(),
    ensures
        i - j <= dl_prefix(s, t, i, j),
        j - i <= dl_prefix(s, t, i, j),
        dl_prefix(s, t, i, j) <= i + j,
    decreases i + j,
{
    if i > 0 && j > 0 {
        lemma_dl_prefix_bounds(s, t, i - 1, j);
        lemma_dl_prefix_bounds(s, t, i, j - 1);
        lemma_dl_prefix_bounds(s, t, i - 1, j - 1);
        let k = last_eq_before(s, t[j - 1], i - 1);
        let l = last_eq_before(t, s[i - 1], j - 1);
        lemma_last_eq_before_bounds(s, t[j - 1], i - 1);
        lemma_last_eq_before_bounds(t, s[i - 1], j - 1);
        if k > 0 && l > 0 {
            lemma_dl_prefix_bounds(s, t, k - 1, l - 1);
        }
    }
}

/// Two sequences that agree on their first `i` characters are at
/// Levenshtein distance zero over those prefixes.
pub proof fn lemma_lev_eq_prefix(s: Seq<char>, t: Seq<char>, i: int)
    requires
        0 <= i <= s.len(),
        i <= t.len(),
        forall|q: int| 0 <= q < i ==> s[q] == t[q],
    ensures
        lev_prefix(s, t, i, i) == 0,
    decreases i,
{
    if i > 0 {
        lemma_lev_eq_prefix(s, t, i - 1);
        lemma_lev_prefix_bounds(s, t, i - 1, i);
        lemma_lev_prefix_bounds(s, t, i, i - 1);
    }
}

/// A Levenshtein distance of zero means the two prefixes are equal.
pub proof fn lemma_lev_zero(s: Seq<char>, t: Seq<char>, i: int, j: int)
    requires
        0 <= i <= s.len(),
        0 <= j <= t.len(),
        lev_prefix(s, t, i, j) == 0,
    ensures
        i == j,
        forall|q: int| 0 <= q < i ==> s[q] == t[q],
    decreases i + j,
{
    if i > 0 && j > 0 {
        lemma_lev_prefix_bounds(s, t, i - 1, j);
        lemma_lev_prefix_bounds(s, t, i, j - 1);
        lemma_lev_zero(s, t, i - 1, j - 1);
    }
}

/// A Damerau-Levenshtein distance of zero means the two prefixes are
/// equal.
pub proof fn lemma_dl_zero(s: Seq<char>, t: Seq<char>, i: int, j: int)
    requires
        0 <= i <= s.len(),
        0 <= j <= t.len(),
        dl_prefix(s, t, i, j) == 0,
    ensures
        i == j,
        forall|q: int| 0 <= q < i ==> s[q] == t[q],
    decreases i + j,
{
    if i > 0 && j > 0 {
        lemma_dl_prefix_bounds(s, t, i - 1, j);
        lemma_dl_prefix_bounds(s, t, i, j - 1);
        lemma_dl_prefix_bounds(s, t, i - 1, j - 1);
        let k = last_eq_before(s, t[j - 1], i - 1);
        let l = last_eq_before(t, s[i - 1], j - 1);
        lemma_last_eq_before_bounds(s, t[j - 1], i - 1);
        lemma_last_eq_before_bounds(t, s[i - 1], j - 1);
        if k > 0 && l > 0 {
            lemma_dl_prefix_bounds(s, t, k - 1, l - 1);
        }
        lemma_dl_zero(s, t, i - 1, j - 1);
    }
}

/// The Levenshtein distance does not depend on the order of its two
/// arguments, prefix by prefix.
pub proof fn lemma_lev_symm(s: Seq<char>, t: Seq<char>, i: int, j: int)
    requires
        0 <= i <= s.len(),
        0 <= j <= t.len(),
    ensures
        lev_prefix(s, t, i, j) == lev_prefix(t, s, j, i),
    decreases i + j,
{
    if i > 0 && j > 0 {
        lemma_lev_symm(s, t, i - 1, j);
        lemma_lev_symm(s, t, i, j - 1);
        lemma_lev_symm(s, t, i - 1, j - 1);
    }
}

/// The Damerau-Levenshtein distance does not depend on the order of its
/// two arguments, prefix by prefix.
pub proof fn lemma_dl_symm(s: Seq<char>, t: Seq<char>, i: int, j: int)
    requires
        0 <= i <= s.len(),
        0 <= j <= t.len(),
    ensures
        dl_prefix(s, t, i, j) == dl_prefix(t, s, j, i),
    decreases i + j,
{
    if i > 0 && j > 0 {
        lemma_dl_symm(s, t, i - 1, j);
        lemma_dl_symm(s, t, i, j - 1);
        lemma_dl_symm(s, t, i - 1, j - 1);
        let k = last_eq_before(s, t[j - 1], i - 1);
        let l = last_eq_before(t, s[i - 1], j - 1);
        lemma_last_eq_before_bounds(s, t[j - 1], i - 1);
        lemma_last_eq_before_bounds(t, s[i - 1], j - 1);
        if k > 0 && l > 0 {
            lemma_dl_symm(s, t, k - 1, l - 1);
        }
    }
}

/// Allowing transpositions can only lower the cost: the
/// Damerau-Levenshtein distance never exceeds the Levenshtein distance,
/// prefix by prefix.
pub proof fn lemma_dl_le_lev(s: Seq<char>, t: Seq<char>, i: int, j: int)
    requires
        0 <= i <= s.len(),
        0 <= j <= t.len(),
    ensures
        dl_prefix(s, t, i, j) <= lev_prefix(s, t, i, j),
    decreases i + j,
{
    if i > 0 && j > 0 {
        lemma_dl_le_lev(s, t, i - 1, j);
        lemma_dl_le_lev(s, t, i, j - 1);
        lemma_dl_le_lev(s, t, i - 1, j - 1);
    }
}

/// The triangle inequality for the Levenshtein distance, prefix by
/// prefix: going from `s` to `u` directly never costs more than going
/// from `s` to `t` and then from `t` to `u`.
pub proof fn lemma_lev_triangle(s: Seq<char>, t: Seq<char>, u: Seq<char>, i: int, j: int, k: int)
    requires
        0 <= i <= s.len(),
        0 <= j <= t.len(),
        0 <= k <= u.len(),
    ensures
        lev_prefix(s, u, i, k) <= lev_prefix(s, t, i, j) + lev_prefix(t, u, j, k),
    decreases i + j + k,
{
    lemma_lev_prefix_bounds(s, t, i, j);
    lemma_lev_prefix_bounds(t, u, j, k);
    lemma_lev_prefix_bounds(s, u, i, k);
    if i == 0 || j == 0 || k == 0 {
        // all three degenerate cases follow from the lower and upper
        // bounds on the two remaining distances
    } else {
        let a = lev_prefix(s, t, i, j);
        let b = lev_prefix(t, u, j, k);
        let a_del = lev_prefix(s, t, i - 1, j) + 1;
        let a_ins = lev_prefix(s, t, i, j - 1) + 1;
        let b_del = lev_prefix(t, u, j - 1, k) + 1;
        let b_ins = lev_prefix(t, u, j, k - 1) + 1;
        if a == a_del {
            lemma_lev_triangle(s, t, u, i - 1, j, k);
            assert(lev_prefix(s, u, i, k) <= lev_prefix(s, u, i - 1, k) + 1);
        } else if b == b_ins {
            lemma_lev_triangle(s, t, u, i, j, k - 1);
            assert(lev_prefix(s, u, i, k) <= lev_prefix(s, u, i, k - 1) + 1);
        } else if a == a_ins && b == b_del {
            lemma_lev_triangle(s, t, u, i, j - 1, k);
        } else if a == a_ins {
            // b is its substitution arm
            lemma_lev_triangle(s, t, u, i, j - 1, k - 1);
            assert(lev_prefix(s, u, i, k) <= lev_prefix(s, u, i, k - 1) + 1);
        } else if b == b_del {
            // a is its substitution arm
            lemma_lev_triangle(s, t, u, i - 1, j - 1, k);
            assert(lev_prefix(s, u, i, k) <= lev_prefix(s, u, i - 1, k) + 1);
        } else {
            // both are their substitution arms; a substitution from s to
            // u costs no more than the two substitutions through t
            lemma_lev_triangle(s, t, u, i - 1, j - 1, k - 1);
            assert(lev_prefix(s, u, i, k) <= lev_prefix(s, u, i - 1, k - 1) + (if s[i - 1] == u[k
                - 1] {
                0int
            } else {
                1int
            }));
        }
    }
}

/// Over prefixes of equal length, the Levenshtein distance never exceeds
/// the number of positions at which the prefixes differ; here the
/// sequences differ at position `p` alone.
pub proof fn lemma_lev_single_upper(s: Seq<char>, t: Seq<char>, p: int, i: int)
    requires
        s.len() == t.len(),
        0 <= p < s.len(),
        forall|q: int| 0 <= q < s.len() && q != p ==> s[q] == t[q],
        0 <= i <= s.len(),
    ensures
        lev_prefix(s, t, i, i) <= if i > p {
            1int
        } else {
            0int
        },
    decreases i,
{
    if i > 0 {
        lemma_lev_single_upper(s, t, p, i - 1);
    }
}

/// Two sequences that agree on their first `i` characters are at
/// Damerau-Levenshtein distance zero over those prefixes.
pub proof fn lemma_dl_eq_prefix(s: Seq<char>, t: Seq<char>, i: int)
    requires
        0 <= i <= s.len(),
        i <= t.len(),
        forall|q: int| 0 <= q < i ==> s[q] == t[q],
    ensures
        dl_prefix(s, t, i, i) == 0,
    decreases i,
{
    if i > 0 {
        lemma_dl_eq_prefix(s, t, i - 1);
        lemma_dl_prefix_bounds(s, t, i - 1, i);
        lemma_dl_prefix_bounds(s, t, i, i - 1);
        let k = last_eq_before(s, t[i - 1], i - 1);
        let l = last_eq_before(t, s[i - 1], i - 1);
        lemma_last_eq_before_bounds(s, t[i - 1], i - 1);
        lemma_last_eq_before_bounds(t, s[i - 1], i - 1);
        if k > 0 && l > 0 {
            lemma_dl_prefix_bounds(s, t, k - 1, l - 1);
        }
    }
}

/// Shortening the second prefix by one character changes the Levenshtein
/// distance by at most one.
proof fn lemma_lev_drop_col(s: Seq<char>, t: Seq<char>, i: int, j: int)
    requires
        0 <= i <= s.len(),
        1 <= j <= t.len(),
    ensures
        lev_prefix(s, t, i, j - 1) <= lev_prefix(s, t, i, j) + 1,
    decreases i + j,
{
    if i > 0 {
        if j == 1 {
            lemma_lev_prefix_bounds(s, t, i, 1);
        } else {
            lemma_lev_drop_col(s, t, i - 1, j);
        }
    }
}

/// Shortening the first prefix by one character changes the Levenshtein
/// distance by at most one.
proof fn lemma_lev_drop_row(s: Seq<char>, t: Seq<char>, i: int, j: int)
    requires
        1 <= i <= s.len(),
        0 <= j <= t.len(),
    ensures
        lev_prefix(s, t, i - 1, j) <= lev_prefix(s, t, i, j) + 1,
    decreases i + j,
{
    if j > 0 {
        if i == 1 {
            lemma_lev_prefix_bounds(s, t, 1, j);
        } else {
            lemma_lev_drop_row(s, t, i, j - 1);
        }
    }
}

/// When the last characters of the two prefixes match, taking the match
/// is never worse than inserting or deleting around it.
pub proof fn lemma_lev_match(s: Seq<char>, t: Seq<char>, i: int, j: int)
    requires
        1 <= i <= s.len(),
        1 <= j <= t.len(),
        s[i - 1] == t[j - 1],
    ensures
        lev_prefix(s, t, i, j) == lev_prefix(s, t, i - 1, j - 1),
{
    lemma_lev_drop_col(s, t, i - 1, j);
    lemma_lev_drop_row(s, t, i, j - 1);
}

} // verus!

