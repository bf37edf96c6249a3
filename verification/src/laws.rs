//! The laws of the two distances, stated over the mathematical
//! definitions in [`crate::model`]. Since [`crate::distances::levenshtein`]
//! and [`crate::distances::damerau_levenshtein`] are proved to return
//! exactly those definitions, each law carries over to the executable
//! functions.

use vstd::prelude::*;

use crate::model::damerau_levenshtein_distance;
use crate::model::levenshtein_distance;
use crate::model::lemma_dl_eq_prefix;
use crate::model::lemma_dl_le_lev;
use crate::model::lemma_dl_symm;
use crate::model::lemma_dl_zero;
use crate::model::lemma_lev_eq_prefix;
use crate::model::lemma_lev_single_upper;
use crate::model::lemma_lev_symm;
use crate::model::lemma_lev_triangle;
use crate::model::lemma_lev_zero;

verus! {

/// Identity: every string is at distance zero from itself, under both
/// metrics.
pub proof fn lemma_identity(s: Seq<char>)
    ensures
        levenshtein_distance(s, s) == 0,
        damerau_levenshtein_distance(s, s) == 0,
{
    lemma_lev_eq_prefix(s, s, s.len() as int);
    lemma_dl_eq_prefix(s, s, s.len() as int);
}

/// Symmetry: both distances are the same in either direction.
pub proof fn lemma_symmetry(s: Seq<char>, t: Seq<char>)
    ensures
        levenshtein_distance(s, t) == levenshtein_distance(t, s),
        damerau_levenshtein_distance(s, t) == damerau_levenshtein_distance(t, s),
{
    lemma_lev_symm(s, t, s.len() as int, t.len() as int);
    lemma_dl_symm(s, t, s.len() as int, t.len() as int);
}

/// Empty-string boundary: the distance to the empty string is the length
/// of the other string, under both metrics.
pub proof fn lemma_empty_boundary(s: Seq<char>, t: Seq<char>)
    ensures
        levenshtein_distance(Seq::<char>::empty(), t) == t.len(),
        levenshtein_distance(s, Seq::<char>::empty()) == s.len(),
        damerau_levenshtein_distance(Seq::<char>::empty(), t) == t.len(),
        damerau_levenshtein_distance(s, Seq::<char>::empty()) == s.len(),
{
}

/// Triangle inequality: editing `s` into `u` directly never costs more
/// than editing `s` into `t` and then `t` into `u`.
pub proof fn lemma_triangle_inequality(s: Seq<char>, t: Seq<char>, u: Seq<char>)
    ensures
        levenshtein_distance(s, u) <= levenshtein_distance(s, t) + levenshtein_distance(t, u),
{
    lemma_lev_triangle(s, t, u, s.len() as int, t.len() as int, u.len() as int);
}

/// Allowing transpositions can only lower the cost: the
/// Damerau-Levenshtein distance never exceeds the Levenshtein distance.
pub proof fn lemma_damerau_le_levenshtein(s: Seq<char>, t: Seq<char>)
    ensures
        damerau_levenshtein_distance(s, t) <= levenshtein_distance(s, t),
{
    lemma_dl_le_lev(s, t, s.len() as int, t.len() as int);
}

/// Single substitution: two strings of equal length that differ at
/// exactly one position are at distance one under both metrics.
pub proof fn lemma_single_substitution(s: Seq<char>, t: Seq<char>, p: int)
    requires
        s.len() == t.len(),
        0 <= p < s.len(),
        s[p] != t[p],
        forall|q: int| 0 <= q < s.len() && q != p ==> s[q] == t[q],
    ensures
        levenshtein_distance(s, t) == 1,
        damerau_levenshtein_distance(s, t) == 1,
{
    let n = s.len() as int;
    lemma_lev_single_upper(s, t, p, n);
    crate::model::lemma_lev_prefix_bounds(s, t, n, n);
    crate::model::lemma_dl_prefix_bounds(s, t, n, n);
    if levenshtein_distance(s, t) == 0 {
        lemma_lev_zero(s, t, n, n);
    }
    lemma_dl_le_lev(s, t, n, n);
    if damerau_levenshtein_distance(s, t) == 0 {
        lemma_dl_zero(s, t, n, n);
    }
}

} // verus!
