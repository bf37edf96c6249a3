//! The two distance functions, each proved to return exactly the value of
//! its mathematical definition in [`crate::model`].

use vstd::prelude::*;
use vstd::string::StrSliceExecFns;

use crate::grid::N2Array;
use crate::model::damerau_levenshtein_distance;
use crate::model::dl_prefix;
use crate::model::last_eq_before;
use crate::model::lev_prefix;
use crate::model::levenshtein_distance;
use crate::model::lemma_dl_eq_prefix;
use crate::model::lemma_dl_prefix_bounds;
use crate::model::lemma_last_eq_before_bounds;
use crate::model::lemma_lev_match;
use crate::model::lemma_lev_prefix_bounds;
use std::collections::BTreeMap;

verus! {

broadcast use vstd::laws_cmp::group_laws_cmp;

/// The characters of `s`, one `Vec` entry per code point.
fn chars_of(s: &str) -> (v: Vec<char>)
    ensures
        v@ == s@,
{
    let len = s.unicode_len();
    let mut v: Vec<char> = Vec::new();
    let mut i: usize = 0;
    while i < len
        invariant
            i <= len,
            len == s@.len(),
            v@.len() == i,
            forall|k: int| 0 <= k < i ==> v@[k] == s@[k],
        decreases len - i,
    {
        v.push(s.get_char(i));
        i = i + 1;
    }
    proof {
        assert(v@ =~= s@);
    }
    v
}

/// Whether two equally long character vectors hold the same characters.
fn vec_eq(a: &Vec<char>, b: &Vec<char>) -> (r: bool)
    requires
        a@.len() == b@.len(),
    ensures
        r <==> a@ == b@,
{
    let mut i: usize = 0;
    while i < a.len()
        invariant
            i <= a@.len(),
            a@.len() == b@.len(),
            forall|k: int| 0 <= k < i ==> a@[k] == b@[k],
        decreases a@.len() - i,
    {
        if a[i] != b[i] {
            return false;
        }
        i = i + 1;
    }
    proof {
        assert(a@ =~= b@);
    }
    true
}

/// The part of the Levenshtein table that is already filled: every border
/// cell, every cell of a finished row, and the cells of row `row` left of
/// `col`, each holding the distance between the matching prefixes.
spec fn lev_cells_ok(g: N2Array<usize>, s: Seq<char>, t: Seq<char>, row: int, col: int) -> bool {
    forall|i: int, j: int|
        0 <= i <= s.len() && 0 <= j <= t.len() && (i == 0 || j == 0 || i < row || (i == row && j
            < col)) ==> #[trigger] g.cell(i, j) == lev_prefix(s, t, i, j)
}

/// Calculates the Levenshtein distance between two strings: the least
/// number of single-character insertions, deletions and substitutions
/// that turn `source` into `target`. Characters are compared by exact
/// equality of code points. The preconditions only keep the
/// dynamic-programming table within the address space and the result
/// within `u32`.
pub fn levenshtein(source: &str, target: &str) -> (r: u32)
    requires
        source@.len() + target@.len() <= u32::MAX,
        (source@.len() + 1) * (target@.len() + 1) <= usize::MAX,
    ensures
        r == levenshtein_distance(source@, target@),
{
    let s = chars_of(source);
    let t = chars_of(target);
    let n = s.len();
    let m = t.len();
    proof {
        assert(n + m + 1 <= (n + 1) * (m + 1)) by (nonlinear_arith)
            requires
                n >= 0,
                m >= 0,
        ;
    }
    let mut g = N2Array::new(n + 1, m + 1, 0usize);

    let mut i: usize = 1;
    while i <= n
        invariant
            g.wf(),
            g.rows() == n + 1,
            g.cols() == m + 1,
            1 <= i <= n + 1,
            n < usize::MAX,
            g.cell(0, 0) == 0,
            forall|a: int| 1 <= a < i ==> g.cell(a, 0) == a,
        decreases n + 1 - i,
    {
        g.set(i, 0, i);
        i = i + 1;
    }

    let mut j: usize = 1;
    while j <= m
        invariant
            g.wf(),
            g.rows() == n + 1,
            g.cols() == m + 1,
            1 <= j <= m + 1,
            m < usize::MAX,
            g.cell(0, 0) == 0,
            forall|a: int| 1 <= a <= n ==> g.cell(a, 0) == a,
            forall|b: int| 1 <= b < j ==> g.cell(0, b) == b,
        decreases m + 1 - j,
    {
        g.set(0, j, j);
        j = j + 1;
    }

    let mut row: usize = 1;
    while row <= n
        invariant
            n == s@.len(),
            m == t@.len(),
            s@ == source@,
            t@ == target@,
            n + m + 1 <= usize::MAX,
            g.wf(),
            g.rows() == n + 1,
            g.cols() == m + 1,
            1 <= row <= n + 1,
            lev_cells_ok(g, s@, t@, row as int, 1),
        decreases n + 1 - row,
    {
        let mut col: usize = 1;
        while col <= m
            invariant
                n == s@.len(),
                m == t@.len(),
                n + m + 1 <= usize::MAX,
                g.wf(),
                g.rows() == n + 1,
                g.cols() == m + 1,
                1 <= row <= n,
                1 <= col <= m + 1,
                lev_cells_ok(g, s@, t@, row as int, col as int),
            decreases m + 1 - col,
        {
            let above = g.get(row - 1, col);
            let left = g.get(row, col - 1);
            let diag = g.get(row - 1, col - 1);
            proof {
                lemma_lev_prefix_bounds(s@, t@, row as int - 1, col as int);
                lemma_lev_prefix_bounds(s@, t@, row as int, col as int - 1);
                lemma_lev_prefix_bounds(s@, t@, row as int - 1, col as int - 1);
            }
            let value: usize;
            if s[row - 1] == t[col - 1] {
                proof {
                    lemma_lev_match(s@, t@, row as int, col as int);
                }
                value = diag;
            } else {
                let mut best = above;
                if left < best {
                    best = left;
                }
                if diag < best {
                    best = diag;
                }
                value = best + 1;
            }
            g.set(row, col, value);
            col = col + 1;
        }
        row = row + 1;
    }

    let d = g.get(n, m);
    proof {
        lemma_lev_prefix_bounds(s@, t@, n as int, m as int);
    }
    d as u32
}

/// The border of the Damerau-Levenshtein table: the sentinel row and
/// column hold `inf`, and the next row and column hold the distances to
/// the empty prefix. Cell `(i, j)` of the recurrence lives at grid
/// position `(i + 1, j + 1)` because of the extra sentinel border.
spec fn dl_border_ok(g: N2Array<usize>, n: int, m: int, inf: int) -> bool {
    &&& forall|a: int, b: int| 0 <= a <= n + 1 && b == 0 ==> #[trigger] g.cell(a, b) == inf
    &&& forall|a: int, b: int| a == 0 && 0 <= b <= m + 1 ==> #[trigger] g.cell(a, b) == inf
    &&& forall|a: int, b: int| 1 <= a <= n + 1 && b == 1 ==> #[trigger] g.cell(a, b) == a - 1
    &&& forall|a: int, b: int| a == 1 && 1 <= b <= m + 1 ==> #[trigger] g.cell(a, b) == b - 1
}

/// The part of the Damerau-Levenshtein table that is already filled:
/// every cell of a finished row and the cells of row `row` left of `col`.
spec fn dl_cells_ok(g: N2Array<usize>, s: Seq<char>, t: Seq<char>, row: int, col: int) -> bool {
    forall|a: int, b: int|
        2 <= a <= s.len() + 1 && 2 <= b <= t.len() + 1 && (a - 1 < row || (a - 1 == row && b - 1
            < col)) ==> #[trigger] g.cell(a, b) == dl_prefix(s, t, a - 1, b - 1)
}

/// The side table of the Damerau algorithm: keyed by code point, it holds
/// for each character of `s` seen in the first `upto` rows the latest
/// one-based row at which it occurred, and holds no entry for any other
/// character.
spec fn last_rows_ok(mp: Map<u32, usize>, s: Seq<char>, upto: int) -> bool {
    forall|c: char|
        {
            let k = #[trigger] last_eq_before(s, c, upto);
            &&& (mp.contains_key(c as u32) <==> k != 0)
            &&& (mp.contains_key(c as u32) ==> mp[c as u32] == k)
        }
}

/// Calculates the Damerau-Levenshtein distance between two strings: the
/// least number of single-character insertions, deletions, substitutions
/// and transpositions of two adjacent characters that turn `source` into
/// `target`. Characters are compared by exact equality of code points.
/// The preconditions only keep the dynamic-programming table within the
/// address space and the result within `u32`.
pub fn damerau_levenshtein(source: &str, target: &str) -> (r: u32)
    requires
        source@.len() + target@.len() <= u32::MAX,
        (source@.len() + 2) * (target@.len() + 2) <= usize::MAX,
    ensures
        r == damerau_levenshtein_distance(source@, target@),
{
    let s = chars_of(source);
    let t = chars_of(target);
    let n = s.len();
    let m = t.len();

    if n == 0 {
        return m as u32;
    }
    if m == 0 {
        return n as u32;
    }
    if n == m && vec_eq(&s, &t) {
        proof {
            lemma_dl_eq_prefix(s@, t@, n as int);
        }
        return 0;
    }

    proof {
        assert(2 * (n + m) + 1 <= (n + 2) * (m + 2)) by (nonlinear_arith)
            requires
                n >= 1,
                m >= 1,
        ;
    }
    let inf = n + m;
    let mut g = N2Array::new(n + 2, m + 2, 0usize);
    g.set(0, 0, inf);

    let mut i: usize = 0;
    while i <= n
        invariant
            g.wf(),
            g.rows() == n + 2,
            g.cols() == m + 2,
            i <= n + 1,
            n + 1 < usize::MAX,
            inf == n + m,
            g.cell(0, 0) == inf,
            forall|a: int, b: int| 1 <= a < i + 1 && b == 0 ==> #[trigger] g.cell(a, b) == inf,
            forall|a: int, b: int| 1 <= a < i + 1 && b == 1 ==> #[trigger] g.cell(a, b) == a - 1,
        decreases n + 1 - i,
    {
        g.set(i + 1, 0, inf);
        g.set(i + 1, 1, i);
        i = i + 1;
    }

    let mut j: usize = 0;
    while j <= m
        invariant
            g.wf(),
            g.rows() == n + 2,
            g.cols() == m + 2,
            j <= m + 1,
            m + 1 < usize::MAX,
            inf == n + m,
            g.cell(0, 0) == inf,
            forall|a: int, b: int| 1 <= a <= n + 1 && b == 0 ==> #[trigger] g.cell(a, b) == inf,
            forall|a: int, b: int| 1 <= a <= n + 1 && b == 1 ==> #[trigger] g.cell(a, b) == a - 1,
            forall|a: int, b: int| a == 0 && 1 <= b < j + 1 ==> #[trigger] g.cell(a, b) == inf,
            forall|a: int, b: int| a == 1 && 1 <= b < j + 1 ==> #[trigger] g.cell(a, b) == b - 1,
        decreases m + 1 - j,
    {
        g.set(0, j + 1, inf);
        g.set(1, j + 1, j);
        j = j + 1;
    }

    let mut last_row: BTreeMap<u32, usize> = BTreeMap::new();
    let mut row: usize = 1;
    while row <= n
        invariant
            n == s@.len(),
            m == t@.len(),
            s@ == source@,
            t@ == target@,
            1 <= n,
            1 <= m,
            inf == n + m,
            2 * (n + m) + 1 <= usize::MAX,
            g.wf(),
            g.rows() == n + 2,
            g.cols() == m + 2,
            1 <= row <= n + 1,
            dl_border_ok(g, n as int, m as int, inf as int),
            dl_cells_ok(g, s@, t@, row as int, 1),
            last_rows_ok(last_row@, s@, row as int - 1),
        decreases n + 1 - row,
    {
        let char_s = s[row - 1];
        let mut lmc: usize = 0;
        let mut col: usize = 1;
        while col <= m
            invariant
                n == s@.len(),
                m == t@.len(),
                1 <= n,
                1 <= m,
                inf == n + m,
                2 * (n + m) + 1 <= usize::MAX,
                g.wf(),
                g.rows() == n + 2,
                g.cols() == m + 2,
                1 <= row <= n,
                1 <= col <= m + 1,
                dl_border_ok(g, n as int, m as int, inf as int),
                dl_cells_ok(g, s@, t@, row as int, col as int),
                last_rows_ok(last_row@, s@, row as int - 1),
                char_s == s@[row as int - 1],
                lmc == last_eq_before(t@, char_s, col as int - 1),
                lmc <= col - 1,
            decreases m + 1 - col,
        {
            let char_t = t[col - 1];
            let lmr: usize = match last_row.get(&(char_t as u32)) {
                Some(v) => *v,
                None => 0,
            };
            proof {
                assert(lmr == last_eq_before(s@, char_t, row as int - 1));
                lemma_last_eq_before_bounds(s@, char_t, row as int - 1);
                lemma_dl_prefix_bounds(s@, t@, row as int - 1, col as int);
                lemma_dl_prefix_bounds(s@, t@, row as int, col as int - 1);
                lemma_dl_prefix_bounds(s@, t@, row as int - 1, col as int - 1);
                if lmr >= 1 && lmc >= 1 {
                    lemma_dl_prefix_bounds(s@, t@, lmr as int - 1, lmc as int - 1);
                    assert(g.cell(lmr as int, lmc as int) == dl_prefix(
                        s@,
                        t@,
                        lmr as int - 1,
                        lmc as int - 1,
                    ));
                } else {
                    assert(g.cell(lmr as int, lmc as int) == inf);
                }
            }
            let cost: usize = if char_s == char_t {
                0
            } else {
                1
            };
            let dist_add = g.get(row, col + 1) + 1;
            let dist_del = g.get(row + 1, col) + 1;
            let dist_sub = g.get(row, col) + cost;
            let dist_trans = g.get(lmr, lmc) + (row - lmr - 1) + 1 + (col - lmc - 1);
            let mut dist = dist_add;
            if dist_del < dist {
                dist = dist_del;
            }
            if dist_sub < dist {
                dist = dist_sub;
            }
            if dist_trans < dist {
                dist = dist_trans;
            }
            g.set(row + 1, col + 1, dist);
            proof {
                if !(lmr >= 1 && lmc >= 1) {
                    assert(dist_trans >= inf + 1);
                    assert(dist_sub <= inf - 1);
                }
                assert(dist == dl_prefix(s@, t@, row as int, col as int));
            }
            if cost == 0 {
                lmc = col;
            }
            proof {
                assert(lmc == last_eq_before(t@, char_s, col as int));
            }
            col = col + 1;
        }
        last_row.insert(char_s as u32, row);
        proof {
            assert forall|c: char|
                {
                    let k = #[trigger] last_eq_before(s@, c, row as int);
                    &&& (last_row@.contains_key(c as u32) <==> k != 0)
                    &&& (last_row@.contains_key(c as u32) ==> last_row@[c as u32] == k)
                } by {
                let k_old = last_eq_before(s@, c, row as int - 1);
                if c == char_s {
                    assert(last_eq_before(s@, c, row as int) == row);
                } else {
                    lemma_code_point_injective(c, char_s);
                    assert(last_eq_before(s@, c, row as int) == k_old);
                }
            }
            assert(dl_cells_ok(g, s@, t@, row as int + 1, 1));
        }
        row = row + 1;
    }

    let d = g.get(n + 1, m + 1);
    proof {
        lemma_dl_prefix_bounds(s@, t@, n as int, m as int);
    }
    d as u32
}

/// Two distinct characters have distinct code points.
proof fn lemma_code_point_injective(c1: char, c2: char)
    requires
        c1 != c2,
    ensures
        c1 as u32 != c2 as u32,
{
}

} // verus!
