//! Bracket matching.
//!
//! `[` and `]` jump to their matching partner, found by a depth-counted scan:
//! the nesting depth starts at 1 just past the bracket and is adjusted by one
//! for every bracket passed; the partner is the position where the depth
//! returns to 0. A scan that runs past the end (or start) of the program has
//! no matching partner.

use vstd::prelude::*;

verus! {

/// The contribution of one character to the nesting depth of a forward scan.
pub open spec fn bracket_delta(c: char) -> int {
    if c == '[' {
        1
    } else if c == ']' {
        -1
    } else {
        0
    }
}

/// Forward depth-counted scan: starting at position `i` with nesting depth
/// `nest`, the position whose bracket brings the depth to 0, or `None` if the
/// scan runs past the end of the program.
pub open spec fn scan_fwd(prog: Seq<char>, i: int, nest: int) -> Option<int>
    decreases prog.len() - i,
{
    if i < 0 || i >= prog.len() {
        None
    } else {
        let nest2 = nest + bracket_delta(prog[i]);
        if nest2 == 0 {
            Some(i)
        } else {
            scan_fwd(prog, i + 1, nest2)
        }
    }
}

/// Backward depth-counted scan: starting at position `i` with nesting depth
/// `nest` (here `]` deepens and `[` shallows), the position whose bracket
/// brings the depth to 0, or `None` if the scan runs past the start.
pub open spec fn scan_bwd(prog: Seq<char>, i: int, nest: int) -> Option<int>
    decreases i + 1,
{
    if i < 0 || i >= prog.len() {
        None
    } else {
        let nest2 = nest - bracket_delta(prog[i]);
        if nest2 == 0 {
            Some(i)
        } else {
            scan_bwd(prog, i - 1, nest2)
        }
    }
}

/// Sum of the bracket deltas over the half-open range `[a, b)`.
pub open spec fn dsum(prog: Seq<char>, a: int, b: int) -> int
    decreases b - a,
{
    if a >= b {
        0
    } else {
        bracket_delta(prog[a]) + dsum(prog, a + 1, b)
    }
}

/// A successful forward scan lands inside the program.
pub proof fn lemma_scan_fwd_in_range(prog: Seq<char>, i: int, nest: int, j: int)
    requires
        scan_fwd(prog, i, nest) == Some(j),
    ensures
        0 <= i <= j < prog.len(),
    decreases prog.len() - i,
{
    if 0 <= i < prog.len() {
        let nest2 = nest + bracket_delta(prog[i]);
        if nest2 != 0 {
            lemma_scan_fwd_in_range(prog, i + 1, nest2, j);
        }
    }
}

/// A successful backward scan lands inside the program.
pub proof fn lemma_scan_bwd_in_range(prog: Seq<char>, i: int, nest: int, j: int)
    requires
        scan_bwd(prog, i, nest) == Some(j),
    ensures
        0 <= j <= i < prog.len(),
    decreases i + 1,
{
    if 0 <= i < prog.len() {
        let nest2 = nest - bracket_delta(prog[i]);
        if nest2 != 0 {
            lemma_scan_bwd_in_range(prog, i - 1, nest2, j);
        }
    }
}

proof fn lemma_dsum_split(prog: Seq<char>, a: int, m: int, b: int)
    requires
        a <= m <= b,
    ensures
        dsum(prog, a, b) == dsum(prog, a, m) + dsum(prog, m, b),
    decreases m - a,
{
    if a < m {
        lemma_dsum_split(prog, a + 1, m, b);
    }
}

/// What a successful forward scan means in terms of delta sums: the depth
/// reaches 0 exactly at `j`, never earlier, and (for a positive starting
/// depth) stays positive strictly before `j`.
proof fn lemma_scan_fwd_sums(prog: Seq<char>, i: int, nest: int, j: int)
    requires
        0 <= i,
        nest >= 1,
        scan_fwd(prog, i, nest) == Some(j),
    ensures
        i <= j < prog.len(),
        nest + dsum(prog, i, j + 1) == 0,
        forall|m: int| i <= m <= j ==> nest + #[trigger] dsum(prog, i, m) >= 1,
    decreases prog.len() - i,
{
    let nest2 = nest + bracket_delta(prog[i]);
    if nest2 == 0 {
        assert(dsum(prog, i, i + 1) == bracket_delta(prog[i]));
        assert forall|m: int| i <= m <= j implies nest + #[trigger] dsum(prog, i, m) >= 1 by {
            assert(m == i);
            assert(dsum(prog, i, i) == 0);
        }
    } else {
        assert(nest2 >= 1);
        lemma_scan_fwd_sums(prog, i + 1, nest2, j);
        assert(nest + dsum(prog, i, j + 1) == 0) by {
            lemma_dsum_split(prog, i, i + 1, j + 1);
        }
        assert forall|m: int| i <= m <= j implies nest + #[trigger] dsum(prog, i, m) >= 1 by {
            if m > i {
                lemma_dsum_split(prog, i, i + 1, m);
            } else {
                assert(dsum(prog, i, i) == 0);
            }
        }
    }
}

/// A backward scan from `m` whose accumulated depth matches the delta sums of
/// the range scanned so far runs down to `i`, the opening bracket.
proof fn lemma_scan_bwd_reaches(prog: Seq<char>, i: int, j: int, m: int, nest: int)
    requires
        0 <= i <= m < j < prog.len(),
        prog[i] == '[',
        nest == 1 - dsum(prog, m + 1, j),
        dsum(prog, i + 1, j) == 0,
        forall|t: int| i + 1 <= t <= j ==> #[trigger] dsum(prog, i + 1, t) >= 0,
    ensures
        scan_bwd(prog, m, nest) == Some(i),
    decreases m - i,
{
    let nest2 = nest - bracket_delta(prog[m]);
    assert(dsum(prog, m, j) == bracket_delta(prog[m]) + dsum(prog, m + 1, j));
    assert(nest2 == 1 - dsum(prog, m, j));
    if m == i {
        assert(dsum(prog, i, j) == bracket_delta(prog[i]) + dsum(prog, i + 1, j));
        assert(nest2 == 0);
    } else {
        assert(dsum(prog, i + 1, j) == dsum(prog, i + 1, m) + dsum(prog, m, j)) by {
            lemma_dsum_split(prog, i + 1, m, j);
        }
        assert(dsum(prog, i + 1, m) >= 0);
        assert(nest2 >= 1);
        lemma_scan_bwd_reaches(prog, i, j, m - 1, nest2);
    }
}

/// Bracket matching is symmetric: if the forward scan from an `[` at `i`
/// finds its matching bracket at `j`, then `j` holds a `]`, and the backward
/// scan from `j` finds the same `[` at `i` again — the two jumps land on
/// consistent instruction boundaries regardless of nesting depth.
pub proof fn lemma_bracket_match_symmetric(prog: Seq<char>, i: int, j: int)
    requires
        0 <= i < prog.len(),
        prog[i] == '[',
        scan_fwd(prog, i + 1, 1) == Some(j),
    ensures
        i < j < prog.len(),
        prog[j] == ']',
        scan_bwd(prog, j - 1, 1) == Some(i),
{
    lemma_scan_fwd_sums(prog, i + 1, 1, j);
    assert(dsum(prog, i + 1, j + 1) == -1);
    assert(1 + dsum(prog, i + 1, j) >= 1);
    assert(dsum(prog, i + 1, j + 1) == dsum(prog, i + 1, j) + dsum(prog, j, j + 1)) by {
        lemma_dsum_split(prog, i + 1, j, j + 1);
    }
    assert(dsum(prog, j + 1, j + 1) == 0);
    assert(dsum(prog, j, j + 1) == bracket_delta(prog[j]));
    assert(bracket_delta(prog[j]) == -1 - dsum(prog, i + 1, j));
    assert(bracket_delta(prog[j]) == -1 && dsum(prog, i + 1, j) == 0);
    assert(prog[j] == ']');
    if j - 1 == i {
        assert(dsum(prog, i + 1, j) == 0);
        assert(scan_bwd(prog, i, 1) == Some(i));
    } else {
        assert(dsum(prog, j, j) == 0);
        lemma_scan_bwd_reaches(prog, i, j, j - 1, 1);
    }
}

/// Find the matching `]` for the `[` at position `i`: the forward
/// depth-counted scan, or `None` when the program has no matching bracket.
pub fn find_match_fwd(prog: &Vec<char>, i: usize) -> (r: Option<usize>)
    requires
        i < prog@.len(),
        prog@[i as int] == '[',
    ensures
        match r {
            Some(j) => j < prog@.len() && scan_fwd(prog@, i + 1, 1) == Some(j as int),
            None => scan_fwd(prog@, i + 1, 1) is None,
        },
{
    let n = prog.len();
    let mut k: usize = i + 1;
    let mut nest: usize = 1;
    while k < n
        invariant
            i + 1 <= k <= n == prog@.len(),
            1 <= nest <= k - i,
            scan_fwd(prog@, i + 1, 1) == scan_fwd(prog@, k as int, nest as int),
        decreases n - k,
    {
        let c = prog[k];
        if c == '[' {
            nest = nest + 1;
        } else if c == ']' {
            nest = nest - 1;
            if nest == 0 {
                return Some(k);
            }
        }
        k = k + 1;
    }
    None
}

/// Find the matching `[` for the `]` at position `i`: the backward
/// depth-counted scan, or `None` when the program has no matching bracket.
pub fn find_match_bwd(prog: &Vec<char>, i: usize) -> (r: Option<usize>)
    requires
        i < prog@.len(),
        prog@[i as int] == ']',
    ensures
        match r {
            Some(j) => j < i && scan_bwd(prog@, i - 1, 1) == Some(j as int),
            None => scan_bwd(prog@, i - 1, 1) is None,
        },
{
    let n = prog.len();
    let mut above: usize = i;
    let mut nest: usize = 1;
    while above > 0
        invariant
            above <= i < n == prog@.len(),
            1 <= nest <= i - above + 1,
            scan_bwd(prog@, i - 1, 1) == scan_bwd(prog@, above - 1, nest as int),
        decreases above,
    {
        let k = above - 1;
        let c = prog[k];
        if c == ']' {
            nest = nest + 1;
        } else if c == '[' {
            nest = nest - 1;
            if nest == 0 {
                return Some(k);
            }
        }
        above = k;
    }
    None
}

} // verus!
