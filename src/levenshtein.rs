use vstd::prelude::*;
use crate::costs::{Cost, Costs, LevenshteinCosts, lemma_levenshtein_choice_is_min};
use crate::edit_matrix::{alignment_cell, substitution_step, lemma_alignment_cell_bound, is_alignment_matrix};
use crate::edit_operation::EditOperation;
use crate::edits::{distance, backtrace};
use crate::matrix::Matrix;

verus! {

pub open spec fn min3(x: nat, y: nat, z: nat) -> nat {
    if x <= y && x <= z {
        x
    } else if y <= z {
        y
    } else {
        z
    }
}

/// The classical Levenshtein distance between the first `i` characters of
/// `a` and the first `j` characters of `b`.
pub open spec fn lev(a: Seq<char>, b: Seq<char>, i: nat, j: nat) -> nat
    decreases i + j,
{
    if i == 0 {
        j
    } else if j == 0 {
        i
    } else {
        min3(
            lev(a, b, (i - 1) as nat, j) + 1,
            lev(a, b, i, (j - 1) as nat) + 1,
            lev(a, b, (i - 1) as nat, (j - 1) as nat) + substitution_step(a[i - 1], b[j - 1]) as nat,
        )
    }
}

/// Under the Levenshtein policy every cell holds the classical distance.
proof fn lemma_levenshtein_cell(a: Seq<char>, b: Seq<char>, i: nat, j: nat)
    requires
        i + j <= usize::MAX,
    ensures
        alignment_cell(LevenshteinCosts {}, a, b, i, j).value() == lev(a, b, i, j),
    decreases i + j,
{
    if i > 0 && j > 0 {
        let costs = LevenshteinCosts {};
        let up = alignment_cell(costs, a, b, (i - 1) as nat, j);
        let left = alignment_cell(costs, a, b, i, (j - 1) as nat);
        let diagonal = alignment_cell(costs, a, b, (i - 1) as nat, (j - 1) as nat);
        lemma_levenshtein_cell(a, b, (i - 1) as nat, j);
        lemma_levenshtein_cell(a, b, i, (j - 1) as nat);
        lemma_levenshtein_cell(a, b, (i - 1) as nat, (j - 1) as nat);
        lemma_alignment_cell_bound(costs, a, b, (i - 1) as nat, j);
        lemma_alignment_cell_bound(costs, a, b, i, (j - 1) as nat);
        lemma_alignment_cell_bound(costs, a, b, (i - 1) as nat, (j - 1) as nat);
        let del = (up.value() + 1) as usize;
        let sub = (diagonal.value() + substitution_step(a[i - 1], b[j - 1])) as usize;
        let ins = (left.value() + 1) as usize;
        lemma_levenshtein_choice_is_min(a[i - 1], b[j - 1], del, sub, ins);
        costs.lemma_lower_cost_picks_candidate(a[i - 1], b[j - 1], del, sub, ins);
    }
}

proof fn lemma_lev_symmetric(a: Seq<char>, b: Seq<char>, i: nat, j: nat)
    ensures
        lev(a, b, i, j) == lev(b, a, j, i),
    decreases i + j,
{
    if i > 0 && j > 0 {
        lemma_lev_symmetric(a, b, (i - 1) as nat, j);
        lemma_lev_symmetric(a, b, i, (j - 1) as nat);
        lemma_lev_symmetric(a, b, (i - 1) as nat, (j - 1) as nat);
    }
}

proof fn lemma_lev_self(a: Seq<char>, i: nat)
    ensures
        lev(a, a, i, i) == 0,
    decreases i,
{
    if i > 0 {
        lemma_lev_self(a, (i - 1) as nat);
    }
}

proof fn lemma_lev_bounds(a: Seq<char>, b: Seq<char>, i: nat, j: nat)
    ensures
        lev(a, b, i, j) >= i - j,
        lev(a, b, i, j) >= j - i,
        lev(a, b, i, j) <= i + j,
    decreases i + j,
{
    if i > 0 && j > 0 {
        lemma_lev_bounds(a, b, (i - 1) as nat, j);
        lemma_lev_bounds(a, b, i, (j - 1) as nat);
        lemma_lev_bounds(a, b, (i - 1) as nat, (j - 1) as nat);
    }
}

proof fn lemma_lev_triangle(a: Seq<char>, b: Seq<char>, c: Seq<char>, i: nat, j: nat, k: nat)
    ensures
        lev(a, c, i, k) <= lev(a, b, i, j) + lev(b, c, j, k),
    decreases i + j + k,
{
    lemma_lev_bounds(a, b, i, j);
    lemma_lev_bounds(b, c, j, k);
    lemma_lev_bounds(a, c, i, k);
    if i > 0 && j > 0 && k > 0 {
        let i1 = (i - 1) as nat;
        let j1 = (j - 1) as nat;
        let k1 = (k - 1) as nat;
        let ab = lev(a, b, i, j);
        let bc = lev(b, c, j, k);
        if ab == lev(a, b, i1, j) + 1 {
            lemma_lev_triangle(a, b, c, i1, j, k);
        } else if bc == lev(b, c, j, k1) + 1 {
            lemma_lev_triangle(a, b, c, i, j, k1);
        } else if ab == lev(a, b, i, j1) + 1 {
            if bc == lev(b, c, j1, k) + 1 {
                lemma_lev_triangle(a, b, c, i, j1, k);
            } else {
                lemma_lev_triangle(a, b, c, i, j1, k1);
            }
        } else {
            if bc == lev(b, c, j1, k) + 1 {
                lemma_lev_triangle(a, b, c, i1, j1, k);
            } else {
                lemma_lev_triangle(a, b, c, i1, j1, k1);
            }
        }
    }
}

/// Under the Levenshtein policy the distance from `a` to `b` is the distance
/// from `b` to `a`.
pub proof fn lemma_levenshtein_symmetric(a: Seq<char>, b: Seq<char>)
    requires
        a.len() + b.len() < usize::MAX,
    ensures
        distance(LevenshteinCosts {}, a, b) == distance(LevenshteinCosts {}, b, a),
{
    lemma_levenshtein_cell(a, b, a.len(), b.len());
    lemma_levenshtein_cell(b, a, b.len(), a.len());
    lemma_lev_symmetric(a, b, a.len(), b.len());
}

/// Under the Levenshtein policy a sequence is at distance zero from itself.
pub proof fn lemma_levenshtein_self(a: Seq<char>)
    requires
        a.len() + a.len() < usize::MAX,
    ensures
        distance(LevenshteinCosts {}, a, a) == 0,
{
    lemma_levenshtein_cell(a, a, a.len(), a.len());
    lemma_lev_self(a, a.len());
}

/// Under any policy, building `s` from nothing costs one insertion per
/// character, and removing all of `s` one deletion per character.
pub proof fn lemma_distance_with_empty<C: Costs<char>>(costs: C, s: Seq<char>)
    requires
        s.len() < usize::MAX,
    ensures
        distance(costs, Seq::empty(), s) == s.len(),
        distance(costs, s, Seq::empty()) == s.len(),
{
}

/// Under the Levenshtein policy going from `a` to `c` costs no more than going
/// from `a` to `b` and then from `b` to `c`.
pub proof fn lemma_levenshtein_triangle(a: Seq<char>, b: Seq<char>, c: Seq<char>)
    requires
        a.len() + b.len() < usize::MAX,
        b.len() + c.len() < usize::MAX,
        a.len() + c.len() < usize::MAX,
    ensures
        distance(LevenshteinCosts {}, a, c) <= distance(LevenshteinCosts {}, a, b) + distance(
            LevenshteinCosts {},
            b,
            c,
        ),
{
    lemma_levenshtein_cell(a, b, a.len(), b.len());
    lemma_levenshtein_cell(b, c, b.len(), c.len());
    lemma_levenshtein_cell(a, c, a.len(), c.len());
    lemma_lev_triangle(a, b, c, a.len(), b.len(), c.len());
}

/// Under the Levenshtein policy each diagonal cell of a sequence against
/// itself records that nothing was done.
proof fn lemma_self_diagonal(a: Seq<char>, i: nat)
    requires
        1 <= i,
        i + i <= usize::MAX,
    ensures
        alignment_cell(LevenshteinCosts {}, a, a, i, i) == Cost::NoAction(0),
{
    let i1 = (i - 1) as nat;
    lemma_levenshtein_cell(a, a, i1, i);
    lemma_levenshtein_cell(a, a, i, i1);
    lemma_levenshtein_cell(a, a, i1, i1);
    lemma_lev_self(a, i1);
    lemma_lev_bounds(a, a, i1, i);
    lemma_lev_bounds(a, a, i, i1);
}

proof fn lemma_self_backtrace(m: Matrix<Cost>, a: Seq<char>, i: nat)
    requires
        is_alignment_matrix(m, LevenshteinCosts {}, a, a),
        a.len() + a.len() < usize::MAX,
        i <= a.len(),
    ensures
        backtrace(m, a, a, i, i) == Seq::new(i, |k: int| EditOperation::Keep(a[k])),
    decreases i,
{
    if i == 0 {
        assert(backtrace(m, a, a, 0, 0) =~= Seq::new(0, |k: int| EditOperation::Keep(a[k])));
    } else {
        let i1 = (i - 1) as nat;
        lemma_self_diagonal(a, i);
        assert(m.at(i as int, i as int) == alignment_cell(LevenshteinCosts {}, a, a, i, i));
        lemma_self_backtrace(m, a, i1);
        assert(backtrace(m, a, a, i, i) =~= Seq::new(i, |k: int| EditOperation::Keep(a[k])));
    }
}

/// Under the Levenshtein policy the operations read off the alignment matrix
/// of a sequence against itself keep every character.
pub proof fn lemma_levenshtein_self_all_kept(m: Matrix<Cost>, a: Seq<char>)
    requires
        is_alignment_matrix(m, LevenshteinCosts {}, a, a),
        a.len() + a.len() < usize::MAX,
    ensures
        backtrace(m, a, a, a.len(), a.len()) == Seq::new(a.len(), |k: int| EditOperation::Keep(a[k])),
{
    lemma_self_backtrace(m, a, a.len());
}

} // verus!
