use vstd::prelude::*;
use vstd::string::StrSliceExecFns;
use crate::costs::{Cost, Costs};
use crate::edit_matrix::{alignment_cell, is_alignment_matrix, lemma_alignment_cell_bound, substitution_step, create_edit_matrix};
use crate::edit_operation::{EditOperation, source, target, ops_cost};
use crate::matrix::Matrix;

verus! {

/// The tag of cell `(i, j)` names a step back to a neighbour, and its cost is
/// that neighbour's cost plus the step's unit price.
pub open spec fn step_consistent(m: Matrix<Cost>, s1: Seq<char>, s2: Seq<char>, i: int, j: int) -> bool {
    match m.at(i, j) {
        Cost::Insertion(v) => j > 0 && v == m.at(i, j - 1).value() + 1,
        Cost::Deletion(v) => i > 0 && v == m.at(i - 1, j).value() + 1,
        Cost::Substitution(v) => i > 0 && j > 0 && s1[i - 1] != s2[j - 1] && v == m.at(
            i - 1,
            j - 1,
        ).value() + 1,
        Cost::NoAction(v) => i > 0 && j > 0 && s1[i - 1] == s2[j - 1] && v == m.at(
            i - 1,
            j - 1,
        ).value(),
    }
}

/// `m` can be walked back from any cell to the origin: it has one row per
/// character of `s1` plus one and one column per character of `s2` plus one,
/// the origin costs nothing, and every other cell is consistent with its tag.
pub open spec fn is_traceable(m: Matrix<Cost>, s1: Seq<char>, s2: Seq<char>) -> bool {
    &&& m.has_shape(s1.len() + 1, s2.len() + 1)
    &&& m.at(0, 0).value() == 0
    &&& forall|i: int, j: int|
        0 <= i <= s1.len() && 0 <= j <= s2.len() && (i, j) != (0int, 0int) ==> #[trigger] step_consistent(
            m,
            s1,
            s2,
            i,
            j,
        )
}

/// The operations read off `m` walking back from `(i, j)` to the origin, in
/// left-to-right order.
pub open spec fn backtrace(m: Matrix<Cost>, s1: Seq<char>, s2: Seq<char>, i: nat, j: nat) -> Seq<
    EditOperation<char>,
>
    decreases i + j,
{
    if i == 0 && j == 0 {
        seq![]
    } else {
        match m.at(i as int, j as int) {
            Cost::Insertion(_) => if j > 0 {
                backtrace(m, s1, s2, i, (j - 1) as nat).push(EditOperation::Insert(s2[j - 1]))
            } else {
                seq![]
            },
            Cost::Deletion(_) => if i > 0 {
                backtrace(m, s1, s2, (i - 1) as nat, j).push(EditOperation::Delete(s1[i - 1]))
            } else {
                seq![]
            },
            Cost::Substitution(_) => if i > 0 && j > 0 {
                backtrace(m, s1, s2, (i - 1) as nat, (j - 1) as nat).push(
                    EditOperation::Substitute(s1[i - 1], s2[j - 1]),
                )
            } else {
                seq![]
            },
            Cost::NoAction(_) => if i > 0 && j > 0 {
                backtrace(m, s1, s2, (i - 1) as nat, (j - 1) as nat).push(
                    EditOperation::Keep(s1[i - 1]),
                )
            } else {
                seq![]
            },
        }
    }
}

/// The alignment matrix under any cost policy can be walked back.
pub proof fn lemma_alignment_matrix_is_traceable<C: Costs<char>>(
    m: Matrix<Cost>,
    costs: C,
    s1: Seq<char>,
    s2: Seq<char>,
)
    requires
        is_alignment_matrix(m, costs, s1, s2),
        s1.len() + s2.len() < usize::MAX,
    ensures
        is_traceable(m, s1, s2),
{
    assert(m.at(0, 0) == alignment_cell(costs, s1, s2, 0, 0));
    assert forall|i: int, j: int|
        0 <= i <= s1.len() && 0 <= j <= s2.len() && (i, j) != (0int, 0int) implies #[trigger] step_consistent(
        m,
        s1,
        s2,
        i,
        j,
    ) by {
        assert(m.at(i, j) == alignment_cell(costs, s1, s2, i as nat, j as nat));
        if i == 0 {
            assert(m.at(i, j - 1) == alignment_cell(costs, s1, s2, i as nat, (j - 1) as nat));
        } else if j == 0 {
            assert(m.at(i - 1, j) == alignment_cell(costs, s1, s2, (i - 1) as nat, j as nat));
        } else {
            let up = alignment_cell(costs, s1, s2, (i - 1) as nat, j as nat);
            let left = alignment_cell(costs, s1, s2, i as nat, (j - 1) as nat);
            let diagonal = alignment_cell(costs, s1, s2, (i - 1) as nat, (j - 1) as nat);
            assert(m.at(i - 1, j) == up);
            assert(m.at(i, j - 1) == left);
            assert(m.at(i - 1, j - 1) == diagonal);
            lemma_alignment_cell_bound(costs, s1, s2, (i - 1) as nat, j as nat);
            lemma_alignment_cell_bound(costs, s1, s2, i as nat, (j - 1) as nat);
            lemma_alignment_cell_bound(costs, s1, s2, (i - 1) as nat, (j - 1) as nat);
            costs.lemma_lower_cost_picks_candidate(
                s1[i - 1],
                s2[j - 1],
                (up.value() + 1) as usize,
                (diagonal.value() + substitution_step(s1[i - 1], s2[j - 1])) as usize,
                (left.value() + 1) as usize,
            );
        }
    }
}

/// Walking back from `(i, j)` reads the first `i` characters of `s1`, writes
/// the first `j` characters of `s2`, and prices the walk at the cell's cost.
pub proof fn lemma_backtrace_prefix(m: Matrix<Cost>, s1: Seq<char>, s2: Seq<char>, i: nat, j: nat)
    requires
        is_traceable(m, s1, s2),
        i <= s1.len(),
        j <= s2.len(),
    ensures
        source(backtrace(m, s1, s2, i, j)) == s1.take(i as int),
        target(backtrace(m, s1, s2, i, j)) == s2.take(j as int),
        ops_cost(backtrace(m, s1, s2, i, j)) == m.at(i as int, j as int).value(),
    decreases i + j,
{
    let ops = backtrace(m, s1, s2, i, j);
    if i == 0 && j == 0 {
        assert(s1.take(0) =~= seq![]);
        assert(s2.take(0) =~= seq![]);
    } else {
        assert(step_consistent(m, s1, s2, i as int, j as int));
        match m.at(i as int, j as int) {
            Cost::Insertion(_) => {
                lemma_backtrace_prefix(m, s1, s2, i, (j - 1) as nat);
                assert(ops.drop_last() == backtrace(m, s1, s2, i, (j - 1) as nat));
                assert(s1.take(i as int) =~= s1.take(i as int) + seq![]);
                assert(s2.take(j as int) =~= s2.take(j - 1) + seq![s2[j - 1]]);
            },
            Cost::Deletion(_) => {
                lemma_backtrace_prefix(m, s1, s2, (i - 1) as nat, j);
                assert(ops.drop_last() == backtrace(m, s1, s2, (i - 1) as nat, j));
                assert(s1.take(i as int) =~= s1.take(i - 1) + seq![s1[i - 1]]);
                assert(s2.take(j as int) =~= s2.take(j as int) + seq![]);
            },
            Cost::Substitution(_) => {
                lemma_backtrace_prefix(m, s1, s2, (i - 1) as nat, (j - 1) as nat);
                assert(ops.drop_last() == backtrace(m, s1, s2, (i - 1) as nat, (j - 1) as nat));
                assert(s1.take(i as int) =~= s1.take(i - 1) + seq![s1[i - 1]]);
                assert(s2.take(j as int) =~= s2.take(j - 1) + seq![s2[j - 1]]);
            },
            Cost::NoAction(_) => {
                lemma_backtrace_prefix(m, s1, s2, (i - 1) as nat, (j - 1) as nat);
                assert(ops.drop_last() == backtrace(m, s1, s2, (i - 1) as nat, (j - 1) as nat));
                assert(s1.take(i as int) =~= s1.take(i - 1) + seq![s1[i - 1]]);
                assert(s2.take(j as int) =~= s2.take(j - 1) + seq![s1[i - 1]]);
            },
        }
    }
}

/// The operations that turn `str1` into `str2`, read off `matrix` from its
/// bottom-right cell back to the origin and returned in left-to-right order.
/// Keeping, substituting and deleting read `str1` in order, keeping,
/// substituting and inserting write `str2` in order, and the unit prices of
/// the operations add up to the matrix's final cost.
pub fn extract_operations(matrix: &Matrix<Cost>, str1: String, str2: String) -> (r: Vec<
    EditOperation<char>,
>)
    requires
        is_traceable(*matrix, str1@, str2@),
    ensures
        r@ == backtrace(*matrix, str1@, str2@, str1@.len(), str2@.len()),
        source(r@) == str1@,
        target(r@) == str2@,
        ops_cost(r@) == matrix.at(str1@.len() as int, str2@.len() as int).value(),
{
    let n = str1.as_str().unicode_len();
    let m = str2.as_str().unicode_len();
    let mut i: usize = n;
    let mut j: usize = m;
    let mut result: Vec<EditOperation<char>> = Vec::new();
    while i > 0 || j > 0
        invariant
            n == str1@.len(),
            m == str2@.len(),
            i <= n,
            j <= m,
            is_traceable(*matrix, str1@, str2@),
            backtrace(*matrix, str1@, str2@, n as nat, m as nat) == backtrace(
                *matrix,
                str1@,
                str2@,
                i as nat,
                j as nat,
            ) + result@,
        decreases i + j,
    {
        assert(step_consistent(*matrix, str1@, str2@, i as int, j as int));
        let ghost before = result@;
        let ghost here = backtrace(*matrix, str1@, str2@, i as nat, j as nat);
        let cell = matrix.rows[i][j];
        let op = match cell {
            Cost::Insertion(_) => {
                let b = str2.as_str().get_char(j - 1);
                j = j - 1;
                EditOperation::Insert(b)
            },
            Cost::Deletion(_) => {
                let a = str1.as_str().get_char(i - 1);
                i = i - 1;
                EditOperation::Delete(a)
            },
            Cost::Substitution(_) => {
                let a = str1.as_str().get_char(i - 1);
                let b = str2.as_str().get_char(j - 1);
                i = i - 1;
                j = j - 1;
                EditOperation::Substitute(a, b)
            },
            Cost::NoAction(_) => {
                let a = str1.as_str().get_char(i - 1);
                i = i - 1;
                j = j - 1;
                EditOperation::Keep(a)
            },
        };
        result.insert(0, op);
        proof {
            assert(here == backtrace(*matrix, str1@, str2@, i as nat, j as nat).push(op));
            assert(result@ =~= seq![op] + before);
            assert(here + before =~= backtrace(*matrix, str1@, str2@, i as nat, j as nat) + result@);
        }
    }
    proof {
        assert(backtrace(*matrix, str1@, str2@, 0, 0) + result@ =~= result@);
        lemma_backtrace_prefix(*matrix, str1@, str2@, n as nat, m as nat);
        assert(str1@.take(n as int) =~= str1@);
        assert(str2@.take(m as int) =~= str2@);
    }
    result
}

/// The least cost of turning `s1` into `s2` under `costs`: the final cell of
/// their alignment matrix.
pub open spec fn distance<C: Costs<char>>(costs: C, s1: Seq<char>, s2: Seq<char>) -> nat {
    alignment_cell(costs, s1, s2, s1.len(), s2.len()).value() as nat
}

/// The cost recorded in the final cell of the alignment matrix of `str1` and
/// `str2` under `costs`.
pub fn edit_distance<C: Costs<char>>(costs: &C, str1: String, str2: String) -> (r: usize)
    requires
        str1@.len() + str2@.len() < usize::MAX,
    ensures
        r == distance(*costs, str1@, str2@),
{
    let n = str1.as_str().unicode_len();
    let m = str2.as_str().unicode_len();
    let matrix = create_edit_matrix(costs, str1, str2);
    assert(matrix.at(n as int, m as int) == alignment_cell(*costs, str1@, str2@, n as nat, m as nat));
    matrix.rows[n][m].cost()
}

/// The alignment of `str1` with `str2` under `costs`, as the ordered list of
/// operations read back from their alignment matrix.
pub fn edit_operations<C: Costs<char>>(costs: &C, str1: String, str2: String) -> (r: Vec<
    EditOperation<char>,
>)
    requires
        str1@.len() + str2@.len() < usize::MAX,
    ensures
        exists|m: Matrix<Cost>|
            is_alignment_matrix(m, *costs, str1@, str2@) && r@ == backtrace(
                m,
                str1@,
                str2@,
                str1@.len(),
                str2@.len(),
            ),
        source(r@) == str1@,
        target(r@) == str2@,
        ops_cost(r@) == distance(*costs, str1@, str2@),
{
    let matrix = create_edit_matrix(costs, str1.clone(), str2.clone());
    proof {
        lemma_alignment_matrix_is_traceable(matrix, *costs, str1@, str2@);
        assert(matrix.at(str1@.len() as int, str2@.len() as int) == alignment_cell(
            *costs,
            str1@,
            str2@,
            str1@.len(),
            str2@.len(),
        ));
    }
    extract_operations(&matrix, str1, str2)
}

} // verus!
