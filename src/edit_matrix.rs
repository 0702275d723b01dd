use vstd::prelude::*;
use vstd::string::StrSliceExecFns;
use crate::costs::{Cost, Costs};
use crate::matrix::{Matrix, init_matrix};

verus! {

/// The substitution step added on the diagonal: nothing for equal characters.
pub open spec fn substitution_step(c1: char, c2: char) -> usize {
    if c1 == c2 {
        0
    } else {
        1
    }
}

/// A substitution that added nothing to the diagonal cost is recorded as no
/// action at all.
pub open spec fn collapse(chosen: Cost, diagonal: usize) -> Cost {
    match chosen {
        Cost::Substitution(v) => if v == diagonal {
            Cost::NoAction(v)
        } else {
            chosen
        },
        _ => chosen,
    }
}

/// The cost recorded for an inner cell aligning `c1` with `c2`, from the cell
/// above (`up`), the cell to the left (`left`) and the diagonal one.
pub open spec fn cell_from_neighbours<C: Costs<char>>(
    costs: C,
    c1: char,
    c2: char,
    up: Cost,
    left: Cost,
    diagonal: Cost,
) -> Cost {
    collapse(
        costs.spec_lower_cost(
            c1,
            c2,
            (up.value() + 1) as usize,
            (diagonal.value() + substitution_step(c1, c2)) as usize,
            (left.value() + 1) as usize,
        ),
        diagonal.value(),
    )
}

/// Cell `(i, j)` of the alignment matrix of `s1` and `s2`: the cost of turning
/// the first `i` characters of `s1` into the first `j` characters of `s2`.
pub open spec fn alignment_cell<C: Costs<char>>(
    costs: C,
    s1: Seq<char>,
    s2: Seq<char>,
    i: nat,
    j: nat,
) -> Cost
    decreases i + j,
{
    if i == 0 {
        Cost::Insertion(j as usize)
    } else if j == 0 {
        Cost::Deletion(i as usize)
    } else {
        cell_from_neighbours(
            costs,
            s1[i - 1],
            s2[j - 1],
            alignment_cell(costs, s1, s2, (i - 1) as nat, j),
            alignment_cell(costs, s1, s2, i, (j - 1) as nat),
            alignment_cell(costs, s1, s2, (i - 1) as nat, (j - 1) as nat),
        )
    }
}

/// `m` is the full alignment matrix of `s1` and `s2` under `costs`.
pub open spec fn is_alignment_matrix<C: Costs<char>>(
    m: Matrix<Cost>,
    costs: C,
    s1: Seq<char>,
    s2: Seq<char>,
) -> bool {
    &&& m.has_shape(s1.len() + 1, s2.len() + 1)
    &&& forall|i: int, j: int|
        0 <= i <= s1.len() && 0 <= j <= s2.len() ==> #[trigger] m.at(i, j) == alignment_cell(
            costs,
            s1,
            s2,
            i as nat,
            j as nat,
        )
}

/// No cell costs more than the number of characters seen on both sides.
pub proof fn lemma_alignment_cell_bound<C: Costs<char>>(
    costs: C,
    s1: Seq<char>,
    s2: Seq<char>,
    i: nat,
    j: nat,
)
    requires
        i + j <= usize::MAX,
    ensures
        alignment_cell(costs, s1, s2, i, j).value() <= i + j,
    decreases i + j,
{
    if i > 0 && j > 0 {
        let up = alignment_cell(costs, s1, s2, (i - 1) as nat, j);
        let left = alignment_cell(costs, s1, s2, i, (j - 1) as nat);
        let diagonal = alignment_cell(costs, s1, s2, (i - 1) as nat, (j - 1) as nat);
        lemma_alignment_cell_bound(costs, s1, s2, (i - 1) as nat, j);
        lemma_alignment_cell_bound(costs, s1, s2, i, (j - 1) as nat);
        lemma_alignment_cell_bound(costs, s1, s2, (i - 1) as nat, (j - 1) as nat);
        costs.lemma_lower_cost_picks_candidate(
            s1[i - 1],
            s2[j - 1],
            (up.value() + 1) as usize,
            (diagonal.value() + substitution_step(s1[i - 1], s2[j - 1])) as usize,
            (left.value() + 1) as usize,
        );
    }
}

/// All pairs `(i, j)` with `i < n` and `j < m`, row by row.
pub fn cartesian(n: usize, m: usize) -> (r: Vec<(usize, usize)>)
    requires
        n * m <= usize::MAX,
    ensures
        r@.len() == n * m,
        forall|i: int, j: int| 0 <= i < n && 0 <= j < m ==> #[trigger] r@[i * m + j] == (
        i as usize,
        j as usize,
        ),
{
    let mut result: Vec<(usize, usize)> = Vec::new();
    let mut i: usize = 0;
    while i < n
        invariant
            i <= n,
            n * m <= usize::MAX,
            result@.len() == i * m,
            forall|a: int, b: int| 0 <= a < i && 0 <= b < m ==> #[trigger] result@[a * m + b] == (
            a as usize,
            b as usize,
            ),
        decreases n - i,
    {
        let mut j: usize = 0;
        while j < m
            invariant
                i < n,
                j <= m,
                n * m <= usize::MAX,
                result@.len() == i * m + j,
                forall|a: int, b: int|
                    0 <= a < i && 0 <= b < m ==> #[trigger] result@[a * m + b] == (
                    a as usize,
                    b as usize,
                    ),
                forall|b: int| 0 <= b < j ==> #[trigger] result@[i * m + b] == (i, b as usize),
            decreases m - j,
        {
            proof {
                assert(i * m + j < n * m) by (nonlinear_arith)
                    requires
                        i < n,
                        j < m,
                ;
            }
            let ghost before = result@;
            result.push((i, j));
            proof {
                assert forall|a: int, b: int| 0 <= a < i && 0 <= b < m implies #[trigger] result@[a
                    * m + b] == (a as usize, b as usize) by {
                    assert(a * m + b < i * m) by (nonlinear_arith)
                        requires
                            0 <= a < i,
                            0 <= b < m,
                    ;
                    assert(result@[a * m + b] == before[a * m + b]);
                }
            }
            j = j + 1;
        }
        proof {
            assert((i + 1) * m == i * m + m) by (nonlinear_arith);
            assert forall|a: int, b: int| 0 <= a < i + 1 && 0 <= b < m implies #[trigger] result@[a * m + b] == (
            a as usize,
            b as usize,
            ) by {
                if a == i {
                } else {
                }
            }
        }
        i = i + 1;
    }
    result
}

/// Every cell of `m` costs less than `usize::MAX`, so one more step fits.
pub open spec fn costs_below_max(m: Matrix<Cost>) -> bool {
    forall|a: int, b: int| m.in_bounds(a, b) ==> (#[trigger] m.at(a, b)).value() < usize::MAX
}

/// The cost of cell `(i, j)` from its three neighbours in `matrix`: deleting
/// `str1[i - 1]` from the cell above, inserting `str2[j - 1]` from the cell to
/// the left, or substituting from the diagonal. `None` when a neighbour lies
/// outside the matrix or a character lies outside its string.
pub fn cost_of<C: Costs<char>>(
    costs: &C,
    str1: String,
    str2: String,
    i: usize,
    j: usize,
    matrix: &Matrix<Cost>,
) -> (r: Option<Cost>)
    requires
        i >= 1,
        j >= 1,
        costs_below_max(*matrix),
    ensures
        r == (if matrix.in_bounds(i - 1, j as int) && matrix.in_bounds(i - 1, j - 1)
            && matrix.in_bounds(i as int, j - 1) && i - 1 < str1@.len() && j - 1 < str2@.len() {
            Some(
                cell_from_neighbours(
                    *costs,
                    str1@[i - 1],
                    str2@[j - 1],
                    matrix.at(i - 1, j as int),
                    matrix.at(i as int, j - 1),
                    matrix.at(i - 1, j - 1),
                ),
            )
        } else {
            None
        }),
{
    let i1 = i - 1;
    let j1 = j - 1;
    let up = match matrix.get_value(i1, j) {
        Some(c) => c,
        None => return None,
    };
    let diagonal = match matrix.get_value(i1, j1) {
        Some(c) => c,
        None => return None,
    };
    let left = match matrix.get_value(i, j1) {
        Some(c) => c,
        None => return None,
    };
    if i1 >= str1.as_str().unicode_len() || j1 >= str2.as_str().unicode_len() {
        return None;
    }
    let v1 = str1.as_str().get_char(i1);
    let v2 = str2.as_str().get_char(j1);
    let step: usize = if v1 == v2 {
        0
    } else {
        1
    };
    let result = costs.lower_cost(&v1, &v2, up.cost() + 1, diagonal.cost() + step, left.cost() + 1);
    match result {
        Cost::Substitution(_) => {
            if diagonal.cost() == result.cost() {
                Some(Cost::NoAction(result.cost()))
            } else {
                Some(result)
            }
        },
        _ => Some(result),
    }
}

/// The alignment matrix of `str1` and `str2` under `costs`: one row per
/// character of `str1` plus one, one column per character of `str2` plus one.
pub fn create_edit_matrix<C: Costs<char>>(costs: &C, str1: String, str2: String) -> (r: Matrix<
    Cost,
>)
    requires
        str1@.len() + str2@.len() < usize::MAX,
    ensures
        is_alignment_matrix(r, *costs, str1@, str2@),
{
    let n = str1.as_str().unicode_len();
    let m = str2.as_str().unicode_len();
    let mut matrix = init_matrix(n + 1, m + 1, Cost::NoAction(0));
    let mut i: usize = 0;
    while i <= n
        invariant
            n == str1@.len(),
            m == str2@.len(),
            n + m < usize::MAX,
            i <= n + 1,
            matrix.has_shape((n + 1) as nat, (m + 1) as nat),
            forall|a: int, b: int|
                0 <= a <= n && 0 <= b <= m ==> (#[trigger] matrix.at(a, b)).value() <= n + m,
            forall|a: int, b: int|
                0 <= a < i && 0 <= b <= m ==> #[trigger] matrix.at(a, b) == alignment_cell(
                    *costs,
                    str1@,
                    str2@,
                    a as nat,
                    b as nat,
                ),
        decreases n + 1 - i,
    {
        let mut j: usize = 0;
        while j <= m
            invariant
                n == str1@.len(),
                m == str2@.len(),
                n + m < usize::MAX,
                i <= n,
                j <= m + 1,
                matrix.has_shape((n + 1) as nat, (m + 1) as nat),
                forall|a: int, b: int|
                    0 <= a <= n && 0 <= b <= m ==> (#[trigger] matrix.at(a, b)).value() <= n + m,
                forall|a: int, b: int|
                    (0 <= a < i && 0 <= b <= m) || (a == i && 0 <= b < j) ==> #[trigger] matrix.at(
                        a,
                        b,
                    ) == alignment_cell(*costs, str1@, str2@, a as nat, b as nat),
            decreases m + 1 - j,
        {
            let new_cost: Cost = if i == 0 {
                Cost::Insertion(j)
            } else if j == 0 {
                Cost::Deletion(i)
            } else {
                match cost_of(costs, str1.clone(), str2.clone(), i, j, &matrix) {
                    Some(c) => c,
                    None => Cost::NoAction(0),
                }
            };
            proof {
                lemma_alignment_cell_bound(*costs, str1@, str2@, i as nat, j as nat);
            }
            assert(new_cost == alignment_cell(*costs, str1@, str2@, i as nat, j as nat));
            let ghost before = matrix;
            matrix.set_value(i, j, new_cost);
            proof {
                assert forall|a: int, b: int| 0 <= a <= n && 0 <= b <= m implies #[trigger] matrix.at(
                    a,
                    b,
                ) == if a == i && b == j {
                    new_cost
                } else {
                    before.at(a, b)
                } by {
                    if a != i {
                        assert(matrix.rows@[a] == before.rows@[a]);
                    }
                }
            }
            j = j + 1;
        }
        i = i + 1;
    }
    matrix
}

} // verus!
