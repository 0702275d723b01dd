use vstd::prelude::*;

verus! {

/// A grid of values addressed by row and column, both counted from zero.
#[derive(Debug, Clone, PartialEq, Eq)]
pub struct Matrix<T> {
    pub rows: Vec<Vec<T>>,
}

impl<T> Matrix<T> {
    /// `(row, col)` names a cell of the grid.
    pub open spec fn in_bounds(&self, row: int, col: int) -> bool {
        0 <= row < self.rows@.len() && 0 <= col < self.rows@[row]@.len()
    }

    /// Every row has `ncols` cells, and there are `nrows` rows.
    pub open spec fn has_shape(&self, nrows: nat, ncols: nat) -> bool {
        &&& self.rows@.len() == nrows
        &&& forall|i: int| 0 <= i < nrows ==> #[trigger] self.rows@[i]@.len() == ncols
    }

    pub open spec fn at(&self, row: int, col: int) -> T {
        self.rows@[row]@[col]
    }
}

/// A grid of `nrows` rows of `ncols` cells, each holding `value`.
pub fn init_matrix<T: Copy>(nrows: usize, ncols: usize, value: T) -> (r: Matrix<T>)
    ensures
        r.has_shape(nrows as nat, ncols as nat),
        forall|i: int, j: int| 0 <= i < nrows && 0 <= j < ncols ==> #[trigger] r.at(i, j) == value,
{
    let mut rows: Vec<Vec<T>> = Vec::new();
    let mut i: usize = 0;
    while i < nrows
        invariant
            i <= nrows,
            rows@.len() == i,
            forall|k: int| 0 <= k < i ==> #[trigger] rows@[k]@.len() == ncols,
            forall|k: int, j: int| 0 <= k < i && 0 <= j < ncols ==> #[trigger] rows@[k]@[j] == value,
        decreases nrows - i,
    {
        let mut row: Vec<T> = Vec::new();
        let mut j: usize = 0;
        while j < ncols
            invariant
                j <= ncols,
                row@.len() == j,
                forall|l: int| 0 <= l < j ==> #[trigger] row@[l] == value,
            decreases ncols - j,
        {
            row.push(value);
            j = j + 1;
        }
        rows.push(row);
        i = i + 1;
    }
    Matrix { rows }
}

impl<T: Copy> Matrix<T> {
    /// The value at `(row, col)`, or `None` outside the grid.
    pub fn get_value(&self, row: usize, col: usize) -> (r: Option<T>)
        ensures
            r == (if self.in_bounds(row as int, col as int) {
                Some(self.at(row as int, col as int))
            } else {
                None
            }),
    {
        if row < self.rows.len() && col < self.rows[row].len() {
            Some(self.rows[row][col])
        } else {
            None
        }
    }

    /// Overwrites the cell at `(row, col)`, which must lie in the grid.
    pub fn set_value(&mut self, row: usize, col: usize, value: T)
        requires
            old(self).in_bounds(row as int, col as int),
        ensures
            final(self).rows@.len() == old(self).rows@.len(),
            forall|i: int| #![trigger final(self).rows@[i]]
                0 <= i < old(self).rows@.len() && i != row ==> final(self).rows@[i] == old(
                    self,
                ).rows@[i],
            final(self).rows@[row as int]@ == old(self).rows@[row as int]@.update(col as int, value),
    {
        self.rows[row].set(col, value);
    }
}

} // verus!
