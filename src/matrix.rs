use vstd::prelude::*;

verus! {

/// Why a set of rows does not form a dense matrix.
#[derive(Debug, Clone, Copy, PartialEq, Eq, Structural)]
pub enum MatrixError {
    /// The row at `row` does not have the declared column count.
    RowLength { row: usize, len: usize },
}

/// A dense row-major matrix whose rows all have `cols` entries.
#[derive(Debug)]
pub struct DenseMatrix<T> {
    cols: usize,
    rows: Vec<Vec<T>>,
}

/// Every row of `rows` has `cols` entries.
pub open spec fn rows_have_len<T>(rows: Seq<Vec<T>>, cols: nat) -> bool {
    forall|i: int| 0 <= i < rows.len() ==> (#[trigger] rows[i])@.len() == cols
}

impl<T> DenseMatrix<T> {
    /// The rows, each as a sequence.
    pub closed spec fn view(&self) -> Seq<Seq<T>> {
        self.rows@.map_values(|r: Vec<T>| r@)
    }

    /// The column count the matrix was built with.
    pub closed spec fn spec_cols(&self) -> nat {
        self.cols as nat
    }

    /// Every row has the declared column count.
    pub closed spec fn wf(&self) -> bool {
        rows_have_len(self.rows@, self.cols as nat)
    }

    /// Builds a matrix with `cols` columns from its rows; fails at the first
    /// row whose length is not `cols`.
    pub fn from_rows(cols: usize, rows: Vec<Vec<T>>) -> (r: Result<Self, MatrixError>)
        ensures
            match r {
                Ok(m) => m.wf() && m@ == rows@.map_values(|v: Vec<T>| v@)
                    && m.spec_cols() == cols && rows_have_len(rows@, cols as nat),
                Err(MatrixError::RowLength { row, len }) => row < rows@.len()
                    && len == rows@[row as int]@.len() && len != cols
                    && rows_have_len(rows@.take(row as int), cols as nat),
            },
            r is Ok <==> rows_have_len(rows@, cols as nat),
    {
        let mut i: usize = 0;
        while i < rows.len()
            invariant
                i <= rows@.len(),
                rows_have_len(rows@.take(i as int), cols as nat),
            decreases rows@.len() - i,
        {
            let len = rows[i].len();
            if len != cols {
                return Err(MatrixError::RowLength { row: i, len });
            }
            assert(rows@.take(i as int + 1) =~= rows@.take(i as int).push(rows@[i as int]));
            i += 1;
        }
        assert(rows@.take(i as int) =~= rows@);
        Ok(DenseMatrix { cols, rows })
    }

    /// The number of rows.
    pub fn n_rows(&self) -> (r: usize)
        ensures
            r == self@.len(),
    {
        self.rows.len()
    }

    /// The number of columns.
    pub fn n_cols(&self) -> (r: usize)
        ensures
            r == self.spec_cols(),
    {
        self.cols
    }

    /// Row `i`.
    pub fn row(&self, i: usize) -> (r: &Vec<T>)
        requires
            i < self@.len(),
        ensures
            r@ == self@[i as int],
            self.wf() ==> r@.len() == self.spec_cols(),
    {
        &self.rows[i]
    }
}

} // verus!
