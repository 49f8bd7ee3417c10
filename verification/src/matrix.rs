//! Row-major integer matrices and their product. The product of an `r` by
//! `n` matrix and an `n` by `c` matrix is the `r` by `c` matrix whose entry
//! at row `i`, column `j` is the dot product of the left operand's row `i`
//! with the right operand's column `j`.
use vstd::prelude::*;

use crate::decimal::dec_int;
use crate::decimal::i32_to_string;
use crate::vector::Vector;
use crate::vector::dot;
use crate::vector::dot_fits;
use crate::vector::dot_vector;
use vstd::string::*;

verus! {

/// A row-major integer matrix: `row * col` entries, row by row.
#[derive(Debug)]
pub struct Matrix {
    pub data: Vector,
    pub row: i32,
    pub col: i32,
}

impl Matrix {
    /// Well-formedness: non-negative dimensions whose product counts the
    /// entries and stays small enough for row-major index arithmetic.
    pub open spec fn wf(self) -> bool {
        &&& 0 <= self.row
        &&& 0 <= self.col
        &&& self.data@.len() == self.row * self.col
        &&& self.row * self.col <= i32::MAX
    }

    /// Wraps `data` as a `row` by `col` matrix in row-major order.
    pub fn new(data: Vec<i32>, row: i32, col: i32) -> (m: Matrix)
        ensures
            m.data@ == data@,
            m.row == row,
            m.col == col,
    {
        Matrix { data: Vector::new(data), row, col }
    }
}

/// Row `i` of the matrix, as a sequence.
pub open spec fn row_seq(m: Matrix, i: int) -> Seq<i32> {
    m.data@.subrange(i * m.col, i * m.col + m.col)
}

/// Column `j` of the matrix, as a sequence.
pub open spec fn col_seq(m: Matrix, j: int) -> Seq<i32> {
    Seq::new(m.row as nat, |k: int| m.data@[k * m.col + j])
}

/// Every entry of the product `a * b`, and every partial sum on the way to
/// it, fits in `i32`.
pub open spec fn product_fits(a: Matrix, b: Matrix) -> bool {
    forall|i: int, j: int|
        0 <= i < a.row && 0 <= j < b.col ==> #[trigger] dot_fits(row_seq(a, i), col_seq(b, j))
}

/// The rendering of the first `k` entries of one row: each entry in
/// decimal, each followed by one space.
pub open spec fn entries_render(s: Seq<i32>, k: int) -> Seq<char>
    decreases k,
{
    if k <= 0 {
        Seq::empty()
    } else {
        entries_render(s, k - 1) + dec_int(s[k - 1] as int) + seq![' ']
    }
}

/// The rendering of row `i`: its entries between square brackets.
pub open spec fn row_render(m: Matrix, i: int) -> Seq<char> {
    seq!['[', ' '] + entries_render(row_seq(m, i), m.col as int) + seq![']']
}

/// The rendering of the first `r` rows, separated by commas.
pub open spec fn rows_render(m: Matrix, r: int) -> Seq<char>
    decreases r,
{
    if r <= 0 {
        Seq::empty()
    } else {
        rows_render(m, r - 1) + (if r - 1 > 0 {
            seq![',', ' ']
        } else {
            Seq::empty()
        }) + row_render(m, r - 1)
    }
}

/// The textual form of a matrix: each row as `[ e1 e2 ... ]`, rows
/// separated by `, `.
pub open spec fn matrix_display(m: Matrix) -> Seq<char> {
    rows_render(m, m.row as int)
}

impl Matrix {
    /// Renders the matrix to its textual form: each row as `[ e1 e2 ... ]`,
    /// rows separated by `, `.
    pub fn render(&self) -> (r: String)
        requires
            self.wf(),
        ensures
            r@ == matrix_display(*self),
    {
        proof {
            reveal_strlit("[ ");
            reveal_strlit("]");
            reveal_strlit(", ");
            reveal_strlit(" ");
        }
        let rows: usize = self.row as usize;
        let cols: usize = self.col as usize;
        let ghost grows = self.row as int;
        let ghost gcols = self.col as int;
        let mut s = String::new();
        let mut i: usize = 0;
        while i < rows
            invariant
                self.wf(),
                grows == self.row as int && rows == grows,
                gcols == self.col as int && cols == gcols,
                0 <= i <= rows,
                s@ == rows_render(*self, i as int),
            decreases rows - i,
        {
            proof {
                reveal_strlit("[ ");
                reveal_strlit("]");
                reveal_strlit(", ");
                reveal_strlit(" ");
            }
            let ghost at_entry = s@;
            if i > 0 {
                s.append(", ");
            }
            s.append("[ ");
            let ghost opened = s@;
            proof {
                assert(opened =~= at_entry + (if i > 0 {
                    seq![',', ' ']
                } else {
                    Seq::<char>::empty()
                }) + seq!['[', ' ']);
            }
            let mut k: usize = 0;
            while k < cols
                invariant
                    self.wf(),
                    grows == self.row as int && rows == grows,
                    gcols == self.col as int && cols == gcols,
                    0 <= i < rows,
                    0 <= k <= cols,
                    opened == at_entry + (if i > 0 {
                        seq![',', ' ']
                    } else {
                        Seq::<char>::empty()
                    }) + seq!['[', ' '],
                    s@ == opened + entries_render(row_seq(*self, i as int), k as int),
                decreases cols - k,
            {
                proof {
                    reveal_strlit(" ");
                    lemma_grid_index(i as int, k as int, grows, gcols);
                    lemma_row_end(i as int, grows, gcols);
                }
                let t = i32_to_string(self.data.get(i * cols + k));
                s.append(t.as_str());
                s.append(" ");
                proof {
                    assert(row_seq(*self, i as int)[k as int] == self.data@[i * gcols + k]);
                    assert(s@ =~= opened + entries_render(row_seq(*self, i as int), k + 1));
                }
                k += 1;
            }
            s.append("]");
            proof {
                assert(s@ =~= rows_render(*self, i + 1));
            }
            i += 1;
        }
        s
    }
}

/// One cell of a matrix product, handed to a worker: the target index and
/// the row and column whose dot product fills it.
pub struct MsgInput {
    pub idx: i32,
    pub row: Vector,
    pub col: Vector,
}

impl MsgInput {
    /// Packs one cell's work order.
    pub fn new(idx: i32, row: Vector, col: Vector) -> (r: MsgInput)
        ensures
            r.idx == idx,
            r.row == row,
            r.col == col,
    {
        MsgInput { idx, row, col }
    }
}

/// One computed cell of a matrix product: the target index and its value.
pub struct MsgOutput {
    pub idx: i32,
    pub value: i32,
}

impl MsgOutput {
    /// Packs one computed cell.
    pub fn new(idx: i32, value: i32) -> (r: MsgOutput)
        ensures
            r.idx == idx,
            r.value == value,
    {
        MsgOutput { idx, value }
    }
}

/// The error of an impossible matrix operation.
#[derive(Debug, PartialEq, Eq)]
pub enum MatrixError {
    /// The left operand's column count differs from the right operand's row
    /// count, so no product exists.
    IncompatibleDimensions,
}

proof fn lemma_grid_index(p: int, q: int, rows: int, cols: int)
    requires
        0 <= p < rows,
        0 <= q < cols,
    ensures
        0 <= p * cols,
        0 <= p * cols + q,
        p * cols + q < rows * cols,
        p * cols + cols <= rows * cols,
{
    assert(0 <= p * cols && 0 <= p * cols + q && p * cols + q < rows * cols && p * cols + cols
        <= rows * cols) by (nonlinear_arith)
        requires
            0 <= p < rows,
            0 <= q < cols,
    ;
}

proof fn lemma_row_end(p: int, rows: int, cols: int)
    requires
        0 <= p < rows,
        0 <= cols,
    ensures
        0 <= p * cols,
        p * cols + cols <= rows * cols,
        p * cols + cols == (p + 1) * cols,
{
    assert(0 <= p * cols && p * cols + cols <= rows * cols && p * cols + cols == (p + 1) * cols)
        by (nonlinear_arith)
        requires
            0 <= p < rows,
            0 <= cols,
    ;
}

proof fn lemma_grid_order(p: int, q: int, i: int, j: int, cols: int)
    requires
        0 <= q < cols,
        0 <= j <= cols,
        0 <= p,
        0 <= i,
        p < i || (p == i && q < j),
    ensures
        p * cols + q < i * cols + j,
{
    assert(p * cols + q < i * cols + j) by (nonlinear_arith)
        requires
            0 <= q < cols,
            0 <= j <= cols,
            0 <= p,
            0 <= i,
            p < i || (p == i && q < j),
    ;
}

/// Multiplies two matrices. When the left operand's column count equals the
/// right operand's row count, returns the product, every entry of which is
/// the dot product of the matching row and column; otherwise, and only
/// then, reports incompatible dimensions.
pub fn multiply(matrix_a: &Matrix, matrix_b: &Matrix) -> (r: Result<Matrix, MatrixError>)
    requires
        matrix_a.wf(),
        matrix_b.wf(),
        matrix_a.row * matrix_b.col <= i32::MAX,
        matrix_a.col == matrix_b.row ==> product_fits(*matrix_a, *matrix_b),
    ensures
        matrix_a.col != matrix_b.row ==> r == Err::<Matrix, MatrixError>(
            MatrixError::IncompatibleDimensions,
        ),
        matrix_a.col == matrix_b.row ==> (r matches Ok(c) && c.wf() && c.row == matrix_a.row
            && c.col == matrix_b.col && c.data@.len() == matrix_a.row * matrix_b.col && (forall|
            p: int,
            q: int,
        |
            0 <= p < matrix_a.row && 0 <= q < matrix_b.col ==> c.data@[p * matrix_b.col + q]
                == #[trigger] dot(row_seq(*matrix_a, p), col_seq(*matrix_b, q)))),
{
    if matrix_a.col != matrix_b.row {
        return Err(MatrixError::IncompatibleDimensions);
    }
    let rows: usize = matrix_a.row as usize;
    let cols: usize = matrix_b.col as usize;
    let inner: usize = matrix_a.col as usize;
    let ghost grows = matrix_a.row as int;
    let ghost gcols = matrix_b.col as int;
    let ghost ginner = matrix_a.col as int;
    let mut data: Vec<i32> = Vec::new();
    let mut i: usize = 0;
    while i < rows
        invariant
            matrix_a.wf(),
            matrix_b.wf(),
            matrix_a.col == matrix_b.row,
            product_fits(*matrix_a, *matrix_b),
            grows == matrix_a.row as int && rows == grows,
            gcols == matrix_b.col as int && cols == gcols,
            ginner == matrix_a.col as int && inner == ginner,
            grows * gcols <= i32::MAX,
            0 <= i <= rows,
            data@.len() == i * gcols,
            forall|p: int, q: int|
                0 <= p < i && 0 <= q < gcols ==> data@[p * gcols + q] == #[trigger] dot(
                    row_seq(*matrix_a, p),
                    col_seq(*matrix_b, q),
                ),
        decreases rows - i,
    {
        let mut j: usize = 0;
        while j < cols
            invariant
                matrix_a.wf(),
                matrix_b.wf(),
                matrix_a.col == matrix_b.row,
                product_fits(*matrix_a, *matrix_b),
                grows == matrix_a.row as int && rows == grows,
                gcols == matrix_b.col as int && cols == gcols,
                ginner == matrix_a.col as int && inner == ginner,
                grows * gcols <= i32::MAX,
                0 <= i < rows,
                0 <= j <= cols,
                data@.len() == i * gcols + j,
                forall|p: int, q: int|
                    0 <= p < i && 0 <= q < gcols ==> data@[p * gcols + q] == #[trigger] dot(
                        row_seq(*matrix_a, p),
                        col_seq(*matrix_b, q),
                    ),
                forall|q: int|
                    0 <= q < j ==> data@[i * gcols + q] == #[trigger] dot(
                        row_seq(*matrix_a, i as int),
                        col_seq(*matrix_b, q),
                    ),
            decreases cols - j,
        {
            // Row i of the left operand.
            let mut rowv: Vec<i32> = Vec::new();
            let mut k: usize = 0;
            while k < inner
                invariant
                    matrix_a.wf(),
                    grows == matrix_a.row as int && rows == grows,
                    ginner == matrix_a.col as int && inner == ginner,
                    0 <= i < rows,
                    0 <= k <= inner,
                    rowv@.len() == k,
                    forall|t: int| 0 <= t < k ==> rowv@[t] == matrix_a.data@[i * ginner + t],
                decreases inner - k,
            {
                proof {
                    lemma_grid_index(i as int, k as int, grows, ginner);
                }
                rowv.push(matrix_a.data.get(i * inner + k));
                k += 1;
            }
            // Column j of the right operand.
            let mut colv: Vec<i32> = Vec::new();
            let mut k2: usize = 0;
            while k2 < inner
                invariant
                    matrix_b.wf(),
                    matrix_a.col == matrix_b.row,
                    gcols == matrix_b.col as int && cols == gcols,
                    ginner == matrix_a.col as int && inner == ginner,
                    0 <= j < cols,
                    0 <= k2 <= inner,
                    colv@.len() == k2,
                    forall|t: int| 0 <= t < k2 ==> colv@[t] == matrix_b.data@[t * gcols + j],
                decreases inner - k2,
            {
                proof {
                    lemma_grid_index(k2 as int, j as int, ginner, gcols);
                }
                colv.push(matrix_b.data.get(k2 * cols + j));
                k2 += 1;
            }
            let rv = Vector::new(rowv);
            let cv = Vector::new(colv);
            proof {
                lemma_row_end(i as int, grows, ginner);
                assert(rv@ =~= row_seq(*matrix_a, i as int));
                assert(cv@ =~= col_seq(*matrix_b, j as int));
                assert(dot_fits(row_seq(*matrix_a, i as int), col_seq(*matrix_b, j as int)));
            }
            let v = dot_vector(&rv, &cv);
            let ghost before = data@;
            proof {
                lemma_grid_index(i as int, j as int, grows, gcols);
            }
            data.push(v);
            proof {
                assert forall|p: int, q: int|
                    0 <= p < i && 0 <= q < gcols implies data@[p * gcols + q] == #[trigger] dot(
                    row_seq(*matrix_a, p),
                    col_seq(*matrix_b, q),
                ) by {
                    lemma_grid_order(p, q, i as int, j as int, gcols);
                    assert(data@[p * gcols + q] == before[p * gcols + q]);
                }
                assert forall|q: int|
                    0 <= q < j + 1 implies data@[i * gcols + q] == #[trigger] dot(
                    row_seq(*matrix_a, i as int),
                    col_seq(*matrix_b, q),
                ) by {
                    if q < j {
                        lemma_grid_order(i as int, q, i as int, j as int, gcols);
                        assert(data@[i * gcols + q] == before[i * gcols + q]);
                    } else {
                        assert(data@[i * gcols + q] == v);
                    }
                }
            }
            j += 1;
        }
        proof {
            lemma_row_end(i as int, grows, gcols);
        }
        i += 1;
    }
    proof {
        assert(data@.len() == grows * gcols);
    }
    Ok(Matrix::new(data, matrix_a.row, matrix_b.col))
}

} // verus!
