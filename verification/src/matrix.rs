//! The library's numeric structures: a two-dimensional `Matrix` (sentence
//! embeddings, the embedding store) and three-dimensional `HiddenStates`
//! (per-token encoder output), both holding IEEE-754 single-precision bit
//! patterns in row-major order.

use vstd::prelude::*;
use crate::errors::Error;

verus! {

/// Row-major addressing of a 2-dimensional structure stays in bounds.
pub proof fn lemma_index2(i: int, j: int, rows: int, cols: int)
    by (nonlinear_arith)
    requires
        0 <= i < rows,
        0 <= j < cols,
    ensures
        0 <= i * cols + j < rows * cols,
{
}

/// Row-major addressing of a 3-dimensional structure stays in bounds.
pub proof fn lemma_index3(b: int, s: int, j: int, batch: int, seq: int, hidden: int)
    by (nonlinear_arith)
    requires
        0 <= b < batch,
        0 <= s < seq,
        0 <= j < hidden,
    ensures
        0 <= (b * seq + s) * hidden + j < batch * seq * hidden,
        0 <= b * seq + s < batch * seq,
        batch * seq <= batch * seq * hidden,
{
}

/// An immutable `(rows, cols)` matrix of single-precision bit patterns.
/// Used both for pooled-and-normalized sentence embeddings and for the
/// pre-normalized embedding store; no component of this library ever writes
/// to a matrix after construction.
#[derive(Debug, PartialEq, Eq)]
pub struct Matrix {
    rows: usize,
    cols: usize,
    data: Vec<u32>,
}

impl Matrix {
    /// Number of rows, in specifications.
    pub closed spec fn spec_rows(self) -> usize {
        self.rows
    }

    /// Number of columns, in specifications.
    pub closed spec fn spec_cols(self) -> usize {
        self.cols
    }

    /// The row-major contents, in specifications.
    pub closed spec fn data(self) -> Seq<u32> {
        self.data@
    }

    /// The storage holds exactly `rows * cols` patterns.
    #[verifier::type_invariant]
    pub open spec fn wf(self) -> bool {
        self.data().len() == self.spec_rows() * self.spec_cols()
    }

    /// The pattern at row `i`, column `j`, in specifications.
    pub open spec fn entry_spec(self, i: int, j: int) -> u32 {
        self.data()[i * self.spec_cols() + j]
    }

    /// Row `i` as a sequence of patterns, in specifications.
    pub open spec fn row_spec(self, i: int) -> Seq<u32> {
        Seq::new(self.spec_cols() as nat, |j: int| self.entry_spec(i, j))
    }

    /// Builds a matrix from row-major data. The data length must equal
    /// `rows * cols`; any mismatch is a shape error.
    pub fn new(rows: usize, cols: usize, data: Vec<u32>) -> (r: Result<Matrix, Error>)
        ensures
            r is Ok <==> data@.len() == rows * cols,
            r matches Ok(m) ==> m.spec_rows() == rows && m.spec_cols() == cols && m.data()
                == data@,
            r matches Err(e) ==> e == Error::Shape,
    {
        let len = data.len();
        match rows.checked_mul(cols) {
            Some(n) => {
                if len == n {
                    Ok(Matrix { rows, cols, data })
                } else {
                    Err(Error::Shape)
                }
            },
            None => Err(Error::Shape),
        }
    }

    /// Builds a matrix whose well-formedness is already known.
    pub(crate) fn from_parts(rows: usize, cols: usize, data: Vec<u32>) -> (r: Matrix)
        requires
            data@.len() == rows * cols,
        ensures
            r.spec_rows() == rows,
            r.spec_cols() == cols,
            r.data() == data@,
    {
        Matrix { rows, cols, data }
    }

    /// Number of rows.
    pub fn rows(&self) -> (r: usize)
        ensures
            r == self.spec_rows(),
    {
        self.rows
    }

    /// Number of columns.
    pub fn cols(&self) -> (r: usize)
        ensures
            r == self.spec_cols(),
    {
        self.cols
    }

    /// The row-major contents.
    pub fn data_bits(&self) -> (r: &Vec<u32>)
        ensures
            r@ == self.data(),
    {
        &self.data
    }

    /// The pattern at row `i`, column `j`.
    pub fn entry(&self, i: usize, j: usize) -> (r: u32)
        requires
            i < self.spec_rows(),
            j < self.spec_cols(),
        ensures
            r == self.entry_spec(i as int, j as int),
    {
        // the exec length binds the storage size by usize::MAX, which bounds
        // the index arithmetic below
        let n = self.data.len();
        proof {
            use_type_invariant(self);
            lemma_index2(i as int, j as int, self.spec_rows() as int, self.spec_cols() as int);
        }
        let idx: usize = i * self.cols + j;
        self.data[idx]
    }

    /// Copies row `i` out as a vector of patterns.
    pub fn row_bits(&self, i: usize) -> (r: Vec<u32>)
        requires
            i < self.spec_rows(),
        ensures
            r@ == self.row_spec(i as int),
    {
        let cols = self.cols();
        let mut out: Vec<u32> = Vec::new();
        for j in 0..cols
            invariant
                i < self.spec_rows(),
                cols == self.spec_cols(),
                out@.len() == j,
                forall|k: int| 0 <= k < j ==> out@[k] == self.entry_spec(i as int, k),
        {
            let v = self.entry(i, j);
            out.push(v);
        }
        proof {
            assert(out@ =~= self.row_spec(i as int));
        }
        out
    }
}

/// The `(batch, seq_len, hidden)` per-token output of one encoder forward
/// pass, held as single-precision bit patterns in row-major order. Created
/// once per call and only reduced afterwards, never mutated.
#[derive(Debug, PartialEq, Eq)]
pub struct HiddenStates {
    batch: usize,
    seq_len: usize,
    hidden: usize,
    data: Vec<u32>,
}

impl HiddenStates {
    /// Batch size, in specifications.
    pub closed spec fn spec_batch(self) -> usize {
        self.batch
    }

    /// Sequence length, in specifications.
    pub closed spec fn spec_seq_len(self) -> usize {
        self.seq_len
    }

    /// Hidden dimension, in specifications.
    pub closed spec fn spec_hidden(self) -> usize {
        self.hidden
    }

    /// The row-major contents, in specifications.
    pub closed spec fn data(self) -> Seq<u32> {
        self.data@
    }

    /// The storage holds exactly `batch * seq_len * hidden` patterns.
    #[verifier::type_invariant]
    pub open spec fn wf(self) -> bool {
        self.data().len() == self.spec_batch() * self.spec_seq_len() * self.spec_hidden()
    }

    /// The pattern of sentence `b`, position `s`, dimension `j`, in
    /// specifications.
    pub open spec fn entry_spec(self, b: int, s: int, j: int) -> u32 {
        self.data()[(b * self.spec_seq_len() + s) * self.spec_hidden() + j]
    }

    /// Builds hidden states from row-major data. The structure must be
    /// exactly 3-dimensional: the data length must equal
    /// `batch * seq_len * hidden`; any mismatch is a shape error.
    pub fn new(batch: usize, seq_len: usize, hidden: usize, data: Vec<u32>) -> (r: Result<
        HiddenStates,
        Error,
    >)
        ensures
            r is Ok <==> data@.len() == batch * seq_len * hidden,
            r matches Ok(h) ==> h.spec_batch() == batch && h.spec_seq_len() == seq_len
                && h.spec_hidden() == hidden && h.data() == data@,
            r matches Err(e) ==> e == Error::Shape,
    {
        let len = data.len();
        proof {
            assert((batch == 0 || seq_len == 0 || hidden == 0) ==> batch * seq_len * hidden
                == 0) by (nonlinear_arith);
        }
        if batch == 0 || seq_len == 0 || hidden == 0 {
            if len == 0 {
                return Ok(HiddenStates { batch, seq_len, hidden, data });
            } else {
                return Err(Error::Shape);
            }
        }
        let bs = match batch.checked_mul(seq_len) {
            Some(n) => n,
            None => {
                proof {
                    lemma_mul_overflow(
                        batch as int,
                        seq_len as int,
                        hidden as int,
                        len as int,
                    );
                }
                return Err(Error::Shape);
            },
        };
        match bs.checked_mul(hidden) {
            Some(n) => {
                if len == n {
                    Ok(HiddenStates { batch, seq_len, hidden, data })
                } else {
                    Err(Error::Shape)
                }
            },
            None => Err(Error::Shape),
        }
    }

    /// Builds hidden states whose well-formedness is already known.
    pub(crate) fn from_parts(batch: usize, seq_len: usize, hidden: usize, data: Vec<u32>) -> (r:
        HiddenStates)
        requires
            data@.len() == batch * seq_len * hidden,
        ensures
            r.spec_batch() == batch,
            r.spec_seq_len() == seq_len,
            r.spec_hidden() == hidden,
            r.data() == data@,
    {
        HiddenStates { batch, seq_len, hidden, data }
    }

    /// The row-major contents.
    pub fn data_bits(&self) -> (r: &Vec<u32>)
        ensures
            r@ == self.data(),
    {
        &self.data
    }

    /// Batch size.
    pub fn batch(&self) -> (r: usize)
        ensures
            r == self.spec_batch(),
    {
        self.batch
    }

    /// Sequence length.
    pub fn seq_len(&self) -> (r: usize)
        ensures
            r == self.spec_seq_len(),
    {
        self.seq_len
    }

    /// Hidden dimension.
    pub fn hidden(&self) -> (r: usize)
        ensures
            r == self.spec_hidden(),
    {
        self.hidden
    }

    /// The pattern of sentence `b`, position `s`, dimension `j`.
    pub fn entry(&self, b: usize, s: usize, j: usize) -> (r: u32)
        requires
            b < self.spec_batch(),
            s < self.spec_seq_len(),
            j < self.spec_hidden(),
        ensures
            r == self.entry_spec(b as int, s as int, j as int),
    {
        // the exec length binds the storage size by usize::MAX, which bounds
        // the index arithmetic below
        let n = self.data.len();
        proof {
            use_type_invariant(self);
            lemma_index3(
                b as int,
                s as int,
                j as int,
                self.spec_batch() as int,
                self.spec_seq_len() as int,
                self.spec_hidden() as int,
            );
        }
        let idx: usize = (b * self.seq_len + s) * self.hidden + j;
        self.data[idx]
    }
}

/// If `batch * seq_len` alone exceeds `usize::MAX` and the hidden dimension
/// is positive, no `usize`-length data vector can match
/// `batch * seq_len * hidden`.
proof fn lemma_mul_overflow(batch: int, seq: int, hidden: int, len: int)
    by (nonlinear_arith)
    requires
        hidden >= 1,
        batch * seq > usize::MAX,
        len <= usize::MAX,
    ensures
        len != batch * seq * hidden,
{
}

} // verus!
