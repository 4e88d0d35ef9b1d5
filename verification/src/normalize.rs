//! L2 normalization: rescales each row of a `(rows, cols)` matrix to unit
//! Euclidean norm by dividing it by the square root of its sum of squares.
//!
//! A zero-norm row cannot be normalized; the division would silently produce
//! NaN. The documented choice here is to reject: a row consisting solely of
//! zero patterns fails the whole request with a numeric error before any
//! division runs, rather than being epsilon-guarded or mapped to NaN. One
//! residual case remains open: a row of subnormals whose computed sum of
//! squares underflows to zero passes this guard and comes back from the
//! division as non-finite values. The division itself is candle's, behind a
//! trusted wrapper.

use vstd::prelude::*;
use candle_core::Device;
use candle_core::Tensor;
use candle_transformers::models::bert::DTYPE;
use safetensors::View as StView;
use crate::errors::Error;
use crate::fbits::is_zero_bits;
use crate::fbits::is_zero_exec;
use crate::matrix::Matrix;

verus! {

/// Whether row `i` holds zero patterns only.
pub open spec fn row_all_zero(m: Matrix, i: int) -> bool {
    forall|j: int| 0 <= j < m.spec_cols() ==> is_zero_bits(#[trigger] m.entry_spec(i, j))
}

/// Whether some row of the matrix holds zero patterns only. (A width-zero
/// matrix counts: each of its rows has zero norm.)
pub open spec fn has_zero_row(m: Matrix) -> bool {
    exists|i: int| 0 <= i < m.spec_rows() && row_all_zero(m, i)
}

/// What candle returns when each row of a `(rows, cols)` matrix of patterns
/// is divided by the square root of its sum of squares: a function of the
/// input patterns alone; the shape is kept.
pub uninterp spec fn l2_normalized(data: Seq<u32>, rows: int, cols: int) -> Seq<u32>;

/// Relies on candle's `Tensor::sqr`, `Tensor::sum_keepdim`, `Tensor::sqrt`
/// and `Tensor::broadcast_div`: divides every row of a `(rows, cols)` tensor
/// by the square root of its sum of squares, keeping the shape. Patterns
/// cross into candle through `Tensor::from_raw_buffer` and back out through
/// the safetensors `View` bytes, little-endian on both sides. On a
/// well-formed CPU single-precision input none of these operations has a
/// failure path, so success is promised.
#[verifier::external_body]
fn l2_normalize_bits(data: &Vec<u32>, rows: usize, cols: usize) -> (r: Result<Vec<u32>, Error>)
    requires
        data@.len() == rows * cols,
    ensures
        r is Ok,
        r matches Ok(v) ==> v@ == l2_normalized(data@, rows as int, cols as int) && v@.len()
            == data@.len(),
{
    let bytes: Vec<u8> = data.iter().flat_map(|x| x.to_le_bytes()).collect();
    let run = || -> candle_core::Result<Vec<u8>> {
        let t = Tensor::from_raw_buffer(&bytes, DTYPE, &[rows, cols], &Device::Cpu)?;
        Ok(StView::data(&t.broadcast_div(&t.sqr()?.sum_keepdim(1)?.sqrt()?)?).into_owned())
    };
    match run() {
        Ok(o) => Ok(o.chunks_exact(4).map(|c| u32::from_le_bytes(c.try_into().unwrap())).collect()),
        Err(e) => Err(Error::Upstream(format!("{e}"))),
    }
}

/// Rescales each row to unit L2 norm. Rows of zero patterns are rejected with
/// a numeric error (never silently turned into NaN or a zero vector); on
/// success every row has been divided by the square root of its sum of
/// squares, so its norm is 1 up to floating-point tolerance.
#[verifier::loop_isolation(false)]
pub fn l2_normalize(m: &Matrix) -> (r: Result<Matrix, Error>)
    ensures
        r is Ok <==> !has_zero_row(*m),
        has_zero_row(*m) ==> r == Err::<Matrix, Error>(Error::Numeric),
        r matches Ok(out) ==> {
            &&& out.spec_rows() == m.spec_rows()
            &&& out.spec_cols() == m.spec_cols()
            &&& out.data() == l2_normalized(
                m.data(),
                m.spec_rows() as int,
                m.spec_cols() as int,
            )
        },
{
    let rows = m.rows();
    let cols = m.cols();
    for i in 0..rows
        invariant
            forall|ii: int| 0 <= ii < i ==> !row_all_zero(*m, ii),
    {
        let mut zero = true;
        for j in 0..cols
            invariant
                zero ==> forall|jj: int|
                    0 <= jj < j ==> is_zero_bits(#[trigger] m.entry_spec(i as int, jj)),
                !zero ==> !row_all_zero(*m, i as int),
        {
            if !is_zero_exec(m.entry(i, j)) {
                zero = false;
            }
        }
        if zero {
            assert(row_all_zero(*m, i as int));
            return Err(Error::Numeric);
        }
    }
    proof {
        use_type_invariant(m);
    }
    match l2_normalize_bits(m.data_bits(), rows, cols) {
        Ok(v) => Ok(Matrix::from_parts(rows, cols, v)),
        Err(e) => Err(e),  // unreachable: the wrapper promises success
    }
}

} // verus!
