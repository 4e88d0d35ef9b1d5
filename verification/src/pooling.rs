//! Pooling: reduction of `(batch, seq_len, hidden)` per-token hidden states to
//! one `(batch, hidden)` vector per sentence.
//!
//! Max pooling takes, for each sentence and each hidden dimension
//! independently, the maximum value across the sequence axis; it is
//! implemented and verified here directly over bit patterns, using the
//! `fbits` order. One caveat of that order: it ranks NaN patterns above
//! positive infinity, so a NaN hidden state wins its column's maximum, where
//! a reduction built on `f32::max` would ignore it — a divergence on NaN
//! inputs only. Mean pooling divides the sum across the sequence axis by
//! the raw sequence length — deliberately including padding positions, a
//! documented simplification of this design — and is performed by candle
//! behind a trusted wrapper.

use vstd::prelude::*;
use candle_core::Device;
use candle_core::Tensor;
use candle_transformers::models::bert::DTYPE;
use safetensors::View as StView;
use crate::errors::Error;
use crate::fbits::{f32_lt, f32_le};
use crate::fbits::f32_lt_exec;
use crate::matrix::{HiddenStates, Matrix};

verus! {

/// The larger of two patterns under the `fbits` order; the left operand wins
/// ties, so folding keeps the earliest position among equals.
pub open spec fn bits_max(a: u32, b: u32) -> u32 {
    if f32_lt(a, b) {
        b
    } else {
        a
    }
}

/// Maximum of the first `upto` positions of column `j` of sentence `b`
/// (at least one position is always taken).
pub open spec fn col_max(h: HiddenStates, b: int, j: int, upto: int) -> u32
    decreases upto,
{
    if upto <= 1 {
        h.entry_spec(b, 0, j)
    } else {
        bits_max(col_max(h, b, j, upto - 1), h.entry_spec(b, upto - 1, j))
    }
}

/// Everything max pooling promises of its result.
pub open spec fn max_pooling_post(h: HiddenStates, r: Result<Matrix, Error>) -> bool {
    &&& (r is Ok <==> h.spec_seq_len() >= 1)
    &&& (r matches Err(e) ==> e == Error::Shape)
    &&& (r matches Ok(m) ==> {
        &&& m.spec_rows() == h.spec_batch()
        &&& m.spec_cols() == h.spec_hidden()
        &&& forall|b: int, j: int|
            0 <= b < h.spec_batch() && 0 <= j < h.spec_hidden() ==> m.entry_spec(b, j) == col_max(
                h,
                b,
                j,
                h.spec_seq_len() as int,
            )
    })
}

/// Everything mean pooling promises of its result.
pub open spec fn mean_pooling_post(h: HiddenStates, r: Result<Matrix, Error>) -> bool {
    &&& (r is Ok <==> h.spec_seq_len() >= 1)
    &&& (r matches Err(e) ==> e == Error::Shape)
    &&& (r matches Ok(m) ==> {
        &&& m.spec_rows() == h.spec_batch()
        &&& m.spec_cols() == h.spec_hidden()
        &&& m.data() == mean_pooled(
            h.data(),
            h.spec_batch() as int,
            h.spec_seq_len() as int,
            h.spec_hidden() as int,
        )
    })
}

/// Max pooling: reduces `(batch, seq_len, hidden)` hidden states to a
/// `(batch, hidden)` matrix whose entry `(b, j)` is the maximum of column `j`
/// across the sequence axis of sentence `b`. An empty sequence axis has no
/// maximum and is a shape error.
#[verifier::loop_isolation(false)]
pub fn apply_max_pooling(h: &HiddenStates) -> (r: Result<Matrix, Error>)
    ensures
        max_pooling_post(*h, r),
{
    let batch = h.batch();
    let seq = h.seq_len();
    let hidden = h.hidden();
    if seq == 0 {
        return Err(Error::Shape);
    }
    let mut out: Vec<u32> = Vec::new();
    proof {
        assert(0 * hidden == 0) by (nonlinear_arith);
    }
    for b in 0..batch
        invariant
            out@.len() == b * hidden,
            forall|k: int|
                0 <= k < out@.len() ==> out@[k] == col_max(
                    *h,
                    k / (hidden as int),
                    k % (hidden as int),
                    seq as int,
                ),
    {
        for j in 0..hidden
            invariant
                out@.len() == b * hidden + j,
                forall|k: int|
                    0 <= k < out@.len() ==> out@[k] == col_max(
                        *h,
                        k / (hidden as int),
                        k % (hidden as int),
                        seq as int,
                    ),
        {
            let mut m = h.entry(b, 0, j);
            for s in 1..seq
                invariant
                    m == col_max(*h, b as int, j as int, s as int),
            {
                let c = h.entry(b, s, j);
                if f32_lt_exec(m, c) {
                    m = c;
                }
            }
            out.push(m);
            proof {
                vstd::arithmetic::div_mod::lemma_fundamental_div_mod_converse(
                    b as int * hidden as int + j as int,
                    hidden as int,
                    b as int,
                    j as int,
                );
            }
        }
        proof {
            assert((b + 1) * hidden == b * hidden + hidden) by (nonlinear_arith);
        }
    }
    let mat = Matrix::from_parts(batch, hidden, out);
    proof {
        assert forall|b: int, j: int|
            0 <= b < h.spec_batch() && 0 <= j < h.spec_hidden() implies mat.entry_spec(b, j)
            == col_max(*h, b, j, seq as int) by {
            crate::matrix::lemma_index2(b, j, batch as int, hidden as int);
            vstd::arithmetic::div_mod::lemma_fundamental_div_mod_converse(
                b * (hidden as int) + j,
                hidden as int,
                b,
                j,
            );
        }
    }
    Ok(mat)
}

/// What candle's mean over the sequence axis returns: the `(batch, hidden)`
/// row-major patterns of the per-column arithmetic means of a
/// `(batch, seq, hidden)` input. A function of the input patterns alone.
pub uninterp spec fn mean_pooled(data: Seq<u32>, batch: int, seq: int, hidden: int) -> Seq<u32>;

/// Relies on candle's `Tensor::mean` along dimension 1 of a
/// `(batch, seq, hidden)` tensor: the arithmetic mean over all sequence
/// positions (padding included), one value per sentence and hidden dimension,
/// so the result holds `batch * hidden` patterns. Patterns cross into candle
/// through `Tensor::from_raw_buffer` and back out through the safetensors
/// `View` bytes, little-endian on both sides. On a well-formed CPU
/// single-precision input with a nonempty sequence axis none of these
/// operations has a failure path, so success is promised.
#[verifier::external_body]
fn mean_pool_bits(data: &Vec<u32>, batch: usize, seq: usize, hidden: usize) -> (r: Result<
    Vec<u32>,
    Error,
>)
    requires
        data@.len() == batch * seq * hidden,
        seq >= 1,
    ensures
        r is Ok,
        r matches Ok(v) ==> v@ == mean_pooled(data@, batch as int, seq as int, hidden as int)
            && v@.len() == batch * hidden,
{
    let bytes: Vec<u8> = data.iter().flat_map(|x| x.to_le_bytes()).collect();
    let run = || -> candle_core::Result<Vec<u8>> {
        let t = Tensor::from_raw_buffer(&bytes, DTYPE, &[batch, seq, hidden], &Device::Cpu)?;
        Ok(StView::data(&t.mean(1)?).into_owned())
    };
    match run() {
        Ok(o) => Ok(o.chunks_exact(4).map(|c| u32::from_le_bytes(c.try_into().unwrap())).collect()),
        Err(e) => Err(Error::Upstream(format!("{e}"))),
    }
}

/// Mean pooling: reduces `(batch, seq_len, hidden)` hidden states to the
/// `(batch, hidden)` matrix of arithmetic means across the sequence axis.
/// The divisor is the raw sequence length, padding positions included: a
/// deliberate (if debatable) simplification, documented here rather than
/// silently replaced by a masked mean, since padded positions bias the mean
/// toward their zero-valued hidden states. An empty sequence axis is a shape
/// error.
pub fn apply_mean_pooling(h: &HiddenStates) -> (r: Result<Matrix, Error>)
    ensures
        mean_pooling_post(*h, r),
{
    let batch = h.batch();
    let seq = h.seq_len();
    let hidden = h.hidden();
    if seq == 0 {
        return Err(Error::Shape);
    }
    proof {
        use_type_invariant(h);
    }
    match mean_pool_bits(h.data_bits(), batch, seq, hidden) {
        Ok(v) => Ok(Matrix::from_parts(batch, hidden, v)),
        Err(e) => Err(e),  // unreachable: the wrapper promises success
    }
}

/// The pooling strategies the pipeline can be asked to run; the caller picks
/// one and every entry point threads it through unchanged.
#[derive(Clone, Copy, Debug, PartialEq, Eq)]
pub enum PoolingStrategy {
    /// Maximum across the sequence axis, per hidden dimension.
    Max,
    /// Arithmetic mean across the sequence axis, padding positions included.
    Mean,
}

/// Applies the selected pooling strategy: the single interface behind which
/// the two reductions are swappable.
pub fn apply_pooling(strategy: PoolingStrategy, h: &HiddenStates) -> (r: Result<Matrix, Error>)
    ensures
        strategy == PoolingStrategy::Max ==> max_pooling_post(*h, r),
        strategy == PoolingStrategy::Mean ==> mean_pooling_post(*h, r),
{
    match strategy {
        PoolingStrategy::Max => apply_max_pooling(h),
        PoolingStrategy::Mean => apply_mean_pooling(h),
    }
}

/// Max pooling over a column agrees on two hidden-state values that agree on
/// the positions taken.
proof fn lemma_col_max_agree(h: HiddenStates, g: HiddenStates, b: int, j: int, upto: int)
    requires
        1 <= upto,
        forall|s: int| 0 <= s < upto ==> g.entry_spec(b, s, j) == h.entry_spec(b, s, j),
    ensures
        col_max(g, b, j, upto) == col_max(h, b, j, upto),
    decreases upto,
{
    if upto > 1 {
        lemma_col_max_agree(h, g, b, j, upto - 1);
    }
}

/// Positions whose values do not exceed an already-reached column maximum are
/// absorbed: extending the fold over them leaves the maximum unchanged.
proof fn lemma_col_max_absorb(g: HiddenStates, b: int, j: int, s0: int, upto: int, m: u32)
    requires
        1 <= s0 <= upto,
        col_max(g, b, j, s0) == m,
        forall|s: int| s0 <= s < upto ==> f32_le(g.entry_spec(b, s, j), m),
    ensures
        col_max(g, b, j, upto) == m,
    decreases upto - s0,
{
    if upto > s0 {
        lemma_col_max_absorb(g, b, j, s0, upto - 1, m);
    }
}

/// Max pooling is invariant to appending positions at the end of the sequence
/// axis, provided every appended value is at most (`f32_le`) the column's
/// maximum over the original positions. This is the honest form of the
/// zero-padding caveat: appended zeros are covered exactly when each column's
/// true maximum is nonnegative, not for arbitrary padding.
pub proof fn lemma_max_pooling_padding_invariant(
    h: HiddenStates,
    g: HiddenStates,
    b: int,
    j: int,
)
    requires
        g.spec_seq_len() >= h.spec_seq_len() >= 1,
        0 <= b,
        0 <= j,
        forall|s: int| 0 <= s < h.spec_seq_len() ==> g.entry_spec(b, s, j) == h.entry_spec(
            b,
            s,
            j,
        ),
        forall|s: int|
            h.spec_seq_len() <= s < g.spec_seq_len() ==> f32_le(
                g.entry_spec(b, s, j),
                col_max(h, b, j, h.spec_seq_len() as int),
            ),
    ensures
        col_max(g, b, j, g.spec_seq_len() as int) == col_max(h, b, j, h.spec_seq_len() as int),
{
    let orig = h.spec_seq_len() as int;
    lemma_col_max_agree(h, g, b, j, orig);
    lemma_col_max_absorb(
        g,
        b,
        j,
        orig,
        g.spec_seq_len() as int,
        col_max(h, b, j, orig),
    );
}

} // verus!
