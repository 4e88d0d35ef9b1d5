//! The serving object: a loaded BERT encoder, its tokenizer, and the
//! pre-normalized embedding store it answers ranking queries against.
//!
//! Tokenization and the transformer forward pass are opaque collaborators
//! behind trusted wrappers: nothing is assumed of the token ids or hidden
//! states they produce beyond their shapes, so pooling, normalization and
//! ranking are verified for every value they may return. The forward pass is
//! fed all-zero token-type ids and no attention mask; whether a padding-aware
//! mask should be supplied instead is an open question of this design, kept
//! visible here rather than silently answered, since masking would change
//! the numeric output.
//! Loading (hub download, file reads, weight deserialization) is I/O and
//! lives with the caller, who hands the loaded pieces to [`BertInferenceModel::new`].

use vstd::prelude::*;
use candle_core::Device;
use candle_core::Tensor;
use candle_transformers::models::bert::DTYPE;
use safetensors::View as StView;
use crate::errors::Error;
use crate::matrix::{HiddenStates, Matrix};
use crate::normalize;
use crate::pooling;
use crate::ranker;

verus! {

#[verifier::external_type_specification]
#[verifier::external_body]
pub struct ExBertModel(candle_transformers::models::bert::BertModel);

#[verifier::external_type_specification]
#[verifier::external_body]
pub struct ExTokenizer(tokenizers::Tokenizer);

/// Relies on `Tokenizer::encode` with special tokens added: the token ids of
/// one sentence.
#[verifier::external_body]
fn encode_one(tok: &tokenizers::Tokenizer, sentence: &str) -> (r: Result<Vec<u32>, Error>)
    ensures
        r matches Err(e) ==> e matches Error::Upstream(_),
{
    match tok.encode(sentence, true) {
        Ok(e) => Ok(e.get_ids().to_vec()),
        Err(e) => Err(Error::Upstream(format!("{e}"))),
    }
}

/// Relies on `Tokenizer::encode_batch` with special tokens added: one
/// encoding per input sentence, in order (padded to a common length only when
/// the tokenizer is configured to pad).
#[verifier::external_body]
fn encode_batch(tok: &tokenizers::Tokenizer, sentences: &Vec<String>) -> (r: Result<
    Vec<Vec<u32>>,
    Error,
>)
    ensures
        r matches Ok(v) ==> v@.len() == sentences@.len(),
        r matches Err(e) ==> e matches Error::Upstream(_),
{
    match tok.encode_batch(sentences.clone(), true) {
        Ok(es) => Ok(es.iter().map(|e| e.get_ids().to_vec()).collect()),
        Err(e) => Err(Error::Upstream(format!("{e}"))),
    }
}

/// Relies on `BertModel::forward`, fed `(batch, seq)` token ids with all-zero
/// token-type ids (`zeros_like`) and no attention mask: returns the
/// `(batch, seq, hidden)` hidden states flattened row-major, together with
/// the hidden dimension read off the output. The output is converted to
/// single precision (`to_dtype`) before its bytes are taken through the
/// safetensors `View`, little-endian, so each element is four bytes whatever
/// precision the model computed in.
#[verifier::external_body]
fn forward_bits(
    model: &candle_transformers::models::bert::BertModel,
    ids: &Vec<u32>,
    batch: usize,
    seq: usize,
) -> (r: Result<(Vec<u32>, usize), Error>)
    requires
        ids@.len() == batch * seq,
    ensures
        r matches Ok(p) ==> p.0@.len() == batch * seq * p.1,
        r matches Err(e) ==> e matches Error::Upstream(_),
{
    let run = || -> candle_core::Result<(Vec<u8>, usize)> {
        let t = Tensor::from_vec(ids.clone(), (batch, seq), &Device::Cpu)?;
        let out = model.forward(&t, &t.zeros_like()?, None)?.to_dtype(DTYPE)?;
        Ok((StView::data(&out).into_owned(), out.dims3()?.2))
    };
    match run() {
        Ok((o, h)) => Ok((o.chunks_exact(4).map(|c| u32::from_le_bytes(c.try_into().unwrap())).collect(), h)),
        Err(e) => Err(Error::Upstream(format!("{e}"))),
    }
}

/// Flattens a rectangular batch of token-id rows into one row-major vector:
/// entry `k * seq + l` of the result is entry `l` of row `k`. A ragged batch
/// (some row not of length `seq`) is a shape error.
#[verifier::loop_isolation(false)]
fn flatten_rows(toks: &Vec<Vec<u32>>, seq: usize) -> (r: Result<Vec<u32>, Error>)
    ensures
        r is Ok <==> forall|k: int| 0 <= k < toks@.len() ==> (#[trigger] toks@[k])@.len() == seq,
        r matches Err(e) ==> e == Error::Shape,
        r matches Ok(v) ==> {
            &&& v@.len() == toks@.len() * seq
            &&& forall|k: int, l: int|
                0 <= k < toks@.len() && 0 <= l < seq ==> v@[k * seq + l] == (#[trigger] toks@[k]@[l])
        },
{
    let batch = toks.len();
    let mut flat: Vec<u32> = Vec::new();
    proof {
        assert(0 * seq == 0) by (nonlinear_arith);
    }
    for i in 0..batch
        invariant
            flat@.len() == i * seq,
            forall|k: int| 0 <= k < i ==> (#[trigger] toks@[k])@.len() == seq,
            forall|k: int, l: int|
                0 <= k < i && 0 <= l < seq ==> flat@[k * seq + l] == (#[trigger] toks@[k]@[l]),
    {
        if toks[i].len() != seq {
            return Err(Error::Shape);
        }
        for j in 0..seq
            invariant
                flat@.len() == i * seq + j,
                toks@[i as int]@.len() == seq,
                forall|k: int, l: int|
                    0 <= k < i && 0 <= l < seq ==> flat@[k * seq + l] == (#[trigger] toks@[k]@[l]),
                forall|l: int|
                    0 <= l < j ==> flat@[i as int * seq + l] == (#[trigger] toks@[i as int]@[l]),
        {
            let v = toks[i][j];
            flat.push(v);
            proof {
                assert forall|k: int, l: int|
                    0 <= k < i && 0 <= l < seq implies flat@[k * seq + l] == (
                #[trigger] toks@[k]@[l]) by {
                    crate::matrix::lemma_index2(k, l, i as int, seq as int);
                }
            }
        }
        proof {
            assert((i + 1) * seq == i * seq + seq) by (nonlinear_arith);
            assert forall|k: int, l: int|
                0 <= k < i + 1 && 0 <= l < seq implies flat@[k * seq + l] == (
            #[trigger] toks@[k]@[l]) by {
                if k < i {
                    crate::matrix::lemma_index2(k, l, i as int, seq as int);
                }
            }
        }
    }
    Ok(flat)
}

/// A loaded BERT encoder with its tokenizer and the embedding store it
/// serves. The store is read-only for the object's lifetime and is assumed
/// pre-normalized row by row by whoever produced it: ranking computes plain
/// dot products, which are cosine similarities only under that invariant.
pub struct BertInferenceModel {
    model: candle_transformers::models::bert::BertModel,
    tokenizer: tokenizers::Tokenizer,
    embeddings: Matrix,
}

impl BertInferenceModel {
    /// The embedding store, in specifications.
    pub closed spec fn store(self) -> Matrix {
        self.embeddings
    }

    /// Assembles a serving object from an already-loaded encoder, tokenizer
    /// and embedding store (possibly a placeholder matrix when no store is
    /// configured). Downloading and deserializing those collaborators is I/O
    /// and stays with the caller.
    pub fn new(
        model: candle_transformers::models::bert::BertModel,
        tokenizer: tokenizers::Tokenizer,
        embeddings: Matrix,
    ) -> (r: BertInferenceModel)
        ensures
            r.store() == embeddings,
    {
        BertInferenceModel { model, tokenizer, embeddings }
    }

    /// The embedding store held.
    pub fn store_ref(&self) -> (r: &Matrix)
        ensures
            *r == self.store(),
    {
        &self.embeddings
    }

    /// Embeds one sentence: tokenize, encode, max-pool, normalize. On success
    /// the result is a single-row matrix of unit norm (up to floating-point
    /// tolerance), bit-for-bit what the batch path produces for this sentence
    /// alone whenever the tokenizer pads both the same way.
    pub fn infer_sentence_embedding(&self, sentence: &str) -> (r: Result<Matrix, Error>)
        ensures
            r matches Ok(m) ==> m.spec_rows() == 1,
    {
        let ids = match encode_one(&self.tokenizer, sentence) {
            Ok(t) => t,
            Err(e) => {
                return Err(e);
            },
        };
        let seq = ids.len();
        proof {
            assert(1 * seq == seq) by (nonlinear_arith);
        }
        let (data, hidden) = match forward_bits(&self.model, &ids, 1, seq) {
            Ok(p) => p,
            Err(e) => {
                return Err(e);
            },
        };
        let h = HiddenStates::from_parts(1, seq, hidden, data);
        let pooled = match pooling::apply_max_pooling(&h) {
            Ok(p) => p,
            Err(e) => {
                return Err(e);
            },
        };
        match normalize::l2_normalize(&pooled) {
            Ok(m) => Ok(m),
            Err(e) => Err(e),
        }
    }

    /// Embeds a batch of sentences in one forward pass: tokenize the batch,
    /// encode, max-pool, normalize. The tokenizer must hand back a
    /// rectangular batch (padding is its responsibility); a ragged batch is a
    /// shape error. On success the result has one unit-norm row per sentence,
    /// in order.
    #[verifier::loop_isolation(false)]
    pub fn create_embeddings(&self, sentences: Vec<String>) -> (r: Result<Matrix, Error>)
        ensures
            r matches Ok(m) ==> m.spec_rows() == sentences@.len(),
    {
        let toks = match encode_batch(&self.tokenizer, &sentences) {
            Ok(t) => t,
            Err(e) => {
                return Err(e);
            },
        };
        let batch = toks.len();
        let seq: usize = if batch > 0 {
            toks[0].len()
        } else {
            0
        };
        let flat = match flatten_rows(&toks, seq) {
            Ok(f) => f,
            Err(e) => {
                return Err(e);
            },
        };
        let (data, hidden) = match forward_bits(&self.model, &flat, batch, seq) {
            Ok(p) => p,
            Err(e) => {
                return Err(e);
            },
        };
        let h = HiddenStates::from_parts(batch, seq, hidden, data);
        let pooled = match pooling::apply_max_pooling(&h) {
            Ok(p) => p,
            Err(e) => {
                return Err(e);
            },
        };
        match normalize::l2_normalize(&pooled) {
            Ok(m) => Ok(m),
            Err(e) => Err(e),
        }
    }

    /// Ranks an embedded query against the store: the `top_k` highest dot
    /// products, sorted descending, ties in ascending index order (see
    /// `ranker::rank_by_similarity`).
    pub fn score_vector_similarity(&self, vector: &Matrix, top_k: usize) -> (r: Result<
        Vec<(usize, u32)>,
        Error,
    >)
        ensures
            r == Err::<Vec<(usize, u32)>, Error>(Error::Shape) <==> !(vector.spec_rows() == 1
                && vector.spec_cols() == self.store().spec_cols()),
            r == Err::<Vec<(usize, u32)>, Error>(Error::Numeric) <==> (vector.spec_rows() == 1
                && vector.spec_cols() == self.store().spec_cols() && exists|i: int|
                0 <= i < self.store().spec_rows() && crate::fbits::is_nan_bits(
                    #[trigger] ranker::scores_spec(self.store(), *vector)[i],
                )),
            r is Ok <==> (vector.spec_rows() == 1 && vector.spec_cols()
                == self.store().spec_cols() && forall|i: int|
                0 <= i < self.store().spec_rows() ==> !crate::fbits::is_nan_bits(
                    #[trigger] ranker::scores_spec(self.store(), *vector)[i],
                )),
            r matches Ok(v) ==> v@ == ranker::rank_spec(
                ranker::scores_spec(self.store(), *vector),
                top_k as int,
            ),
    {
        ranker::rank_by_similarity(self.store_ref(), vector, top_k)
    }

    /// Max pooling of encoder hidden states (see `pooling::apply_max_pooling`).
    pub fn apply_max_pooling(h: &HiddenStates) -> (r: Result<Matrix, Error>)
        ensures
            pooling::max_pooling_post(*h, r),
    {
        pooling::apply_max_pooling(h)
    }

    /// Mean pooling of encoder hidden states (see
    /// `pooling::apply_mean_pooling`).
    pub fn apply_mean_pooling(h: &HiddenStates) -> (r: Result<Matrix, Error>)
        ensures
            pooling::mean_pooling_post(*h, r),
    {
        pooling::apply_mean_pooling(h)
    }

    /// Unit-norm rescaling of each row (see `normalize::l2_normalize`).
    pub fn l2_normalize(m: &Matrix) -> (r: Result<Matrix, Error>)
        ensures
            r is Ok <==> !normalize::has_zero_row(*m),
            normalize::has_zero_row(*m) ==> r == Err::<Matrix, Error>(Error::Numeric),
            r matches Ok(out) ==> {
                &&& out.spec_rows() == m.spec_rows()
                &&& out.spec_cols() == m.spec_cols()
                &&& out.data() == normalize::l2_normalized(
                    m.data(),
                    m.spec_rows() as int,
                    m.spec_cols() as int,
                )
            },
    {
        normalize::l2_normalize(m)
    }
}

} // verus!
