//! Sentence embeddings from a pretrained BERT encoder, with exact contracts on
//! the parts that have algorithmic content: pooling of per-token hidden states,
//! L2 normalization, the single/batch encoding orchestration, and brute-force
//! cosine-similarity ranking over a fixed embedding table.
//!
//! Single-precision values are carried as their raw IEEE-754 bit patterns
//! (`u32`) so that ordering, classification and shape bookkeeping can be
//! verified; the floating-point arithmetic itself (encoder forward pass,
//! sums, square roots, divisions) is performed by the `candle` crate behind
//! trusted wrappers whose contracts name their results.

pub mod errors;
pub mod fbits;
pub mod matrix;
pub mod normalize;
pub mod pooling;
pub mod ranker;
pub mod model;
