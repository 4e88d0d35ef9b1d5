//! The similarity ranker: scores a normalized query vector against every row
//! of the pre-normalized embedding store by dot product (which under the
//! unit-norm precondition is the cosine similarity, in `[-1, 1]`), sorts the
//! `(index, score)` pairs by score descending — stably, so equal scores keep
//! ascending index order — and truncates to the requested `top_k`.
//!
//! The dot products are computed by candle behind a trusted wrapper; the
//! collection, NaN rejection, sorting and truncation are verified here, over
//! the `fbits` order on bit patterns. The sort is an insertion sort — O(N^2)
//! where a comparison sort could do O(N log N) — chosen because its stability
//! and ordering are proved below; stores are assumed to fit in memory anyway.

use vstd::prelude::*;
use candle_core::Device;
use candle_core::Tensor;
use candle_transformers::models::bert::DTYPE;
use safetensors::View as StView;
use vstd::seq_lib::group_to_multiset_ensures;
use vstd::multiset::group_multiset_axioms;
use crate::errors::Error;
use crate::fbits::{f32_lt, f32_le, is_nan_bits};
use crate::fbits::{f32_lt_exec, is_nan_exec};
use crate::matrix::Matrix;

verus! {

/// What candle returns for the dot product of two equal-length vectors of
/// single-precision patterns: a function of the two sequences alone.
pub uninterp spec fn dot_of(a: Seq<u32>, b: Seq<u32>) -> u32;

/// Relies on candle's elementwise tensor multiplication and
/// `Tensor::sum_all`: the single-precision dot product of two equal-length
/// vectors, reduced over all elements. Patterns cross into candle through
/// `Tensor::from_raw_buffer` and back out through the safetensors `View`
/// bytes, little-endian on both sides. On two equal-length CPU
/// single-precision vectors neither operation has a failure path (an empty
/// pair sums to the zero scalar), so success is promised.
#[verifier::external_body]
fn dot_bits(a: &Vec<u32>, b: &Vec<u32>) -> (r: Result<u32, Error>)
    requires
        a@.len() == b@.len(),
    ensures
        r is Ok,
        r matches Ok(v) ==> v == dot_of(a@, b@),
{
    let pack = |v: &Vec<u32>| -> Vec<u8> { v.iter().flat_map(|x| x.to_le_bytes()).collect() };
    let run = || -> candle_core::Result<u32> {
        let ta = Tensor::from_raw_buffer(&pack(a), DTYPE, &[a.len()], &Device::Cpu)?;
        let tb = Tensor::from_raw_buffer(&pack(b), DTYPE, &[b.len()], &Device::Cpu)?;
        let out = StView::data(&(&ta * &tb)?.sum_all()?).into_owned();
        Ok(u32::from_le_bytes(out[..4].try_into().unwrap()))
    };
    run().map_err(|e| Error::Upstream(format!("{e}")))
}

/// The `(index, score)` pairs of a score sequence, in store order.
pub open spec fn pairs_of(scores: Seq<u32>) -> Seq<(usize, u32)> {
    Seq::new(scores.len(), |i: int| (i as usize, scores[i]))
}

/// Insertion of a later-arriving pair into a descending list: it goes behind
/// every pair whose score is not below its own, so equal scores keep their
/// arrival order.
pub open spec fn insert_desc(s: Seq<(usize, u32)>, x: (usize, u32)) -> Seq<(usize, u32)>
    decreases s.len(),
{
    if s.len() > 0 && !f32_lt(s[0].1, x.1) {
        seq![s[0]] + insert_desc(s.drop_first(), x)
    } else {
        seq![x] + s
    }
}

/// Stable descending insertion sort by score.
pub open spec fn sort_desc(s: Seq<(usize, u32)>) -> Seq<(usize, u32)>
    decreases s.len(),
{
    if s.len() == 0 {
        Seq::empty()
    } else {
        insert_desc(sort_desc(s.drop_last()), s.last())
    }
}

/// Scores never increase (by order key) along the sequence.
pub open spec fn sorted_desc(s: Seq<(usize, u32)>) -> bool {
    forall|i: int, j: int| 0 <= i < j < s.len() ==> f32_le(#[trigger] s[j].1, #[trigger] s[i].1)
}

/// The whole ranking of a score sequence: all `(index, score)` pairs, sorted
/// by score descending, truncated to at most `top_k` entries.
pub open spec fn rank_spec(scores: Seq<u32>, top_k: int) -> Seq<(usize, u32)> {
    let full = sort_desc(pairs_of(scores));
    if top_k < full.len() {
        full.take(top_k)
    } else {
        full
    }
}

/// The score sequence of a store against a single-row query: entry `i` is the
/// dot product of store row `i` with the query row.
pub open spec fn scores_spec(store: Matrix, query: Matrix) -> Seq<u32> {
    Seq::new(store.spec_rows() as nat, |i: int| dot_of(store.row_spec(i), query.row_spec(0)))
}

/// `insert_desc` places the new pair at the position characterized by its
/// loop search: after the maximal prefix of scores not below its own.
proof fn lemma_insert_desc_at(s: Seq<(usize, u32)>, x: (usize, u32), p: int)
    requires
        0 <= p <= s.len(),
        forall|k: int| 0 <= k < p ==> !f32_lt(#[trigger] s[k].1, x.1),
        p < s.len() ==> f32_lt(s[p].1, x.1),
    ensures
        insert_desc(s, x) == s.insert(p, x),
    decreases s.len(),
{
    if p == 0 {
        assert(insert_desc(s, x) =~= s.insert(0, x));
    } else {
        lemma_insert_desc_at(s.drop_first(), x, p - 1);
        assert(insert_desc(s, x) =~= s.insert(p, x));
    }
}

/// Inserting adds exactly the new pair to the contents.
proof fn lemma_insert_desc_multiset(s: Seq<(usize, u32)>, x: (usize, u32))
    ensures
        insert_desc(s, x).len() == s.len() + 1,
        insert_desc(s, x).to_multiset() =~= s.to_multiset().insert(x),
    decreases s.len(),
{
    broadcast use group_to_multiset_ensures;
    broadcast use group_multiset_axioms;
    broadcast use vstd::seq_lib::to_multiset_insert;

    if s.len() > 0 && !f32_lt(s[0].1, x.1) {
        lemma_insert_desc_multiset(s.drop_first(), x);
        let t = insert_desc(s.drop_first(), x);
        assert(seq![s[0]] + t =~= t.insert(0, s[0]));
        assert(s =~= s.drop_first().insert(0, s[0]));
    } else {
        assert(seq![x] + s =~= s.insert(0, x));
    }
}

/// Every element of an insertion's result is the new pair or one of the old.
proof fn lemma_insert_desc_elems(s: Seq<(usize, u32)>, x: (usize, u32))
    ensures
        forall|i: int|
            0 <= i < insert_desc(s, x).len() ==> (#[trigger] insert_desc(s, x)[i] == x
                || s.contains(insert_desc(s, x)[i])),
    decreases s.len(),
{
    if s.len() > 0 && !f32_lt(s[0].1, x.1) {
        lemma_insert_desc_elems(s.drop_first(), x);
        let t = insert_desc(s.drop_first(), x);
        assert forall|i: int|
            0 <= i < insert_desc(s, x).len() implies (#[trigger] insert_desc(s, x)[i] == x
            || s.contains(insert_desc(s, x)[i])) by {
            if i == 0 {
                assert(s[0] == insert_desc(s, x)[0]);
            } else {
                assert(insert_desc(s, x)[i] == t[i - 1]);
                if t[i - 1] != x {
                    let k = choose|k: int|
                        0 <= k < s.drop_first().len() && s.drop_first()[k] == t[i - 1];
                    assert(s[k + 1] == t[i - 1]);
                }
            }
        }
    }
}

/// Inserting into a descending list keeps it descending.
proof fn lemma_insert_desc_sorted(s: Seq<(usize, u32)>, x: (usize, u32))
    requires
        sorted_desc(s),
    ensures
        sorted_desc(insert_desc(s, x)),
    decreases s.len(),
{
    let r = insert_desc(s, x);
    if s.len() > 0 && !f32_lt(s[0].1, x.1) {
        let df = s.drop_first();
        assert(sorted_desc(df)) by {
            assert forall|i: int, j: int| 0 <= i < j < df.len() implies f32_le(
                #[trigger] df[j].1,
                #[trigger] df[i].1,
            ) by {
                assert(df[j] == s[j + 1] && df[i] == s[i + 1]);
            }
        }
        lemma_insert_desc_sorted(df, x);
        lemma_insert_desc_elems(df, x);
        let t = insert_desc(df, x);
        assert forall|i: int, j: int| 0 <= i < j < r.len() implies f32_le(
            #[trigger] r[j].1,
            #[trigger] r[i].1,
        ) by {
            assert(r[j] == t[j - 1]);
            if i == 0 {
                assert(r[0] == s[0]);
                if t[j - 1] == x {
                    assert(!f32_lt(s[0].1, x.1));
                } else {
                    let k = choose|k: int| 0 <= k < df.len() && df[k] == t[j - 1];
                    assert(df[k] == s[k + 1]);
                    assert(f32_le(s[k + 1].1, s[0].1));
                }
            } else {
                assert(r[i] == t[i - 1]);
                assert(f32_le(t[j - 1].1, t[i - 1].1));
            }
        }
    } else {
        assert forall|i: int, j: int| 0 <= i < j < r.len() implies f32_le(
            #[trigger] r[j].1,
            #[trigger] r[i].1,
        ) by {
            assert(r[j] == s[j - 1]);
            if i == 0 {
                assert(r[0] == x);
                assert(f32_lt(s[0].1, x.1));
                assert(f32_le(s[j - 1].1, s[0].1));
            } else {
                assert(r[i] == s[i - 1]);
            }
        }
    }
}

/// Sorting keeps exactly the original pairs.
pub proof fn lemma_sort_desc_multiset(s: Seq<(usize, u32)>)
    ensures
        sort_desc(s).len() == s.len(),
        sort_desc(s).to_multiset() =~= s.to_multiset(),
    decreases s.len(),
{
    broadcast use group_to_multiset_ensures;
    broadcast use group_multiset_axioms;

    if s.len() > 0 {
        lemma_sort_desc_multiset(s.drop_last());
        lemma_insert_desc_multiset(sort_desc(s.drop_last()), s.last());
        assert(s =~= s.drop_last().push(s.last()));
    }
}

/// Sorting yields a descending list.
pub proof fn lemma_sort_desc_sorted(s: Seq<(usize, u32)>)
    ensures
        sorted_desc(sort_desc(s)),
    decreases s.len(),
{
    if s.len() > 0 {
        lemma_sort_desc_sorted(s.drop_last());
        lemma_insert_desc_sorted(sort_desc(s.drop_last()), s.last());
    }
}

/// The ranking returns `min(top_k, N)` entries for a store of `N` rows: all
/// of them when `top_k` allows, and none at all for `top_k == 0`, whatever
/// the store holds.
pub proof fn lemma_rank_len(scores: Seq<u32>, top_k: int)
    requires
        top_k >= 0,
    ensures
        rank_spec(scores, top_k).len() == if top_k < scores.len() {
            top_k
        } else {
            scores.len() as int
        },
        top_k == 0 ==> rank_spec(scores, top_k) == Seq::<(usize, u32)>::empty(),
{
    lemma_sort_desc_multiset(pairs_of(scores));
    if top_k == 0 && scores.len() > 0 {
        assert(rank_spec(scores, top_k) =~= Seq::<(usize, u32)>::empty());
    }
}

/// Every pair the ranking returns is a genuine pair of the store: its index
/// is a row index and its score is that row's score.
pub proof fn lemma_rank_pairs_genuine(scores: Seq<u32>, top_k: int)
    requires
        top_k >= 0,
        scores.len() <= usize::MAX,
    ensures
        forall|j: int|
            0 <= j < rank_spec(scores, top_k).len() ==> {
                let e = #[trigger] rank_spec(scores, top_k)[j];
                &&& e.0 < scores.len()
                &&& e.1 == scores[e.0 as int]
            },
{
    broadcast use group_to_multiset_ensures;

    let pairs = pairs_of(scores);
    let full = sort_desc(pairs);
    lemma_sort_desc_multiset(pairs);
    assert forall|j: int| 0 <= j < rank_spec(scores, top_k).len() implies {
        let e = #[trigger] rank_spec(scores, top_k)[j];
        &&& e.0 < scores.len()
        &&& e.1 == scores[e.0 as int]
    } by {
        let e = rank_spec(scores, top_k)[j];
        assert(full[j] == e);
        assert(full.contains(e));
        assert(pairs.to_multiset().count(e) > 0);
        assert(pairs.contains(e));
        let i = choose|i: int| 0 <= i < pairs.len() && pairs[i] == e;
        assert(e == (i as usize, scores[i]));
    }
}

/// The index-score pairs of a store are pairwise distinct.
proof fn lemma_pairs_no_duplicates(scores: Seq<u32>)
    requires
        scores.len() <= usize::MAX,
    ensures
        pairs_of(scores).no_duplicates(),
{
    let pairs = pairs_of(scores);
    assert forall|i: int, j: int|
        0 <= i < pairs.len() && 0 <= j < pairs.len() && i != j implies pairs[i] != pairs[j] by {
        assert(pairs[i].0 == i as usize && pairs[j].0 == j as usize);
    }
}

/// For a store of `N` rows and `top_k >= N`, the ranking returns exactly `N`
/// entries, sorted by score descending, covering every row index exactly
/// once, each paired with that row's score.
pub proof fn lemma_rank_full_coverage(scores: Seq<u32>, top_k: int)
    requires
        top_k >= scores.len(),
        scores.len() <= usize::MAX,
    ensures
        rank_spec(scores, top_k).len() == scores.len(),
        sorted_desc(rank_spec(scores, top_k)),
        forall|idx: int|
            0 <= idx < scores.len() ==> exists|j: int|
                0 <= j < rank_spec(scores, top_k).len() && #[trigger] rank_spec(scores, top_k)[j]
                    == (idx as usize, #[trigger] scores[idx]),
        forall|j: int, k: int|
            0 <= j < k < rank_spec(scores, top_k).len() ==> (#[trigger] rank_spec(
                scores,
                top_k,
            )[j]).0 != (#[trigger] rank_spec(scores, top_k)[k]).0,
{
    broadcast use group_to_multiset_ensures;

    let pairs = pairs_of(scores);
    let full = sort_desc(pairs);
    lemma_sort_desc_multiset(pairs);
    lemma_sort_desc_sorted(pairs);
    lemma_rank_pairs_genuine(scores, top_k);
    assert(rank_spec(scores, top_k) == full);

    // Coverage: every pair of the store reappears somewhere in the ranking.
    assert forall|idx: int| 0 <= idx < scores.len() implies exists|j: int|
        0 <= j < full.len() && #[trigger] full[j] == (idx as usize, #[trigger] scores[idx]) by {
        assert(pairs[idx] == (idx as usize, scores[idx]));
        assert(pairs.contains(pairs[idx]));
        assert(full.to_multiset().count(pairs[idx]) > 0);
        assert(full.contains(pairs[idx]));
        let j = choose|j: int| 0 <= j < full.len() && full[j] == pairs[idx];
        assert(0 <= j < full.len() && full[j] == (idx as usize, scores[idx]));
    }

    // Exactly once: the pairs are distinct, so the sorted copy has no
    // duplicates, and two positions sharing an index would be one pair twice.
    lemma_pairs_no_duplicates(scores);
    pairs.lemma_multiset_has_no_duplicates();
    full.lemma_multiset_has_no_duplicates_conv();
    assert forall|j: int, k: int| 0 <= j < k < full.len() implies (#[trigger] full[j]).0
        != (#[trigger] full[k]).0 by {
        if full[j].0 == full[k].0 {
            assert(full[j].1 == scores[full[j].0 as int] && full[k].1 == scores[full[k].0 as int]);
            assert(full[j] == full[k]);
        }
    }
}

/// Pairs with equal scores (by order key) stand in ascending index order.
pub open spec fn ties_ascend(s: Seq<(usize, u32)>) -> bool {
    forall|j: int, k: int|
        0 <= j < k < s.len() && crate::fbits::order_key((#[trigger] s[j]).1) == crate::fbits::order_key(
            (#[trigger] s[k]).1,
        ) ==> s[j].0 < s[k].0
}

/// Inserting a pair whose index exceeds every present index keeps ties in
/// ascending index order: the new pair goes behind its equals.
proof fn lemma_insert_desc_stable(s: Seq<(usize, u32)>, x: (usize, u32))
    requires
        sorted_desc(s),
        ties_ascend(s),
        forall|j: int| 0 <= j < s.len() ==> (#[trigger] s[j]).0 < x.0,
    ensures
        ties_ascend(insert_desc(s, x)),
    decreases s.len(),
{
    let r = insert_desc(s, x);
    if s.len() > 0 && !f32_lt(s[0].1, x.1) {
        let df = s.drop_first();
        assert(sorted_desc(df) && ties_ascend(df)) by {
            assert forall|i: int, j: int| 0 <= i < j < df.len() implies f32_le(
                #[trigger] df[j].1,
                #[trigger] df[i].1,
            ) && (crate::fbits::order_key(df[i].1) == crate::fbits::order_key(df[j].1) ==> df[i].0
                < df[j].0) by {
                assert(df[j] == s[j + 1] && df[i] == s[i + 1]);
            }
        }
        lemma_insert_desc_stable(df, x);
        lemma_insert_desc_elems(df, x);
        let t = insert_desc(df, x);
        assert forall|i: int, j: int|
            0 <= i < j < r.len() && crate::fbits::order_key((#[trigger] r[i]).1)
                == crate::fbits::order_key((#[trigger] r[j]).1) implies r[i].0 < r[j].0 by {
            assert(r[j] == t[j - 1]);
            if i == 0 {
                assert(r[0] == s[0]);
                if t[j - 1] == x {
                    assert(s[0].0 < x.0);
                } else {
                    let k = choose|k: int| 0 <= k < df.len() && df[k] == t[j - 1];
                    assert(df[k] == s[k + 1]);
                    assert(crate::fbits::order_key(s[0].1) == crate::fbits::order_key(s[k + 1].1)
                        ==> s[0].0 < s[k + 1].0);
                }
            } else {
                assert(r[i] == t[i - 1]);
            }
        }
    } else {
        assert forall|i: int, j: int|
            0 <= i < j < r.len() && crate::fbits::order_key((#[trigger] r[i]).1)
                == crate::fbits::order_key((#[trigger] r[j]).1) implies r[i].0 < r[j].0 by {
            assert(r[j] == s[j - 1]);
            if i == 0 {
                // x leads only elements with strictly smaller keys: no tie
                assert(f32_lt(s[0].1, x.1));
                assert(f32_le(s[j - 1].1, s[0].1));
            } else {
                assert(r[i] == s[i - 1]);
            }
        }
    }
}

/// Sorting a sequence whose pair at position `i` carries index `i` (the shape
/// `pairs_of` produces) keeps equal scores in ascending index order.
proof fn lemma_sort_desc_stable(s: Seq<(usize, u32)>)
    requires
        s.len() <= usize::MAX,
        forall|i: int| 0 <= i < s.len() ==> (#[trigger] s[i]).0 == i as usize,
    ensures
        ties_ascend(sort_desc(s)),
    decreases s.len(),
{
    broadcast use group_to_multiset_ensures;

    if s.len() > 0 {
        let dl = s.drop_last();
        let t = sort_desc(dl);
        let x = s.last();
        lemma_sort_desc_stable(dl);
        lemma_sort_desc_sorted(dl);
        lemma_sort_desc_multiset(dl);
        assert forall|j: int| 0 <= j < t.len() implies (#[trigger] t[j]).0 < x.0 by {
            assert(t.contains(t[j]));
            assert(dl.to_multiset().count(t[j]) > 0);
            assert(dl.contains(t[j]));
            let k = choose|k: int| 0 <= k < dl.len() && dl[k] == t[j];
            assert(dl[k].0 == k as usize);
        }
        lemma_insert_desc_stable(t, x);
    }
}

/// Tie-break determinism: in the ranking, entries with equal scores stand in
/// ascending index order, so a ranking is a deterministic function of the
/// scores.
pub proof fn lemma_rank_stable_ties(scores: Seq<u32>, top_k: int)
    requires
        top_k >= 0,
        scores.len() <= usize::MAX,
    ensures
        ties_ascend(rank_spec(scores, top_k)),
{
    let pairs = pairs_of(scores);
    lemma_sort_desc_stable(pairs);
    let full = sort_desc(pairs);
    let r = rank_spec(scores, top_k);
    assert forall|j: int, k: int|
        0 <= j < k < r.len() && crate::fbits::order_key((#[trigger] r[j]).1)
            == crate::fbits::order_key((#[trigger] r[k]).1) implies r[j].0 < r[k].0 by {
        assert(r[j] == full[j] && r[k] == full[k]);
    }
}

/// Inserts `x` into a vector kept in descending score order, behind every
/// entry whose score is not below its own.
fn sorted_insert(v: &mut Vec<(usize, u32)>, x: (usize, u32))
    ensures
        final(v)@ == insert_desc(old(v)@, x),
{
    let mut pos: usize = 0;
    while pos < v.len() && !f32_lt_exec(v[pos].1, x.1)
        invariant
            pos <= v@.len(),
            v@ == old(v)@,
            forall|k: int| 0 <= k < pos ==> !f32_lt(#[trigger] v@[k].1, x.1),
        decreases v@.len() - pos,
    {
        pos += 1;
    }
    proof {
        lemma_insert_desc_at(v@, x, pos as int);
    }
    v.insert(pos, x);
}

/// Ranks a single-row, unit-norm query against a store whose rows are assumed
/// pre-normalized (the dot product is a cosine similarity only under that
/// documented precondition; the store is not re-normalized here). Returns the
/// `top_k` highest-scoring `(row index, score pattern)` pairs, sorted by
/// score descending with ties in ascending index order; with fewer rows than
/// `top_k`, all of them; with `top_k == 0`, none. A query that is not a
/// single row of the store's width is a shape error, and a NaN score is a
/// numeric error rather than a silent reordering.
#[verifier::loop_isolation(false)]
pub fn rank_by_similarity(store: &Matrix, query: &Matrix, top_k: usize) -> (r: Result<
    Vec<(usize, u32)>,
    Error,
>)
    ensures
        r == Err::<Vec<(usize, u32)>, Error>(Error::Shape) <==> !(query.spec_rows() == 1
            && query.spec_cols() == store.spec_cols()),
        r == Err::<Vec<(usize, u32)>, Error>(Error::Numeric) <==> (query.spec_rows() == 1
            && query.spec_cols() == store.spec_cols() && exists|i: int|
            0 <= i < store.spec_rows() && is_nan_bits(#[trigger] scores_spec(*store, *query)[i])),
        r is Ok <==> (query.spec_rows() == 1 && query.spec_cols() == store.spec_cols()
            && forall|i: int|
            0 <= i < store.spec_rows() ==> !is_nan_bits(#[trigger] scores_spec(*store, *query)[i])),
        r matches Ok(v) ==> v@ == rank_spec(scores_spec(*store, *query), top_k as int),
{
    if !(query.rows() == 1 && query.cols() == store.cols()) {
        return Err(Error::Shape);
    }
    let ghost sspec = scores_spec(*store, *query);
    let q = query.row_bits(0);
    let n = store.rows();
    let mut scores: Vec<u32> = Vec::new();
    for i in 0..n
        invariant
            scores@.len() == i,
            forall|k: int| 0 <= k < i ==> scores@[k] == sspec[k],
    {
        let row = store.row_bits(i);
        match dot_bits(&row, &q) {
            Ok(v) => scores.push(v),
            Err(e) => {
                return Err(e);  // unreachable: the wrapper promises success
            },
        }
    }
    proof {
        assert(scores@ =~= sspec);
    }
    for i in 0..n
        invariant
            forall|k: int| 0 <= k < i ==> !is_nan_bits(#[trigger] sspec[k]),
    {
        if is_nan_exec(scores[i]) {
            return Err(Error::Numeric);
        }
    }
    let mut pairs: Vec<(usize, u32)> = Vec::new();
    for i in 0..n
        invariant
            pairs@.len() == i,
            forall|k: int| 0 <= k < i ==> pairs@[k] == pairs_of(sspec)[k],
    {
        pairs.push((i, scores[i]));
    }
    proof {
        assert(pairs@ =~= pairs_of(sspec));
    }
    let mut sorted: Vec<(usize, u32)> = Vec::new();
    for i in 0..n
        invariant
            sorted@ == sort_desc(pairs@.take(i as int)),
    {
        let x = pairs[i];
        sorted_insert(&mut sorted, x);
        proof {
            assert(pairs@.take(i + 1).drop_last() =~= pairs@.take(i as int));
            assert(pairs@.take(i + 1).last() == pairs@[i as int]);
        }
    }
    proof {
        assert(pairs@.take(n as int) =~= pairs@);
        lemma_sort_desc_multiset(pairs@);
    }
    sorted.truncate(top_k);
    Ok(sorted)
}

} // verus!
