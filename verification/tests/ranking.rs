//! The similarity ranker on concrete stores: coverage, ordering, truncation,
//! tie-breaking, and its error cases.

use bert_embed::errors::Error;
use bert_embed::matrix::Matrix;
use bert_embed::ranker::rank_by_similarity;

fn mat(rows: usize, cols: usize, vals: &[f32]) -> Matrix {
    let data: Vec<u32> = vals.iter().map(|v| v.to_bits()).collect();
    Matrix::new(rows, cols, data).unwrap()
}

fn scores(r: &[(usize, u32)]) -> Vec<(usize, f32)> {
    r.iter().map(|&(i, s)| (i, f32::from_bits(s))).collect()
}

#[test]
fn three_unit_vectors_top_two() {
    // store = [1,0], [0,1], [-1,0]; query = [1,0]
    let store = mat(3, 2, &[1.0, 0.0, 0.0, 1.0, -1.0, 0.0]);
    let query = mat(1, 2, &[1.0, 0.0]);
    let r = rank_by_similarity(&store, &query, 2).unwrap();
    assert_eq!(scores(&r), vec![(0usize, 1.0f32), (1usize, 0.0f32)]);
}

#[test]
fn full_ranking_sorted_descending_covers_every_index_once() {
    let store = mat(3, 2, &[1.0, 0.0, 0.0, 1.0, -1.0, 0.0]);
    let query = mat(1, 2, &[1.0, 0.0]);
    // top_k beyond the store size returns all rows, no error.
    let r = rank_by_similarity(&store, &query, 10).unwrap();
    let s = scores(&r);
    assert_eq!(s, vec![(0usize, 1.0f32), (1usize, 0.0f32), (2usize, -1.0f32)]);
    let mut seen = vec![false; 3];
    for &(i, _) in &s {
        assert!(!seen[i]);
        seen[i] = true;
    }
    assert!(seen.iter().all(|&x| x));
    for w in s.windows(2) {
        assert!(w[0].1 >= w[1].1);
    }
}

#[test]
fn top_k_zero_returns_empty() {
    let store = mat(3, 2, &[1.0, 0.0, 0.0, 1.0, -1.0, 0.0]);
    let query = mat(1, 2, &[1.0, 0.0]);
    let r = rank_by_similarity(&store, &query, 0).unwrap();
    assert!(r.is_empty());
}

#[test]
fn equal_scores_keep_ascending_index_order() {
    let store = mat(4, 2, &[1.0, 0.0, 0.5, 0.5, 1.0, 0.0, 1.0, 0.0]);
    let query = mat(1, 2, &[1.0, 0.0]);
    let r = rank_by_similarity(&store, &query, 4).unwrap();
    let idx: Vec<usize> = r.iter().map(|&(i, _)| i).collect();
    // rows 0, 2 and 3 all score 1.0 and must stay in index order, above row 1
    assert_eq!(idx, vec![0, 2, 3, 1]);
}

#[test]
fn mismatched_query_width_is_shape_error() {
    let store = mat(2, 3, &[1.0, 0.0, 0.0, 0.0, 1.0, 0.0]);
    let query = mat(1, 2, &[1.0, 0.0]);
    assert_eq!(rank_by_similarity(&store, &query, 1), Err(Error::Shape));
}

#[test]
fn two_row_query_is_shape_error() {
    let store = mat(2, 2, &[1.0, 0.0, 0.0, 1.0]);
    let query = mat(2, 2, &[1.0, 0.0, 0.0, 1.0]);
    assert_eq!(rank_by_similarity(&store, &query, 1), Err(Error::Shape));
}

#[test]
fn nan_score_is_numeric_error() {
    let store = mat(2, 2, &[f32::NAN, 0.0, 0.0, 1.0]);
    let query = mat(1, 2, &[1.0, 0.0]);
    assert_eq!(rank_by_similarity(&store, &query, 2), Err(Error::Numeric));
}

#[test]
fn empty_store_returns_empty_ranking() {
    let store = mat(0, 2, &[]);
    let query = mat(1, 2, &[1.0, 0.0]);
    let r = rank_by_similarity(&store, &query, 5).unwrap();
    assert!(r.is_empty());
}

#[test]
fn negative_scores_ordered_correctly() {
    let store = mat(3, 2, &[-1.0, 0.0, -0.25, 0.0, -0.5, 0.0]);
    let query = mat(1, 2, &[1.0, 0.0]);
    let r = rank_by_similarity(&store, &query, 3).unwrap();
    let idx: Vec<usize> = r.iter().map(|&(i, _)| i).collect();
    assert_eq!(idx, vec![1, 2, 0]);
}

#[test]
fn dot_product_scores_exact_values() {
    // non-unit rows make the wrapper's arithmetic visible: 2*4 + 3*5 = 23
    let store = mat(2, 2, &[2.0, 3.0, 1.0, -1.0]);
    let query = mat(1, 2, &[4.0, 5.0]);
    let r = rank_by_similarity(&store, &query, 2).unwrap();
    assert_eq!(scores(&r), vec![(0usize, 23.0f32), (1usize, -1.0f32)]);
}

#[test]
fn top_k_equal_to_store_size_returns_all() {
    let store = mat(3, 2, &[1.0, 0.0, 0.0, 1.0, -1.0, 0.0]);
    let query = mat(1, 2, &[1.0, 0.0]);
    let r = rank_by_similarity(&store, &query, 3).unwrap();
    assert_eq!(r.len(), 3);
}
