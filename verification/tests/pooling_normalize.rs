//! Pooling and normalization on concrete values: the worked scenario, the
//! unit-norm postcondition, idempotence, zero-padding invariance and the
//! error cases.

use bert_embed::errors::Error;
use bert_embed::matrix::{HiddenStates, Matrix};
use bert_embed::model::BertInferenceModel;
use bert_embed::pooling::{apply_pooling, PoolingStrategy};

fn hs(batch: usize, seq: usize, hidden: usize, vals: &[f32]) -> HiddenStates {
    let data: Vec<u32> = vals.iter().map(|v| v.to_bits()).collect();
    HiddenStates::new(batch, seq, hidden, data).unwrap()
}

fn mat(rows: usize, cols: usize, vals: &[f32]) -> Matrix {
    let data: Vec<u32> = vals.iter().map(|v| v.to_bits()).collect();
    Matrix::new(rows, cols, data).unwrap()
}

fn row(m: &Matrix, i: usize) -> Vec<f32> {
    (0..m.cols()).map(|j| f32::from_bits(m.entry(i, j))).collect()
}

#[test]
fn max_pooling_worked_scenario() {
    // (1, 3, 2) = [[[1,2],[3,0],[-1,5]]] pools to [[3,5]]
    let h = hs(1, 3, 2, &[1.0, 2.0, 3.0, 0.0, -1.0, 5.0]);
    let m = BertInferenceModel::apply_max_pooling(&h).unwrap();
    assert_eq!(m.rows(), 1);
    assert_eq!(m.cols(), 2);
    assert_eq!(row(&m, 0), vec![3.0, 5.0]);
}

#[test]
fn normalization_worked_scenario() {
    // [[3,5]] normalizes to [[3/sqrt(34), 5/sqrt(34)]]
    let m = mat(1, 2, &[3.0, 5.0]);
    let n = BertInferenceModel::l2_normalize(&m).unwrap();
    let r = row(&n, 0);
    let s = 34.0f32.sqrt();
    assert!((r[0] - 3.0 / s).abs() < 1e-6);
    assert!((r[1] - 5.0 / s).abs() < 1e-6);
}

#[test]
fn normalized_rows_have_unit_norm() {
    let m = mat(3, 3, &[3.0, 5.0, -2.0, 0.1, 0.2, 0.3, -7.5, 0.25, 100.0]);
    let n = BertInferenceModel::l2_normalize(&m).unwrap();
    for i in 0..3 {
        let norm: f32 = row(&n, i).iter().map(|v| v * v).sum::<f32>().sqrt();
        assert!((norm - 1.0).abs() < 1e-5);
    }
}

#[test]
fn normalizing_a_unit_vector_is_idempotent() {
    let m = mat(1, 2, &[3.0, 5.0]);
    let once = BertInferenceModel::l2_normalize(&m).unwrap();
    let twice = BertInferenceModel::l2_normalize(&once).unwrap();
    let a = row(&once, 0);
    let b = row(&twice, 0);
    for (x, y) in a.iter().zip(b.iter()) {
        assert!((x - y).abs() < 1e-5);
    }
}

#[test]
fn zero_row_is_numeric_error() {
    let m = mat(2, 2, &[1.0, 2.0, 0.0, -0.0]);
    assert_eq!(BertInferenceModel::l2_normalize(&m), Err(Error::Numeric));
}

#[test]
fn max_pooling_invariant_under_zero_padding_when_max_nonnegative() {
    // every column maximum is nonnegative, so appended zero rows change nothing
    let plain = hs(1, 2, 2, &[1.0, 2.0, 3.0, 0.5]);
    let padded = hs(1, 4, 2, &[1.0, 2.0, 3.0, 0.5, 0.0, 0.0, 0.0, 0.0]);
    let a = BertInferenceModel::apply_max_pooling(&plain).unwrap();
    let b = BertInferenceModel::apply_max_pooling(&padded).unwrap();
    assert_eq!(row(&a, 0), row(&b, 0));
}

#[test]
fn max_pooling_not_invariant_for_all_negative_column() {
    // the caveat: a column whose true maximum is negative is dragged up by zero padding
    let plain = hs(1, 2, 1, &[-3.0, -1.0]);
    let padded = hs(1, 3, 1, &[-3.0, -1.0, 0.0]);
    let a = BertInferenceModel::apply_max_pooling(&plain).unwrap();
    let b = BertInferenceModel::apply_max_pooling(&padded).unwrap();
    assert_eq!(row(&a, 0), vec![-1.0]);
    assert_eq!(row(&b, 0), vec![0.0]);
}

#[test]
fn empty_sequence_axis_is_shape_error() {
    let h = hs(0, 0, 0, &[]);
    assert_eq!(BertInferenceModel::apply_max_pooling(&h), Err(Error::Shape));
    assert_eq!(BertInferenceModel::apply_mean_pooling(&h), Err(Error::Shape));
}

#[test]
fn mean_pooling_divides_by_raw_length() {
    // (1, 2, 2) = [[[1,2],[3,4]]] averages to [[2,3]]
    let h = hs(1, 2, 2, &[1.0, 2.0, 3.0, 4.0]);
    let m = BertInferenceModel::apply_mean_pooling(&h).unwrap();
    assert_eq!(row(&m, 0), vec![2.0, 3.0]);
}

#[test]
fn mean_pooling_counts_padding_positions() {
    // a zero-padded position biases the mean toward zero: (3+0)/2, (4+0)/2
    let h = hs(1, 2, 2, &[3.0, 4.0, 0.0, 0.0]);
    let m = BertInferenceModel::apply_mean_pooling(&h).unwrap();
    assert_eq!(row(&m, 0), vec![1.5, 2.0]);
}

#[test]
fn pooling_strategies_are_swappable_behind_one_interface() {
    let h = hs(2, 2, 1, &[1.0, 5.0, -2.0, -8.0]);
    let mx = apply_pooling(PoolingStrategy::Max, &h).unwrap();
    let mn = apply_pooling(PoolingStrategy::Mean, &h).unwrap();
    assert_eq!(row(&mx, 0), vec![5.0]);
    assert_eq!(row(&mx, 1), vec![-2.0]);
    assert_eq!(row(&mn, 0), vec![3.0]);
    assert_eq!(row(&mn, 1), vec![-5.0]);
}

#[test]
fn matrix_rejects_mismatched_data_length() {
    assert_eq!(Matrix::new(2, 2, vec![0; 3]).err(), Some(Error::Shape));
    assert_eq!(HiddenStates::new(1, 2, 2, vec![0; 5]).err(), Some(Error::Shape));
}

#[test]
fn width_zero_rows_have_zero_norm() {
    let m = mat(2, 0, &[]);
    assert_eq!(BertInferenceModel::l2_normalize(&m), Err(Error::Numeric));
}

#[test]
fn mean_pooling_keeps_sentences_apart() {
    let h = hs(2, 2, 1, &[1.0, 3.0, -4.0, -6.0]);
    let m = BertInferenceModel::apply_mean_pooling(&h).unwrap();
    assert_eq!(m.rows(), 2);
    assert_eq!(row(&m, 0), vec![2.0]);
    assert_eq!(row(&m, 1), vec![-5.0]);
}

#[test]
fn max_pooling_keeps_sentences_apart() {
    let h = hs(2, 3, 2, &[1.0, 2.0, 3.0, 0.0, -1.0, 5.0, -9.0, -8.0, -7.0, -6.0, -5.0, -4.0]);
    let m = BertInferenceModel::apply_max_pooling(&h).unwrap();
    assert_eq!(row(&m, 0), vec![3.0, 5.0]);
    assert_eq!(row(&m, 1), vec![-5.0, -4.0]);
}
