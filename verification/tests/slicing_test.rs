use tensor_ops::slicing::{slice_last_dim, slice_second_dim};
use tensor_ops::tensor::Tensor;

fn t64(shape: Vec<usize>, data: Vec<i64>) -> Tensor<i64> {
    Tensor::from_parts(shape, data).unwrap()
}

#[test]
fn slice_last_3d() {
    let input = t64(vec![2, 2, 2], vec![1, 2, 3, 4, 5, 6, 7, 8]);
    let out = slice_last_dim(&input).unwrap();
    assert_eq!(out.shape, vec![2, 2, 1]);
    assert_eq!(out.data, vec![2, 4, 6, 8]);
}

#[test]
fn slice_last_3d_wide() {
    let input = t64(vec![1, 2, 3], vec![1, 2, 3, 4, 5, 6]);
    let out = slice_last_dim(&input).unwrap();
    assert_eq!(out.shape, vec![1, 2, 1]);
    assert_eq!(out.data, vec![3, 6]);
}

#[test]
fn slice_last_needs_rank_three() {
    let input = t64(vec![2, 2], vec![1, 2, 3, 4]);
    assert!(slice_last_dim(&input).is_err());
}

#[test]
fn slice_last_empty_axis() {
    let input = t64(vec![2, 2, 0], vec![]);
    let out = slice_last_dim(&input).unwrap();
    assert_eq!(out.shape, vec![2, 2, 0]);
    assert_eq!(out.data, Vec::<i64>::new());
}

#[test]
fn slice_second_basic() {
    let input = t64(vec![2, 3], vec![1, 2, 3, 4, 5, 6]);
    let out = slice_second_dim(&input, 2).unwrap();
    assert_eq!(out.shape, vec![2, 2]);
    assert_eq!(out.data, vec![1, 2, 4, 5]);
}

#[test]
fn slice_second_amount_clipped() {
    let input = t64(vec![2, 3], vec![1, 2, 3, 4, 5, 6]);
    let out = slice_second_dim(&input, 10).unwrap();
    assert_eq!(out.shape, vec![2, 3]);
    assert_eq!(out.data, vec![1, 2, 3, 4, 5, 6]);
}

#[test]
fn slice_second_3d() {
    let input = t64(vec![2, 2, 2], vec![1, 2, 3, 4, 5, 6, 7, 8]);
    let out = slice_second_dim(&input, 1).unwrap();
    assert_eq!(out.shape, vec![2, 1, 2]);
    assert_eq!(out.data, vec![1, 2, 5, 6]);
}

#[test]
fn slice_second_needs_rank_two() {
    let input = t64(vec![3], vec![1, 2, 3]);
    assert!(slice_second_dim(&input, 1).is_err());
}
