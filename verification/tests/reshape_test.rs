use tensor_ops::reshape::{infer_shape, reshape, ReshapeError};
use tensor_ops::tensor::Tensor;

fn t64(shape: Vec<usize>, data: Vec<i64>) -> Tensor<i64> {
    Tensor::from_parts(shape, data).unwrap()
}

#[test]
fn reshape_plain() {
    let input = t64(vec![2, 3], vec![1, 2, 3, 4, 5, 6]);
    let out = reshape(&input, &vec![3, 2]).unwrap();
    assert_eq!(out.shape, vec![3, 2]);
    assert_eq!(out.data, vec![1, 2, 3, 4, 5, 6]);
}

#[test]
fn reshape_inferred() {
    let input = t64(vec![2, 3], vec![1, 2, 3, 4, 5, 6]);
    let out = reshape(&input, &vec![-1, 2]).unwrap();
    assert_eq!(out.shape, vec![3, 2]);
    let out2 = reshape(&input, &vec![6, -1]).unwrap();
    assert_eq!(out2.shape, vec![6, 1]);
}

#[test]
fn reshape_to_scalar_rank() {
    let input = t64(vec![1, 1], vec![5]);
    let out = reshape(&input, &vec![]).unwrap();
    assert_eq!(out.shape, Vec::<usize>::new());
    assert_eq!(out.data, vec![5]);
}

#[test]
fn reshape_incompatible_size() {
    let input = t64(vec![2, 3], vec![1, 2, 3, 4, 5, 6]);
    assert_eq!(reshape(&input, &vec![4, 2]), Err(ReshapeError::IncompatibleShape));
}

#[test]
fn reshape_inferred_not_divisible() {
    let input = t64(vec![2, 3], vec![1, 2, 3, 4, 5, 6]);
    assert_eq!(reshape(&input, &vec![-1, 4]), Err(ReshapeError::IncompatibleShape));
}

#[test]
fn reshape_multiple_inferred() {
    let input = t64(vec![2, 3], vec![1, 2, 3, 4, 5, 6]);
    assert_eq!(
        reshape(&input, &vec![-1, -1]),
        Err(ReshapeError::MultipleInferredDimensions)
    );
}

#[test]
fn reshape_negative_extent() {
    let input = t64(vec![2, 3], vec![1, 2, 3, 4, 5, 6]);
    assert_eq!(reshape(&input, &vec![-2, 3]), Err(ReshapeError::IncompatibleShape));
}

#[test]
fn reshape_first_offender_decides() {
    // a negative extent before the second placeholder wins
    let input = t64(vec![2, 3], vec![1, 2, 3, 4, 5, 6]);
    assert_eq!(
        reshape(&input, &vec![-1, -2, -1]),
        Err(ReshapeError::IncompatibleShape)
    );
    assert_eq!(
        reshape(&input, &vec![-1, -1, -2]),
        Err(ReshapeError::MultipleInferredDimensions)
    );
}

#[test]
fn reshape_inferred_with_zero_known() {
    let input = t64(vec![0], vec![]);
    assert_eq!(reshape(&input, &vec![-1, 0]), Err(ReshapeError::IncompatibleShape));
}

#[test]
fn reshape_empty_with_inferred() {
    let input = t64(vec![0, 5], vec![]);
    let out = reshape(&input, &vec![-1, 5]).unwrap();
    assert_eq!(out.shape, vec![0, 5]);
    assert_eq!(out.data, Vec::<i64>::new());
}

#[test]
fn infer_shape_direct() {
    assert_eq!(infer_shape(12, &vec![3, -1]), Ok(vec![3, 4]));
    assert_eq!(infer_shape(12, &vec![2, 2, 3]), Ok(vec![2, 2, 3]));
    assert_eq!(infer_shape(12, &vec![5, -1]), Err(ReshapeError::IncompatibleShape));
}
