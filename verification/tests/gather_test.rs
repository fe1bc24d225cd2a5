use tensor_ops::gather::{gather, GatherError};
use tensor_ops::tensor::Tensor;

fn t64(shape: Vec<usize>, data: Vec<i64>) -> Tensor<i64> {
    Tensor::from_parts(shape, data).unwrap()
}

fn tix(shape: Vec<usize>, data: Vec<i128>) -> Tensor<i128> {
    Tensor::from_parts(shape, data).unwrap()
}

#[test]
fn gather_1d_axis0() {
    // input shape [3] = [10,20,30], axis 0, index shape [2] = [2,0] -> [30,10]
    let input = t64(vec![3], vec![10, 20, 30]);
    let index = tix(vec![2], vec![2, 0]);
    let out = gather(&input, 0, &index).unwrap();
    assert_eq!(out.shape, vec![2]);
    assert_eq!(out.data, vec![30, 10]);
}

#[test]
fn gather_2d_axis1_columns() {
    // input shape [2,3], axis 1, index [[0,0],[2,2]] gathers columns 0 and 2
    let input = t64(vec![2, 3], vec![1, 2, 3, 4, 5, 6]);
    let index = tix(vec![2, 2], vec![0, 0, 2, 2]);
    let out = gather(&input, 1, &index).unwrap();
    assert_eq!(out.shape, vec![2, 2]);
    assert_eq!(out.data, vec![1, 1, 6, 6]);
}

#[test]
fn gather_2d_axis0() {
    let input = t64(vec![2, 3], vec![1, 2, 3, 4, 5, 6]);
    let index = tix(vec![2, 3], vec![1, 0, 1, 0, 1, 0]);
    let out = gather(&input, 0, &index).unwrap();
    assert_eq!(out.shape, vec![2, 3]);
    // out[i][j] = input[index[i][j]][j]
    assert_eq!(out.data, vec![4, 2, 6, 1, 5, 3]);
}

#[test]
fn gather_index_smaller_than_input() {
    // index may be smaller than input along non-gathered axes
    let input = t64(vec![3, 3], vec![1, 2, 3, 4, 5, 6, 7, 8, 9]);
    let index = tix(vec![2, 2], vec![0, 1, 2, 0]);
    let out = gather(&input, 1, &index).unwrap();
    assert_eq!(out.shape, vec![2, 2]);
    assert_eq!(out.data, vec![1, 2, 6, 4]);
}

#[test]
fn gather_f32_elements() {
    let input = Tensor::from_parts(vec![3], vec![0.5f32, 1.5, -2.0]).unwrap();
    let index = tix(vec![2], vec![2, 2]);
    let out = gather(&input, 0, &index).unwrap();
    assert_eq!(out.data, vec![-2.0f32, -2.0]);
}

#[test]
fn gather_scalar_ok() {
    let input = t64(vec![], vec![7]);
    let index = tix(vec![], vec![0]);
    let out = gather(&input, 0, &index).unwrap();
    assert_eq!(out.shape, Vec::<usize>::new());
    assert_eq!(out.data, vec![7]);
}

#[test]
fn gather_scalar_bad_index() {
    let input = t64(vec![], vec![7]);
    let index = tix(vec![], vec![1]);
    let r = gather(&input, 0, &index);
    assert_eq!(
        r,
        Err(GatherError::IndexOutOfBounds {
            coords: vec![],
            index_value: 1,
            dim: 0,
            dim_size: 1,
        })
    );
}

#[test]
fn gather_dimension_mismatch() {
    let input = t64(vec![2, 3], vec![1, 2, 3, 4, 5, 6]);
    let index = tix(vec![2], vec![0, 1]);
    let r = gather(&input, 0, &index);
    assert_eq!(
        r,
        Err(GatherError::DimensionMismatch { input_ndim: 2, index_ndim: 1 })
    );
}

#[test]
fn gather_invalid_dimension() {
    let input = t64(vec![2, 3], vec![1, 2, 3, 4, 5, 6]);
    let index = tix(vec![2, 3], vec![0; 6]);
    assert_eq!(
        gather(&input, 2, &index),
        Err(GatherError::InvalidDimension { dim: 2, ndim: 2 })
    );
    assert_eq!(
        gather(&input, -3, &index),
        Err(GatherError::InvalidDimension { dim: -3, ndim: 2 })
    );
}

#[test]
fn gather_shape_mismatch() {
    // index larger than input along a non-gathered axis
    let input = t64(vec![2, 2], vec![1, 2, 3, 4]);
    let index = tix(vec![2, 3], vec![0; 6]);
    let r = gather(&input, 0, &index);
    assert_eq!(
        r,
        Err(GatherError::ShapeMismatch { axis: 1, input_size: 2, index_size: 3 })
    );
}

#[test]
fn gather_negative_index() {
    let input = t64(vec![3], vec![10, 20, 30]);
    let index = tix(vec![2], vec![0, -1]);
    let r = gather(&input, 0, &index);
    assert_eq!(
        r,
        Err(GatherError::NegativeIndex { coords: vec![1], index_value: -1 })
    );
}

#[test]
fn gather_index_out_of_bounds() {
    let input = t64(vec![3], vec![10, 20, 30]);
    let index = tix(vec![2], vec![1, 3]);
    let r = gather(&input, 0, &index);
    assert_eq!(
        r,
        Err(GatherError::IndexOutOfBounds {
            coords: vec![1],
            index_value: 3,
            dim: 0,
            dim_size: 3,
        })
    );
}

#[test]
fn gather_index_cast_error() {
    // an index value wider than a machine index is rejected as a cast failure
    let too_big: i128 = usize::MAX as i128 + 1;
    let input = t64(vec![3], vec![10, 20, 30]);
    let index = tix(vec![1], vec![too_big]);
    let r = gather(&input, 0, &index);
    assert_eq!(
        r,
        Err(GatherError::IndexCastError { coords: vec![0], index_value: too_big })
    );
}

#[test]
fn gather_empty_axis_fails() {
    // input shape [0,5], axis 0, non-empty index -> out of bounds with extent 0
    let input = t64(vec![0, 5], vec![]);
    let index = tix(vec![1, 1], vec![0]);
    let r = gather(&input, 0, &index);
    assert_eq!(
        r,
        Err(GatherError::IndexOutOfBounds {
            coords: vec![0, 0],
            index_value: 0,
            dim: 0,
            dim_size: 0,
        })
    );
}

#[test]
fn gather_empty_index_succeeds() {
    // an empty index array yields an empty output, even on an empty axis
    let input = t64(vec![0, 5], vec![]);
    let index = tix(vec![0, 1], vec![]);
    let out = gather(&input, 0, &index).unwrap();
    assert_eq!(out.shape, vec![0, 1]);
    assert_eq!(out.data, Vec::<i64>::new());
}

#[test]
fn gather_first_error_wins() {
    // the first offending value in row-major order is reported
    let input = t64(vec![4], vec![1, 2, 3, 4]);
    let index = tix(vec![3], vec![9, -1, 0]);
    let r = gather(&input, 0, &index);
    assert_eq!(
        r,
        Err(GatherError::IndexOutOfBounds {
            coords: vec![0],
            index_value: 9,
            dim: 0,
            dim_size: 4,
        })
    );
}

#[test]
fn gather_3d() {
    let input = t64(vec![2, 2, 2], vec![1, 2, 3, 4, 5, 6, 7, 8]);
    let index = tix(vec![2, 2, 1], vec![1, 0, 0, 1]);
    let out = gather(&input, 2, &index).unwrap();
    assert_eq!(out.shape, vec![2, 2, 1]);
    // out[i][j][0] = input[i][j][index[i][j][0]]
    assert_eq!(out.data, vec![2, 3, 5, 8]);
}
