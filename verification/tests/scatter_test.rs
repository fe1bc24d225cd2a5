use tensor_ops::scatter::{scatter, ScatterError};
use tensor_ops::tensor::Tensor;

fn t64(shape: Vec<usize>, data: Vec<i64>) -> Tensor<i64> {
    Tensor::from_parts(shape, data).unwrap()
}

fn tix(shape: Vec<usize>, data: Vec<i128>) -> Tensor<i128> {
    Tensor::from_parts(shape, data).unwrap()
}

#[test]
fn scatter_2d_axis1() {
    // target [2,3] zeros, axis 1, index [[1],[2]], source [[9],[8]]
    // -> [[0,9,0],[0,0,8]]
    let mut target = t64(vec![2, 3], vec![0; 6]);
    let index = tix(vec![2, 1], vec![1, 2]);
    let source = t64(vec![2, 1], vec![9, 8]);
    scatter(&mut target, 1, &index, &source).unwrap();
    assert_eq!(target.shape, vec![2, 3]);
    assert_eq!(target.data, vec![0, 9, 0, 0, 0, 8]);
}

#[test]
fn scatter_1d_axis0() {
    let mut target = t64(vec![4], vec![0, 0, 0, 0]);
    let index = tix(vec![2], vec![3, 0]);
    let source = t64(vec![2], vec![5, 6]);
    scatter(&mut target, 0, &index, &source).unwrap();
    assert_eq!(target.data, vec![6, 0, 0, 5]);
}

#[test]
fn scatter_negative_axis() {
    let mut target = t64(vec![2, 2], vec![0, 0, 0, 0]);
    let index = tix(vec![2, 2], vec![1, 0, 0, 1]);
    let source = t64(vec![2, 2], vec![1, 2, 3, 4]);
    scatter(&mut target, -1, &index, &source).unwrap();
    assert_eq!(target.data, vec![2, 1, 3, 4]);
}

#[test]
fn scatter_collision_last_write_wins() {
    let mut target = t64(vec![1, 3], vec![0, 0, 0]);
    let index = tix(vec![1, 2], vec![1, 1]);
    let source = t64(vec![1, 2], vec![4, 5]);
    scatter(&mut target, 1, &index, &source).unwrap();
    assert_eq!(target.data, vec![0, 5, 0]);
}

#[test]
fn scatter_partial_write_on_failure() {
    // earlier writes persist when a later index value is rejected
    let mut target = t64(vec![1, 3], vec![0, 0, 0]);
    let index = tix(vec![1, 3], vec![0, 5, 1]);
    let source = t64(vec![1, 3], vec![9, 8, 7]);
    let r = scatter(&mut target, 1, &index, &source);
    assert_eq!(
        r,
        Err(ScatterError::IndexOutOfBounds {
            coords: vec![0, 1],
            index_value: 5,
            dim: 1,
            dim_size: 3,
        })
    );
    assert_eq!(target.data, vec![9, 0, 0]);
}

#[test]
fn scatter_negative_index() {
    let mut target = t64(vec![3], vec![0, 0, 0]);
    let index = tix(vec![2], vec![-2, 0]);
    let source = t64(vec![2], vec![1, 2]);
    let r = scatter(&mut target, 0, &index, &source);
    assert_eq!(
        r,
        Err(ScatterError::NegativeIndex { coords: vec![0], index_value: -2 })
    );
    assert_eq!(target.data, vec![0, 0, 0]);
}

#[test]
fn scatter_index_cast_error() {
    let too_big: i128 = usize::MAX as i128 + 1;
    let mut target = t64(vec![3], vec![0, 0, 0]);
    let index = tix(vec![1], vec![too_big]);
    let source = t64(vec![1], vec![1]);
    let r = scatter(&mut target, 0, &index, &source);
    assert_eq!(
        r,
        Err(ScatterError::IndexCastError { coords: vec![0], index_value: too_big })
    );
}

#[test]
fn scatter_dimension_mismatch() {
    let mut target = t64(vec![2, 3], vec![0; 6]);
    let index = tix(vec![2], vec![0, 1]);
    let source = t64(vec![2], vec![1, 2]);
    let r = scatter(&mut target, 0, &index, &source);
    assert_eq!(
        r,
        Err(ScatterError::DimensionMismatch {
            target_ndim: 2,
            index_ndim: 1,
            source_ndim: 1,
        })
    );
}

#[test]
fn scatter_invalid_dimension() {
    let mut target = t64(vec![2], vec![0, 0]);
    let index = tix(vec![1], vec![0]);
    let source = t64(vec![1], vec![1]);
    assert_eq!(
        scatter(&mut target, 5, &index, &source),
        Err(ScatterError::InvalidDimension { dim: 5, ndim: 1 })
    );
}

#[test]
fn scatter_index_source_shape_mismatch() {
    let mut target = t64(vec![2, 3], vec![0; 6]);
    let index = tix(vec![2, 1], vec![0, 0]);
    let source = t64(vec![2, 2], vec![1, 2, 3, 4]);
    let r = scatter(&mut target, 1, &index, &source);
    assert_eq!(
        r,
        Err(ScatterError::IndexSourceShapeMismatch {
            index_shape: vec![2, 1],
            source_shape: vec![2, 2],
        })
    );
}

#[test]
fn scatter_target_too_small() {
    let mut target = t64(vec![2, 2], vec![0; 4]);
    let index = tix(vec![3, 2], vec![0; 6]);
    let source = t64(vec![3, 2], vec![1; 6]);
    let r = scatter(&mut target, 1, &index, &source);
    assert_eq!(
        r,
        Err(ScatterError::TargetTooSmall { axis: 0, target_size: 2, index_size: 3 })
    );
}

#[test]
fn scatter_empty_axis_negative_first() {
    // with an empty scattered axis, negativity is reported before bounds
    let mut target = t64(vec![0, 2], vec![]);
    let index = tix(vec![1, 1], vec![-1]);
    let source = t64(vec![1, 1], vec![1]);
    let r = scatter(&mut target, 0, &index, &source);
    assert_eq!(
        r,
        Err(ScatterError::NegativeIndex { coords: vec![0, 0], index_value: -1 })
    );
}

#[test]
fn scatter_empty_axis_out_of_bounds() {
    let mut target = t64(vec![0, 2], vec![]);
    let index = tix(vec![1, 1], vec![0]);
    let source = t64(vec![1, 1], vec![1]);
    let r = scatter(&mut target, 0, &index, &source);
    assert_eq!(
        r,
        Err(ScatterError::IndexOutOfBounds {
            coords: vec![0, 0],
            index_value: 0,
            dim: 0,
            dim_size: 0,
        })
    );
}

#[test]
fn scatter_scalar() {
    let mut target = t64(vec![], vec![1]);
    let index = tix(vec![], vec![0]);
    let source = t64(vec![], vec![9]);
    scatter(&mut target, 0, &index, &source).unwrap();
    assert_eq!(target.data, vec![9]);
}

#[test]
fn scatter_scalar_bad_index() {
    let mut target = t64(vec![], vec![1]);
    let index = tix(vec![], vec![2]);
    let source = t64(vec![], vec![9]);
    let r = scatter(&mut target, 0, &index, &source);
    assert_eq!(
        r,
        Err(ScatterError::IndexOutOfBounds {
            coords: vec![],
            index_value: 2,
            dim: 0,
            dim_size: 1,
        })
    );
    assert_eq!(target.data, vec![1]);
}
