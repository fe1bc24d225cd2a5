use tensor_ops::argmax::{validate_argmax_axis, ArgmaxError};
use tensor_ops::axis::resolve_axis;
use tensor_ops::max::{validate_max_axis, MaxError};
use tensor_ops::tensor::Tensor;

#[test]
fn resolve_axis_cases() {
    assert_eq!(resolve_axis(0, 3), Some(0));
    assert_eq!(resolve_axis(2, 3), Some(2));
    assert_eq!(resolve_axis(3, 3), None);
    assert_eq!(resolve_axis(-1, 3), Some(2));
    assert_eq!(resolve_axis(-3, 3), Some(0));
    assert_eq!(resolve_axis(-4, 3), None);
    assert_eq!(resolve_axis(0, 0), None);
}

#[test]
fn max_axis_ok() {
    assert_eq!(validate_max_axis(&vec![2, 3], 1), Ok(()));
}

#[test]
fn max_axis_invalid() {
    assert_eq!(validate_max_axis(&vec![2, 3], 5), Err(MaxError::InvalidAxis(5)));
}

#[test]
fn max_axis_zero_extent() {
    assert_eq!(validate_max_axis(&vec![2, 0], 1), Err(MaxError::ZeroDimSize(1)));
}

#[test]
fn max_axis_empty_input() {
    // the named axis is fine, but another axis is empty
    assert_eq!(validate_max_axis(&vec![0, 3], 1), Err(MaxError::EmptyInput));
}

#[test]
fn argmax_flat_empty() {
    assert_eq!(validate_argmax_axis(&vec![0, 3], None), Err(ArgmaxError::EmptyInput));
    assert_eq!(validate_argmax_axis(&vec![2, 3], None), Ok(()));
}

#[test]
fn argmax_axis_cases() {
    assert_eq!(
        validate_argmax_axis(&vec![2, 3], Some(4)),
        Err(ArgmaxError::InvalidAxis(4))
    );
    assert_eq!(
        validate_argmax_axis(&vec![2, 0], Some(1)),
        Err(ArgmaxError::ZeroDimSize(1))
    );
    // an empty array along another axis is not an error when an axis is named
    assert_eq!(validate_argmax_axis(&vec![0, 3], Some(1)), Ok(()));
}

#[test]
fn from_parts_checks_size() {
    assert!(Tensor::from_parts(vec![2, 3], vec![0i64; 6]).is_some());
    assert!(Tensor::from_parts(vec![2, 3], vec![0i64; 5]).is_none());
    assert!(Tensor::from_parts(vec![], vec![7i64]).is_some());
    assert!(Tensor::from_parts(vec![0, 9], Vec::<i64>::new()).is_some());
}

#[test]
fn tensor_get_set() {
    let mut t = Tensor::from_parts(vec![2, 3], vec![1i64, 2, 3, 4, 5, 6]).unwrap();
    assert_eq!(*t.get(&vec![1, 2]), 6);
    t.set(&vec![0, 1], 9);
    assert_eq!(*t.get(&vec![0, 1]), 9);
    assert_eq!(t.ndim(), 2);
    assert_eq!(t.len(), 6);
}
