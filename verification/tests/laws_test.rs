use tensor_ops::gather::gather;
use tensor_ops::scatter::scatter;
use tensor_ops::tensor::Tensor;

fn t64(shape: Vec<usize>, data: Vec<i64>) -> Tensor<i64> {
    Tensor::from_parts(shape, data).unwrap()
}

fn tix(shape: Vec<usize>, data: Vec<i128>) -> Tensor<i128> {
    Tensor::from_parts(shape, data).unwrap()
}

#[test]
fn shape_law_concrete() {
    // the output of a successful gather is shaped like the index array
    let input = t64(vec![3, 4], (0..12).collect());
    let index = tix(vec![2, 3], vec![0, 1, 2, 3, 0, 1]);
    let out = gather(&input, 1, &index).unwrap();
    assert_eq!(out.shape, index.shape);
}

#[test]
fn identity_law_concrete() {
    // an index array filled with k picks, everywhere, the element with the
    // gathered axis pinned to k
    let input = t64(vec![2, 3], vec![1, 2, 3, 4, 5, 6]);
    let index = tix(vec![2, 3], vec![1; 6]);
    let out = gather(&input, 1, &index).unwrap();
    assert_eq!(out.data, vec![2, 2, 2, 5, 5, 5]);
}

#[test]
fn roundtrip_law_concrete() {
    // scatter(target, axis, index, gather(target, axis, index)) leaves the
    // target unchanged
    let original = t64(vec![2, 3], vec![1, 2, 3, 4, 5, 6]);
    let index = tix(vec![2, 2], vec![0, 0, 2, 1]);
    let mid = gather(&original, 1, &index).unwrap();
    let mut target = original.clone();
    scatter(&mut target, 1, &index, &mid).unwrap();
    assert_eq!(target, original);
}

#[test]
fn roundtrip_law_4d() {
    let original = t64(vec![2, 2, 3, 2], (0..24).collect());
    let index = tix(vec![2, 2, 2, 2], vec![2, 1, 0, 0, 1, 1, 2, 0, 0, 2, 1, 0, 2, 2, 1, 1]);
    let mid = gather(&original, 2, &index).unwrap();
    assert_eq!(mid.shape, vec![2, 2, 2, 2]);
    let mut target = original.clone();
    scatter(&mut target, 2, &index, &mid).unwrap();
    assert_eq!(target, original);
}

#[test]
fn roundtrip_law_scalar() {
    let original = t64(vec![], vec![42]);
    let index = tix(vec![], vec![0]);
    let mid = gather(&original, 0, &index).unwrap();
    let mut target = original.clone();
    scatter(&mut target, 0, &index, &mid).unwrap();
    assert_eq!(target, original);
}

#[test]
fn bounds_law_concrete() {
    // a negative value fails both operations with NegativeIndex; a value at
    // the axis extent fails both with IndexOutOfBounds
    let input = t64(vec![3], vec![1, 2, 3]);
    let neg = tix(vec![1], vec![-7]);
    let big = tix(vec![1], vec![3]);
    let src = t64(vec![1], vec![0]);
    assert!(matches!(
        gather(&input, 0, &neg),
        Err(tensor_ops::gather::GatherError::NegativeIndex { .. })
    ));
    assert!(matches!(
        gather(&input, 0, &big),
        Err(tensor_ops::gather::GatherError::IndexOutOfBounds { .. })
    ));
    let mut target = input.clone();
    assert!(matches!(
        scatter(&mut target, 0, &neg, &src),
        Err(tensor_ops::scatter::ScatterError::NegativeIndex { .. })
    ));
    assert!(matches!(
        scatter(&mut target, 0, &big, &src),
        Err(tensor_ops::scatter::ScatterError::IndexOutOfBounds { .. })
    ));
}

#[test]
fn axis_resolution_law_concrete() {
    // gather along -1 agrees with gather along rank-1, for every outcome
    let input = t64(vec![2, 3], vec![1, 2, 3, 4, 5, 6]);
    let index = tix(vec![2, 2], vec![2, 0, 1, 1]);
    assert_eq!(gather(&input, -1, &index), gather(&input, 1, &index));
    let bad = tix(vec![2, 2], vec![0, 9, 0, 0]);
    assert_eq!(gather(&input, -1, &bad), gather(&input, 1, &bad));
}

#[test]
fn axis_resolution_out_of_range() {
    // any selector outside [-rank, rank-1] is an invalid dimension
    let input = t64(vec![2, 3], vec![1, 2, 3, 4, 5, 6]);
    let index = tix(vec![2, 3], vec![0; 6]);
    for dim in [2isize, 3, -3, -4] {
        assert_eq!(
            gather(&input, dim, &index),
            Err(tensor_ops::gather::GatherError::InvalidDimension { dim, ndim: 2 })
        );
    }
}
