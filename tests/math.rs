use ktensor::op::softmax_round;
use ktensor::{Matrix, Tensor, TensorError, Vec2};

fn counting(rows: usize, cols: usize) -> Matrix<i64> {
    Matrix::new(Vec2(rows, cols), (0..(rows * cols) as i64).collect()).unwrap()
}

#[test]
fn matrix_new_rejects_wrong_length() {
    match Matrix::new(Vec2(2, 3), vec![1i64, 2, 3]) {
        Err(TensorError::ShapeMismatch { expected, found }) => {
            assert_eq!((expected.0, expected.1), (2, 3));
            assert_eq!((found.0, found.1), (3, 1));
        },
        _ => panic!("a short buffer must be refused"),
    }
}

#[test]
fn matrix_get_and_len() {
    let m = counting(2, 3);
    assert_eq!(m.get(Vec2(1, 2)), 5);
    assert_eq!(m.get(Vec2(0, 1)), 1);
    assert_eq!(m.len(), 6);
    let d = m.dim();
    assert_eq!((d.0, d.1), (2, 3));
}

#[test]
fn matrix_to_flattened_keeps_order() {
    let v = counting(2, 3).to_flattened();
    assert_eq!(v, vec![0, 1, 2, 3, 4, 5]);
}

#[test]
fn matrix_transpose_swaps_coordinates() {
    let mut m = counting(2, 3);
    m.transpose();
    let d = m.dim();
    assert_eq!((d.0, d.1), (3, 2));
    assert_eq!(m.get(Vec2(2, 0)), 2);
    assert_eq!(m.get(Vec2(0, 1)), 3);
    assert_eq!(m.get(Vec2(2, 1)), 5);
    // no value moved in storage
    assert_eq!(m.to_flattened(), vec![0, 1, 2, 3, 4, 5]);
}

#[test]
fn matrix_get_indicies_matches_buffer() {
    let m = counting(3, 3);
    let indicies = m.get_indicies(Vec2(2, 2));
    assert_eq!(indicies, vec![0, 1, 3, 4]);
    let buffer = m.to_flattened();
    for &i in indicies.iter() {
        assert_eq!(i as i64, buffer[i]);
    }
}

#[test]
fn matrix_get_indicies_of_transpose() {
    let mut m = counting(2, 3);
    m.transpose();
    assert_eq!(m.get_indicies(Vec2(3, 2)), vec![0, 3, 1, 4, 2, 5]);
}

#[test]
fn matrix_get_indicies_stride() {
    let m = counting(6, 6);
    let indicies = m.get_indicies_stride(Vec2(2, 2), 2);
    assert_eq!(indicies.len(), 4);
    assert_eq!(indicies, vec![0, 2, 12, 14]);
    let buffer = m.to_flattened();
    for &i in indicies.iter() {
        assert_eq!(i as i64, buffer[i]);
    }
}

#[test]
fn matrix_get_submatrix() {
    let m = counting(3, 3);
    let slice = m.get_submatrix(Vec2(1, 1), Vec2(3, 3));
    let d = slice.dim();
    assert_eq!((d.0, d.1), (2, 2));
    assert_eq!(slice.to_flattened(), vec![4, 5, 7, 8]);
}

#[test]
fn matrix_add_elementwise() {
    let a = Matrix::new(Vec2(2, 3), (0..6).map(|i| i as f64).collect()).unwrap();
    let b = Matrix::new(Vec2(2, 3), (0..6).map(|i| i as f64).rev().collect()).unwrap();
    let c = a.add(&b).unwrap();
    assert_eq!(c.to_flattened(), vec![5.0; 6]);
}

#[test]
fn matrix_add_rejects_other_dimensions() {
    let a = counting(2, 3);
    let b = counting(3, 2);
    assert!(matches!(a.add(&b), Err(TensorError::ShapeMismatch { .. })));
}

#[test]
fn matrix_add_respects_transpose() {
    let mut a = counting(2, 3);
    a.transpose();
    let b = counting(3, 2);
    let c = a.add(&b).unwrap();
    // a transposed is [[0, 3], [1, 4], [2, 5]]; b is [[0, 1], [2, 3], [4, 5]]
    assert_eq!(c.to_flattened(), vec![0, 4, 3, 7, 6, 10]);
}

#[test]
fn matrix_scalar_ops() {
    let a = Matrix::new(Vec2(2, 3), (0..6).map(|i| i as f64).collect()).unwrap();
    let plus = a.add_scalar(1.0);
    assert_eq!(plus.get(Vec2(0, 0)), 1.0);
    let times = a.mul_scalar(2.0);
    assert_eq!(times.get(Vec2(0, 2)), 4.0);
    assert_eq!(a.get(Vec2(0, 2)), 2.0);
}

#[test]
fn matrix_mul_product() {
    let a = Matrix::new(Vec2(2, 3), (0..6).map(|i| i as f64).collect()).unwrap();
    let b = Matrix::new(Vec2(3, 2), (0..6).map(|i| i as f64).rev().collect()).unwrap();
    let c = a.mul(&b).unwrap();
    assert_eq!(c.len(), 4);
    // [[0,1,2],[3,4,5]] x [[5,4],[3,2],[1,0]]
    assert_eq!(c.to_flattened(), vec![5.0, 2.0, 32.0, 20.0]);
}

#[test]
fn matrix_mul_rejects_inner_mismatch() {
    let a = counting(2, 3);
    let b = counting(2, 3);
    assert!(matches!(a.mul(&b), Err(TensorError::ShapeMismatch { .. })));
}

#[test]
fn matrix_hadamard_product() {
    let a = Matrix::new(Vec2(2, 3), (0..6).map(|i| i as f64).collect()).unwrap();
    let b = Matrix::new(Vec2(2, 3), (0..6).map(|i| i as f64).rev().collect()).unwrap();
    let c = a.product(&b).unwrap();
    assert_eq!(c.get(Vec2(0, 2)), 6.0);
    assert_eq!(c.to_flattened(), vec![0.0, 4.0, 6.0, 6.0, 4.0, 0.0]);
    let other = Matrix::new(Vec2(3, 2), vec![0.0; 6]).unwrap();
    assert!(matches!(a.product(&other), Err(TensorError::ShapeMismatch { .. })));
}

#[test]
fn tensor_new_checks_dimensions() {
    let m = counting(2, 3);
    assert!(matches!(Tensor::new(Vec2(3, 2), m), Err(TensorError::ShapeMismatch { .. })));
    let t = Tensor::new(Vec2(2, 3), counting(2, 3)).unwrap();
    assert_eq!(t.to_flattened(), vec![0, 1, 2, 3, 4, 5]);
}

#[test]
fn tensor_from_vec_rejects_wrong_length() {
    assert!(matches!(Tensor::from_vec(Vec2(2, 2), vec![1i64, 2, 3]), Err(TensorError::ShapeMismatch { .. })));
}

#[test]
fn tensor_transpose_then_product() {
    let t = Tensor::from_vec(Vec2(2, 3), (0..6).collect::<Vec<i64>>()).unwrap();
    let t2 = t.transpose();
    let d = t2.dim();
    assert_eq!((d.0, d.1), (3, 2));
    let t3 = t.mul(&t2).unwrap();
    assert_eq!(t3.to_flattened(), vec![5, 14, 14, 50]);
    // a transposed tensor flattens in its own row order
    assert_eq!(t2.to_flattened(), vec![0, 3, 1, 4, 2, 5]);
}

#[test]
fn tensor_arithmetic() {
    let t1 = Tensor::from_vec(Vec2(2, 3), (0..6).map(|i| i as f64).collect()).unwrap();
    let t2 = Tensor::from_vec(Vec2(2, 3), (0..6).map(|i| i as f64).rev().collect()).unwrap();
    assert_eq!(t1.add(&t2).unwrap().to_flattened()[0], 5.0);
    assert_eq!(t1.add_scalar(1.0).to_flattened()[0], 1.0);
    assert_eq!(t1.mul_scalar(2.0).to_flattened()[2], 4.0);
    assert_eq!(t1.product(&t2).unwrap().to_flattened()[2], 6.0);
    let t3 = Tensor::from_vec(Vec2(3, 2), (0..6).map(|i| i as f64).rev().collect()).unwrap();
    let p = t1.mul(&t3).unwrap();
    assert_eq!(p.to_flattened(), vec![5.0, 2.0, 32.0, 20.0]);
    assert!(matches!(t1.mul(&t2), Err(TensorError::ShapeMismatch { .. })));
    assert!(matches!(t1.add(&t3), Err(TensorError::ShapeMismatch { .. })));
}

#[test]
fn softmax_round_picks_row_maximum() {
    let t = Tensor::from_vec(Vec2(3, 3), vec![0.1, 0.7, 0.2, 0.5, 0.2, 0.3, 0.3, 0.3, 0.4]).unwrap();
    let r = softmax_round(&t);
    let d = r.dim();
    assert_eq!((d.0, d.1), (3, 1));
    assert_eq!(r.to_flattened(), vec![1, 0, 2]);
}

#[test]
fn softmax_round_keeps_first_of_equal_values() {
    let t = Tensor::from_vec(Vec2(2, 3), vec![4i64, 9, 9, 7, 7, 1]).unwrap();
    assert_eq!(softmax_round(&t).to_flattened(), vec![1, 0]);
}
