use gpt_candle::custom_tensor::Tensor;

fn matrix(rows: usize, columns: usize, data: Vec<f32>) -> Tensor<f32> {
    Tensor::new(data, &[rows, columns])
}

#[test]
fn strides_are_row_major() {
    let tensor = Tensor::new(vec![0.0f32; 24], &[2, 3, 4]);
    assert_eq!(tensor.shape, vec![2, 3, 4]);
    assert_eq!(tensor.strides, vec![12, 4, 1]);
    assert_eq!(tensor.data.len(), 24);
}

#[test]
fn a_scalar_has_no_strides() {
    let tensor = Tensor::new(vec![7.0f32], &[]);
    assert_eq!(tensor.strides, Vec::<usize>::new());
    assert_eq!(tensor.get(&[]), 7.0);
}

#[test]
fn an_empty_dimension_makes_the_strides_before_it_zero() {
    let tensor: Tensor<f32> = Tensor::new(vec![], &[2, 0, 3]);
    assert_eq!(tensor.strides, vec![0, 3, 1]);
}

#[test]
fn every_cell_has_its_own_element() {
    let data: Vec<f32> = (0..24).map(|i| i as f32).collect();
    let tensor = Tensor::new(data, &[2, 3, 4]);
    let mut seen: Vec<f32> = Vec::new();
    for a in 0..2 {
        for b in 0..3 {
            for c in 0..4 {
                seen.push(tensor.get(&[a, b, c]));
            }
        }
    }
    let expected: Vec<f32> = (0..24).map(|i| i as f32).collect();
    assert_eq!(seen, expected);
    assert_eq!(tensor.get(&[1, 2, 3]), 23.0);
}

#[test]
fn fewer_targets_address_the_first_element_of_a_block() {
    let data: Vec<f32> = (0..24).map(|i| i as f32).collect();
    let tensor = Tensor::new(data, &[2, 3, 4]);
    assert_eq!(tensor.get(&[1]), 12.0);
    assert_eq!(tensor.get(&[1, 2]), 20.0);
}

#[test]
fn from_random_fills_every_cell_with_the_weight() {
    let tensor = Tensor::from_random(&[2, 3], 0.1f32);
    assert_eq!(tensor.data, vec![0.1f32; 6]);
    assert_eq!(tensor.shape, vec![2, 3]);
    assert_eq!(tensor.strides, vec![3, 1]);
}

#[test]
fn matmul2d_multiplies_rows_and_columns() {
    let a = matrix(2, 3, vec![1.0, 2.0, 3.0, 4.0, 5.0, 6.0]);
    let b = matrix(3, 2, vec![7.0, 8.0, 9.0, 10.0, 11.0, 12.0]);
    let product = a.matmul2d(&b);
    assert_eq!(product.shape, vec![2, 2]);
    assert_eq!(product.data, vec![58.0, 64.0, 139.0, 154.0]);
}

#[test]
fn matmul2d_over_an_empty_inner_dimension_is_zero() {
    let a = matrix(2, 0, vec![]);
    let b = matrix(0, 2, vec![]);
    assert_eq!(a.matmul2d(&b).data, vec![0.0f32; 4]);
}

#[test]
fn matmul2d_sums_from_the_front() {
    let a = matrix(1, 3, vec![1.0e8, 1.0, -1.0e8]);
    let b = matrix(3, 1, vec![1.0, 1.0, 1.0]);
    let expected = (0.0f32 + 1.0e8 + 1.0) - 1.0e8;
    assert_eq!(a.matmul2d(&b).data, vec![expected]);
}

#[test]
fn add_of_equal_shapes_adds_cell_by_cell() {
    let a = matrix(2, 2, vec![1.0, 2.0, 3.0, 4.0]);
    let b = matrix(2, 2, vec![10.0, 20.0, 30.0, 40.0]);
    let sum = a.add(&b).unwrap();
    assert_eq!(sum.data, vec![11.0, 22.0, 33.0, 44.0]);
    assert_eq!(sum.shape, vec![2, 2]);
}

#[test]
fn add_of_a_vector_adds_it_to_each_row() {
    let a = matrix(2, 3, vec![1.0, 2.0, 3.0, 4.0, 5.0, 6.0]);
    let b = Tensor::new(vec![10.0f32, 20.0, 30.0], &[3]);
    let sum = a.add(&b).unwrap();
    assert_eq!(sum.data, vec![11.0, 22.0, 33.0, 14.0, 25.0, 36.0]);
}

#[test]
fn add_of_other_shapes_is_refused() {
    let a = matrix(2, 3, vec![0.0; 6]);
    let b = matrix(3, 2, vec![0.0; 6]);
    assert!(a.add(&b).is_none());
    let vector = Tensor::new(vec![0.0f32; 3], &[3]);
    assert!(vector.add(&a).is_none());
}

#[test]
fn tranpose_leaves_the_tensor_as_it_is() {
    let mut a = matrix(2, 3, vec![1.0, 2.0, 3.0, 4.0, 5.0, 6.0]);
    a.tranpose();
    assert_eq!(a.shape, vec![2, 3]);
    assert_eq!(a.strides, vec![3, 1]);
    assert_eq!(a.data, vec![1.0, 2.0, 3.0, 4.0, 5.0, 6.0]);
}

#[test]
fn a_sum_ignores_the_order_of_its_terms() {
    let a = matrix(2, 2, vec![1.5, 2.0, -3.0, 4.0]);
    let b = matrix(2, 2, vec![10.0, 0.25, 30.0, 40.0]);
    assert_eq!(a.add(&b).unwrap().data, b.add(&a).unwrap().data);
}

#[test]
fn adding_a_vector_is_adding_the_matrix_of_its_copies() {
    let a = matrix(2, 3, vec![1.0, 2.0, 3.0, 4.0, 5.0, 6.0]);
    let vector = Tensor::new(vec![10.0f32, 20.0, 30.0], &[3]);
    let tiled = matrix(2, 3, vec![10.0, 20.0, 30.0, 10.0, 20.0, 30.0]);
    assert_eq!(a.add(&vector).unwrap().data, a.add(&tiled).unwrap().data);
}

#[test]
fn elements_behind_the_last_row_stay() {
    let a = matrix(1, 2, vec![1.0, 2.0, 7.0]);
    let vector = Tensor::new(vec![10.0f32, 20.0], &[2]);
    assert_eq!(a.add(&vector).unwrap().data, vec![11.0, 22.0, 7.0]);
}

#[test]
fn a_product_goes_column_by_column() {
    let a = matrix(2, 3, vec![1.0, 2.0, 3.0, 4.0, 5.0, 6.0]);
    let b = matrix(3, 2, vec![7.0, 8.0, 9.0, 10.0, 11.0, 12.0]);
    let column = matrix(3, 1, vec![8.0, 10.0, 12.0]);
    let product = a.matmul2d(&b);
    let second = a.matmul2d(&column);
    assert_eq!(second.shape, vec![2, 1]);
    assert_eq!(second.data, vec![product.get(&[0, 1]), product.get(&[1, 1])]);
}

#[test]
fn a_product_with_the_identity_is_the_matrix() {
    let a = Tensor::new(vec![3u64, 1, 4, 1, 5, 9], &[2, 3]);
    let identity = Tensor::new(vec![1u64, 0, 0, 0, 1, 0, 0, 0, 1], &[3, 3]);
    assert_eq!(a.matmul2d(&identity).data, a.data);
}
