use candle_core::{DType, Device};
use gpt_candle::batches::{
    batch_rows, get_batch, is_batch_in_range, num_train_batches, split_tokens,
};

#[test]
fn rows_start_a_stride_apart() {
    let tokens: Vec<u32> = (100..130).collect();
    let (inputs, targets) = batch_rows(&tokens, 1, 2, 3, 4);
    assert_eq!(inputs.rows, vec![vec![108, 109, 110], vec![112, 113, 114]]);
    assert_eq!(targets.rows, vec![vec![109, 110, 111], vec![113, 114, 115]]);
    assert_eq!(inputs.len, 3);
    assert_eq!(targets.len, 3);
}

#[test]
fn targets_are_the_inputs_one_token_later() {
    let tokens: Vec<u32> = vec![5, 3, 9, 1, 7, 2, 8, 6];
    let (inputs, targets) = batch_rows(&tokens, 0, 1, 7, 1);
    assert_eq!(inputs.rows[0], vec![5, 3, 9, 1, 7, 2, 8]);
    assert_eq!(targets.rows[0], vec![3, 9, 1, 7, 2, 8, 6]);
}

#[test]
fn rows_and_batches_continue_each_other() {
    let tokens: Vec<u32> = (0..40).collect();
    let (first_inputs, first_targets) = batch_rows(&tokens, 0, 2, 4, 4);
    let (second_inputs, _) = batch_rows(&tokens, 1, 2, 4, 4);
    assert_eq!(first_targets.rows[0][3], first_inputs.rows[1][0]);
    assert_eq!(first_targets.rows[1][3], second_inputs.rows[0][0]);
}

#[test]
fn get_batch_gives_both_tensors() {
    let tokens: Vec<u32> = (0..20).collect();
    let (x, y) = get_batch(&tokens, 1, 2, 3, 3, &Device::Cpu).unwrap();
    assert_eq!(x.dims(), &[2, 3]);
    assert_eq!(x.to_vec2::<u32>().unwrap(), vec![vec![6, 7, 8], vec![9, 10, 11]]);
    assert_eq!(y.to_vec2::<u32>().unwrap(), vec![vec![7, 8, 9], vec![10, 11, 12]]);
}

#[test]
fn an_empty_batch_has_its_shape() {
    let tokens: Vec<u32> = vec![1, 2, 3];
    let (x, y) = get_batch(&tokens, 5, 0, 4, 1, &Device::Cpu).unwrap();
    assert_eq!(x.dims(), &[0, 4]);
    assert_eq!(y.dims(), &[0, 4]);
}

#[test]
fn range_test_is_exact() {
    assert!(is_batch_in_range(9, 0, 2, 4, 4));
    assert!(!is_batch_in_range(8, 0, 2, 4, 4));
    assert!(is_batch_in_range(0, 7, 0, 4, 4));
    assert!(is_batch_in_range(1, 3, 1, 0, 0));
    assert!(!is_batch_in_range(0, 3, 1, 0, 0));
    assert!(!is_batch_in_range(usize::MAX, usize::MAX, 2, 1, 1));
    assert!(!is_batch_in_range(usize::MAX, 1, 2, usize::MAX, 1));
    assert!(!is_batch_in_range(usize::MAX, usize::MAX, 1, 1, 2));
}

#[test]
fn counted_batches_are_in_range() {
    for len in 4usize..60 {
        for batch_size in 1usize..4 {
            for stride in 1usize..6 {
                let count = num_train_batches(len, 4, batch_size, stride);
                for i in 0..count {
                    assert!(is_batch_in_range(len, i, batch_size, 4, stride));
                }
            }
        }
    }
    assert_eq!(num_train_batches(1000, 256, 2, 256), 1);
    assert_eq!(num_train_batches(256, 256, 2, 256), 0);
    assert_eq!(num_train_batches(4768, 256, 2, 256), 8);
}

#[test]
fn rows_do_not_overlap() {
    let tokens: Vec<u32> = (0..60).collect();
    let mut seen: Vec<u32> = Vec::new();
    for i in 0..num_train_batches(60, 4, 3, 5) {
        let (inputs, _) = batch_rows(&tokens, i, 3, 4, 5);
        for row in inputs.rows {
            seen.extend(row);
        }
    }
    let mut distinct = seen.clone();
    distinct.sort();
    distinct.dedup();
    assert_eq!(seen.len(), 36);
    assert_eq!(distinct.len(), seen.len());
}

#[test]
fn splitting_loses_nothing() {
    let tokens: Vec<u32> = vec![4, 5, 6, 7, 8];
    let (train, validation) = split_tokens(&tokens, 3);
    assert_eq!(train, &[4, 5, 6]);
    assert_eq!(validation, &[7, 8]);
    let (all, none) = split_tokens(&tokens, 5);
    assert_eq!(all, &tokens[..]);
    assert!(none.is_empty());
}

#[test]
fn batches_hold_unsigned_integers() {
    let tokens: Vec<u32> = (10..20).collect();
    let (x, y) = get_batch(&tokens, 1, 2, 3, 2, &Device::Cpu).unwrap();
    assert_eq!(x.dtype(), DType::U32);
    assert_eq!(y.dtype(), DType::U32);
    assert_eq!(x.to_vec2::<u32>().unwrap(), vec![vec![14, 15, 16], vec![16, 17, 18]]);
    assert_eq!(y.to_vec2::<u32>().unwrap(), vec![vec![15, 16, 17], vec![17, 18, 19]]);
}

#[test]
fn rows_are_numbered_over_all_batches() {
    let tokens: Vec<u32> = (0..50).map(|i| i * 7 % 50).collect();
    let (inputs, targets) = batch_rows(&tokens, 2, 3, 4, 5);
    for b in 0..3 {
        let (input, target) = batch_rows(&tokens, 2 * 3 + b, 1, 4, 5);
        assert_eq!(input.rows[0], inputs.rows[b]);
        assert_eq!(target.rows[0], targets.rows[b]);
    }
}

#[test]
fn batches_tile_the_stream() {
    let tokens: Vec<u32> = (0..50).map(|i| i * 7 % 50).collect();
    let mut inputs: Vec<u32> = Vec::new();
    let mut targets: Vec<u32> = Vec::new();
    for i in 0..4 {
        let (x, y) = batch_rows(&tokens, i, 3, 4, 4);
        inputs.extend(x.flatten());
        targets.extend(y.flatten());
    }
    assert_eq!(inputs, tokens[..48].to_vec());
    assert_eq!(targets, tokens[1..49].to_vec());
}
