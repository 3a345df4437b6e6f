use candle_core::Device;
use gpt_candle::tokenizer::{encode, encode_prompt};
use gpt_candle::tokens::{copy_tokens, TokenBatch};

fn two_rows() -> TokenBatch {
    TokenBatch { rows: vec![vec![1, 2, 3, 4], vec![5, 6, 7, 8]], len: 4 }
}

#[test]
fn a_window_is_the_end_of_every_sequence() {
    let window = two_rows().window(3);
    assert_eq!(window.rows, vec![vec![2, 3, 4], vec![6, 7, 8]]);
    assert_eq!(window.len, 3);
}

#[test]
fn a_wide_window_is_the_whole_sequence() {
    let window = two_rows().window(9);
    assert_eq!(window.rows, two_rows().rows);
    assert_eq!(window.len, 4);
    let exact = two_rows().window(4);
    assert_eq!(exact.rows, two_rows().rows);
}

#[test]
fn an_empty_window_keeps_the_sequences() {
    let window = two_rows().window(0);
    assert_eq!(window.rows, vec![Vec::<u32>::new(), Vec::new()]);
    assert_eq!(window.len, 0);
}

#[test]
fn append_adds_one_token_to_every_sequence() {
    let mut batch = two_rows();
    batch.append(vec![9, 10]);
    assert_eq!(batch.rows, vec![vec![1, 2, 3, 4, 9], vec![5, 6, 7, 8, 10]]);
    assert_eq!(batch.len, 5);
}

#[test]
fn a_batch_lies_in_its_tensor_row_by_row() {
    assert_eq!(two_rows().flatten(), vec![1, 2, 3, 4, 5, 6, 7, 8]);
    let tensor = two_rows().to_tensor(&Device::Cpu).unwrap();
    assert_eq!(tensor.dims(), &[2, 4]);
    assert_eq!(tensor.to_vec2::<u32>().unwrap(), two_rows().rows);
}

#[test]
fn a_single_sequence_is_a_batch() {
    let batch = TokenBatch::single(vec![3, 1]);
    assert_eq!(batch.rows, vec![vec![3, 1]]);
    assert_eq!(batch.len, 2);
}

#[test]
fn copies_are_of_the_range() {
    assert_eq!(copy_tokens(&[9, 8, 7, 6], 1, 3), vec![8, 7]);
    assert_eq!(copy_tokens(&[9, 8, 7, 6], 2, 2), Vec::<u32>::new());
}

#[test]
fn text_becomes_tokens() {
    assert_eq!(encode("Hello, I am").unwrap(), vec![15496, 11, 314, 716]);
    assert_eq!(encode("").unwrap(), Vec::<u32>::new());
}

#[test]
fn special_tokens_are_recognised() {
    assert_eq!(encode("<|endoftext|>").unwrap(), vec![50256]);
    assert_eq!(encode("Hello<|endoftext|>").unwrap(), vec![15496, 50256]);
}

#[test]
fn a_prompt_is_a_single_sequence() {
    let prompt = encode_prompt("Hello, I am").unwrap();
    assert_eq!(prompt.rows, vec![vec![15496, 11, 314, 716]]);
    assert_eq!(prompt.len, 4);
}
