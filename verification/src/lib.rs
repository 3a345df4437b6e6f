//! A small GPT: a dense row-major tensor, and a decoder-only transformer with its training
//! batches and its greedy text generation.

pub mod attention;
pub mod batches;
pub mod custom_tensor;
pub mod error;
pub mod feed_forward;
pub mod generate;
pub mod gpt;
pub mod names;
pub mod ops;
pub mod parameters;
pub mod scope;
pub mod shapes;
pub mod tokenizer;
pub mod tokens;
pub mod training;
pub mod transformer;
