use candle_core::{Device, Tensor};
use candle_nn::{AdamW, Dropout, Optimizer, ParamsAdamW, VarMap};
use gpt_candle::batches::{get_batch, num_train_batches};
use gpt_candle::error::GptError;
use gpt_candle::generate::{generate_text_simple, predict_next};
use gpt_candle::gpt::GPTModel;
use gpt_candle::scope::Scope;
use gpt_candle::tokens::TokenBatch;
use gpt_candle::training::{calc_loss_batch, loss_of_tokens, train_on_batch, train_step};

const CPU: Device = Device::Cpu;

fn set(vars: &mut VarMap, name: &str, data: Vec<f32>, dims: &[usize]) {
    let value = Tensor::from_vec(data, dims.to_vec(), &CPU).unwrap();
    vars.set_one(name, &value).unwrap();
}

/// A model over three tokens and a context of two positions, after each token it predicts the
/// next one.
fn counting_model() -> GPTModel {
    let mut vars = VarMap::new();
    let model = {
        let root = Scope::root(&vars, &CPU);
        GPTModel::new(3, 2, 3, 1, 0, &Dropout::new(0.1), &root).unwrap()
    };
    set(&mut vars, "tok_emb.weight", vec![1.0, 0.0, 0.0, 0.0, 1.0, 0.0, 0.0, 0.0, 1.0], &[3, 3]);
    set(&mut vars, "pos_enb.weight", vec![0.0; 6], &[2, 3]);
    set(&mut vars, "out_head.weight", vec![0.0, 0.0, 1.0, 1.0, 0.0, 0.0, 0.0, 1.0, 0.0], &[3, 3]);
    model
}

#[test]
fn generation_appends_predictions() {
    let model = counting_model();
    let out = generate_text_simple(&model, TokenBatch::single(vec![0]), 5, 2, &CPU).unwrap();
    assert_eq!(out.rows, vec![vec![0, 1, 2, 0, 1, 2]]);
    assert_eq!(out.len, 6);
}

#[test]
fn generation_keeps_the_prompt() {
    let model = counting_model();
    let prompt = TokenBatch { rows: vec![vec![2, 2, 2, 1], vec![0, 1, 1, 0]], len: 4 };
    let out = generate_text_simple(&model, prompt, 3, 2, &CPU).unwrap();
    assert_eq!(out.rows, vec![vec![2, 2, 2, 1, 2, 0, 1], vec![0, 1, 1, 0, 1, 2, 0]]);
    assert_eq!(out.len, 7);
}

#[test]
fn generation_of_nothing_is_the_prompt() {
    let model = counting_model();
    let out = generate_text_simple(&model, TokenBatch::single(vec![1, 2]), 0, 0, &CPU).unwrap();
    assert_eq!(out.rows, vec![vec![1, 2]]);
}

#[test]
fn generation_needs_a_position() {
    let model = counting_model();
    let empty = generate_text_simple(&model, TokenBatch::single(vec![]), 1, 2, &CPU);
    assert!(matches!(empty, Err(GptError::NoPosition)));
    let blind = generate_text_simple(&model, TokenBatch::single(vec![1]), 1, 0, &CPU);
    assert!(matches!(blind, Err(GptError::NoPosition)));
}

#[test]
fn generation_looks_at_the_last_tokens_only() {
    let model = counting_model();
    let long = TokenBatch::single(vec![0, 0, 0, 0, 2]);
    assert_eq!(predict_next(&model, &long, 2, &CPU).unwrap(), vec![0]);
    assert_eq!(predict_next(&model, &long, 1, &CPU).unwrap(), vec![0]);
    assert!(matches!(predict_next(&model, &long, 3, &CPU), Err(GptError::Candle(_))));
}

#[test]
fn predicted_tokens_are_of_the_vocabulary() {
    let vars = VarMap::new();
    let root = Scope::root(&vars, &CPU);
    let model = GPTModel::new(9, 4, 8, 2, 2, &Dropout::new(0.1), &root).unwrap();
    let prompt = TokenBatch { rows: vec![vec![1, 2], vec![3, 4], vec![5, 6]], len: 2 };
    let out = generate_text_simple(&model, prompt, 6, 4, &CPU).unwrap();
    assert_eq!(out.len, 8);
    for row in &out.rows {
        assert_eq!(row.len(), 8);
        assert!(row.iter().all(|&id| id < 9));
    }
    assert_eq!(out.rows[1][..2], [3, 4]);
}

#[test]
fn even_logits_lose_the_logarithm_of_the_vocabulary() {
    let mut vars = VarMap::new();
    let model = {
        let root = Scope::root(&vars, &CPU);
        GPTModel::new(3, 4, 4, 2, 1, &Dropout::new(0.1), &root).unwrap()
    };
    set(&mut vars, "out_head.weight", vec![0.0; 12], &[3, 4]);
    let tokens: Vec<u32> = vec![0, 1, 2, 0, 1, 2, 0, 1, 2];
    let (x, y) = get_batch(&tokens, 0, 2, 4, 4, &CPU).unwrap();
    let loss = calc_loss_batch(&x, &y, &model).unwrap();
    assert_eq!(loss.dims().len(), 0);
    assert!((loss.to_scalar::<f32>().unwrap() - 3.0f32.ln()).abs() < 1e-5);
}

#[test]
fn loss_is_the_mean_over_all_positions() {
    let model = counting_model();
    let x = Tensor::from_vec(vec![0u32, 1], (1, 2), &CPU).unwrap();
    let right = Tensor::from_vec(vec![1u32, 2], (1, 2), &CPU).unwrap();
    let half = Tensor::from_vec(vec![1u32, 0], (1, 2), &CPU).unwrap();
    let high = 2.0f32.sqrt();
    let low = -high / 2.0;
    let all = high.exp() + 2.0 * low.exp();
    let hit = -(high.exp() / all).ln();
    let miss = -(low.exp() / all).ln();
    let loss = calc_loss_batch(&x, &right, &model).unwrap().to_scalar::<f32>().unwrap();
    assert!((loss - hit).abs() < 1e-3);
    let loss = calc_loss_batch(&x, &half, &model).unwrap().to_scalar::<f32>().unwrap();
    assert!((loss - (hit + miss) / 2.0).abs() < 1e-3);
}

#[test]
fn loss_needs_a_target_for_every_position() {
    let model = counting_model();
    let x = Tensor::from_vec(vec![0u32, 1], (1, 2), &CPU).unwrap();
    let y = Tensor::from_vec(vec![0u32, 1, 2], (1, 3), &CPU).unwrap();
    assert!(matches!(calc_loss_batch(&x, &y, &model), Err(GptError::Candle(_))));
}

#[test]
fn training_lowers_the_loss() {
    let vars = VarMap::new();
    let root = Scope::root(&vars, &CPU);
    let model = GPTModel::new(5, 4, 8, 2, 1, &Dropout::new(0.0), &root).unwrap();
    let params = ParamsAdamW { lr: 0.01, ..Default::default() };
    let mut opt = AdamW::new(vars.all_vars(), params).unwrap();
    let tokens: Vec<u32> = vec![0, 1, 2, 3, 4, 0, 1, 2, 3, 4];
    let (x, y) = get_batch(&tokens, 0, 2, 4, 4, &CPU).unwrap();
    let before = calc_loss_batch(&x, &y, &model).unwrap().to_scalar::<f32>().unwrap();
    let (next, first) = train_step(&model, opt, &x, &y).unwrap();
    assert!((first.to_scalar::<f32>().unwrap() - before).abs() < 1e-5);
    opt = next;
    for _ in 0..60 {
        let (next, _) = train_step(&model, opt, &x, &y).unwrap();
        opt = next;
    }
    let after = calc_loss_batch(&x, &y, &model).unwrap().to_scalar::<f32>().unwrap();
    assert!(after < before / 2.0);
}

#[test]
fn a_step_moves_the_variables() {
    let vars = VarMap::new();
    let root = Scope::root(&vars, &CPU);
    let model = GPTModel::new(5, 4, 8, 2, 1, &Dropout::new(0.0), &root).unwrap();
    let opt = AdamW::new(vars.all_vars(), ParamsAdamW::default()).unwrap();
    let read = || {
        let data = vars.data().lock().unwrap();
        data["out_head.weight"].flatten_all().unwrap().to_vec1::<f32>().unwrap()
    };
    let before = read();
    let tokens: Vec<u32> = vec![0, 1, 2, 3, 4];
    let (x, y) = get_batch(&tokens, 0, 1, 4, 4, &CPU).unwrap();
    train_step(&model, opt, &x, &y).unwrap();
    assert_ne!(read(), before);
}

#[test]
fn an_epoch_goes_over_all_batches() {
    let vars = VarMap::new();
    let root = Scope::root(&vars, &CPU);
    let model = GPTModel::new(5, 4, 8, 2, 1, &Dropout::new(0.0), &root).unwrap();
    let params = ParamsAdamW { lr: 0.0, ..Default::default() };
    let mut opt = AdamW::new(vars.all_vars(), params).unwrap();
    let tokens: Vec<u32> = (0..30).map(|i| (i * i + i / 3) % 5).collect();
    let count = num_train_batches(tokens.len(), 4, 2, 4);
    assert_eq!(count, 3);
    for i in 0..count {
        let (x, y) = get_batch(&tokens, i, 2, 4, 4, &CPU).unwrap();
        let expected = calc_loss_batch(&x, &y, &model).unwrap().to_scalar::<f32>().unwrap();
        let (next, loss) = train_on_batch(&model, opt, &tokens, i, 2, 4, 4, &CPU).unwrap();
        assert!((loss.to_scalar::<f32>().unwrap() - expected).abs() < 1e-5);
        opt = next;
    }
}

#[test]
fn generation_goes_on() {
    let vars = VarMap::new();
    let root = Scope::root(&vars, &CPU);
    let model = GPTModel::new(9, 4, 8, 2, 1, &Dropout::new(0.1), &root).unwrap();
    let prompt = || TokenBatch { rows: vec![vec![1, 2], vec![8, 4]], len: 2 };
    let at_once = generate_text_simple(&model, prompt(), 7, 4, &CPU).unwrap();
    let middle = generate_text_simple(&model, prompt(), 3, 4, &CPU).unwrap();
    let in_two_goes = generate_text_simple(&model, middle, 4, 4, &CPU).unwrap();
    assert_eq!(at_once.rows, in_two_goes.rows);
}

#[test]
fn what_stands_before_the_window_does_not_matter() {
    let vars = VarMap::new();
    let root = Scope::root(&vars, &CPU);
    let model = GPTModel::new(9, 4, 8, 2, 1, &Dropout::new(0.1), &root).unwrap();
    let a = TokenBatch::single(vec![0, 0, 0, 5, 6, 7]);
    let b = TokenBatch::single(vec![8, 5, 6, 7]);
    let from_a = predict_next(&model, &a, 3, &CPU).unwrap();
    assert_eq!(from_a, predict_next(&model, &b, 3, &CPU).unwrap());
}

#[test]
fn generation_fails_exactly_where_the_window_exceeds_the_context() {
    for layers in 0..2 {
        let vars = VarMap::new();
        let root = Scope::root(&vars, &CPU);
        let model = GPTModel::new(9, 4, 8, 2, layers, &Dropout::new(0.1), &root).unwrap();
        for len in 1usize..7 {
            for count in 1usize..4 {
                for context_size in 1usize..8 {
                    let prompt = TokenBatch::single(vec![3; len]);
                    let r = generate_text_simple(&model, prompt, count, context_size, &CPU);
                    let window = (len + count - 1).min(context_size);
                    assert_eq!(r.is_ok(), window <= 4);
                }
            }
        }
    }
}

#[test]
fn tokens_and_their_tensors_have_the_same_loss() {
    let vars = VarMap::new();
    let root = Scope::root(&vars, &CPU);
    let model = GPTModel::new(5, 4, 4, 2, 2, &Dropout::new(0.5), &root).unwrap();
    let inputs = TokenBatch { rows: vec![vec![0, 1, 2], vec![3, 4, 0]], len: 3 };
    let targets = TokenBatch { rows: vec![vec![1, 2, 3], vec![4, 0, 1]], len: 3 };
    let x = inputs.to_tensor(&CPU).unwrap();
    let y = targets.to_tensor(&CPU).unwrap();
    let one = loss_of_tokens(&model, &inputs, &targets, &CPU).unwrap();
    let other = calc_loss_batch(&x, &y, &model).unwrap();
    assert_eq!(one.dims().len(), 0);
    let (one, other) = (one.to_scalar::<f32>().unwrap(), other.to_scalar::<f32>().unwrap());
    assert!((one - other).abs() < 1e-6);
    let shifted = TokenBatch { rows: vec![vec![0, 2, 3], vec![4, 0, 1]], len: 3 };
    let moved = loss_of_tokens(&model, &inputs, &shifted, &CPU).unwrap();
    assert!((moved.to_scalar::<f32>().unwrap() - one).abs() > 1e-6);
}

#[test]
fn the_loss_of_tokens_needs_known_tokens_and_as_many_targets() {
    let model = counting_model();
    let inputs = TokenBatch { rows: vec![vec![0, 1]], len: 2 };
    let unknown = TokenBatch { rows: vec![vec![1, 3]], len: 2 };
    let short = TokenBatch { rows: vec![vec![1]], len: 1 };
    let right = TokenBatch { rows: vec![vec![1, 2]], len: 2 };
    assert!(loss_of_tokens(&model, &inputs, &right, &CPU).is_ok());
    assert!(matches!(
        loss_of_tokens(&model, &inputs, &unknown, &CPU),
        Err(GptError::Candle(_))
    ));
    assert!(matches!(
        loss_of_tokens(&model, &unknown, &right, &CPU),
        Err(GptError::Candle(_))
    ));
    assert!(matches!(loss_of_tokens(&model, &inputs, &short, &CPU), Err(GptError::Candle(_))));
}
