use candle_core::{DType, Device, Tensor, Var};
use candle_nn::{Dropout, VarMap};
use gpt_candle::attention::MultiHeadAttention;
use gpt_candle::error::GptError;
use gpt_candle::feed_forward::FeedForward;
use gpt_candle::gpt::GPTModel;
use gpt_candle::ops;
use gpt_candle::scope::Scope;
use gpt_candle::shapes::is_addressable;
use gpt_candle::tokens::TokenBatch;
use gpt_candle::transformer::TransfomerBlock;

const CPU: Device = Device::Cpu;

fn set(vars: &mut VarMap, name: &str, data: Vec<f32>, dims: &[usize]) {
    let value = Tensor::from_vec(data, dims.to_vec(), &CPU).unwrap();
    vars.set_one(name, &value).unwrap();
}

fn identity(n: usize) -> Vec<f32> {
    let mut data = vec![0.0; n * n];
    for i in 0..n {
        data[i * n + i] = 1.0;
    }
    data
}

fn close(a: &[f32], b: &[f32]) {
    assert_eq!(a.len(), b.len());
    for i in 0..a.len() {
        assert!((a[i] - b[i]).abs() < 1e-4, "{} is not {}", a[i], b[i]);
    }
}

fn numbers(t: &Tensor) -> Vec<f32> {
    t.flatten_all().unwrap().to_vec1::<f32>().unwrap()
}

fn ids(data: Vec<u32>, rows: usize, columns: usize) -> Tensor {
    Tensor::from_vec(data, (rows, columns), &CPU).unwrap()
}

#[test]
fn feed_forward_activates_between_its_layers() {
    let mut vars = VarMap::new();
    let ff = FeedForward::new(1, &Scope::root(&vars, &CPU).pp("ff")).unwrap();
    assert_eq!(ff.emb_dim, 1);
    set(&mut vars, "ff.linear1.weight", vec![1.0, -1.0, 2.0, 0.0], &[4, 1]);
    set(&mut vars, "ff.linear1.bias", vec![0.0, 0.0, 0.0, 1.0], &[4]);
    set(&mut vars, "ff.linear2.weight", vec![1.0, 10.0, 100.0, 1000.0], &[1, 4]);
    set(&mut vars, "ff.linear2.bias", vec![0.5], &[1]);
    let x = Tensor::from_vec(vec![1.0f32, 0.0], (2, 1), &CPU).unwrap();
    let y = ff.forward(&x).unwrap();
    assert_eq!(y.dims(), &[2, 1]);
    let gelu = |v: f32| {
        let t = Tensor::from_vec(vec![v], 1, &CPU).unwrap();
        t.gelu().unwrap().to_vec1::<f32>().unwrap()[0]
    };
    let first = gelu(1.0) + 10.0 * gelu(-1.0) + 100.0 * gelu(2.0) + 1000.0 * gelu(1.0) + 0.5;
    let second = 1000.0 * gelu(1.0) + 0.5;
    let out = numbers(&y);
    assert!((out[0] - first).abs() < 1e-2);
    assert!((out[1] - second).abs() < 1e-2);
    assert!((gelu(1.0) - 0.8412).abs() < 1e-3);
}

#[test]
fn feed_forward_refuses_integers() {
    let vars = VarMap::new();
    let ff = FeedForward::new(2, &Scope::root(&vars, &CPU)).unwrap();
    assert!(matches!(ff.forward(&ids(vec![1, 2], 1, 2)), Err(GptError::NotFloat)));
}

#[test]
fn feed_forward_refuses_another_width() {
    let vars = VarMap::new();
    let ff = FeedForward::new(2, &Scope::root(&vars, &CPU)).unwrap();
    let x = Tensor::zeros((1, 3), DType::F32, &CPU).unwrap();
    assert!(matches!(ff.forward(&x), Err(GptError::Candle(_))));
}

#[test]
fn layers_that_are_too_large_are_refused() {
    let vars = VarMap::new();
    let root = Scope::root(&vars, &CPU);
    assert!(matches!(FeedForward::new(usize::MAX, &root), Err(GptError::TooLarge)));
    assert!(matches!(FeedForward::new(1 << 40, &root), Err(GptError::TooLarge)));
    let dropout = Dropout::new(0.0);
    let attention = MultiHeadAttention::new(2, 2, 1 << 40, &dropout, 1, &root);
    assert!(matches!(attention, Err(GptError::TooLarge)));
    let model = GPTModel::new(1 << 60, 4, 2, 1, 0, &dropout, &root);
    assert!(matches!(model, Err(GptError::TooLarge)));
}

#[test]
fn a_variable_of_another_shape_is_refused() {
    let vars = VarMap::new();
    let root = Scope::root(&vars, &CPU);
    FeedForward::new(2, &root).unwrap();
    assert!(matches!(FeedForward::new(3, &root), Err(GptError::Candle(_))));
}

#[test]
fn layers_of_one_scope_share_their_variables() {
    let mut vars = VarMap::new();
    let one = FeedForward::new(1, &Scope::root(&vars, &CPU)).unwrap();
    let other = FeedForward::new(1, &Scope::root(&vars, &CPU)).unwrap();
    set(&mut vars, "linear2.bias", vec![3.0], &[1]);
    set(&mut vars, "linear2.weight", vec![0.0; 4], &[1, 4]);
    let x = Tensor::ones((1, 1), DType::F32, &CPU).unwrap();
    assert_eq!(numbers(&one.forward(&x).unwrap()), vec![3.0]);
    assert_eq!(numbers(&other.forward(&x).unwrap()), vec![3.0]);
}

#[test]
fn the_mask_is_a_lower_triangle() {
    let vars = VarMap::new();
    let root = Scope::root(&vars, &CPU);
    let att = MultiHeadAttention::new(2, 2, 3, &Dropout::new(0.0), 1, &root).unwrap();
    let mask = att.mask.to_vec2::<u8>().unwrap();
    assert_eq!(mask, vec![vec![1, 0, 0], vec![1, 1, 0], vec![1, 1, 1]]);
}

#[test]
fn attention_without_scores_averages_what_it_sees() {
    let mut vars = VarMap::new();
    let att = MultiHeadAttention::new(
        2,
        2,
        4,
        &Dropout::new(0.5),
        1,
        &Scope::root(&vars, &CPU),
    )
    .unwrap();
    set(&mut vars, "wq.weight", vec![0.0; 4], &[2, 2]);
    set(&mut vars, "wk.weight", vec![0.0; 4], &[2, 2]);
    set(&mut vars, "wv.weight", identity(2), &[2, 2]);
    set(&mut vars, "out_proj.weight", identity(2), &[2, 2]);
    set(&mut vars, "out_proj.bias", vec![0.0, 100.0], &[2]);
    let data = vec![2.0f32, 1.0, 4.0, 3.0, 9.0, 8.0];
    let x = Tensor::from_vec(data, (1, 3, 2), &CPU).unwrap();
    let y = att.forward_t(&x, false).unwrap();
    assert_eq!(y.dims(), &[1, 3, 2]);
    close(&numbers(&y), &[2.0, 101.0, 3.0, 102.0, 5.0, 104.0]);
}

#[test]
fn attention_weighs_by_scaled_scores_in_each_head() {
    let mut vars = VarMap::new();
    let att = MultiHeadAttention::new(
        4,
        4,
        2,
        &Dropout::new(0.0),
        2,
        &Scope::root(&vars, &CPU).pp("att"),
    )
    .unwrap();
    for name in ["wq", "wk", "wv", "out_proj"] {
        set(&mut vars, &format!("att.{}.weight", name), identity(4), &[4, 4]);
    }
    set(&mut vars, "att.out_proj.bias", vec![0.0; 4], &[4]);
    let a = [1.0f32, 2.0, 0.5, -1.0];
    let b = [0.5f32, 1.0, 2.0, 1.0];
    let mut data = a.to_vec();
    data.extend(b);
    let x = Tensor::from_vec(data, (1, 2, 4), &CPU).unwrap();
    let y = numbers(&att.forward_t(&x, false).unwrap());
    let mut expected = a.to_vec();
    for head in 0..2 {
        let (i, j) = (2 * head, 2 * head + 1);
        let to_a = (b[i] * a[i] + b[j] * a[j]) / 2.0f32.sqrt();
        let to_b = (b[i] * b[i] + b[j] * b[j]) / 2.0f32.sqrt();
        let weight = to_a.exp() / (to_a.exp() + to_b.exp());
        expected.push(weight * a[i] + (1.0 - weight) * b[i]);
        expected.push(weight * a[j] + (1.0 - weight) * b[j]);
    }
    close(&y, &expected);
}

#[test]
fn attention_does_not_look_ahead() {
    let vars = VarMap::new();
    let root = Scope::root(&vars, &CPU);
    let att = MultiHeadAttention::new(4, 4, 3, &Dropout::new(0.0), 2, &root).unwrap();
    let x = Tensor::randn(0f32, 1.0, (1, 3, 4), &CPU).unwrap();
    let mut changed = numbers(&x);
    for k in 8..12 {
        changed[k] += 5.0;
    }
    let z = Tensor::from_vec(changed, (1, 3, 4), &CPU).unwrap();
    let one = numbers(&att.forward_t(&x, false).unwrap());
    let other = numbers(&att.forward_t(&z, false).unwrap());
    close(&one[..8], &other[..8]);
}

#[test]
fn attention_refuses_what_does_not_fit() {
    let vars = VarMap::new();
    let root = Scope::root(&vars, &CPU);
    let att = MultiHeadAttention::new(4, 4, 2, &Dropout::new(0.0), 2, &root).unwrap();
    let flat = Tensor::zeros((2, 4), DType::F32, &CPU).unwrap();
    assert!(matches!(att.forward_t(&flat, false), Err(GptError::Candle(_))));
    let long = Tensor::zeros((1, 3, 4), DType::F32, &CPU).unwrap();
    assert!(matches!(att.forward_t(&long, false), Err(GptError::Candle(_))));
    let integers = Tensor::zeros((1, 2, 4), DType::U32, &CPU).unwrap();
    assert!(matches!(att.forward_t(&integers, false), Err(GptError::NotFloat)));
    let odd_root = root.pp("odd");
    let odd = MultiHeadAttention::new(4, 4, 2, &Dropout::new(0.0), 3, &odd_root).unwrap();
    let x = Tensor::zeros((1, 2, 4), DType::F32, &CPU).unwrap();
    assert!(matches!(odd.forward_t(&x, false), Err(GptError::Candle(_))));
}

#[test]
fn a_block_with_silent_layers_is_its_shortcut() {
    let mut vars = VarMap::new();
    let block =
        TransfomerBlock::new(4, 3, 2, &Dropout::new(0.3), &Scope::root(&vars, &CPU)).unwrap();
    set(&mut vars, "out_proj.weight", vec![0.0; 16], &[4, 4]);
    set(&mut vars, "out_proj.bias", vec![0.0; 4], &[4]);
    set(&mut vars, "ff.linear2.weight", vec![0.0; 64], &[4, 16]);
    set(&mut vars, "ff.linear2.bias", vec![0.0; 4], &[4]);
    let x = Tensor::randn(0f32, 1.0, (2, 3, 4), &CPU).unwrap();
    let y = block.forward_t(&x, false).unwrap();
    assert_eq!(y.dims(), &[2, 3, 4]);
    assert_eq!(numbers(&y), numbers(&x));
    set(&mut vars, "ff.linear2.bias", vec![1.0, 2.0, 3.0, 4.0], &[4]);
    let y = numbers(&block.forward_t(&x, false).unwrap());
    let x = numbers(&x);
    for k in 0..x.len() {
        assert!((y[k] - x[k] - (k % 4 + 1) as f32).abs() < 1e-5);
    }
}

#[test]
fn a_block_normalises_before_its_layers() {
    let mut vars = VarMap::new();
    let block =
        TransfomerBlock::new(2, 2, 1, &Dropout::new(0.0), &Scope::root(&vars, &CPU)).unwrap();
    set(&mut vars, "wv.weight", identity(2), &[2, 2]);
    set(&mut vars, "out_proj.weight", identity(2), &[2, 2]);
    set(&mut vars, "out_proj.bias", vec![0.0; 2], &[2]);
    set(&mut vars, "ff.linear2.weight", vec![0.0; 16], &[2, 8]);
    set(&mut vars, "ff.linear2.bias", vec![0.0; 2], &[2]);
    let x = Tensor::from_vec(vec![3.0f32, 7.0], (1, 1, 2), &CPU).unwrap();
    let y = numbers(&block.forward_t(&x, false).unwrap());
    close(&y, &[2.0, 8.0]);
}

#[test]
fn normalising_no_features_is_refused() {
    let vars = VarMap::new();
    let root = Scope::root(&vars, &CPU);
    let norm = root.pp("norm").layer_norm(3).unwrap();
    let x = Tensor::zeros((2, 0), DType::F32, &CPU).unwrap();
    assert!(matches!(ops::normalize(&norm, 3, &x), Err(GptError::NoFeatures)));
}

#[test]
fn dropout_outside_of_training_does_nothing() {
    let dropout = Dropout::new(0.5);
    let x = Tensor::ones((20, 20), DType::F32, &CPU).unwrap();
    assert_eq!(numbers(&ops::drop_out(&dropout, &x, false).unwrap()), numbers(&x));
    let kept = numbers(&ops::drop_out(&dropout, &x, true).unwrap());
    assert!(kept.iter().all(|&v| v == 0.0 || v == 2.0));
    assert!(kept.contains(&0.0) && kept.contains(&2.0));
    let integers = ids(vec![1, 2], 1, 2);
    assert!(matches!(ops::drop_out(&dropout, &integers, true), Err(GptError::NotFloat)));
    assert!(ops::drop_out(&dropout, &integers, false).is_ok());
}

#[test]
fn minus_infinity_is_below_all_numbers() {
    let like = Tensor::zeros(1, DType::F32, &CPU).unwrap();
    let y = ops::minus_infinity(&like).unwrap();
    assert_eq!(y.to_scalar::<f32>().unwrap(), f32::NEG_INFINITY);
}

#[test]
fn scaling_divides_by_the_root() {
    let x = Tensor::from_vec(vec![8.0f32, -2.0], 2, &CPU).unwrap();
    assert_eq!(numbers(&ops::divide_by_root(&x, 16).unwrap()), vec![2.0, -0.5]);
    let by_seven = (&x / (7.0f64).sqrt()).unwrap();
    assert_eq!(numbers(&ops::divide_by_root(&x, 7).unwrap()), numbers(&by_seven));
    assert!(matches!(ops::divide_by_root(&x, usize::MAX), Err(GptError::TooLarge)));
}

#[test]
fn the_model_gives_logits_for_every_position() {
    let vars = VarMap::new();
    let root = Scope::root(&vars, &CPU);
    let model = GPTModel::new(11, 6, 8, 2, 2, &Dropout::new(0.1), &root).unwrap();
    let x = ids(vec![0, 1, 2, 3, 4, 5, 6, 7, 8, 9], 2, 5);
    for train in [false, true] {
        let logits = model.forward_t(&x, train).unwrap();
        assert_eq!(logits.dims(), &[2, 5, 11]);
    }
    let again = model.forward_t(&x, false).unwrap();
    assert_eq!(numbers(&again), numbers(&model.forward_t(&x, false).unwrap()));
}

#[test]
fn the_model_adds_token_and_position_embeddings() {
    let mut vars = VarMap::new();
    let model = {
        let root = Scope::root(&vars, &CPU);
        GPTModel::new(3, 2, 2, 1, 0, &Dropout::new(0.1), &root).unwrap()
    };
    set(&mut vars, "tok_emb.weight", vec![1.0, 0.0, 0.0, 0.0, 5.0, 1.0], &[3, 2]);
    set(&mut vars, "pos_enb.weight", vec![0.0, 3.0, 2.0, 0.0], &[2, 2]);
    set(&mut vars, "out_head.weight", vec![1.0, 0.0, 0.0, 1.0, 1.0, 2.0], &[3, 2]);
    let logits = numbers(&model.forward_t(&ids(vec![0, 1], 1, 2), false).unwrap());
    close(&logits, &[-1.0, 1.0, 1.0, 1.0, -1.0, -1.0]);
}

#[test]
fn the_model_refuses_what_does_not_fit() {
    let vars = VarMap::new();
    let root = Scope::root(&vars, &CPU);
    let model = GPTModel::new(5, 2, 4, 2, 1, &Dropout::new(0.0), &root).unwrap();
    let long = ids(vec![0, 1, 2], 1, 3);
    assert!(matches!(model.forward_t(&long, false), Err(GptError::Candle(_))));
    let unknown = ids(vec![7, 0], 1, 2);
    assert!(matches!(model.forward_t(&unknown, false), Err(GptError::Candle(_))));
    let flat = Tensor::zeros(3, DType::U32, &CPU).unwrap();
    assert!(matches!(model.forward_t(&flat, false), Err(GptError::Candle(_))));
}

#[test]
fn tensors_that_are_too_large_are_refused() {
    let vars = VarMap::new();
    let ff = FeedForward::new(2, &Scope::root(&vars, &CPU)).unwrap();
    let one = Tensor::zeros(1, DType::F32, &CPU).unwrap();
    let huge = one.broadcast_as((1usize << 40, 1usize << 30)).unwrap();
    assert!(matches!(ff.forward(&huge), Err(GptError::TooLarge)));
    assert!(matches!(ops::softmax(&huge), Err(GptError::TooLarge)));
    assert!(matches!(ops::row_major(&huge), Err(GptError::TooLarge)));
    assert!(matches!(ops::plus(&one, &huge), Err(GptError::TooLarge)));
}

#[test]
fn embeddings_of_integers_are_refused() {
    let vars = VarMap::new();
    let table = Tensor::zeros((5, 4), DType::U32, &CPU).unwrap();
    let var = Var::from_tensor(&table).unwrap();
    vars.data().lock().unwrap().insert("tok_emb.weight".to_string(), var);
    let root = Scope::root(&vars, &CPU);
    let model = GPTModel::new(5, 2, 4, 2, 1, &Dropout::new(0.0), &root).unwrap();
    let x = ids(vec![0, 1], 1, 2);
    assert!(matches!(model.forward_t(&x, false), Err(GptError::NotFloat)));
}

#[test]
fn addressable_shapes_fit_an_allocation() {
    assert!(is_addressable(&[]));
    assert!(is_addressable(&[1 << 30, 1 << 29]));
    assert!(!is_addressable(&[1 << 30, 1 << 30]));
    assert!(!is_addressable(&[0, usize::MAX, usize::MAX]));
    assert!(is_addressable(&[0, 0, 7]));
}

#[test]
fn operations_move_elements_as_they_say() {
    let x = Tensor::from_vec(vec![1.0f32, 2.0, 3.0, 4.0, 5.0, 6.0], (2, 3), &CPU).unwrap();
    let turned = ops::transpose(&x, 0, 1).unwrap();
    assert_eq!(turned.dims(), &[3, 2]);
    let dense = ops::row_major(&turned).unwrap();
    assert_eq!(numbers(&dense), vec![1.0, 4.0, 2.0, 5.0, 3.0, 6.0]);
    let column = ops::reshape(&x, vec![6, 1]).unwrap();
    assert_eq!(column.dims(), &[6, 1]);
    assert!(matches!(ops::reshape(&x, vec![4]), Err(GptError::Candle(_))));
    assert!(matches!(ops::transpose(&x, 0, 2), Err(GptError::Candle(_))));
    let wide = ops::expand(&x, vec![2, 2, 3]).unwrap();
    assert_eq!(wide.dims(), &[2, 2, 3]);
    assert!(matches!(ops::expand(&x, vec![2, 4]), Err(GptError::Candle(_))));
    let corner = ops::top_left(&x, 2).unwrap();
    assert_eq!(corner.to_vec2::<f32>().unwrap(), vec![vec![1.0, 2.0], vec![4.0, 5.0]]);
    assert!(matches!(ops::top_left(&x, 3), Err(GptError::Candle(_))));
    let merged = ops::merge_leading(&wide).unwrap();
    assert_eq!(merged.dims(), &[4, 3]);
    let flat = ops::flatten(&turned).unwrap();
    assert_eq!(flat.to_vec1::<f32>().unwrap(), vec![1.0, 4.0, 2.0, 5.0, 3.0, 6.0]);
    assert_eq!(ops::argmax(&x).unwrap(), vec![2, 2]);
    let middle = ops::select_position(&wide, 1).unwrap();
    assert_eq!(middle.to_vec2::<f32>().unwrap(), vec![vec![4.0, 5.0, 6.0], vec![4.0, 5.0, 6.0]]);
}

fn stored(vars: &VarMap, name: &str, value: &Tensor) {
    let var = Var::from_tensor(value).unwrap();
    vars.data().lock().unwrap().insert(name.to_string(), var);
}

#[test]
fn usable_tensors_are_filled_dense_and_of_single_precision() {
    let x = Tensor::zeros((2, 3), DType::F32, &CPU).unwrap();
    assert!(ops::is_usable(&x));
    assert!(!ops::is_usable(&x.t().unwrap()));
    assert!(ops::is_usable(&x.t().unwrap().contiguous().unwrap()));
    assert!(!ops::is_usable(&x.narrow(1, 0, 2).unwrap()));
    assert!(!ops::is_usable(&Tensor::zeros((2, 0), DType::F32, &CPU).unwrap()));
    for other in [DType::F64, DType::F16, DType::BF16, DType::U8, DType::U32, DType::I64] {
        assert!(!ops::is_usable(&Tensor::zeros((2, 3), other, &CPU).unwrap()));
    }
    let one = Tensor::zeros((1, 1), DType::F32, &CPU).unwrap();
    assert!(!ops::is_usable(&one.broadcast_as((1usize << 40, 1usize << 40)).unwrap()));
    assert!(ops::is_usable(&Tensor::zeros((), DType::F32, &CPU).unwrap()));
}

#[test]
fn every_kind_of_float_is_told_from_integers() {
    let dropout = Dropout::new(0.5);
    for float in [DType::F32, DType::F64, DType::F16, DType::BF16] {
        let x = Tensor::zeros((2, 3), float, &CPU).unwrap();
        assert!(ops::check_computable(&x).is_ok());
    }
    for integer in [DType::U8, DType::U32, DType::I16, DType::I32, DType::I64] {
        let x = Tensor::zeros((2, 3), integer, &CPU).unwrap();
        assert!(matches!(ops::check_computable(&x), Err(GptError::NotFloat)));
        assert!(matches!(ops::drop_out(&dropout, &x, true), Err(GptError::NotFloat)));
    }
}

#[test]
fn fresh_layers_are_ready() {
    let vars = VarMap::new();
    let root = Scope::root(&vars, &CPU);
    let model = GPTModel::new(5, 3, 4, 2, 2, &Dropout::new(0.1), &root).unwrap();
    assert!(model.is_ready());
    assert!(model.tranformers[1].is_ready());
    assert!(model.tranformers[0].att.is_ready());
    assert!(model.tranformers[0].ff.is_ready());
}

#[test]
fn each_layer_that_is_not_ready_is_noticed() {
    for name in [
        "tok_emb.weight",
        "pos_enb.weight",
        "final_norm.weight",
        "final_norm.bias",
        "out_head.weight",
        "transformer 0.norm1.weight",
        "transformer 0.norm1.bias",
        "transformer 0.norm2.weight",
        "transformer 0.wq.weight",
        "transformer 0.wk.weight",
        "transformer 0.wv.weight",
        "transformer 0.out_proj.weight",
        "transformer 0.out_proj.bias",
        "transformer 0.ff.linear1.weight",
        "transformer 0.ff.linear1.bias",
        "transformer 0.ff.linear2.weight",
        "transformer 0.ff.linear2.bias",
    ] {
        let shapes = VarMap::new();
        let root = Scope::root(&shapes, &CPU);
        GPTModel::new(5, 3, 4, 2, 1, &Dropout::new(0.1), &root).unwrap();
        let dims = shapes.data().lock().unwrap()[name].dims().to_vec();
        let vars = VarMap::new();
        stored(&vars, name, &Tensor::zeros(dims, DType::F64, &CPU).unwrap());
        let root = Scope::root(&vars, &CPU);
        let model = GPTModel::new(5, 3, 4, 2, 1, &Dropout::new(0.1), &root).unwrap();
        assert!(!model.is_ready(), "{} is not noticed", name);
    }
}

#[test]
fn ready_layers_succeed_on_fitting_inputs() {
    let vars = VarMap::new();
    let root = Scope::root(&vars, &CPU);
    let dropout = Dropout::new(0.5);
    let ff = FeedForward::new(3, &root.pp("ff")).unwrap();
    for dims in [vec![2, 3], vec![2, 2, 3], vec![1, 2, 2, 3]] {
        let x = Tensor::randn(0f32, 1.0, dims.clone(), &CPU).unwrap();
        assert_eq!(ff.forward(&x).unwrap().dims(), &dims[..]);
    }
    let att = MultiHeadAttention::new(3, 4, 5, &dropout, 2, &root.pp("att")).unwrap();
    let block = TransfomerBlock::new(4, 5, 2, &dropout, &root.pp("block")).unwrap();
    for n in 1..6 {
        for b in 1..3 {
            let x = Tensor::randn(0f32, 1.0, (b, n, 3), &CPU).unwrap();
            assert_eq!(att.forward_t(&x, false).unwrap().dims(), &[b, n, 4]);
            let x = Tensor::randn(0f32, 1.0, (b, n, 4), &CPU).unwrap();
            assert_eq!(block.forward_t(&x, false).unwrap().dims(), &[b, n, 4]);
        }
    }
}

#[test]
fn tokens_and_their_tensor_give_the_same_logits() {
    let vars = VarMap::new();
    let root = Scope::root(&vars, &CPU);
    let model = GPTModel::new(11, 6, 8, 2, 2, &Dropout::new(0.1), &root).unwrap();
    let batch = TokenBatch { rows: vec![vec![1, 2, 3], vec![10, 0, 7]], len: 3 };
    let from_rows = model.forward_tokens(&batch, false, &CPU).unwrap();
    let from_tensor = model.forward_t(&batch.to_tensor(&CPU).unwrap(), false).unwrap();
    assert_eq!(from_rows.dims(), &[2, 3, 11]);
    assert_eq!(numbers(&from_rows), numbers(&from_tensor));
}

#[test]
fn the_model_fails_exactly_on_unknown_tokens_and_positions() {
    for layers in 0..3 {
        let vars = VarMap::new();
        let root = Scope::root(&vars, &CPU);
        let model = GPTModel::new(5, 3, 4, 2, layers, &Dropout::new(0.1), &root).unwrap();
        for len in 1usize..6 {
            for id in [0u32, 4, 5, 77] {
                let batch = TokenBatch { rows: vec![vec![id; len]], len };
                let r = model.forward_tokens(&batch, false, &CPU);
                assert_eq!(r.is_ok(), len <= 3 && id < 5);
            }
        }
    }
}

#[test]
fn tokens_whose_embeddings_are_too_large_are_refused() {
    let vars = VarMap::new();
    let root = Scope::root(&vars, &CPU);
    let model = GPTModel::new(5, 3, 4, 2, 1, &Dropout::new(0.1), &root).unwrap();
    let one = Tensor::zeros((1, 1), DType::U32, &CPU).unwrap();
    let huge = one.broadcast_as((1usize << 40, 1usize << 30)).unwrap();
    assert!(matches!(model.forward_t(&huge, false), Err(GptError::TooLarge)));
    let wide = one.broadcast_as((1usize << 30, 1usize << 29)).unwrap();
    assert!(matches!(model.forward_t(&wide, false), Err(GptError::TooLarge)));
}

#[test]
fn dropout_does_not_matter_outside_of_training() {
    let vars = VarMap::new();
    let root = Scope::root(&vars, &CPU);
    let one = GPTModel::new(5, 3, 4, 2, 2, &Dropout::new(0.1), &root).unwrap();
    let other = GPTModel::new(5, 3, 4, 2, 2, &Dropout::new(0.9), &root).unwrap();
    let x = ids(vec![0, 1, 2, 3, 4, 0], 2, 3);
    let a = one.forward_t(&x, false).unwrap();
    let b = other.forward_t(&x, false).unwrap();
    assert_eq!(numbers(&a), numbers(&b));
}

#[test]
fn lookups_give_rows_of_the_table() {
    let mut vars = VarMap::new();
    let table = Scope::root(&vars, &CPU).pp("table").embedding(3, 2).unwrap();
    set(&mut vars, "table.weight", vec![1.0, 2.0, 3.0, 4.0, 5.0, 6.0], &[3, 2]);
    let y = ops::embed_ids(&table, vec![2, 0], 1, 2, &CPU).unwrap();
    assert_eq!(y.dims(), &[1, 2, 2]);
    assert_eq!(numbers(&y), vec![5.0, 6.0, 1.0, 2.0]);
    let y = ops::embed(&table, &ids(vec![1, 1], 2, 1)).unwrap();
    assert_eq!(y.dims(), &[2, 1, 2]);
    assert_eq!(numbers(&y), vec![3.0, 4.0, 3.0, 4.0]);
    let y = ops::embed_count(&table, 2, &CPU).unwrap();
    assert_eq!(numbers(&y), vec![1.0, 2.0, 3.0, 4.0]);
    assert!(ops::embed_count(&table, 3, &CPU).is_ok());
    assert!(matches!(ops::embed_count(&table, 4, &CPU), Err(GptError::Candle(_))));
    assert!(matches!(ops::embed_ids(&table, vec![3], 1, 1, &CPU), Err(GptError::Candle(_))));
    let zeros = ops::embed_ids(&table, vec![u32::MAX], 1, 1, &CPU).unwrap();
    assert_eq!(numbers(&zeros), vec![0.0, 0.0]);
}

#[test]
fn products_take_dense_factors_and_transposes() {
    let x = Tensor::from_vec(vec![1.0f32, 2.0, 3.0, 4.0], (1, 1, 2, 2), &CPU).unwrap();
    let y = ops::multiply(&x, &x).unwrap();
    assert_eq!(numbers(&y), vec![7.0, 10.0, 15.0, 22.0]);
    let y = ops::multiply(&x, &ops::transpose(&x, 2, 3).unwrap()).unwrap();
    assert_eq!(numbers(&y), vec![5.0, 11.0, 11.0, 25.0]);
    let flat = Tensor::zeros(4, DType::F32, &CPU).unwrap();
    assert!(matches!(ops::multiply(&flat, &flat), Err(GptError::Candle(_))));
}

#[test]
fn layers_take_inputs_in_any_order_of_memory() {
    let vars = VarMap::new();
    let root = Scope::root(&vars, &CPU);
    let dropout = Dropout::new(0.5);
    let ff = FeedForward::new(4, &root.pp("ff")).unwrap();
    let att = MultiHeadAttention::new(4, 4, 3, &dropout, 2, &root.pp("att")).unwrap();
    let block = TransfomerBlock::new(4, 3, 2, &dropout, &root.pp("block")).unwrap();
    let turned = Tensor::randn(0f32, 1.0, (2, 4, 3), &CPU).unwrap().transpose(1, 2).unwrap();
    let straight = turned.contiguous().unwrap();
    assert!(!turned.is_contiguous());
    let one = numbers(&ff.forward(&turned).unwrap());
    close(&one, &numbers(&ff.forward(&straight).unwrap()));
    let one = numbers(&att.forward_t(&turned, false).unwrap());
    close(&one, &numbers(&att.forward_t(&straight, false).unwrap()));
    let one = numbers(&block.forward_t(&turned, false).unwrap());
    close(&one, &numbers(&block.forward_t(&straight, false).unwrap()));
    let flat = Tensor::randn(0f32, 1.0, (4, 2), &CPU).unwrap().t().unwrap();
    assert_eq!(ff.forward(&flat).unwrap().dims(), &[2, 4]);
}

#[test]
fn repeated_cells_are_not_reduced() {
    let scalar = Tensor::new(1.5f32, &CPU).unwrap();
    for rows in [1, 2] {
        let repeated = scalar.broadcast_as((rows, 1)).unwrap();
        assert_eq!(repeated.stride()[1], 0);
        assert!(matches!(ops::softmax(&repeated), Err(GptError::RepeatedCell)));
        assert!(matches!(ops::argmax(&repeated), Err(GptError::RepeatedCell)));
        let single = Tensor::full(1.5f32, (rows, 1), &CPU).unwrap();
        assert_eq!(numbers(&ops::softmax(&single).unwrap()), vec![1.0; rows]);
        assert_eq!(ops::argmax(&single).unwrap(), vec![0; rows]);
    }
    let wide = scalar.broadcast_as((1, 2)).unwrap();
    assert_eq!(numbers(&ops::softmax(&wide).unwrap()), vec![0.5, 0.5]);
}

#[test]
fn more_than_eight_dimensions_are_refused() {
    let vars = VarMap::new();
    let norm = Scope::root(&vars, &CPU).pp("norm").layer_norm(1).unwrap();
    let dropout = Dropout::new(0.5);
    let deep = Tensor::zeros(vec![1usize; 9], DType::F32, &CPU).unwrap();
    let bytes = Tensor::zeros(vec![1usize; 9], DType::U8, &CPU).unwrap();
    let flat = Tensor::zeros(1, DType::F32, &CPU).unwrap();
    assert!(matches!(ops::plus(&deep, &flat), Err(GptError::TooManyDimensions)));
    assert!(matches!(ops::plus(&flat, &deep), Err(GptError::TooManyDimensions)));
    assert!(matches!(ops::pick(&bytes, &deep, &deep), Err(GptError::TooManyDimensions)));
    assert!(matches!(ops::normalize(&norm, 1, &deep), Err(GptError::TooManyDimensions)));
    assert!(matches!(ops::softmax(&deep), Err(GptError::TooManyDimensions)));
    assert!(matches!(ops::drop_out(&dropout, &deep, true), Err(GptError::TooManyDimensions)));
    assert!(ops::drop_out(&dropout, &deep, false).is_ok());
    let eight = Tensor::zeros(vec![1usize; 8], DType::F32, &CPU).unwrap();
    assert_eq!(ops::plus(&eight, &flat).unwrap().rank(), 8);
    assert_eq!(ops::normalize(&norm, 1, &eight).unwrap().rank(), 8);
    assert_eq!(ops::softmax(&eight).unwrap().rank(), 8);
}

#[test]
fn tensors_without_elements_are_refused_where_elements_are_read() {
    let vars = VarMap::new();
    let root = Scope::root(&vars, &CPU);
    let norm = root.pp("norm").layer_norm(4).unwrap();
    let whole = Tensor::zeros((3, 2, 4), DType::F32, &CPU).unwrap();
    let beyond = whole.narrow(0, 3, 0).unwrap().narrow(1, 2, 0).unwrap();
    assert_eq!(beyond.dims(), &[0, 0, 4]);
    assert!(matches!(ops::normalize(&norm, 4, &beyond), Err(GptError::NoElements)));
    let empty = Tensor::zeros((0, 4), DType::F32, &CPU).unwrap();
    assert_eq!(ops::normalize(&norm, 4, &empty).unwrap().dims(), &[0, 4]);
    let bytes = Tensor::zeros((0, 4), DType::U8, &CPU).unwrap();
    assert!(matches!(ops::pick(&bytes, &empty, &empty), Err(GptError::NoElements)));
    let att = MultiHeadAttention::new(4, 4, 2, &Dropout::new(0.0), 2, &root).unwrap();
    for dims in [(0, 2, 4), (2, 0, 4)] {
        let none = Tensor::zeros(dims, DType::F32, &CPU).unwrap();
        assert!(att.forward_t(&none, false).is_err());
    }
}

#[test]
fn the_mask_of_an_attention_holds_bytes() {
    let vars = VarMap::new();
    let root = Scope::root(&vars, &CPU);
    let att = MultiHeadAttention::new(4, 4, 3, &Dropout::new(0.0), 2, &root).unwrap();
    assert_eq!(att.mask.dtype(), DType::U8);
    assert!(att.mask.device().is_cpu());
    assert_eq!(
        att.mask.to_vec2::<u8>().unwrap(),
        vec![vec![1, 0, 0], vec![1, 1, 0], vec![1, 1, 1]]
    );
}

#[test]
fn products_with_a_repeated_matrix_are_refused() {
    let x = Tensor::ones((2, 4, 3), DType::F32, &CPU).unwrap();
    let matrix = Tensor::ones((3, 5), DType::F32, &CPU).unwrap();
    let repeated = matrix.broadcast_as((2, 3, 5)).unwrap();
    assert!(matches!(ops::multiply(&x, &repeated), Err(GptError::RepeatedCell)));
    let copied = repeated.contiguous().unwrap();
    let product = ops::multiply(&x, &copied).unwrap();
    assert_eq!(product.dims(), &[2, 4, 5]);
    assert_eq!(numbers(&product), vec![3.0; 40]);
    let empty = Tensor::ones((2, 0, 3), DType::F32, &CPU).unwrap();
    assert_eq!(ops::multiply(&empty, &repeated).unwrap().dims(), &[2, 0, 5]);
}
