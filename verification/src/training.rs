//! The loss of a batch, and a training step.

use crate::batches::{
    batch_count, batch_inputs, batch_targets, get_batch, law_counted_batches_are_in_range,
};
use crate::error::{explained, first_fault, lift, GptError};
use crate::gpt::GPTModel;
use crate::ops::{
    alike, all_below, all_known, computable, device_is_cpu, flatten, flatten_yields, given,
    lemma_packed_is_reducible, lemma_ready_widths, lookup_fault, merge_leading, merge_yields,
    on_cpu, plain, reducible, size_fault, tensor_dims, tensor_is_float,
};
use crate::shapes::{
    addressable, at_least_one, lemma_product_of_two, lemma_product_within_volume,
    lemma_volume_of_one, lemma_volume_of_three, lemma_volume_of_two, product,
};
use crate::tokens::{
    all_of_len, batch_yields, flat, law_flat_is_row_major, lemma_flat_len, TokenBatch,
};
use candle_core::{Device, Tensor};
use candle_nn::AdamW;
use vstd::prelude::*;

verus! {

/// An optimiser of the tensor library, with the variables that it moves.
#[verifier::external_type_specification]
#[verifier::external_body]
pub struct ExAdamW(candle_nn::AdamW);

/// `candle_nn::loss::cross_entropy`: the logits are a matrix with a row for each target, the
/// targets lie along a single dimension, and the loss is a scalar. A repeated cell as the last
/// dimension of the logits makes it panic.
#[verifier::external_body]
fn mean_cross_entropy(logits: &Tensor, targets: &Tensor) -> (r: Result<Tensor, candle_core::Error>)
    requires
        computable(*logits),
        reducible(*logits),
        addressable(tensor_dims(*targets)),
    ensures
        r matches Ok(loss) ==> {
            &&& tensor_dims(*logits).len() == 2
            &&& tensor_dims(*targets) == seq![tensor_dims(*logits)[0]]
            &&& tensor_dims(loss).len() == 0
            &&& tensor_is_float(loss)
        },
{
    candle_nn::loss::cross_entropy(logits, targets)
}

/// `loss` is what the cross entropy of the logits and the targets gives.
pub closed spec fn cross_entropy_yields(logits: Tensor, targets: Tensor, loss: Tensor) -> bool {
    call_ensures(mean_cross_entropy, (&logits, &targets), given(loss))
}

/// `candle_nn::loss::cross_entropy` with the targets of a list, which `Tensor::from_vec` makes a
/// tensor of: the logits are a matrix with a row for each target, and the loss is a scalar with
/// elements of their type. On the CPU it succeeds where the logits are plain and have a column for
/// every target, and fails where a target other than the largest has no column. A repeated cell as
/// the last dimension of the logits makes it panic.
#[verifier::external_body]
fn cross_entropy_of_ids(logits: &Tensor, ids: Vec<u32>, device: &Device) -> (r: Result<
    Tensor,
    candle_core::Error,
>)
    requires
        computable(*logits),
        reducible(*logits),
        tensor_dims(*logits).len() == 2,
    ensures
        device_is_cpu(*device) && plain(*logits) && ids@.len() == tensor_dims(*logits)[0]
            && all_below(ids@, tensor_dims(*logits)[1]) ==> r is Ok,
        r is Ok && device_is_cpu(*device) ==> all_known(ids@, tensor_dims(*logits)[1]),
        r matches Ok(loss) ==> {
            &&& ids@.len() == tensor_dims(*logits)[0]
            &&& tensor_dims(loss).len() == 0
            &&& alike(*logits, loss)
        },
{
    let count = ids.len();
    candle_nn::loss::cross_entropy(logits, &Tensor::from_vec(ids, count, device)?)
}

/// `loss` is what the cross entropy of the logits and the listed targets gives.
pub closed spec fn ids_cross_entropy_yields(
    logits: Tensor,
    ids: Seq<u32>,
    device: &Device,
    loss: Tensor,
) -> bool {
    exists|list: Vec<u32>|
        list@ == ids && #[trigger] call_ensures(
            cross_entropy_of_ids,
            (&logits, list, device),
            given(loss),
        )
}

/// `loss` is what the loss of a model gives in training, with the model made of the variables of
/// a store.
pub open spec fn is_training_loss(loss: Tensor) -> bool {
    exists|model: GPTModel, x: Tensor, y: Tensor|
        model.is_made() && #[trigger] loss_yields(model, x, y, true, loss)
}

/// `Optimizer::backward_step` of an `AdamW`: the gradients of the loss, and one step of the
/// variables along them. The gradients of some operations that a model does not use make it
/// panic. What the variables hold is left unsaid: they hold floating point numbers and change
/// behind shared references.
#[verifier::external_body]
fn stepped(opt: AdamW, loss: &Tensor) -> (r: Result<AdamW, candle_core::Error>)
    requires
        computable(*loss),
        is_training_loss(*loss),
{
    let mut opt = opt;
    candle_nn::Optimizer::backward_step(&mut opt, loss)?;
    Ok(opt)
}

/// `next` is what one step along the gradients of the loss makes of the optimiser.
pub closed spec fn step_yields(opt: AdamW, loss: Tensor, next: AdamW) -> bool {
    call_ensures(stepped, (opt, &loss), Ok::<AdamW, candle_core::Error>(next))
}

/// The steps from a batch to its loss: the cross entropy of the logits of all positions of all
/// sequences and of their targets.
pub open spec fn loss_steps(
    model: GPTModel,
    input: Tensor,
    target: Tensor,
    train: bool,
    logits: Tensor,
    rows: Tensor,
    targets: Tensor,
    loss: Tensor,
) -> bool {
    &&& model.yields(input, train, logits)
    &&& merge_yields(logits, rows)
    &&& flatten_yields(target, targets)
    &&& cross_entropy_yields(rows, targets, loss)
}

/// `loss` is what the loss of the model on a batch gives, in training or outside of it.
pub open spec fn loss_yields(
    model: GPTModel,
    input: Tensor,
    target: Tensor,
    train: bool,
    loss: Tensor,
) -> bool {
    exists|logits: Tensor, rows: Tensor, targets: Tensor| #[trigger]
        loss_steps(model, input, target, train, logits, rows, targets, loss)
}

/// The error of a batch that the loss cannot be computed of.
pub open spec fn loss_fault(model: GPTModel, input: Tensor, target: Tensor) -> Option<GptError> {
    first_fault(model.forward_fault(input), size_fault(tensor_dims(target)))
}

/// The input is a matrix of tokens whose embeddings are too large, which is refused before
/// anything is computed.
pub open spec fn lookup_refused(model: GPTModel, input: Tensor) -> bool {
    tensor_dims(input).len() == 2 && lookup_fault(tensor_dims(input), model.emb_dim) is Some
}

/// The input is a matrix of tokens that the model can look at, with as many cells as the target.
pub open spec fn fits_together(model: GPTModel, input: Tensor, target: Tensor) -> bool {
    let dims = tensor_dims(input);
    &&& dims.len() == 2
    &&& model.sees(dims[1])
    &&& on_cpu(input) ==> model.covers(dims[1])
    &&& product(tensor_dims(target)) == dims[0] * dims[1]
}

/// With two dimensions as one, a shape is addressable still.
proof fn lemma_merged_fits(b: usize, n: usize, v: usize, rows: usize)
    requires
        addressable(seq![b, n, v]),
        rows == b * n,
    ensures
        addressable(seq![rows, v]),
{
    lemma_volume_of_three(b, n, v);
    lemma_volume_of_two(rows, v);
    let p = at_least_one(b) as int;
    let q = at_least_one(n) as int;
    let s = at_least_one(v) as int;
    let m = at_least_one(rows) as int;
    assert(m <= p * q) by (nonlinear_arith)
        requires
            rows == b * n,
            b <= p,
            n <= q,
            1 <= p,
            1 <= q,
            0 <= b,
            0 <= n,
            m == rows || m == 1,
    ;
    assert(m * s <= p * q * s) by (nonlinear_arith)
        requires
            m <= p * q,
            1 <= s,
    ;
}

/// The elements of an addressable shape are addressable along a single dimension.
proof fn lemma_flat_fits(dims: Seq<usize>, count: usize)
    requires
        addressable(dims),
        count == product(dims),
    ensures
        addressable(seq![count]),
{
    lemma_product_within_volume(dims);
    lemma_volume_of_one(count);
}

/// The loss of the model on a batch.
fn batch_loss(model: &GPTModel, input: &Tensor, target: &Tensor, train: bool) -> (r: Result<
    Tensor,
    GptError,
>)
    requires
        model.wf(),
        model.has_heads(),
    ensures
        explained(loss_fault(*model, *input, *target), r),
        lookup_refused(*model, *input) ==> r == Err::<Tensor, GptError>(GptError::TooLarge),
        r matches Ok(loss) ==> {
            &&& fits_together(*model, *input, *target)
            &&& tensor_dims(loss).len() == 0
            &&& tensor_is_float(loss)
            &&& loss_yields(*model, *input, *target, train, loss)
        },
{
    let logits: Tensor = model.forward_t(input, train)?;
    let rows: Tensor = merge_leading(&logits)?;
    let targets: Tensor = flatten(target)?;
    proof {
        let dims = tensor_dims(*input);
        let merged = tensor_dims(rows);
        lemma_merged_fits(dims[0], dims[1], model.vocab_size, merged[0]);
        assert(merged.skip(1)[0] == merged[1]);
        assert(merged =~= seq![merged[0], model.vocab_size]);
        lemma_flat_fits(tensor_dims(*target), tensor_dims(targets)[0]);
        assert(tensor_dims(targets) =~= seq![tensor_dims(targets)[0]]);
    }
    proof {
        lemma_packed_is_reducible(rows);
    }
    let loss: Tensor = lift(mean_cross_entropy(&rows, &targets))?;
    assert(loss_steps(*model, *input, *target, train, logits, rows, targets, loss));
    Ok(loss)
}

/// The loss of the model on a batch, outside of training.
pub fn calc_loss_batch(input_batch: &Tensor, target_batch: &Tensor, model: &GPTModel) -> (r: Result<
    Tensor,
    GptError,
>)
    requires
        model.wf(),
        model.has_heads(),
    ensures
        explained(loss_fault(*model, *input_batch, *target_batch), r),
        lookup_refused(*model, *input_batch) ==> r == Err::<Tensor, GptError>(GptError::TooLarge),
        r matches Ok(loss) ==> {
            &&& fits_together(*model, *input_batch, *target_batch)
            &&& tensor_dims(loss).len() == 0
            &&& tensor_is_float(loss)
            &&& loss_yields(*model, *input_batch, *target_batch, false, loss)
        },
{
    batch_loss(model, input_batch, target_batch, false)
}

/// The steps from a batch of tokens to its loss, outside of training.
pub open spec fn token_loss_steps(
    model: GPTModel,
    inputs: Seq<Seq<u32>>,
    len: usize,
    targets: Seq<Seq<u32>>,
    device: &Device,
    logits: Tensor,
    rows: Tensor,
    loss: Tensor,
) -> bool {
    &&& model.yields_on(inputs, len, device, false, logits)
    &&& merge_yields(logits, rows)
    &&& ids_cross_entropy_yields(rows, flat(targets), device, loss)
}

/// `loss` is what the loss of the model on a batch of sequences of `len` tokens gives, outside of
/// training.
pub open spec fn token_loss_yields(
    model: GPTModel,
    inputs: Seq<Seq<u32>>,
    len: usize,
    targets: Seq<Seq<u32>>,
    device: &Device,
    loss: Tensor,
) -> bool {
    exists|logits: Tensor, rows: Tensor| #[trigger]
        token_loss_steps(model, inputs, len, targets, device, logits, rows, loss)
}

/// The loss of a batch of tokens of the vocabulary, with as many targets as inputs, succeeds.
pub open spec fn token_loss_fits(
    model: GPTModel,
    inputs: TokenBatch,
    targets: TokenBatch,
    device: &Device,
) -> bool {
    &&& model.fits(inputs.len)
    &&& model.batch_fault(inputs@.len() as usize, inputs.len) is None
    &&& device_is_cpu(*device)
    &&& inputs@.len() > 0
    &&& inputs.len > 0
    &&& flat(targets@).len() == flat(inputs@).len()
    &&& all_below(flat(inputs@), model.vocab_size)
    &&& all_below(flat(targets@), model.vocab_size)
}

/// The loss of the model on a batch of tokens, outside of training.
pub fn loss_of_tokens(
    model: &GPTModel,
    inputs: &TokenBatch,
    targets: &TokenBatch,
    device: &Device,
) -> (r: Result<Tensor, GptError>)
    requires
        model.wf(),
        model.has_heads(),
        inputs.wf(),
        targets.wf(),
    ensures
        explained(model.batch_fault(inputs@.len() as usize, inputs.len), r),
        lookup_fault(seq![inputs@.len() as usize, inputs.len], model.emb_dim) is Some ==> r
            == Err::<Tensor, GptError>(GptError::TooLarge),
        token_loss_fits(*model, *inputs, *targets, device) ==> r is Ok,
        r matches Ok(loss) ==> {
            &&& model.sees(inputs.len)
            &&& flat(targets@).len() == flat(inputs@).len()
            &&& device_is_cpu(*device) ==> {
                &&& model.covers(inputs.len)
                &&& all_known(flat(inputs@), model.vocab_size)
                &&& all_known(flat(targets@), model.vocab_size)
            }
            &&& tensor_dims(loss).len() == 0
            &&& tensor_is_float(loss)
            &&& token_loss_yields(*model, inputs@, inputs.len, targets@, device, loss)
        },
{
    let ghost fits = token_loss_fits(*model, *inputs, *targets, device);
    let logits: Tensor = model.forward_tokens(inputs, false, device)?;
    let rows: Tensor = merge_leading(&logits)?;
    let ids: Vec<u32> = targets.flatten();
    proof {
        let count = inputs.rows.len();
        let merged = tensor_dims(rows);
        lemma_merged_fits(count, inputs.len, model.vocab_size, merged[0]);
        lemma_flat_len(inputs@, inputs.len as nat);
        assert(merged.skip(1)[0] == merged[1]);
        assert(merged =~= seq![merged[0], model.vocab_size]);
        lemma_packed_is_reducible(rows);
        if fits {
            lemma_ready_widths(model.out_head);
            lemma_product_of_two(merged[0], model.vocab_size);
            let n = inputs.len;
            let v = model.vocab_size;
            assert(count * n > 0 && (count * n) * v > 0) by (nonlinear_arith)
                requires
                    count > 0,
                    n > 0,
                    v > 0,
            ;
        }
    }
    let loss: Tensor = lift(cross_entropy_of_ids(&rows, ids, device))?;
    assert(token_loss_steps(
        *model,
        inputs@,
        inputs.len,
        targets@,
        device,
        logits,
        rows,
        loss,
    ));
    Ok(loss)
}

/// One training step: the loss of the model on a batch, in training, and one step of the
/// optimiser along its gradients. The optimiser is handed back with the loss.
pub fn train_step(model: &GPTModel, opt: AdamW, x: &Tensor, y: &Tensor) -> (r: Result<
    (AdamW, Tensor),
    GptError,
>)
    requires
        model.wf(),
        model.has_heads(),
        model.is_made(),
    ensures
        explained(loss_fault(*model, *x, *y), r),
        lookup_refused(*model, *x) ==> r == Err::<(AdamW, Tensor), GptError>(GptError::TooLarge),
        r matches Ok((next, loss)) ==> {
            &&& fits_together(*model, *x, *y)
            &&& tensor_dims(loss).len() == 0
            &&& tensor_is_float(loss)
            &&& loss_yields(*model, *x, *y, true, loss)
            &&& step_yields(opt, loss, next)
        },
{
    let loss: Tensor = batch_loss(model, x, y, true)?;
    assert(is_training_loss(loss));
    let next: AdamW = lift(stepped(opt, &loss))?;
    Ok((next, loss))
}

/// The steps of a training step on a batch of a token stream: the batch as tensors, the loss of
/// the model on it, in training, and the step of the optimiser.
pub open spec fn batch_training_steps(
    model: GPTModel,
    opt: AdamW,
    tokens: Seq<u32>,
    batch_idx: usize,
    batch_size: usize,
    context_length: usize,
    stride: usize,
    device: &Device,
    x: Tensor,
    y: Tensor,
    next: AdamW,
    loss: Tensor,
) -> bool {
    &&& batch_yields(
        batch_inputs(tokens, batch_idx, batch_size, context_length, stride),
        context_length,
        device,
        x,
    )
    &&& batch_yields(
        batch_targets(tokens, batch_idx, batch_size, context_length, stride),
        context_length,
        device,
        y,
    )
    &&& loss_yields(model, x, y, true, loss)
    &&& step_yields(opt, loss, next)
}

/// One training step on one of the batches that fit in a token stream.
pub fn train_on_batch(
    model: &GPTModel,
    opt: AdamW,
    tokens: &[u32],
    batch_idx: usize,
    batch_size: usize,
    context_length: usize,
    stride: usize,
    device: &Device,
) -> (r: Result<(AdamW, Tensor), GptError>)
    requires
        model.wf(),
        model.has_heads(),
        model.is_made(),
        context_length <= tokens@.len(),
        0 < batch_size,
        0 < stride,
        batch_idx < batch_count(
            tokens@.len() as int,
            context_length as int,
            batch_size as int,
            stride as int,
        ),
    ensures
        explained(model.batch_fault(batch_size, context_length), r),
        device_is_cpu(*device) && lookup_fault(
            seq![batch_size, context_length],
            model.emb_dim,
        ) is Some ==> r == Err::<(AdamW, Tensor), GptError>(GptError::TooLarge),
        r matches Ok((next, loss)) ==> {
            &&& model.sees(context_length)
            &&& device_is_cpu(*device) ==> model.covers(context_length)
            &&& tensor_dims(loss).len() == 0
            &&& tensor_is_float(loss)
            &&& exists|x: Tensor, y: Tensor| #[trigger]
                batch_training_steps(
                    *model,
                    opt,
                    tokens@,
                    batch_idx,
                    batch_size,
                    context_length,
                    stride,
                    device,
                    x,
                    y,
                    next,
                    loss,
                )
        },
{
    let len: usize = tokens.len();
    proof {
        law_counted_batches_are_in_range(len, context_length, batch_size, stride, batch_idx);
    }
    let (x, y): (Tensor, Tensor) = get_batch(
        tokens,
        batch_idx,
        batch_size,
        context_length,
        stride,
        device,
    )?;
    let (next, loss): (AdamW, Tensor) = train_step(model, opt, &x, &y)?;
    assert(batch_training_steps(
        *model,
        opt,
        tokens@,
        batch_idx,
        batch_size,
        context_length,
        stride,
        device,
        x,
        y,
        next,
        loss,
    ));
    Ok((next, loss))
}

/// A loss comes from logits of its own mode: the model yields them for the inputs, in training for
/// a loss in training and outside of it for one outside, and the loss is the cross entropy of all
/// their positions, one row each, with the targets in one list.
pub proof fn law_loss_comes_from_logits_of_its_mode(
    model: GPTModel,
    input: Tensor,
    target: Tensor,
    train: bool,
    loss: Tensor,
)
    ensures
        loss_yields(model, input, target, train, loss) <==> exists|
            logits: Tensor,
            rows: Tensor,
            targets: Tensor,
        |
            #![trigger model.yields(input, train, logits), cross_entropy_yields(
                rows, targets, loss)]
            {
                &&& model.yields(input, train, logits)
                &&& merge_yields(logits, rows)
                &&& flatten_yields(target, targets)
                &&& cross_entropy_yields(rows, targets, loss)
            },
{
    if loss_yields(model, input, target, train, loss) {
        let (logits, rows, targets) = choose|logits: Tensor, rows: Tensor, targets: Tensor|
            #[trigger] loss_steps(model, input, target, train, logits, rows, targets, loss);
        assert(model.yields(input, train, logits) && cross_entropy_yields(rows, targets, loss));
    }
    assert forall|logits: Tensor, rows: Tensor, targets: Tensor|
        #![trigger model.yields(input, train, logits), cross_entropy_yields(rows, targets, loss)]
        {
            &&& model.yields(input, train, logits)
            &&& merge_yields(logits, rows)
            &&& flatten_yields(target, targets)
            &&& cross_entropy_yields(rows, targets, loss)
        } implies loss_yields(model, input, target, train, loss) by {
        assert(loss_steps(model, input, target, train, logits, rows, targets, loss));
    }
}

/// Every row of the logits has a target of its own, and the loss is a single number.
pub proof fn law_cross_entropy_has_a_target_for_each_row(
    logits: Tensor,
    targets: Tensor,
    loss: Tensor,
)
    requires
        cross_entropy_yields(logits, targets, loss),
    ensures
        tensor_dims(logits).len() == 2,
        tensor_dims(targets) == seq![tensor_dims(logits)[0]],
        tensor_dims(loss).len() == 0,
        tensor_is_float(loss),
{
}

/// The loss and the step make the calls that they are named after, with their own arguments.
proof fn law_training_makes_its_calls(
    logits: Tensor,
    targets: Tensor,
    list: Vec<u32>,
    ids: Seq<u32>,
    device: &Device,
    loss: Tensor,
    opt: AdamW,
    next: AdamW,
)
    ensures
        cross_entropy_yields(logits, targets, loss) <==> call_ensures(
            mean_cross_entropy,
            (&logits, &targets),
            given(loss),
        ),
        call_ensures(cross_entropy_of_ids, (&logits, list, device), given(loss))
            ==> ids_cross_entropy_yields(logits, list@, device, loss),
        ids_cross_entropy_yields(logits, ids, device, loss) ==> exists|list: Vec<u32>|
            list@ == ids && #[trigger] call_ensures(
                cross_entropy_of_ids,
                (&logits, list, device),
                given(loss),
            ),
        step_yields(opt, loss, next) <==> call_ensures(
            stepped,
            (opt, &loss),
            Ok::<AdamW, candle_core::Error>(next),
        ),
{
}

/// The loss of a batch of tokens comes from logits of the model outside of training, and the
/// targets are compared row by row: every position with the token that stands there in the targets.
pub proof fn law_token_loss_compares_each_position(
    model: GPTModel,
    inputs: Seq<Seq<u32>>,
    len: usize,
    targets: Seq<Seq<u32>>,
    target_len: usize,
    device: &Device,
    loss: Tensor,
) -> (ids: Seq<u32>)
    requires
        all_of_len(targets, target_len as nat),
        token_loss_yields(model, inputs, len, targets, device, loss),
    ensures
        ids.len() == targets.len() * target_len,
        forall|i: int, k: int|
            0 <= i < targets.len() && 0 <= k < target_len ==> ids[i * target_len + k]
                == #[trigger] targets[i][k],
        exists|logits: Tensor, rows: Tensor|
            #![trigger model.yields_on(inputs, len, device, false, logits), merge_yields(
                logits, rows)]
            {
                &&& model.yields_on(inputs, len, device, false, logits)
                &&& merge_yields(logits, rows)
                &&& ids_cross_entropy_yields(rows, ids, device, loss)
            },
{
    let (logits, rows) = choose|logits: Tensor, rows: Tensor| #[trigger]
        token_loss_steps(model, inputs, len, targets, device, logits, rows, loss);
    let ids = flat(targets);
    lemma_flat_len(targets, target_len as nat);
    assert forall|i: int, k: int| 0 <= i < targets.len() && 0 <= k < target_len implies ids[i
        * target_len + k] == #[trigger] targets[i][k] by {
        law_flat_is_row_major(targets, target_len as nat, i, k);
    }
    assert(model.yields_on(inputs, len, device, false, logits) && merge_yields(logits, rows));
    ids
}

/// The loss outside of training is one of logits that the model yields outside of training.
pub proof fn law_calculated_loss_is_outside_of_training(
    input: &Tensor,
    target: &Tensor,
    model: &GPTModel,
    loss: Tensor,
)
    requires
        call_ensures(calc_loss_batch, (input, target, model), Ok::<Tensor, GptError>(loss)),
    ensures
        exists|logits: Tensor, rows: Tensor, targets: Tensor|
            #![trigger model.yields(*input, false, logits), cross_entropy_yields(
                rows, targets, loss)]
            {
                &&& model.yields(*input, false, logits)
                &&& merge_yields(logits, rows)
                &&& flatten_yields(*target, targets)
                &&& cross_entropy_yields(rows, targets, loss)
            },
{
    law_loss_comes_from_logits_of_its_mode(*model, *input, *target, false, loss);
}

/// A training step takes the gradients of a loss of logits that the model yields in training, and
/// it is the optimiser that was given that moves along them.
pub proof fn law_step_follows_a_loss_in_training(
    model: &GPTModel,
    opt: AdamW,
    x: &Tensor,
    y: &Tensor,
    next: AdamW,
    loss: Tensor,
)
    requires
        call_ensures(
            train_step,
            (model, opt, x, y),
            Ok::<(AdamW, Tensor), GptError>((next, loss)),
        ),
    ensures
        exists|logits: Tensor, rows: Tensor, targets: Tensor|
            #![trigger model.yields(*x, true, logits), cross_entropy_yields(rows, targets, loss)]
            {
                &&& model.yields(*x, true, logits)
                &&& merge_yields(logits, rows)
                &&& flatten_yields(*y, targets)
                &&& cross_entropy_yields(rows, targets, loss)
            },
        step_yields(opt, loss, next),
{
    law_loss_comes_from_logits_of_its_mode(*model, *x, *y, true, loss);
}

/// A training step on a batch of a stream reads the inputs of that batch and compares with its
/// targets, and follows a loss of logits that the model yields in training.
pub proof fn law_step_on_a_batch_follows_a_loss_in_training(
    model: &GPTModel,
    opt: AdamW,
    tokens: &[u32],
    batch_idx: usize,
    batch_size: usize,
    context_length: usize,
    stride: usize,
    device: &Device,
    next: AdamW,
    loss: Tensor,
) -> (r: (Tensor, Tensor))
    requires
        call_ensures(
            train_on_batch,
            (model, opt, tokens, batch_idx, batch_size, context_length, stride, device),
            Ok::<(AdamW, Tensor), GptError>((next, loss)),
        ),
    ensures
        batch_yields(
            batch_inputs(tokens@, batch_idx, batch_size, context_length, stride),
            context_length,
            device,
            r.0,
        ),
        batch_yields(
            batch_targets(tokens@, batch_idx, batch_size, context_length, stride),
            context_length,
            device,
            r.1,
        ),
        exists|logits: Tensor, rows: Tensor, targets: Tensor|
            #![trigger model.yields(r.0, true, logits), cross_entropy_yields(rows, targets, loss)]
            {
                &&& model.yields(r.0, true, logits)
                &&& merge_yields(logits, rows)
                &&& flatten_yields(r.1, targets)
                &&& cross_entropy_yields(rows, targets, loss)
            },
        step_yields(opt, loss, next),
{
    let (x, y) = choose|x: Tensor, y: Tensor| #[trigger]
        batch_training_steps(
            *model,
            opt,
            tokens@,
            batch_idx,
            batch_size,
            context_length,
            stride,
            device,
            x,
            y,
            next,
            loss,
        );
    law_loss_comes_from_logits_of_its_mode(*model, x, y, true, loss);
    (x, y)
}

/// A loss that a step may follow is a loss in training.
pub proof fn law_training_losses_are_in_training(loss: Tensor)
    requires
        is_training_loss(loss),
    ensures
        exists|model: GPTModel, x: Tensor, y: Tensor|
            model.is_made() && #[trigger] loss_yields(model, x, y, true, loss),
{
}

/// The loss of tokens that a call gives is that of its model, its inputs and its targets.
pub proof fn law_loss_of_tokens_is_of_its_batch(
    model: &GPTModel,
    inputs: &TokenBatch,
    targets: &TokenBatch,
    device: &Device,
    loss: Tensor,
)
    requires
        call_ensures(
            loss_of_tokens,
            (model, inputs, targets, device),
            Ok::<Tensor, GptError>(loss),
        ),
    ensures
        token_loss_yields(*model, inputs@, inputs.len, targets@, device, loss),
{
}

/// What a loss refuses, and which batches of tokens have one.
pub proof fn law_loss_takes_what_the_model_takes(
    model: GPTModel,
    input: Tensor,
    target: Tensor,
    inputs: TokenBatch,
    targets: TokenBatch,
    device: &Device,
)
    ensures
        loss_fault(model, input, target) is None <==> model.forward_fault(input) is None
            && addressable(tensor_dims(target)),
        lookup_refused(model, input) <==> tensor_dims(input).len() == 2 && (!addressable(
            tensor_dims(input),
        ) || !addressable(tensor_dims(input).push(model.emb_dim))),
        token_loss_fits(model, inputs, targets, device) <==> {
            &&& model.fits(inputs.len)
            &&& model.batch_fault(inputs@.len() as usize, inputs.len) is None
            &&& device_is_cpu(*device)
            &&& inputs@.len() > 0
            &&& inputs.len > 0
            &&& flat(targets@).len() == flat(inputs@).len()
            &&& all_below(flat(inputs@), model.vocab_size)
            &&& all_below(flat(targets@), model.vocab_size)
        },
{
}

} // verus!
