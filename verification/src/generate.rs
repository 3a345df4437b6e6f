//! Greedy text generation.

use crate::error::{explained, first_fault, GptError};
use crate::gpt::{
    law_logits_cover_positions_and_vocabulary, law_model_embeds_its_sequences, GPTModel,
};
use crate::ops::{
    all_below, argmax, argmax_yields, device_is_cpu, ids_embedding_yields,
    law_argmax_picks_a_column_of_each_row, law_embedding_of_ids_gives_a_row_for_each,
    law_position_is_within, law_softmax_keeps_the_shape, lemma_packed_is_reducible,
    lemma_ready_widths, position_yields, select_position, softmax, softmax_yields, tensor_dims,
};
use crate::shapes::{
    addressable, at_least_one, lemma_product_of_two, lemma_volume_of_three, lemma_volume_of_two,
};
use crate::tokens::{
    all_of_len, extended, law_windows_are_the_ends, lemma_flat_below, rows_below, windows,
    TokenBatch,
};
use candle_core::{Device, Tensor};
use vstd::prelude::*;

verus! {

/// The tensors between the tokens of a prediction and the tokens that are predicted.
pub struct PredictionTrace {
    pub logits: Tensor,
    pub last: Tensor,
    pub probas: Tensor,
}

/// How many of the last tokens of sequences with `len` tokens the model looks at.
pub open spec fn window_len(len: int, context_size: usize) -> usize {
    if len > context_size {
        context_size
    } else {
        len as usize
    }
}

/// The steps of a prediction: the model, outside of training, gives the logits of the last tokens
/// of every sequence, and the next token is where the softmax of the logits at the last position
/// is largest.
pub open spec fn prediction_steps(
    model: GPTModel,
    rows: Seq<Seq<u32>>,
    len: int,
    context_size: usize,
    device: &Device,
    t: PredictionTrace,
    next: Seq<u32>,
) -> bool {
    let n = window_len(len, context_size);
    &&& model.yields_on(windows(rows, context_size as nat), n, device, false, t.logits)
    &&& position_yields(t.logits, (n - 1) as usize, t.last)
    &&& softmax_yields(t.last, t.probas)
    &&& argmax_yields(t.probas, next)
}

/// `next` holds, for every sequence, the token that the model predicts after it.
pub open spec fn predicts(
    model: GPTModel,
    rows: Seq<Seq<u32>>,
    len: int,
    context_size: usize,
    device: &Device,
    next: Seq<u32>,
) -> bool {
    exists|t: PredictionTrace| #[trigger]
        prediction_steps(model, rows, len, context_size, device, t, next)
}

/// The error of a prediction for `rows` sequences of `len` tokens: there is no position to
/// predict from, or the model cannot be applied.
pub open spec fn prediction_fault(
    model: GPTModel,
    rows: usize,
    len: int,
    context_size: usize,
) -> Option<GptError> {
    if window_len(len, context_size) == 0 {
        Some(GptError::NoPosition)
    } else {
        model.batch_fault(rows, window_len(len, context_size))
    }
}

/// A matrix of one position is addressable where all positions are.
proof fn lemma_position_fits(b: usize, n: usize, v: usize)
    requires
        addressable(seq![b, n, v]),
    ensures
        addressable(seq![b, v]),
{
    lemma_volume_of_three(b, n, v);
    lemma_volume_of_two(b, v);
    let p = at_least_one(b) as int;
    let q = at_least_one(n) as int;
    let s = at_least_one(v) as int;
    assert(p * s <= p * q * s) by (nonlinear_arith)
        requires
            p >= 1,
            q >= 1,
            s >= 1,
    ;
}

/// The last tokens of sequences of tokens of a vocabulary are tokens of it.
proof fn lemma_windows_below(rows: Seq<Seq<u32>>, n: nat, vocab_size: usize)
    requires
        rows_below(rows, vocab_size),
    ensures
        rows_below(windows(rows, n), vocab_size),
{
    let last = windows(rows, n);
    assert forall|i: int| 0 <= i < last.len() implies all_below(#[trigger] last[i], vocab_size) by {
        assert(all_below(rows[i], vocab_size));
        assert forall|k: int| 0 <= k < last[i].len() implies #[trigger] last[i][k]
            < vocab_size by {
            if rows[i].len() > n {
                assert(last[i][k] == rows[i][k + (rows[i].len() - n)]);
            } else {
                assert(last[i][k] == rows[i][k]);
            }
        }
    }
}

/// A prediction for `rows` sequences of `len` tokens succeeds where the tokens are known.
pub open spec fn prediction_fits(
    model: GPTModel,
    rows: Seq<Seq<u32>>,
    len: int,
    context_size: usize,
    device: &Device,
) -> bool {
    &&& model.fits(window_len(len, context_size))
    &&& device_is_cpu(*device)
    &&& rows.len() > 0
    &&& rows_below(rows, model.vocab_size)
    &&& prediction_fault(model, rows.len() as usize, len, context_size) is None
}

/// For every sequence the token that the model predicts after it.
pub fn predict_next(
    model: &GPTModel,
    idx: &TokenBatch,
    context_size: usize,
    device: &Device,
) -> (r: Result<Vec<u32>, GptError>)
    requires
        model.wf(),
        model.has_heads(),
        idx.wf(),
    ensures
        explained(prediction_fault(*model, idx@.len() as usize, idx.len as int, context_size), r),
        window_len(idx.len as int, context_size) == 0 ==> r == Err::<Vec<u32>, GptError>(
            GptError::NoPosition,
        ),
        prediction_fits(*model, idx@, idx.len as int, context_size, device) ==> r is Ok,
        r is Ok ==> model.sees(window_len(idx.len as int, context_size)),
        r is Ok && device_is_cpu(*device) ==> model.covers(
            window_len(idx.len as int, context_size),
        ),
        r matches Ok(next) ==> {
            &&& next@.len() == idx@.len()
            &&& all_below(next@, model.vocab_size)
            &&& predicts(*model, idx@, idx.len as int, context_size, device, next@)
        },
{
    let idx_cond: TokenBatch = idx.window(context_size);
    let cond_len: usize = idx_cond.len;
    if cond_len == 0 {
        return Err(GptError::NoPosition);
    }
    let ghost fits = prediction_fits(*model, idx@, idx.len as int, context_size, device);
    proof {
        if fits {
            lemma_windows_below(idx@, context_size as nat, model.vocab_size);
            lemma_flat_below(idx_cond@, model.vocab_size);
        }
    }
    let logits: Tensor = model.forward_tokens(&idx_cond, false, device)?;
    proof {
        let rows = idx.rows.len();
        lemma_position_fits(rows, cond_len, model.vocab_size);
        if fits {
            lemma_ready_widths(model.out_head);
            lemma_product_of_two(rows, model.vocab_size);
            let v = model.vocab_size;
            assert(rows * v > 0) by (nonlinear_arith)
                requires
                    rows > 0,
                    v > 0,
            ;
        }
    }
    let last: Tensor = select_position(&logits, cond_len - 1)?;
    proof {
        lemma_packed_is_reducible(logits);
    }
    let probas: Tensor = softmax(&last)?;
    proof {
        lemma_packed_is_reducible(probas);
    }
    let next: Vec<u32> = argmax(&probas)?;
    proof {
        let t = PredictionTrace { logits, last, probas };
        assert(prediction_steps(
            *model,
            idx@,
            idx.len as int,
            context_size,
            device,
            t,
            next@,
        ));
    }
    Ok(next)
}

/// The sequences after some tokens were appended one by one.
pub open spec fn after(rows: Seq<Seq<u32>>, nexts: Seq<Seq<u32>>) -> Seq<Seq<u32>>
    decreases nexts.len(),
{
    if nexts.len() == 0 {
        rows
    } else {
        extended(after(rows, nexts.drop_last()), nexts.last())
    }
}

/// The tokens at the place `i` of `nexts` are those that the model predicts after the sequences
/// with the tokens before them, and are of the vocabulary.
pub open spec fn predicted_at(
    model: GPTModel,
    rows: Seq<Seq<u32>>,
    len: int,
    context_size: usize,
    device: &Device,
    nexts: Seq<Seq<u32>>,
    i: int,
) -> bool {
    &&& nexts[i].len() == rows.len()
    &&& all_below(nexts[i], model.vocab_size)
    &&& predicts(model, after(rows, nexts.take(i)), len + i, context_size, device, nexts[i])
}

/// All tokens of `nexts` are predicted, one after the other.
pub open spec fn all_predicted(
    model: GPTModel,
    rows: Seq<Seq<u32>>,
    len: int,
    context_size: usize,
    device: &Device,
    nexts: Seq<Seq<u32>>,
) -> bool {
    forall|i: int|
        0 <= i < nexts.len() ==> #[trigger] predicted_at(
            model,
            rows,
            len,
            context_size,
            device,
            nexts,
            i,
        )
}

/// Appending tokens keeps the sequences and puts the tokens after them in their order.
pub proof fn law_appending_keeps_the_prompt(
    rows: Seq<Seq<u32>>,
    nexts: Seq<Seq<u32>>,
    row: int,
)
    requires
        0 <= row < rows.len(),
    ensures
        after(rows, nexts).len() == rows.len(),
        after(rows, nexts)[row].len() == rows[row].len() + nexts.len(),
        after(rows, nexts)[row].take(rows[row].len() as int) == rows[row],
        forall|i: int|
            0 <= i < nexts.len() ==> after(rows, nexts)[row][rows[row].len() + i] == (
            #[trigger] nexts[i])[row],
    decreases nexts.len(),
{
    let len = rows[row].len() as int;
    if nexts.len() > 0 {
        let fewer = nexts.drop_last();
        law_appending_keeps_the_prompt(rows, fewer, row);
        let before = after(rows, fewer)[row];
        assert(after(rows, nexts)[row] == before.push(nexts.last()[row]));
        assert(before.push(nexts.last()[row]).take(len) =~= before.take(len));
        assert forall|i: int| 0 <= i < nexts.len() implies after(rows, nexts)[row][len + i] == (
        #[trigger] nexts[i])[row] by {
            if i < fewer.len() {
                assert(fewer[i] == nexts[i]);
            }
        }
    } else {
        assert(rows[row].take(len) =~= rows[row]);
    }
}

/// The error of one more token for `rows` sequences of `len` tokens.
pub open spec fn step_fault(
    model: GPTModel,
    rows: usize,
    len: int,
    context_size: usize,
) -> Option<GptError> {
    first_fault(
        prediction_fault(model, rows, len, context_size),
        if len >= usize::MAX {
            Some(GptError::TooLarge)
        } else {
            None
        },
    )
}

/// `out` holds the sequences `rows` followed by `count` tokens that the model predicts one after
/// the other.
pub open spec fn generates(
    model: GPTModel,
    rows: Seq<Seq<u32>>,
    len: int,
    count: int,
    context_size: usize,
    device: &Device,
    out: Seq<Seq<u32>>,
) -> bool {
    exists|nexts: Seq<Seq<u32>>| #[trigger]
        all_predicted(model, rows, len, context_size, device, nexts) && nexts.len() == count && out
            == after(rows, nexts)
}

/// The generation of `max_new_tokens` tokens succeeds: the tokens of the prompt are known, no error
/// of the library's own comes on the way, and the model covers the longest window.
pub open spec fn generation_fits(
    model: GPTModel,
    rows: Seq<Seq<u32>>,
    len: int,
    max_new_tokens: usize,
    context_size: usize,
    device: &Device,
) -> bool {
    &&& max_new_tokens > 0 ==> model.fits(window_len(len + max_new_tokens - 1, context_size))
    &&& device_is_cpu(*device)
    &&& rows.len() > 0
    &&& rows_below(rows, model.vocab_size)
    &&& forall|i: int|
        0 <= i < max_new_tokens ==> #[trigger] step_fault(
            model,
            rows.len() as usize,
            len + i,
            context_size,
        ) is None
}

/// A model that succeeds on some number of positions succeeds on fewer.
proof fn lemma_fewer_positions_fit(model: GPTModel, n: usize, fewer: usize)
    requires
        model.fits(n),
        fewer <= n,
    ensures
        model.fits(fewer),
{
}

/// Sequences of tokens of a vocabulary with one more token of it are tokens of it.
proof fn lemma_extended_below(rows: Seq<Seq<u32>>, next: Seq<u32>, vocab_size: usize)
    requires
        rows_below(rows, vocab_size),
        next.len() == rows.len(),
        all_below(next, vocab_size),
    ensures
        rows_below(extended(rows, next), vocab_size),
{
    let longer = extended(rows, next);
    assert forall|i: int| 0 <= i < longer.len() implies all_below(
        #[trigger] longer[i],
        vocab_size,
    ) by {
        assert(all_below(rows[i], vocab_size));
        assert forall|k: int| 0 <= k < longer[i].len() implies #[trigger] longer[i][k]
            < vocab_size by {
            if k < rows[i].len() {
                assert(longer[i][k] == rows[i][k]);
            } else {
                assert(longer[i][k] == next[i]);
            }
        }
    }
}

/// Appends `max_new_tokens` predicted tokens to every sequence. A prediction looks at no more
/// than the last `context_size` tokens.
pub fn generate_text_simple(
    model: &GPTModel,
    idx: TokenBatch,
    max_new_tokens: usize,
    context_size: usize,
    device: &Device,
) -> (r: Result<TokenBatch, GptError>)
    requires
        model.wf(),
        model.has_heads(),
        idx.wf(),
    ensures
        r matches Err(e) ==> e is Candle || exists|i: int|
            0 <= i < max_new_tokens && #[trigger] step_fault(
                *model,
                idx@.len() as usize,
                idx.len + i,
                context_size,
            ) == Some(e),
        r is Ok ==> forall|i: int|
            0 <= i < max_new_tokens ==> #[trigger] step_fault(
                *model,
                idx@.len() as usize,
                idx.len + i,
                context_size,
            ) is None,
        max_new_tokens == 0 ==> r is Ok,
        generation_fits(*model, idx@, idx.len as int, max_new_tokens, context_size, device)
            ==> r is Ok,
        r is Ok && max_new_tokens > 0 ==> model.sees(
            window_len(idx.len + max_new_tokens - 1, context_size),
        ),
        r is Ok && max_new_tokens > 0 && device_is_cpu(*device) ==> model.covers(
            window_len(idx.len + max_new_tokens - 1, context_size),
        ),
        max_new_tokens > 0 && (idx.len == 0 || context_size == 0) ==> r == Err::<
            TokenBatch,
            GptError,
        >(GptError::NoPosition),
        r matches Ok(out) ==> {
            &&& out.wf()
            &&& out@.len() == idx@.len()
            &&& out.len == idx.len + max_new_tokens
            &&& generates(
                *model,
                idx@,
                idx.len as int,
                max_new_tokens as int,
                context_size,
                device,
                out@,
            )
        },
{
    let ghost rows = idx@;
    let ghost len = idx.len as int;
    let ghost width = idx@.len() as usize;
    let ghost mut nexts: Seq<Seq<u32>> = Seq::empty();
    let ghost fits = generation_fits(*model, idx@, len, max_new_tokens, context_size, device);
    let mut out: TokenBatch = idx;
    let mut i: usize = 0;
    while i < max_new_tokens
        invariant
            model.wf(),
            model.has_heads(),
            i <= max_new_tokens,
            rows == idx@,
            len == idx.len,
            width == idx@.len() as usize,
            out.wf(),
            out@.len() == rows.len(),
            out.len == len + i,
            i > 0 ==> len > 0 && context_size > 0,
            i > 0 ==> model.sees(window_len(len + i - 1, context_size)),
            i > 0 && device_is_cpu(*device) ==> model.covers(window_len(len + i - 1, context_size)),
            fits == generation_fits(
                *model,
                idx@,
                idx.len as int,
                max_new_tokens,
                context_size,
                device,
            ),
            fits ==> rows_below(out@, model.vocab_size),
            nexts.len() == i,
            out@ == after(rows, nexts),
            all_predicted(*model, rows, len, context_size, device, nexts),
            forall|k: int|
                0 <= k < i ==> #[trigger] step_fault(*model, width, len + k, context_size) is None,
        decreases max_new_tokens - i,
    {
        let ghost this_fault = step_fault(*model, width, len + i, context_size);
        proof {
            if fits {
                lemma_fewer_positions_fit(
                    *model,
                    window_len(len + max_new_tokens - 1, context_size),
                    window_len(len + i, context_size),
                );
                assert(this_fault is None);
            }
        }
        let next: Vec<u32> = predict_next(model, &out, context_size, device)?;
        if out.len == usize::MAX {
            return Err(GptError::TooLarge);
        }
        proof {
            if fits {
                lemma_extended_below(out@, next@, model.vocab_size);
            }
            let longer = nexts.push(next@);
            assert(longer.drop_last() =~= nexts);
            assert forall|k: int| 0 <= k < longer.len() implies #[trigger] predicted_at(
                *model,
                rows,
                len,
                context_size,
                device,
                longer,
                k,
            ) by {
                if k < i {
                    assert(predicted_at(*model, rows, len, context_size, device, nexts, k));
                    assert(longer.take(k) =~= nexts.take(k));
                } else {
                    assert(longer.take(k) =~= nexts);
                }
            }
            nexts = longer;
        }
        out.append(next);
        i += 1;
    }
    Ok(out)
}

/// Generated text starts with the prompt, is longer by the tokens that were asked for, and those
/// tokens are of the vocabulary.
pub proof fn law_generation_extends_the_prompt(
    model: GPTModel,
    rows: Seq<Seq<u32>>,
    len: int,
    count: int,
    context_size: usize,
    device: &Device,
    out: Seq<Seq<u32>>,
    row: int,
)
    requires
        generates(model, rows, len, count, context_size, device, out),
        0 <= row < rows.len(),
    ensures
        out.len() == rows.len(),
        out[row].len() == rows[row].len() + count,
        out[row].take(rows[row].len() as int) == rows[row],
        forall|k: int|
            rows[row].len() <= k < out[row].len() ==> #[trigger] out[row][k] < model.vocab_size,
{
    let nexts = choose|nexts: Seq<Seq<u32>>| #[trigger]
        all_predicted(model, rows, len, context_size, device, nexts) && nexts.len() == count && out
            == after(rows, nexts);
    law_appending_keeps_the_prompt(rows, nexts, row);
    assert forall|k: int| rows[row].len() <= k < out[row].len() implies #[trigger] out[row][k]
        < model.vocab_size by {
        let i = k - rows[row].len();
        assert(predicted_at(model, rows, len, context_size, device, nexts, i));
        assert(nexts[i][row] < model.vocab_size);
    }
}

/// Appending tokens in two goes is appending them in one.
proof fn lemma_after_concat(rows: Seq<Seq<u32>>, a: Seq<Seq<u32>>, b: Seq<Seq<u32>>)
    ensures
        after(rows, a + b) == after(after(rows, a), b),
    decreases b.len(),
{
    if b.len() == 0 {
        assert(a + b =~= a);
    } else {
        assert((a + b).drop_last() =~= a + b.drop_last());
        lemma_after_concat(rows, a, b.drop_last());
    }
}

/// Generating some tokens and then more is generating them all.
pub proof fn law_generation_goes_on(
    model: GPTModel,
    rows: Seq<Seq<u32>>,
    len: int,
    first: int,
    second: int,
    context_size: usize,
    device: &Device,
    middle: Seq<Seq<u32>>,
    out: Seq<Seq<u32>>,
)
    requires
        generates(model, rows, len, first, context_size, device, middle),
        generates(model, middle, len + first, second, context_size, device, out),
    ensures
        generates(model, rows, len, first + second, context_size, device, out),
{
    let a = choose|nexts: Seq<Seq<u32>>| #[trigger]
        all_predicted(model, rows, len, context_size, device, nexts) && nexts.len() == first
            && middle == after(rows, nexts);
    let b = choose|nexts: Seq<Seq<u32>>| #[trigger]
        all_predicted(model, middle, len + first, context_size, device, nexts) && nexts.len()
            == second && out == after(middle, nexts);
    let both = a + b;
    lemma_after_concat(rows, a, b);
    lemma_after_len(rows, a);
    assert forall|i: int| 0 <= i < both.len() implies #[trigger] predicted_at(
        model,
        rows,
        len,
        context_size,
        device,
        both,
        i,
    ) by {
        if i < first {
            assert(predicted_at(model, rows, len, context_size, device, a, i));
            assert(both.take(i) =~= a.take(i));
        } else {
            let k = i - first;
            assert(predicted_at(model, middle, len + first, context_size, device, b, k));
            assert(both.take(i) =~= a + b.take(k));
            lemma_after_concat(rows, a, b.take(k));
        }
    }
    assert(all_predicted(model, rows, len, context_size, device, both));
}

/// The number of sequences stays.
proof fn lemma_after_len(rows: Seq<Seq<u32>>, nexts: Seq<Seq<u32>>)
    ensures
        after(rows, nexts).len() == rows.len(),
    decreases nexts.len(),
{
    if nexts.len() > 0 {
        lemma_after_len(rows, nexts.drop_last());
    }
}

/// A prediction depends on the last tokens alone: what stands before them does not matter.
pub proof fn law_predictions_see_the_window_alone(
    model: GPTModel,
    rows_a: Seq<Seq<u32>>,
    len_a: int,
    rows_b: Seq<Seq<u32>>,
    len_b: int,
    context_size: usize,
    device: &Device,
    next: Seq<u32>,
)
    requires
        windows(rows_a, context_size as nat) == windows(rows_b, context_size as nat),
        window_len(len_a, context_size) == window_len(len_b, context_size),
    ensures
        predicts(model, rows_a, len_a, context_size, device, next) <==> predicts(
            model,
            rows_b,
            len_b,
            context_size,
            device,
            next,
        ),
{
    if predicts(model, rows_a, len_a, context_size, device, next) {
        let t = choose|t: PredictionTrace| #[trigger]
            prediction_steps(model, rows_a, len_a, context_size, device, t, next);
        assert(prediction_steps(model, rows_b, len_b, context_size, device, t, next));
    }
    if predicts(model, rows_b, len_b, context_size, device, next) {
        let t = choose|t: PredictionTrace| #[trigger]
            prediction_steps(model, rows_b, len_b, context_size, device, t, next);
        assert(prediction_steps(model, rows_a, len_a, context_size, device, t, next));
    }
}

/// A prediction reads the end of every sequence and nothing else: the model, outside of training,
/// gives logits for the last tokens, as many as fit in the context or all of them, and the next
/// token is the best column of the softmax at the last position, behind which there is no other.
pub proof fn law_prediction_reads_the_last_position(
    model: GPTModel,
    rows: Seq<Seq<u32>>,
    len: int,
    context_size: usize,
    device: &Device,
    next: Seq<u32>,
) -> (r: (Seq<Seq<u32>>, PredictionTrace, usize))
    requires
        model.wf(),
        0 <= len <= usize::MAX,
        rows.len() <= usize::MAX,
        all_of_len(rows, len as nat),
        predicts(model, rows, len, context_size, device, next),
    ensures
        r.0.len() == rows.len(),
        forall|i: int|
            0 <= i < rows.len() ==> {
                &&& (#[trigger] r.0[i]).is_suffix_of(rows[i])
                &&& r.0[i].len() <= context_size
                &&& r.0[i].len() == context_size || r.0[i] == rows[i]
                &&& r.0[i].len() == r.2 + 1
            },
        r.2 + 1 <= len && r.2 + 1 <= context_size,
        r.2 + 1 == len || r.2 + 1 == context_size,
        model.yields_on(r.0, (r.2 + 1) as usize, device, false, r.1.logits),
        tensor_dims(r.1.logits) == seq![
            rows.len() as usize,
            (r.2 + 1) as usize,
            model.vocab_size,
        ],
        position_yields(r.1.logits, r.2, r.1.last),
        r.2 + 1 == tensor_dims(r.1.logits)[1],
        softmax_yields(r.1.last, r.1.probas),
        argmax_yields(r.1.probas, next),
        next.len() == rows.len(),
        all_below(next, model.vocab_size),
{
    let t = choose|t: PredictionTrace| #[trigger]
        prediction_steps(model, rows, len, context_size, device, t, next);
    let ends = windows(rows, context_size as nat);
    let n = window_len(len, context_size);
    assert forall|i: int| 0 <= i < rows.len() implies {
        &&& (#[trigger] ends[i]).is_suffix_of(rows[i])
        &&& ends[i].len() <= context_size
        &&& ends[i].len() == context_size || ends[i] == rows[i]
        &&& ends[i].len() == n
    } by {
        law_windows_are_the_ends(rows, context_size as nat, i);
    }
    assert(all_of_len(ends, n as nat));
    let ids = law_model_embeds_its_sequences(model, ends, n, device, false, t.logits);
    let tokens = choose|tokens: Tensor| #[trigger]
        ids_embedding_yields(
            model.tok_emb,
            ids,
            ends.len() as usize,
            n,
            device,
            tokens,
        ) && model.continues(tokens, device, false, n, t.logits);
    law_embedding_of_ids_gives_a_row_for_each(
        model.tok_emb,
        ids,
        ends.len() as usize,
        n,
        device,
        tokens,
    );
    law_logits_cover_positions_and_vocabulary(model, tokens, device, false, n, t.logits);
    law_position_is_within(t.logits, (n - 1) as usize, t.last);
    law_softmax_keeps_the_shape(t.last, t.probas);
    law_argmax_picks_a_column_of_each_row(t.probas, next);
    (ends, t, (n - 1) as usize)
}

/// Every generated token is the one that the model predicts after all tokens before it.
pub proof fn law_each_token_follows_those_before_it(
    model: GPTModel,
    rows: Seq<Seq<u32>>,
    len: int,
    count: int,
    context_size: usize,
    device: &Device,
    out: Seq<Seq<u32>>,
    k: int,
) -> (next: Seq<u32>)
    requires
        generates(model, rows, len, count, context_size, device, out),
        0 <= len,
        all_of_len(rows, len as nat),
        0 <= k < count,
    ensures
        predicts(
            model,
            Seq::new(out.len(), |row: int| out[row].take(len + k)),
            len + k,
            context_size,
            device,
            next,
        ),
        next.len() == rows.len(),
        forall|row: int| 0 <= row < rows.len() ==> #[trigger] out[row][len + k] == next[row],
{
    let nexts = choose|nexts: Seq<Seq<u32>>| #[trigger]
        all_predicted(model, rows, len, context_size, device, nexts) && nexts.len() == count && out
            == after(rows, nexts);
    let next = nexts[k];
    let before = after(rows, nexts.take(k));
    let prefixes = Seq::new(out.len(), |row: int| out[row].take(len + k));
    assert(predicted_at(model, rows, len, context_size, device, nexts, k));
    lemma_after_len(rows, nexts);
    lemma_after_len(rows, nexts.take(k));
    assert forall|row: int| 0 <= row < rows.len() implies before[row] == prefixes[row] by {
        law_appending_keeps_the_prompt(rows, nexts, row);
        law_appending_keeps_the_prompt(rows, nexts.take(k), row);
        assert forall|j: int| 0 <= j < len + k implies before[row][j] == prefixes[row][j] by {
            if j < len {
                assert(before[row].take(len)[j] == out[row].take(len)[j]);
            } else {
                assert(nexts.take(k)[j - len] == nexts[j - len]);
                assert(before[row][len + (j - len)] == nexts.take(k)[j - len][row]);
                assert(out[row][len + (j - len)] == nexts[j - len][row]);
            }
        }
        assert(before[row] =~= prefixes[row]);
    }
    assert(before =~= prefixes);
    assert forall|row: int| 0 <= row < rows.len() implies #[trigger] out[row][len + k]
        == next[row] by {
        law_appending_keeps_the_prompt(rows, nexts, row);
    }
    next
}

/// What a call predicts is predicted from its sequences, in their context, on its device.
pub proof fn law_prediction_call_predicts(
    model: &GPTModel,
    idx: &TokenBatch,
    context_size: usize,
    device: &Device,
    next: Vec<u32>,
)
    requires
        call_ensures(
            predict_next,
            (model, idx, context_size, device),
            Ok::<Vec<u32>, GptError>(next),
        ),
    ensures
        predicts(*model, idx@, idx.len as int, context_size, device, next@),
        next@.len() == idx@.len(),
{
}

/// What a call generates is generated from its prompt, starts with it, and has the tokens that were
/// asked for behind it.
pub proof fn law_generation_call_generates(
    model: &GPTModel,
    idx: TokenBatch,
    max_new_tokens: usize,
    context_size: usize,
    device: &Device,
    out: TokenBatch,
    row: int,
)
    requires
        call_ensures(
            generate_text_simple,
            (model, idx, max_new_tokens, context_size, device),
            Ok::<TokenBatch, GptError>(out),
        ),
        idx.wf(),
        0 <= row < idx@.len(),
    ensures
        generates(
            *model,
            idx@,
            idx.len as int,
            max_new_tokens as int,
            context_size,
            device,
            out@,
        ),
        out@.len() == idx@.len(),
        out@[row].len() == idx@[row].len() + max_new_tokens,
        idx@[row].is_prefix_of(out@[row]),
{
    law_generation_extends_the_prompt(
        *model,
        idx@,
        idx.len as int,
        max_new_tokens as int,
        context_size,
        device,
        out@,
        row,
    );
    assert(idx@[row] =~= out@[row].subrange(0, idx@[row].len() as int));
}

/// What a generation refuses: sequences without a position in the context, batches that the model
/// refuses, and sequences that cannot become longer.
pub proof fn law_generation_takes_what_the_model_takes(
    model: GPTModel,
    rows: usize,
    len: int,
    context_size: usize,
)
    requires
        0 <= len <= usize::MAX,
    ensures
        prediction_fault(model, rows, len, context_size) == Some(GptError::NoPosition) <== len == 0
            || context_size == 0,
        len > 0 && context_size > 0 && len <= context_size ==> prediction_fault(
            model,
            rows,
            len,
            context_size,
        ) == model.batch_fault(rows, len as usize),
        len > context_size > 0 ==> prediction_fault(model, rows, len, context_size)
            == model.batch_fault(rows, context_size),
        step_fault(model, rows, len, context_size) is None <==> prediction_fault(
            model,
            rows,
            len,
            context_size,
        ) is None && len < usize::MAX,
{
}

/// A prediction succeeds on known tokens where the model takes their window, and a generation where
/// it takes the longest window and none of the steps is refused.
pub proof fn law_generation_succeeds_on_known_tokens(
    model: &GPTModel,
    idx: TokenBatch,
    max_new_tokens: usize,
    context_size: usize,
    device: &Device,
    r: Result<TokenBatch, GptError>,
    one: Result<Vec<u32>, GptError>,
)
    requires
        call_ensures(
            generate_text_simple,
            (model, idx, max_new_tokens, context_size, device),
            r,
        ),
        call_ensures(predict_next, (model, &idx, context_size, device), one),
        device_is_cpu(*device),
        idx@.len() > 0,
        forall|i: int|
            0 <= i < idx@.len() ==> all_below(#[trigger] idx@[i], model.vocab_size),
    ensures
        model.fits(window_len(idx.len as int, context_size)) && prediction_fault(
            *model,
            idx@.len() as usize,
            idx.len as int,
            context_size,
        ) is None ==> one is Ok,
        max_new_tokens == 0 ==> r is Ok,
        max_new_tokens > 0 && model.fits(
            window_len(idx.len + max_new_tokens - 1, context_size),
        ) && (forall|i: int|
            0 <= i < max_new_tokens ==> #[trigger] step_fault(
                *model,
                idx@.len() as usize,
                idx.len + i,
                context_size,
            ) is None) ==> r is Ok,
{
}

/// The window of a sequence is as long as the sequence or as the context, whichever is shorter.
pub proof fn law_window_is_the_shorter(len: int, context_size: usize)
    requires
        0 <= len <= usize::MAX,
    ensures
        window_len(len, context_size) <= len,
        window_len(len, context_size) <= context_size,
        window_len(len, context_size) == len || window_len(len, context_size) == context_size,
{
}

} // verus!
