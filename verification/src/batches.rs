//! Training batches: windows over a token stream, and the same windows one token later.

use crate::error::{guarded, GptError};
use crate::ops::{device_is_cpu, ids_yield, on_cpu, tensor_dims, tensor_element, Element};
use crate::tokens::{
    all_of_len, batch_yields, copy_tokens, flat, law_batch_tensor_holds_the_rows, TokenBatch,
};
use candle_core::{Device, Tensor};
use vstd::prelude::*;

verus! {

/// Where the window of a row of a batch starts.
pub open spec fn row_start(batch_idx: int, batch_size: int, row: int, stride: int) -> int {
    (batch_idx * batch_size + row) * stride
}

/// The windows of a batch, each `shift` tokens after its start.
pub open spec fn windows_of_batch(
    tokens: Seq<u32>,
    batch_idx: usize,
    batch_size: usize,
    max_length: usize,
    stride: usize,
    shift: int,
) -> Seq<Seq<u32>> {
    Seq::new(
        batch_size as nat,
        |row: int|
            {
                let start = row_start(batch_idx as int, batch_size as int, row, stride as int)
                    + shift;
                tokens.subrange(start, start + max_length)
            },
    )
}

/// The inputs of a batch: the windows as they start.
pub open spec fn batch_inputs(
    tokens: Seq<u32>,
    batch_idx: usize,
    batch_size: usize,
    max_length: usize,
    stride: usize,
) -> Seq<Seq<u32>> {
    windows_of_batch(tokens, batch_idx, batch_size, max_length, stride, 0)
}

/// The targets of a batch: the windows one token later.
pub open spec fn batch_targets(
    tokens: Seq<u32>,
    batch_idx: usize,
    batch_size: usize,
    max_length: usize,
    stride: usize,
) -> Seq<Seq<u32>> {
    windows_of_batch(tokens, batch_idx, batch_size, max_length, stride, 1)
}

/// A row of a batch, and the token after it, lies in a stream of `len` tokens, and the number of
/// the row does not exceed a `usize`.
pub open spec fn row_in_range(
    len: int,
    batch_idx: usize,
    batch_size: usize,
    max_length: usize,
    stride: usize,
    row: int,
) -> bool {
    &&& batch_idx * batch_size + row <= usize::MAX
    &&& row_start(batch_idx as int, batch_size as int, row, stride as int) + max_length + 1 <= len
}

/// Every row of a batch lies in a stream of `len` tokens.
pub open spec fn batch_in_range(
    len: int,
    batch_idx: usize,
    batch_size: usize,
    max_length: usize,
    stride: usize,
) -> bool {
    forall|row: int|
        0 <= row < batch_size ==> #[trigger] row_in_range(
            len,
            batch_idx,
            batch_size,
            max_length,
            stride,
            row,
        )
}

/// A later row starts no earlier.
proof fn lemma_rows_rise(batch_idx: int, batch_size: int, stride: int, row: int, later: int)
    requires
        0 <= row <= later,
        0 <= stride,
        0 <= batch_idx * batch_size,
    ensures
        0 <= row_start(batch_idx, batch_size, row, stride) <= row_start(
            batch_idx,
            batch_size,
            later,
            stride,
        ),
{
    let rows = batch_idx * batch_size;
    assert(0 <= (rows + row) * stride <= (rows + later) * stride) by (nonlinear_arith)
        requires
            0 <= rows,
            0 <= row <= later,
            0 <= stride,
    ;
}

/// Tests whether every row of a batch lies in a stream of `len` tokens.
pub fn is_batch_in_range(
    len: usize,
    batch_idx: usize,
    batch_size: usize,
    max_length: usize,
    stride: usize,
) -> (yes: bool)
    ensures
        yes == batch_in_range(len as int, batch_idx, batch_size, max_length, stride),
{
    if batch_size == 0 {
        return true;
    }
    let ghost last_in_range = row_in_range(
        len as int,
        batch_idx,
        batch_size,
        max_length,
        stride,
        batch_size - 1,
    );
    proof {
        assert(0 <= batch_idx * batch_size) by (nonlinear_arith);
        lemma_rows_rise(batch_idx as int, batch_size as int, stride as int, 0, batch_size - 1);
    }
    let last_row: usize = match batch_idx.checked_mul(batch_size) {
        Some(first_row) => match first_row.checked_add(batch_size - 1) {
            Some(last_row) => last_row,
            None => {
                return false;
            },
        },
        None => {
            return false;
        },
    };
    let end: usize = match last_row.checked_mul(stride) {
        Some(start) => match start.checked_add(max_length) {
            Some(end) => end,
            None => {
                return false;
            },
        },
        None => {
            return false;
        },
    };
    proof {
        if end < len {
            assert forall|row: int| 0 <= row < batch_size implies #[trigger] row_in_range(
                len as int,
                batch_idx,
                batch_size,
                max_length,
                stride,
                row,
            ) by {
                lemma_rows_rise(
                    batch_idx as int,
                    batch_size as int,
                    stride as int,
                    row,
                    batch_size - 1,
                );
            }
        } else {
            assert(!last_in_range);
        }
    }
    end < len
}

/// The windows of a batch, each `shift` tokens after its start.
fn copy_windows(
    tokens: &[u32],
    batch_idx: usize,
    batch_size: usize,
    max_length: usize,
    stride: usize,
    shift: usize,
) -> (batch: TokenBatch)
    requires
        batch_in_range(tokens@.len() as int, batch_idx, batch_size, max_length, stride),
        shift <= 1,
    ensures
        batch.wf(),
        batch.len == max_length,
        batch@ == windows_of_batch(
            tokens@,
            batch_idx,
            batch_size,
            max_length,
            stride,
            shift as int,
        ),
{
    let ghost expected = windows_of_batch(
        tokens@,
        batch_idx,
        batch_size,
        max_length,
        stride,
        shift as int,
    );
    let mut rows: Vec<Vec<u32>> = Vec::new();
    let mut b: usize = 0;
    while b < batch_size
        invariant
            b <= batch_size,
            shift <= 1,
            batch_in_range(tokens@.len() as int, batch_idx, batch_size, max_length, stride),
            expected == windows_of_batch(
                tokens@,
                batch_idx,
                batch_size,
                max_length,
                stride,
                shift as int,
            ),
            rows@.len() == b,
            forall|k: int|
                0 <= k < b ==> {
                    &&& (#[trigger] rows@[k])@ == expected[k]
                    &&& rows@[k]@.len() == max_length
                },
        decreases batch_size - b,
    {
        proof {
            assert(0 <= batch_idx * batch_size) by (nonlinear_arith);
            lemma_rows_rise(
                batch_idx as int,
                batch_size as int,
                stride as int,
                b as int,
                b as int,
            );
            assert(row_in_range(
                tokens@.len() as int,
                batch_idx,
                batch_size,
                max_length,
                stride,
                b as int,
            ));
            assert(tokens.len() <= usize::MAX);
        }
        let start: usize = (batch_idx * batch_size + b) * stride + shift;
        let row: Vec<u32> = copy_tokens(tokens, start, start + max_length);
        rows.push(row);
        b += 1;
    }
    let batch: TokenBatch = TokenBatch { rows, len: max_length };
    assert(batch@ =~= expected);
    assert(all_of_len(batch@, max_length as nat));
    batch
}

/// The inputs and the targets of a batch as token sequences.
pub fn batch_rows(
    tokens: &[u32],
    batch_idx: usize,
    batch_size: usize,
    max_length: usize,
    stride: usize,
) -> (r: (TokenBatch, TokenBatch))
    requires
        batch_in_range(tokens@.len() as int, batch_idx, batch_size, max_length, stride),
    ensures
        r.0.wf(),
        r.1.wf(),
        r.0.len == max_length,
        r.1.len == max_length,
        r.0@ == batch_inputs(tokens@, batch_idx, batch_size, max_length, stride),
        r.1@ == batch_targets(tokens@, batch_idx, batch_size, max_length, stride),
{
    let inputs: TokenBatch = copy_windows(tokens, batch_idx, batch_size, max_length, stride, 0);
    let targets: TokenBatch = copy_windows(tokens, batch_idx, batch_size, max_length, stride, 1);
    (inputs, targets)
}

/// The inputs and the targets of a batch as tensors of batch and position.
pub fn get_batch(
    tokens: &[u32],
    batch_idx: usize,
    batch_size: usize,
    max_length: usize,
    stride: usize,
    device: &Device,
) -> (r: Result<(Tensor, Tensor), GptError>)
    requires
        batch_in_range(tokens@.len() as int, batch_idx, batch_size, max_length, stride),
    ensures
        guarded(None, r),
        device_is_cpu(*device) ==> r is Ok,
        r matches Ok((x, y)) ==> {
            &&& tensor_dims(x) == seq![batch_size, max_length]
            &&& tensor_dims(y) == seq![batch_size, max_length]
            &&& tensor_element(x) == Element::U32
            &&& tensor_element(y) == Element::U32
            &&& on_cpu(x) == device_is_cpu(*device)
            &&& on_cpu(y) == device_is_cpu(*device)
            &&& batch_yields(
                batch_inputs(tokens@, batch_idx, batch_size, max_length, stride),
                max_length,
                device,
                x,
            )
            &&& batch_yields(
                batch_targets(tokens@, batch_idx, batch_size, max_length, stride),
                max_length,
                device,
                y,
            )
        },
{
    let (inputs, targets): (TokenBatch, TokenBatch) = batch_rows(
        tokens,
        batch_idx,
        batch_size,
        max_length,
        stride,
    );
    let x: Tensor = inputs.to_tensor(device)?;
    let y: Tensor = targets.to_tensor(device)?;
    Ok((x, y))
}

/// The number of batches that fit in a stream of `len` tokens.
pub open spec fn batch_count(
    len: int,
    context_length: int,
    batch_size: int,
    stride: int,
) -> int {
    (len - context_length) / (batch_size * stride)
}

/// The number of batches that fit in a stream of `len` tokens.
pub fn num_train_batches(
    len: usize,
    context_length: usize,
    batch_size: usize,
    stride: usize,
) -> (count: usize)
    requires
        context_length <= len,
        0 < batch_size * stride <= usize::MAX,
    ensures
        count == batch_count(
            len as int,
            context_length as int,
            batch_size as int,
            stride as int,
        ),
{
    (len - context_length) / (batch_size * stride)
}

/// The first `at` tokens, for training, and the others, for validation.
pub fn split_tokens(tokens: &[u32], at: usize) -> (parts: (&[u32], &[u32]))
    requires
        at <= tokens@.len(),
    ensures
        parts.0@ == tokens@.take(at as int),
        parts.1@ == tokens@.skip(at as int),
{
    let train: &[u32] = vstd::slice::slice_subrange(tokens, 0, at);
    let validation: &[u32] = vstd::slice::slice_subrange(tokens, at, tokens.len());
    assert(train@ =~= tokens@.take(at as int));
    assert(validation@ =~= tokens@.skip(at as int));
    (train, validation)
}

/// The training tokens followed by the validation tokens are all tokens.
pub proof fn law_split_loses_nothing(tokens: Seq<u32>, at: int)
    requires
        0 <= at <= tokens.len(),
    ensures
        tokens.take(at) + tokens.skip(at) == tokens,
{
    assert(tokens.take(at) + tokens.skip(at) =~= tokens);
}

/// The target at a position is the input at the next position of the same row.
pub proof fn law_targets_are_the_next_inputs(
    tokens: Seq<u32>,
    batch_idx: usize,
    batch_size: usize,
    max_length: usize,
    stride: usize,
    row: int,
    position: int,
)
    requires
        batch_in_range(tokens.len() as int, batch_idx, batch_size, max_length, stride),
        0 <= row < batch_size,
        0 <= position,
        position + 1 < max_length,
    ensures
        batch_targets(tokens, batch_idx, batch_size, max_length, stride)[row][position]
            == batch_inputs(tokens, batch_idx, batch_size, max_length, stride)[row][position + 1],
{
    lemma_row_in_stream(tokens, batch_idx, batch_size, max_length, stride, row);
}

/// A row of a batch and the token after it lie in the stream.
proof fn lemma_row_in_stream(
    tokens: Seq<u32>,
    batch_idx: usize,
    batch_size: usize,
    max_length: usize,
    stride: usize,
    row: int,
)
    requires
        batch_in_range(tokens.len() as int, batch_idx, batch_size, max_length, stride),
        0 <= row < batch_size,
    ensures
        0 <= row_start(batch_idx as int, batch_size as int, row, stride as int),
        row_start(batch_idx as int, batch_size as int, row, stride as int) + max_length + 1
            <= tokens.len(),
{
    assert(0 <= batch_idx * batch_size) by (nonlinear_arith);
    lemma_rows_rise(batch_idx as int, batch_size as int, stride as int, row, row);
    assert(row_in_range(
        tokens.len() as int,
        batch_idx,
        batch_size,
        max_length,
        stride,
        row,
    ));
}

/// Where rows start as far apart as they are long, the last target of a row is the first input of
/// the next row of the batch.
pub proof fn law_rows_continue(
    tokens: Seq<u32>,
    batch_idx: usize,
    batch_size: usize,
    max_length: usize,
    row: int,
)
    requires
        batch_in_range(tokens.len() as int, batch_idx, batch_size, max_length, max_length),
        0 <= row,
        row + 1 < batch_size,
        0 < max_length,
    ensures
        batch_targets(tokens, batch_idx, batch_size, max_length, max_length)[row].last()
            == batch_inputs(tokens, batch_idx, batch_size, max_length, max_length)[row
            + 1].first(),
{
    lemma_row_in_stream(tokens, batch_idx, batch_size, max_length, max_length, row);
    lemma_row_in_stream(tokens, batch_idx, batch_size, max_length, max_length, row + 1);
    let number = batch_idx * batch_size + row;
    assert((number + 1) * max_length == number * max_length + max_length) by (nonlinear_arith);
}

/// Where rows start as far apart as they are long, the last target of a batch is the first input
/// of the next batch.
pub proof fn law_batches_continue(
    tokens: Seq<u32>,
    batch_idx: usize,
    batch_size: usize,
    max_length: usize,
)
    requires
        batch_idx < usize::MAX,
        0 < batch_size,
        0 < max_length,
        batch_in_range(tokens.len() as int, batch_idx, batch_size, max_length, max_length),
        batch_in_range(
            tokens.len() as int,
            (batch_idx + 1) as usize,
            batch_size,
            max_length,
            max_length,
        ),
    ensures
        batch_targets(
            tokens,
            batch_idx,
            batch_size,
            max_length,
            max_length,
        ).last().last() == batch_inputs(
            tokens,
            (batch_idx + 1) as usize,
            batch_size,
            max_length,
            max_length,
        ).first().first(),
{
    let next = (batch_idx + 1) as usize;
    lemma_row_in_stream(tokens, batch_idx, batch_size, max_length, max_length, batch_size - 1);
    lemma_row_in_stream(tokens, next, batch_size, max_length, max_length, 0);
    let number = batch_idx * batch_size + (batch_size - 1);
    assert(next * batch_size == number + 1) by (nonlinear_arith)
        requires
            next == batch_idx + 1,
            number == batch_idx * batch_size + (batch_size - 1),
    ;
    assert((number + 1) * max_length == number * max_length + max_length) by (nonlinear_arith);
}

/// Every batch below the number of batches lies in the stream.
pub proof fn law_counted_batches_are_in_range(
    len: usize,
    context_length: usize,
    batch_size: usize,
    stride: usize,
    batch_idx: usize,
)
    requires
        context_length <= len,
        0 < batch_size,
        0 < stride,
        batch_idx < batch_count(
            len as int,
            context_length as int,
            batch_size as int,
            stride as int,
        ),
    ensures
        batch_in_range(len as int, batch_idx, batch_size, context_length, stride),
{
    let step = batch_size * stride;
    let room = len - context_length;
    let count = batch_count(len as int, context_length as int, batch_size as int, stride as int);
    assert(step >= 1) by (nonlinear_arith)
        requires
            step == batch_size * stride,
            batch_size >= 1,
            stride >= 1,
    ;
    vstd::arithmetic::div_mod::lemma_fundamental_div_mod(room, step);
    assert((batch_idx + 1) * step <= room) by (nonlinear_arith)
        requires
            batch_idx + 1 <= count,
            step >= 1,
            room == step * count + room % step,
            room % step >= 0,
    ;
    assert forall|row: int| 0 <= row < batch_size implies #[trigger] row_in_range(
        len as int,
        batch_idx,
        batch_size,
        context_length,
        stride,
        row,
    ) by {
        let number = batch_idx * batch_size + row;
        assert(number * stride + stride <= (batch_idx + 1) * step) by (nonlinear_arith)
            requires
                number == batch_idx * batch_size + row,
                row + 1 <= batch_size,
                step == batch_size * stride,
                stride >= 1,
        ;
        assert(0 <= number <= number * stride) by (nonlinear_arith)
            requires
                number == batch_idx * batch_size + row,
                row >= 0,
                stride >= 1,
        ;
    }
}

/// Rows of batches of one size do not overlap where they start at least as far apart as they are
/// long.
pub proof fn law_rows_do_not_overlap(
    batch_size: usize,
    max_length: usize,
    stride: usize,
    batch_a: usize,
    row_a: int,
    batch_b: usize,
    row_b: int,
)
    requires
        max_length <= stride,
        0 <= row_a < batch_size,
        0 <= row_b < batch_size,
        (batch_a, row_a) != (batch_b, row_b),
    ensures
        ({
            let a = row_start(batch_a as int, batch_size as int, row_a, stride as int);
            let b = row_start(batch_b as int, batch_size as int, row_b, stride as int);
            a + max_length <= b || b + max_length <= a
        }),
{
    let a = batch_a * batch_size + row_a;
    let b = batch_b * batch_size + row_b;
    assert(a != b) by {
        if a == b {
            vstd::arithmetic::div_mod::lemma_fundamental_div_mod_converse(
                a,
                batch_size as int,
                batch_a as int,
                row_a,
            );
            vstd::arithmetic::div_mod::lemma_fundamental_div_mod_converse(
                b,
                batch_size as int,
                batch_b as int,
                row_b,
            );
        }
    }
    if a < b {
        assert(a * stride + stride <= b * stride) by (nonlinear_arith)
            requires
                a + 1 <= b,
                0 <= stride,
        ;
    } else {
        assert(b * stride + stride <= a * stride) by (nonlinear_arith)
            requires
                b + 1 <= a,
                0 <= stride,
        ;
    }
}

/// A row depends on its number over all batches alone: it is the only row of the batch of that
/// number among batches of one row.
pub proof fn law_rows_are_numbered_over_all_batches(
    tokens: Seq<u32>,
    batch_idx: usize,
    batch_size: usize,
    max_length: usize,
    stride: usize,
    row: int,
)
    requires
        0 <= row < batch_size,
        batch_idx * batch_size + row <= usize::MAX,
    ensures
        ({
            let number = (batch_idx * batch_size + row) as usize;
            &&& batch_inputs(tokens, batch_idx, batch_size, max_length, stride)[row]
                == batch_inputs(tokens, number, 1, max_length, stride)[0]
            &&& batch_targets(tokens, batch_idx, batch_size, max_length, stride)[row]
                == batch_targets(tokens, number, 1, max_length, stride)[0]
        }),
{
    let number = (batch_idx * batch_size + row) as usize;
    assert(0 <= batch_idx * batch_size) by (nonlinear_arith);
    vstd::arithmetic::mul::lemma_mul_basics(number as int);
    assert(row_start(number as int, 1, 0, stride as int) == row_start(
        batch_idx as int,
        batch_size as int,
        row,
        stride as int,
    ));
}

/// The windows of the first `count` batches, one after the other, each `shift` tokens after its
/// start.
pub open spec fn joined_windows(
    tokens: Seq<u32>,
    count: nat,
    batch_size: usize,
    max_length: usize,
    stride: usize,
    shift: int,
) -> Seq<u32>
    decreases count,
{
    if count == 0 {
        Seq::empty()
    } else {
        joined_windows(tokens, (count - 1) as nat, batch_size, max_length, stride, shift) + flat(
            windows_of_batch(
                tokens,
                (count - 1) as usize,
                batch_size,
                max_length,
                stride,
                shift,
            ),
        )
    }
}

/// Rows that start as far apart as they are long, one after the other, are a piece of the stream.
proof fn lemma_rows_join(
    tokens: Seq<u32>,
    batch_idx: usize,
    batch_size: usize,
    max_length: usize,
    shift: int,
    rows: int,
)
    requires
        0 <= shift,
        0 <= rows <= batch_size,
        (batch_idx * batch_size + batch_size) * max_length + shift <= tokens.len(),
    ensures
        ({
            let start = batch_idx * batch_size * max_length + shift;
            let end = (batch_idx * batch_size + rows) * max_length + shift;
            &&& 0 <= start <= end <= tokens.len()
            &&& flat(
                windows_of_batch(
                    tokens,
                    batch_idx,
                    batch_size,
                    max_length,
                    max_length,
                    shift,
                ).take(rows),
            ) == tokens.subrange(start, end)
        }),
    decreases rows,
{
    let all = windows_of_batch(tokens, batch_idx, batch_size, max_length, max_length, shift);
    let first = batch_idx * batch_size;
    let start = first * max_length + shift;
    let end = (first + rows) * max_length + shift;
    assert(0 <= first) by (nonlinear_arith)
        requires
            first == batch_idx * batch_size,
    ;
    assert(0 <= first * max_length <= (first + rows) * max_length <= (first + batch_size)
        * max_length) by (nonlinear_arith)
        requires
            0 <= first,
            0 <= rows <= batch_size,
            0 <= max_length,
    ;
    if rows == 0 {
        assert(all.take(0) =~= Seq::empty());
        assert(tokens.subrange(start, end) =~= Seq::empty());
    } else {
        lemma_rows_join(tokens, batch_idx, batch_size, max_length, shift, rows - 1);
        let middle = (first + (rows - 1)) * max_length + shift;
        assert((first + rows) * max_length == (first + (rows - 1)) * max_length + max_length)
            by (nonlinear_arith);
        assert(all.take(rows).drop_last() =~= all.take(rows - 1));
        assert(all.take(rows).last() == tokens.subrange(middle, end));
        assert(tokens.subrange(start, middle) + tokens.subrange(middle, end) =~= tokens.subrange(
            start,
            end,
        ));
    }
}

/// Where rows start as far apart as they are long, the windows of the first batches, one after the
/// other, are a piece of the stream.
proof fn lemma_windows_join(
    tokens: Seq<u32>,
    count: nat,
    batch_size: usize,
    max_length: usize,
    shift: int,
)
    requires
        0 <= shift,
        count <= usize::MAX,
        count * batch_size * max_length + shift <= tokens.len(),
    ensures
        joined_windows(tokens, count, batch_size, max_length, max_length, shift)
            == tokens.subrange(shift, count * batch_size * max_length + shift),
    decreases count,
{
    if count == 0 {
        assert(0 * batch_size * max_length == 0) by (nonlinear_arith);
        assert(tokens.subrange(shift, shift) =~= Seq::empty());
    } else {
        let fewer = (count - 1) as nat;
        let all = windows_of_batch(
            tokens,
            fewer as usize,
            batch_size,
            max_length,
            max_length,
            shift,
        );
        assert((fewer * batch_size + batch_size) * max_length == count * batch_size * max_length)
            by (nonlinear_arith)
            requires
                count == fewer + 1,
        ;
        assert(0 <= fewer * batch_size * max_length <= count * batch_size * max_length)
            by (nonlinear_arith)
            requires
                count == fewer + 1,
                0 <= batch_size,
                0 <= max_length,
        ;
        lemma_windows_join(tokens, fewer, batch_size, max_length, shift);
        lemma_rows_join(
            tokens,
            fewer as usize,
            batch_size,
            max_length,
            shift,
            batch_size as int,
        );
        assert(all.take(batch_size as int) =~= all);
        let middle = fewer * batch_size * max_length + shift;
        let end = count * batch_size * max_length + shift;
        assert(tokens.subrange(shift, middle) + tokens.subrange(middle, end) =~= tokens.subrange(
            shift,
            end,
        ));
    }
}

/// Where rows start as far apart as they are long, the inputs of the first `count` batches, one
/// after the other, are the first tokens of the stream, and the targets are the same number of
/// tokens from the second on.
pub proof fn law_batches_tile_the_stream(
    tokens: Seq<u32>,
    count: nat,
    batch_size: usize,
    max_length: usize,
)
    requires
        count <= usize::MAX,
        count * batch_size * max_length < tokens.len(),
    ensures
        joined_windows(tokens, count, batch_size, max_length, max_length, 0) == tokens.take(
            count * batch_size * max_length,
        ),
        joined_windows(tokens, count, batch_size, max_length, max_length, 1) == tokens.subrange(
            1,
            count * batch_size * max_length + 1,
        ),
{
    lemma_windows_join(tokens, count, batch_size, max_length, 0);
    lemma_windows_join(tokens, count, batch_size, max_length, 1);
    assert(tokens.subrange(0, count * batch_size * max_length) =~= tokens.take(
        count * batch_size * max_length,
    ));
}

/// The token at a position of a row of a batch, in the stream: the rows of all batches are numbered
/// through, a row starts a stride behind the one before it, the input at a position is the token as
/// many places behind the start, and its target is the token behind that.
pub proof fn law_batch_reads_the_stream(
    tokens: Seq<u32>,
    batch_idx: usize,
    batch_size: usize,
    max_length: usize,
    stride: usize,
    row: int,
    position: int,
)
    requires
        batch_in_range(tokens.len() as int, batch_idx, batch_size, max_length, stride),
        0 <= row < batch_size,
        0 <= position < max_length,
    ensures
        ({
            let place = (batch_idx * batch_size + row) * stride + position;
            let inputs = batch_inputs(tokens, batch_idx, batch_size, max_length, stride);
            let targets = batch_targets(tokens, batch_idx, batch_size, max_length, stride);
            &&& 0 <= place
            &&& place + 1 < tokens.len()
            &&& inputs.len() == batch_size && targets.len() == batch_size
            &&& inputs[row].len() == max_length && targets[row].len() == max_length
            &&& inputs[row][position] == tokens[place]
            &&& targets[row][position] == tokens[place + 1]
        }),
{
    lemma_row_in_stream(tokens, batch_idx, batch_size, max_length, stride, row);
}

/// A batch lies in a stream where its last row, and the token behind it, does.
pub proof fn law_range_is_that_of_the_last_row(
    len: int,
    batch_idx: usize,
    batch_size: usize,
    max_length: usize,
    stride: usize,
)
    requires
        0 < batch_size,
    ensures
        batch_in_range(len, batch_idx, batch_size, max_length, stride) <==> {
            &&& batch_idx * batch_size + (batch_size - 1) <= usize::MAX
            &&& (batch_idx * batch_size + (batch_size - 1)) * stride + max_length < len
        },
{
    assert(0 <= batch_idx * batch_size) by (nonlinear_arith);
    let last = batch_size - 1;
    if batch_in_range(len, batch_idx, batch_size, max_length, stride) {
        assert(row_in_range(len, batch_idx, batch_size, max_length, stride, last));
    }
    if row_in_range(len, batch_idx, batch_size, max_length, stride, last) {
        assert forall|row: int| 0 <= row < batch_size implies #[trigger] row_in_range(
            len,
            batch_idx,
            batch_size,
            max_length,
            stride,
            row,
        ) by {
            lemma_rows_rise(batch_idx as int, batch_size as int, stride as int, row, last);
        }
    }
}

/// The number of batches is the largest whose strides fit behind the first context.
pub proof fn law_count_is_the_largest(
    len: usize,
    context_length: usize,
    batch_size: usize,
    stride: usize,
)
    requires
        context_length <= len,
        0 < batch_size,
        0 < stride,
    ensures
        ({
            let count = batch_count(
                len as int,
                context_length as int,
                batch_size as int,
                stride as int,
            );
            &&& 0 <= count
            &&& count * (batch_size * stride) + context_length <= len
            &&& len < (count + 1) * (batch_size * stride) + context_length
        }),
{
    let step = batch_size * stride;
    let room = len - context_length;
    let count = batch_count(len as int, context_length as int, batch_size as int, stride as int);
    assert(step >= 1) by (nonlinear_arith)
        requires
            step == batch_size * stride,
            batch_size >= 1,
            stride >= 1,
    ;
    vstd::arithmetic::div_mod::lemma_fundamental_div_mod(room, step);
    vstd::arithmetic::div_mod::lemma_mod_bound(room, step);
    assert(0 <= count && count * step <= room && room < (count + 1) * step) by (nonlinear_arith)
        requires
            room == step * count + room % step,
            0 <= room % step < step,
            step >= 1,
            room >= 0,
    ;
}

/// The tensors of a batch hold its inputs and its targets, in this order, row by row.
pub proof fn law_batch_tensors_hold_inputs_and_targets(
    tokens: &[u32],
    batch_idx: usize,
    batch_size: usize,
    max_length: usize,
    stride: usize,
    device: &Device,
    x: Tensor,
    y: Tensor,
) -> (ids: (Seq<u32>, Seq<u32>))
    requires
        batch_in_range(tokens@.len() as int, batch_idx, batch_size, max_length, stride),
        call_ensures(
            get_batch,
            (tokens, batch_idx, batch_size, max_length, stride, device),
            Ok::<(Tensor, Tensor), GptError>((x, y)),
        ),
    ensures
        ids_yield(ids.0, batch_size, max_length, device, x),
        ids_yield(ids.1, batch_size, max_length, device, y),
        ids.0.len() == batch_size * max_length,
        ids.1.len() == batch_size * max_length,
        forall|row: int, position: int|
            #![trigger ids.0[row * max_length + position]]
            #![trigger ids.1[row * max_length + position]]
            0 <= row < batch_size && 0 <= position < max_length ==> {
                let place = (batch_idx * batch_size + row) * stride + position;
                &&& ids.0[row * max_length + position] == tokens@[place]
                &&& ids.1[row * max_length + position] == tokens@[place + 1]
            },
{
    let inputs = batch_inputs(tokens@, batch_idx, batch_size, max_length, stride);
    let targets = batch_targets(tokens@, batch_idx, batch_size, max_length, stride);
    assert forall|row: int| 0 <= row < batch_size implies (#[trigger] inputs[row]).len()
        == max_length by {
        lemma_row_in_stream(tokens@, batch_idx, batch_size, max_length, stride, row);
    }
    assert forall|row: int| 0 <= row < batch_size implies (#[trigger] targets[row]).len()
        == max_length by {
        lemma_row_in_stream(tokens@, batch_idx, batch_size, max_length, stride, row);
    }
    let first = law_batch_tensor_holds_the_rows(inputs, max_length, device, x);
    let second = law_batch_tensor_holds_the_rows(targets, max_length, device, y);
    assert forall|row: int, position: int|
        #![trigger first[row * max_length + position]]
        #![trigger second[row * max_length + position]]
        0 <= row < batch_size && 0 <= position < max_length implies {
        let place = (batch_idx * batch_size + row) * stride + position;
        &&& first[row * max_length + position] == tokens@[place]
        &&& second[row * max_length + position] == tokens@[place + 1]
    } by {
        law_batch_reads_the_stream(
            tokens@,
            batch_idx,
            batch_size,
            max_length,
            stride,
            row,
            position,
        );
        assert(first[row * max_length + position] == inputs[row][position]);
        assert(second[row * max_length + position] == targets[row][position]);
    }
    (first, second)
}

/// The counted batches of a call, and the parts that a call splits a stream into.
pub proof fn law_batches_are_counted_and_streams_split(
    len: usize,
    context_length: usize,
    batch_size: usize,
    stride: usize,
    count: usize,
    tokens: &[u32],
    at: usize,
    parts: (&[u32], &[u32]),
)
    requires
        call_ensures(num_train_batches, (len, context_length, batch_size, stride), count),
        call_ensures(split_tokens, (tokens, at), parts),
        context_length <= len,
        0 < batch_size,
        0 < stride,
        at <= tokens@.len(),
    ensures
        count * (batch_size * stride) + context_length <= len,
        len < (count + 1) * (batch_size * stride) + context_length,
        parts.0@.len() == at,
        parts.0@ + parts.1@ == tokens@,
{
    law_count_is_the_largest(len, context_length, batch_size, stride);
    law_split_loses_nothing(tokens@, at as int);
}

} // verus!
