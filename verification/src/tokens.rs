//! Batches of token sequences.

use crate::error::{guarded, GptError};
use crate::ops::{
    all_below, device_is_cpu, ids_tensor, ids_yield, law_matrix_of_ids_has_a_cell_for_each, on_cpu,
    tensor_dims, tensor_element, Element,
};
use candle_core::{Device, Tensor};
use vstd::prelude::*;

verus! {

/// Token sequences of one length.
pub struct TokenBatch {
    pub rows: Vec<Vec<u32>>,
    pub len: usize,
}

/// The last `n` tokens of a sequence, or all of them where there are fewer.
pub open spec fn last_tokens(row: Seq<u32>, n: nat) -> Seq<u32> {
    if row.len() > n {
        row.skip(row.len() - n)
    } else {
        row
    }
}

/// The last tokens of every sequence.
pub open spec fn windows(rows: Seq<Seq<u32>>, n: nat) -> Seq<Seq<u32>> {
    rows.map_values(|row: Seq<u32>| last_tokens(row, n))
}

/// Every sequence with one more token.
pub open spec fn extended(rows: Seq<Seq<u32>>, next: Seq<u32>) -> Seq<Seq<u32>> {
    Seq::new(rows.len(), |i: int| rows[i].push(next[i]))
}

/// The sequences one after the other.
pub open spec fn flat(rows: Seq<Seq<u32>>) -> Seq<u32>
    decreases rows.len(),
{
    if rows.len() == 0 {
        Seq::empty()
    } else {
        flat(rows.drop_last()) + rows.last()
    }
}

/// All sequences have the given length.
pub open spec fn all_of_len(rows: Seq<Seq<u32>>, len: nat) -> bool {
    forall|i: int| 0 <= i < rows.len() ==> (#[trigger] rows[i]).len() == len
}

/// Sequences of one length, one after the other, have their number times that length tokens.
pub proof fn lemma_flat_len(rows: Seq<Seq<u32>>, len: nat)
    requires
        all_of_len(rows, len),
    ensures
        flat(rows).len() == rows.len() * len,
    decreases rows.len(),
{
    if rows.len() > 0 {
        lemma_flat_len(rows.drop_last(), len);
        let count = rows.len() as int;
        assert((count - 1) * len + len == count * len) by (nonlinear_arith);
    } else {
        assert(0 * len == 0) by (nonlinear_arith);
    }
}

/// Sequences of one length lie one after the other row by row: the token `k` of the sequence `i`
/// has `i` sequences and `k` tokens before it.
pub proof fn law_flat_is_row_major(rows: Seq<Seq<u32>>, len: nat, i: int, k: int)
    requires
        all_of_len(rows, len),
        0 <= i < rows.len(),
        0 <= k < len,
    ensures
        0 <= i * len + k < flat(rows).len(),
        flat(rows)[i * len + k] == rows[i][k],
    decreases rows.len(),
{
    lemma_flat_len(rows, len);
    let front = rows.drop_last();
    lemma_flat_len(front, len);
    let count = rows.len() as int;
    assert(0 <= i * len) by (nonlinear_arith)
        requires
            0 <= i,
            0 <= len,
    ;
    if i == count - 1 {
        assert((count - 1) * len + len == count * len) by (nonlinear_arith);
    } else {
        law_flat_is_row_major(front, len, i, k);
    }
    assert(front.len() * len + len == count * len) by (nonlinear_arith)
        requires
            front.len() == count - 1,
    ;
}

/// Every token of every sequence is of a vocabulary.
pub open spec fn rows_below(rows: Seq<Seq<u32>>, vocab_size: usize) -> bool {
    forall|i: int| 0 <= i < rows.len() ==> all_below(#[trigger] rows[i], vocab_size)
}

/// Sequences of tokens of a vocabulary, one after the other, are tokens of it.
pub proof fn lemma_flat_below(rows: Seq<Seq<u32>>, vocab_size: usize)
    requires
        rows_below(rows, vocab_size),
    ensures
        all_below(flat(rows), vocab_size),
    decreases rows.len(),
{
    if rows.len() > 0 {
        let front = rows.drop_last();
        assert forall|i: int| 0 <= i < front.len() implies all_below(
            #[trigger] front[i],
            vocab_size,
        ) by {
            assert(front[i] == rows[i]);
        }
        lemma_flat_below(front, vocab_size);
        assert(all_below(rows[rows.len() - 1], vocab_size));
        assert forall|k: int| 0 <= k < flat(rows).len() implies #[trigger] flat(rows)[k]
            < vocab_size by {
            let split = flat(front).len() as int;
            if k < split {
                assert(flat(rows)[k] == flat(front)[k]);
            } else {
                assert(flat(rows)[k] == rows.last()[k - split]);
            }
        }
    }
}

/// A copy of the tokens from `from` to before `to`.
pub fn copy_tokens(tokens: &[u32], from: usize, to: usize) -> (copy: Vec<u32>)
    requires
        from <= to <= tokens@.len(),
    ensures
        copy@ == tokens@.subrange(from as int, to as int),
{
    let mut copy: Vec<u32> = Vec::new();
    let mut i: usize = from;
    while i < to
        invariant
            from <= i <= to <= tokens@.len(),
            copy@ == tokens@.subrange(from as int, i as int),
        decreases to - i,
    {
        copy.push(tokens[i]);
        assert(tokens@.subrange(from as int, i + 1) =~= tokens@.subrange(
            from as int,
            i as int,
        ).push(tokens@[i as int]));
        i += 1;
    }
    copy
}

impl View for TokenBatch {
    type V = Seq<Seq<u32>>;

    /// The sequences.
    open spec fn view(&self) -> Seq<Seq<u32>> {
        self.rows@.map_values(|row: Vec<u32>| row@)
    }
}

/// `y` is what token sequences of one length give as a tensor of batch and position.
pub open spec fn batch_yields(
    rows: Seq<Seq<u32>>,
    len: usize,
    device: &Device,
    y: Tensor,
) -> bool {
    ids_yield(flat(rows), rows.len() as usize, len, device, y)
}

impl TokenBatch {
    /// The sequences have the length of the batch.
    pub open spec fn wf(self) -> bool {
        all_of_len(self@, self.len as nat)
    }

    /// A batch of a single sequence.
    pub fn single(tokens: Vec<u32>) -> (batch: TokenBatch)
        ensures
            batch.wf(),
            batch@ == seq![tokens@],
            batch.len == tokens@.len(),
    {
        let len: usize = tokens.len();
        let batch: TokenBatch = TokenBatch { rows: vec![tokens], len };
        assert(batch@ =~= seq![tokens@]);
        batch
    }

    /// The last `context_size` tokens of every sequence, or all of them where there are fewer.
    pub fn window(&self, context_size: usize) -> (batch: TokenBatch)
        requires
            self.wf(),
        ensures
            batch.wf(),
            batch@ == windows(self@, context_size as nat),
            batch.len == if self.len > context_size {
                context_size
            } else {
                self.len
            },
    {
        let from: usize = if self.len > context_size { self.len - context_size } else { 0 };
        let mut rows: Vec<Vec<u32>> = Vec::new();
        let mut i: usize = 0;
        while i < self.rows.len()
            invariant
                self.wf(),
                i <= self.rows@.len() == self@.len(),
                from == if self.len > context_size {
                    self.len - context_size
                } else {
                    0
                },
                rows@.len() == i,
                forall|k: int|
                    0 <= k < i ==> (#[trigger] rows@[k])@ == last_tokens(
                        self@[k],
                        context_size as nat,
                    ),
            decreases self.rows@.len() - i,
        {
            assert(self@[i as int] == self.rows@[i as int]@);
            let row: Vec<u32> = copy_tokens(&self.rows[i], from, self.len);
            assert(row@ =~= last_tokens(self@[i as int], context_size as nat));
            rows.push(row);
            i += 1;
        }
        let batch: TokenBatch = TokenBatch { rows, len: self.len - from };
        assert(batch@ =~= windows(self@, context_size as nat));
        batch
    }

    /// Appends one token to every sequence.
    pub fn append(&mut self, next: Vec<u32>)
        requires
            old(self).wf(),
            next@.len() == old(self)@.len(),
            old(self).len < usize::MAX,
        ensures
            final(self).wf(),
            final(self)@ == extended(old(self)@, next@),
            final(self).len == old(self).len + 1,
    {
        let ghost before = self@;
        let mut rows: Vec<Vec<u32>> = Vec::new();
        let mut i: usize = 0;
        while i < self.rows.len()
            invariant
                self@ == before,
                self.wf(),
                self.len == old(self).len,
                next@.len() == before.len(),
                i <= self.rows@.len() == before.len(),
                rows@.len() == i,
                forall|k: int|
                    0 <= k < i ==> (#[trigger] rows@[k])@ == before[k].push(next@[k]),
            decreases self.rows@.len() - i,
        {
            assert(self@[i as int] == self.rows@[i as int]@);
            let mut row: Vec<u32> = copy_tokens(&self.rows[i], 0, self.len);
            assert(row@ =~= before[i as int]);
            row.push(next[i]);
            rows.push(row);
            i += 1;
        }
        self.rows = rows;
        self.len = self.len + 1;
        assert(self@ =~= extended(before, next@));
    }

    /// The sequences one after the other.
    pub fn flatten(&self) -> (ids: Vec<u32>)
        requires
            self.wf(),
        ensures
            ids@ == flat(self@),
            ids@.len() == self@.len() * self.len,
    {
        let mut ids: Vec<u32> = Vec::new();
        let mut i: usize = 0;
        while i < self.rows.len()
            invariant
                self.wf(),
                i <= self.rows@.len() == self@.len(),
                ids@ == flat(self@.take(i as int)),
            decreases self.rows@.len() - i,
        {
            assert(self@[i as int] == self.rows@[i as int]@);
            let row: &Vec<u32> = &self.rows[i];
            let mut k: usize = 0;
            while k < row.len()
                invariant
                    k <= row@.len(),
                    ids@ == flat(self@.take(i as int)) + row@.take(k as int),
                decreases row@.len() - k,
            {
                ids.push(row[k]);
                assert(row@.take(k + 1) =~= row@.take(k as int).push(row@[k as int]));
                k += 1;
            }
            proof {
                assert(row@.take(k as int) =~= row@);
                assert(self@.take(i + 1).drop_last() =~= self@.take(i as int));
            }
            i += 1;
        }
        proof {
            assert(self@.take(i as int) =~= self@);
            lemma_flat_len(self@, self.len as nat);
        }
        ids
    }

    /// The batch as a tensor of batch and position.
    pub fn to_tensor(&self, device: &Device) -> (r: Result<Tensor, GptError>)
        requires
            self.wf(),
        ensures
            guarded(None, r),
            device_is_cpu(*device) ==> r is Ok,
            r matches Ok(y) ==> {
                &&& tensor_dims(y) == seq![self@.len() as usize, self.len]
                &&& tensor_element(y) == Element::U32
                &&& on_cpu(y) == device_is_cpu(*device)
                &&& batch_yields(self@, self.len, device, y)
            },
    {
        ids_tensor(self.flatten(), self.rows.len(), self.len, device)
    }
}

/// The window of a sequence is its end: as many tokens as are asked for, or all where there are
/// fewer, and they are the last ones.
pub proof fn law_window_is_the_end(row: Seq<u32>, n: nat)
    ensures
        last_tokens(row, n).is_suffix_of(row),
        last_tokens(row, n).len() <= n,
        last_tokens(row, n).len() == n || last_tokens(row, n) == row,
{
    let end = last_tokens(row, n);
    assert(end =~= row.subrange(row.len() - end.len(), row.len() as int));
}

/// The windows of some sequences are the ends of each of them, in their order.
pub proof fn law_windows_are_the_ends(rows: Seq<Seq<u32>>, n: nat, i: int)
    requires
        0 <= i < rows.len(),
    ensures
        windows(rows, n).len() == rows.len(),
        windows(rows, n)[i].is_suffix_of(rows[i]),
        windows(rows, n)[i].len() <= n,
        windows(rows, n)[i].len() == n || windows(rows, n)[i] == rows[i],
{
    law_window_is_the_end(rows[i], n);
}

/// One more token for every sequence goes to its end and leaves the sequence before it.
pub proof fn law_extension_goes_to_the_end(rows: Seq<Seq<u32>>, next: Seq<u32>, i: int)
    requires
        0 <= i < rows.len(),
    ensures
        extended(rows, next).len() == rows.len(),
        extended(rows, next)[i].len() == rows[i].len() + 1,
        extended(rows, next)[i].drop_last() == rows[i],
        extended(rows, next)[i].last() == next[i],
{
    assert(extended(rows, next)[i].drop_last() =~= rows[i]);
}

/// The tensor of a batch is made of its tokens row by row.
pub proof fn law_batch_tensor_holds_the_rows(
    rows: Seq<Seq<u32>>,
    len: usize,
    device: &Device,
    y: Tensor,
) -> (ids: Seq<u32>)
    requires
        rows.len() <= usize::MAX,
        all_of_len(rows, len as nat),
        batch_yields(rows, len, device, y),
    ensures
        ids.len() == rows.len() * len,
        forall|i: int, k: int|
            0 <= i < rows.len() && 0 <= k < len ==> ids[i * len + k] == #[trigger] rows[i][k],
        ids_yield(ids, rows.len() as usize, len, device, y),
        tensor_dims(y) == seq![rows.len() as usize, len],
{
    let ids = flat(rows);
    lemma_flat_len(rows, len as nat);
    assert forall|i: int, k: int| 0 <= i < rows.len() && 0 <= k < len implies ids[i * len + k]
        == #[trigger] rows[i][k] by {
        law_flat_is_row_major(rows, len as nat, i, k);
    }
    law_matrix_of_ids_has_a_cell_for_each(ids, rows.len() as usize, len, device, y);
    ids
}

/// A window of a batch holds the end of every sequence of it.
pub proof fn law_batch_window_holds_the_ends(
    batch: &TokenBatch,
    context_size: usize,
    window: TokenBatch,
    i: int,
)
    requires
        call_ensures(TokenBatch::window, (batch, context_size), window),
        0 <= i < batch@.len(),
    ensures
        window@.len() == batch@.len(),
        window@[i].is_suffix_of(batch@[i]),
        window@[i].len() <= context_size,
        window@[i].len() == context_size || window@[i] == batch@[i],
        window.len <= batch.len && window.len <= context_size,
        window.len == batch.len || window.len == context_size,
{
    law_windows_are_the_ends(batch@, context_size as nat, i);
}

} // verus!
