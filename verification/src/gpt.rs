//! The model: token and position embeddings, transformer blocks, and a head over the vocabulary.

use crate::error::{explained, first_fault, lift, GptError};
use crate::feed_forward::hidden_width;
use crate::names::{block_path, decimal, layer_path, name_of_block, Layer};
use crate::ops::{
    alike, all_below, all_known, count_embedding_yields, device_is_cpu, drop_out, dropout_yields,
    embed, embed_count, embed_ids, embedding_is_float, embedding_ready, embedding_rows,
    embedding_sized, embedding_table, embedding_widths, embedding_yields, feature_fault,
    ids_embedding_yields, is_embedding_ready, is_linear_ready, is_norm_ready,
    law_dropout_is_idle_outside_of_training, law_dropout_keeps_the_shape,
    law_embedding_of_count_gives_the_first_rows, law_linear_maps_inputs_to_outputs,
    law_norm_broadcasts_its_width, law_sum_broadcasts, linear, linear_ready, linear_sized,
    linear_yields, lookup_fault, norm_ready, norm_width, norm_yields, normalize, on_cpu, packed,
    plain, plus, readable, size_fault, sum_yields, tensor_device, tensor_dims, tensor_element,
    tensor_is_float, with_last,
};
use crate::scope::{child, embedding_at, layer_norm_at, linear_no_bias_at, Scope};
use crate::shapes::{
    addressable, at_least_one, broadcast, lemma_cells_of_three, lemma_volume_of_one,
    lemma_volume_of_three, lemma_volume_of_two,
};
use crate::tokens::{all_of_len, flat, law_flat_is_row_major, lemma_flat_len, TokenBatch};
use crate::transformer::{
    blocks_same_but_dropout, law_block_ignores_dropout_outside_of_training,
    law_block_keeps_the_shape, TransfomerBlock,
};
use candle_core::{Device, Tensor};
use candle_nn::{Dropout, Embedding, LayerNorm, Linear, VarMap};
use vstd::prelude::*;

verus! {

/// A decoder-only transformer.
pub struct GPTModel {
    pub tok_emb: Embedding,
    pub pos_emb: Embedding,
    pub drop_emb: Dropout,
    pub tranformers: Vec<TransfomerBlock>,
    pub final_norm: LayerNorm,
    pub out_head: Linear,
    pub vocab_size: usize,
    pub emb_dim: usize,
}

/// The tensors between the embedded tokens and the output of a model, but for those between its
/// blocks.
pub struct ModelTrace {
    pub positions: Tensor,
    pub placed: Tensor,
    pub normed: Tensor,
}

/// The states between the blocks: each block takes one state to the next.
pub open spec fn chained(
    blocks: Seq<TransfomerBlock>,
    train: bool,
    states: Seq<Tensor>,
) -> bool {
    &&& states.len() == blocks.len() + 1
    &&& forall|i: int|
        0 <= i < blocks.len() ==> (#[trigger] blocks[i]).yields(states[i], train, states[i + 1])
}

/// The first error of the blocks on `b` sequences of `n` positions.
pub open spec fn blocks_fault(blocks: Seq<TransfomerBlock>, b: usize, n: usize) -> Option<GptError>
    decreases blocks.len(),
{
    if blocks.len() == 0 {
        None
    } else {
        first_fault(
            blocks_fault(blocks.drop_last(), b, n),
            blocks.last().batch_fault(b, n),
        )
    }
}

/// Where some of the first blocks have an error, so have all blocks, and it is the same.
proof fn lemma_first_blocks_fault(blocks: Seq<TransfomerBlock>, i: int, b: usize, n: usize)
    requires
        0 <= i <= blocks.len(),
        blocks_fault(blocks.take(i), b, n) is Some,
    ensures
        blocks_fault(blocks, b, n) == blocks_fault(blocks.take(i), b, n),
    decreases blocks.len(),
{
    if i == blocks.len() {
        assert(blocks.take(i) =~= blocks);
    } else {
        assert(blocks.drop_last().take(i) =~= blocks.take(i));
        lemma_first_blocks_fault(blocks.drop_last(), i, b, n);
    }
}

/// The number of positions as the position embedding counts them.
pub open spec fn position_count(n: usize) -> u32 {
    n as u32
}

/// Where the embeddings of a batch are addressable, so are those of its positions.
proof fn lemma_positions_fit(b: usize, n: usize, emb_dim: usize)
    requires
        addressable(seq![b, n, emb_dim]),
    ensures
        position_count(n) <= n,
        addressable(seq![position_count(n) as usize]),
        addressable(seq![position_count(n) as usize, emb_dim]),
{
    assert(n as u32 <= n) by (bit_vector);
    let m = position_count(n) as usize;
    lemma_volume_of_three(b, n, emb_dim);
    lemma_volume_of_two(m, emb_dim);
    let p = at_least_one(b) as int;
    let q = at_least_one(n) as int;
    let s = at_least_one(m) as int;
    let t = at_least_one(emb_dim) as int;
    assert(s * t <= p * q * t) by (nonlinear_arith)
        requires
            1 <= s <= q,
            1 <= p,
            1 <= t,
    ;
    assert(s <= s * t) by (nonlinear_arith)
        requires
            1 <= s,
            1 <= t,
    ;
    lemma_volume_of_one(m);
}

impl GPTModel {
    /// The parts are well formed and of one width.
    pub open spec fn wf(self) -> bool {
        &&& embedding_sized(self.tok_emb, self.vocab_size, self.emb_dim)
        &&& embedding_sized(self.pos_emb, embedding_rows(self.pos_emb), self.emb_dim)
        &&& forall|i: int|
            0 <= i < self.tranformers@.len() ==> {
                &&& (#[trigger] self.tranformers@[i]).wf()
                &&& self.tranformers@[i].width() == self.emb_dim
            }
        &&& norm_width(self.final_norm) == Some(self.emb_dim)
        &&& linear_sized(self.out_head, self.emb_dim, self.vocab_size)
    }

    /// Every block has a head.
    pub open spec fn has_heads(self) -> bool {
        forall|i: int|
            0 <= i < self.tranformers@.len() ==> (#[trigger] self.tranformers@[i]).att.num_heads > 0
    }

    /// Every block can look at `n` positions.
    pub open spec fn sees(self, n: usize) -> bool {
        forall|i: int|
            0 <= i < self.tranformers@.len() ==> n <= (
            #[trigger] self.tranformers@[i]).att.context_length
    }

    /// Every block can look at `n` positions, and the position embedding has so many rows.
    pub open spec fn covers(self, n: usize) -> bool {
        self.sees(n) && position_count(n) <= embedding_rows(self.pos_emb)
    }

    /// The parts succeed on tensors that operations succeed on.
    pub open spec fn ready(self) -> bool {
        &&& embedding_ready(self.tok_emb)
        &&& embedding_ready(self.pos_emb)
        &&& forall|i: int|
            0 <= i < self.tranformers@.len() ==> (#[trigger] self.tranformers@[i]).ready()
        &&& norm_ready(self.final_norm)
        &&& linear_ready(self.out_head)
    }

    /// Tests whether the parts succeed on tensors that operations succeed on.
    pub fn is_ready(&self) -> (yes: bool)
        ensures
            yes == self.ready(),
    {
        let mut i: usize = 0;
        while i < self.tranformers.len()
            invariant
                i <= self.tranformers@.len(),
                forall|k: int| 0 <= k < i ==> (#[trigger] self.tranformers@[k]).ready(),
            decreases self.tranformers@.len() - i,
        {
            if !self.tranformers[i].is_ready() {
                assert(!self.tranformers@[i as int].ready());
                return false;
            }
            i += 1;
        }
        is_embedding_ready(&self.tok_emb) && is_embedding_ready(&self.pos_emb) && is_norm_ready(
            &self.final_norm,
        ) && is_linear_ready(&self.out_head)
    }

    /// In every block the heads fill the width.
    pub open spec fn heads_fill(self) -> bool {
        forall|i: int|
            0 <= i < self.tranformers@.len() ==> (#[trigger] self.tranformers@[i]).att.heads_fill()
    }

    /// The model succeeds outside of training on known tokens in sequences of `n` positions.
    pub open spec fn fits(self, n: usize) -> bool {
        &&& self.ready()
        &&& self.heads_fill()
        &&& self.covers(n)
        &&& n <= u32::MAX
    }

    /// The error of sizes whose layers or whose mask are too large.
    pub open spec fn new_fault(
        vocab_size: usize,
        context_length: usize,
        emb_dim: usize,
        n_layers: usize,
    ) -> Option<GptError> {
        first_fault(
            if n_layers > 0 {
                TransfomerBlock::new_fault(emb_dim, context_length)
            } else {
                None
            },
            first_fault(
                first_fault(
                    size_fault(seq![vocab_size, emb_dim]),
                    size_fault(seq![context_length, emb_dim]),
                ),
                size_fault(seq![emb_dim]),
            ),
        )
    }

    /// The model has the given sizes, and one dropout for all its parts.
    pub open spec fn has_sizes(
        self,
        vocab_size: usize,
        context_length: usize,
        emb_dim: usize,
        n_heads: usize,
        n_layers: usize,
        dropout: Dropout,
    ) -> bool {
        &&& self.vocab_size == vocab_size
        &&& self.emb_dim == emb_dim
        &&& embedding_widths(self.tok_emb) == Some((vocab_size, emb_dim))
        &&& embedding_widths(self.pos_emb) == Some((context_length, emb_dim))
        &&& self.drop_emb == dropout
        &&& self.tranformers@.len() == n_layers
        &&& forall|i: int|
            0 <= i < n_layers ==> (#[trigger] self.tranformers@[i]).has_sizes(
                emb_dim,
                context_length,
                n_heads,
                dropout,
            )
    }

    /// The embeddings are made of the variables in the scopes `tok_emb` and `pos_enb`, the blocks
    /// of those in the scopes with their names, and the last layers of those in the scopes
    /// `final_norm` and `out_head`.
    pub open spec fn made_of(
        self,
        vars: &VarMap,
        device: &Device,
        path: Seq<char>,
        context_length: usize,
    ) -> bool {
        let emb_dim = self.emb_dim;
        &&& embedding_at(
            vars,
            device,
            layer_path(path, Layer::TokEmb),
            self.vocab_size,
            emb_dim,
            self.tok_emb,
        )
        &&& embedding_at(
            vars,
            device,
            layer_path(path, Layer::PosEmb),
            context_length,
            emb_dim,
            self.pos_emb,
        )
        &&& forall|i: int|
            0 <= i < self.tranformers@.len() ==> (#[trigger] self.tranformers@[i]).made_of(
                vars,
                device,
                block_path(path, i as nat),
            )
        &&& layer_norm_at(
            vars,
            device,
            layer_path(path, Layer::FinalNorm),
            emb_dim,
            self.final_norm,
        )
        &&& linear_no_bias_at(
            vars,
            device,
            layer_path(path, Layer::OutHead),
            emb_dim,
            self.vocab_size,
            self.out_head,
        )
    }

    /// The model is made of the variables of some store.
    pub open spec fn is_made(self) -> bool {
        exists|vars: &VarMap, device: &Device, path: Seq<char>, context_length: usize| #[trigger]
            self.made_of(vars, device, path, context_length)
    }

    /// A model over a vocabulary, with its variables in the scope `vb`.
    pub fn new(
        vocab_size: usize,
        context_length: usize,
        emb_dim: usize,
        n_heads: usize,
        n_layers: usize,
        drop_rate: &Dropout,
        vb: &Scope,
    ) -> (r: Result<Self, GptError>)
        ensures
            explained(Self::new_fault(vocab_size, context_length, emb_dim, n_layers), r),
            n_layers > 0 && (hidden_width(emb_dim) > usize::MAX || size_fault(
                seq![hidden_width(emb_dim) as usize, emb_dim],
            ) is Some) ==> r == Err::<Self, GptError>(GptError::TooLarge),
            n_layers == 0 && size_fault(seq![vocab_size, emb_dim]) is Some ==> r == Err::<
                Self,
                GptError,
            >(GptError::TooLarge),
            r matches Ok(model) ==> {
                &&& model.wf()
                &&& model.has_sizes(
                    vocab_size,
                    context_length,
                    emb_dim,
                    n_heads,
                    n_layers,
                    *drop_rate,
                )
                &&& model.made_of(vb.vars, vb.device, vb.path@, context_length)
            },
    {
        proof {
            reveal_strlit("tok_emb");
            reveal_strlit("pos_enb");
            reveal_strlit("final_norm");
            reveal_strlit("out_head");
        }
        let mut seq: Vec<TransfomerBlock> = Vec::new();
        let mut i: usize = 0;
        while i < n_layers
            invariant
                i <= n_layers,
                seq@.len() == i,
                i > 0 ==> TransfomerBlock::new_fault(emb_dim, context_length) is None,
                i > 0 ==> hidden_width(emb_dim) <= usize::MAX && size_fault(
                    seq![hidden_width(emb_dim) as usize, emb_dim],
                ) is None,
                forall|k: int|
                    0 <= k < i ==> {
                        &&& (#[trigger] seq@[k]).wf()
                        &&& seq@[k].has_sizes(emb_dim, context_length, n_heads, *drop_rate)
                        &&& seq@[k].made_of(
                            vb.vars,
                            vb.device,
                            block_path(vb.path@, k as nat),
                        )
                    },
            decreases n_layers - i,
        {
            let name: String = name_of_block(i);
            let block: TransfomerBlock = TransfomerBlock::new(
                emb_dim,
                context_length,
                n_heads,
                drop_rate,
                &vb.pp(name.as_str()),
            )?;
            seq.push(block);
            i += 1;
        }
        let tok_emb: Embedding = vb.pp("tok_emb").embedding(vocab_size, emb_dim)?;
        let pos_emb: Embedding = vb.pp("pos_enb").embedding(context_length, emb_dim)?;
        let final_norm: LayerNorm = vb.pp("final_norm").layer_norm(emb_dim)?;
        let out_head: Linear = vb.pp("out_head").linear_no_bias(emb_dim, vocab_size)?;
        Ok(
            GPTModel {
                tok_emb,
                pos_emb,
                drop_emb: drop_rate.clone(),
                tranformers: seq,
                final_norm,
                out_head,
                vocab_size,
                emb_dim,
            },
        )
    }

    /// The steps from the embedded tokens, in sequences of `n` positions, to the logits `y`: the
    /// sum of the embeddings of the tokens and of their positions goes, after dropout, through the
    /// blocks in their order, and then through the last normalisation and the head.
    pub open spec fn steps(
        self,
        tokens: Tensor,
        device: &Device,
        train: bool,
        n: usize,
        t: ModelTrace,
        states: Seq<Tensor>,
        y: Tensor,
    ) -> bool {
        &&& count_embedding_yields(self.pos_emb, position_count(n), device, t.positions)
        &&& sum_yields(tokens, t.positions, t.placed)
        &&& chained(self.tranformers@, train, states)
        &&& dropout_yields(self.drop_emb, t.placed, train, states.first())
        &&& norm_yields(self.final_norm, states.last(), t.normed)
        &&& linear_yields(self.out_head, t.normed, y)
    }

    /// `y` is what the model gives for embedded tokens, in training or outside of it.
    pub open spec fn continues(
        self,
        tokens: Tensor,
        device: &Device,
        train: bool,
        n: usize,
        y: Tensor,
    ) -> bool {
        exists|t: ModelTrace, states: Seq<Tensor>| #[trigger]
            self.steps(tokens, device, train, n, t, states, y)
    }

    /// `y` is what the model gives for a tensor of tokens, in training or outside of it.
    pub open spec fn yields(self, xs: Tensor, train: bool, y: Tensor) -> bool {
        exists|tokens: Tensor| #[trigger]
            embedding_yields(self.tok_emb, xs, tokens) && self.continues(
                tokens,
                &tensor_device(xs),
                train,
                tensor_dims(xs)[1],
                y,
            )
    }

    /// `y` is what the model gives for token sequences of one length, in training or outside of
    /// it.
    pub open spec fn yields_on(
        self,
        rows: Seq<Seq<u32>>,
        len: usize,
        device: &Device,
        train: bool,
        y: Tensor,
    ) -> bool {
        exists|tokens: Tensor| #[trigger]
            ids_embedding_yields(
                self.tok_emb,
                flat(rows),
                rows.len() as usize,
                len,
                device,
                tokens,
            ) && self.continues(tokens, device, train, len, y)
    }

    /// The error of embeddings that hold integers.
    pub open spec fn embedding_fault(self) -> Option<GptError> {
        if embedding_is_float(self.tok_emb) && embedding_is_float(self.pos_emb) {
            None
        } else {
            Some(GptError::NotFloat)
        }
    }

    /// The error of `b` embedded sequences of `n` positions that make a tensor on the way too
    /// large, or of a model that cannot compute.
    pub open spec fn embedded_fault(self, b: usize, n: usize) -> Option<GptError> {
        first_fault(
            first_fault(self.embedding_fault(), feature_fault(seq![b, n, self.emb_dim])),
            first_fault(
                blocks_fault(self.tranformers@, b, n),
                size_fault(seq![b, n, self.vocab_size]),
            ),
        )
    }

    /// The error of `b` sequences of `n` positions that make a tensor on the way too large, or of
    /// a model that cannot compute.
    pub open spec fn batch_fault(self, b: usize, n: usize) -> Option<GptError> {
        first_fault(lookup_fault(seq![b, n], self.emb_dim), self.embedded_fault(b, n))
    }

    /// The error of tokens that the model cannot be applied to.
    pub open spec fn forward_fault(self, xs: Tensor) -> Option<GptError> {
        let dims = tensor_dims(xs);
        if dims.len() == 2 {
            self.batch_fault(dims[0], dims[1])
        } else {
            None
        }
    }

    /// The embedded tokens and the model succeed together outside of training.
    pub open spec fn fits_embedded(self, tokens: Tensor, device: Device, n: usize) -> bool {
        &&& self.fits(n)
        &&& plain(tokens)
        &&& device_is_cpu(device)
        &&& self.embedded_fault(tensor_dims(tokens)[0], n) is None
    }

    /// The logits of the next token at every position of a batch of embedded token sequences.
    fn forward_embedded(&self, tokens: &Tensor, n: usize, device: &Device, train_mode: bool) -> (r:
        Result<Tensor, GptError>)
        requires
            self.wf(),
            self.has_heads(),
            tensor_dims(*tokens).len() == 3,
            tensor_dims(*tokens)[1] == n,
            tensor_dims(*tokens)[2] == self.emb_dim,
            tensor_element(*tokens) == tensor_element(embedding_table(self.tok_emb)),
            addressable(tensor_dims(*tokens)),
            readable(*tokens),
        ensures
            explained(self.embedded_fault(tensor_dims(*tokens)[0], n), r),
            self.fits_embedded(*tokens, *device, n) && !train_mode ==> r is Ok,
            r matches Ok(y) ==> {
                &&& self.sees(n)
                &&& device_is_cpu(*device) ==> self.covers(n)
                &&& tensor_dims(y) == seq![tensor_dims(*tokens)[0], n, self.vocab_size]
                &&& tensor_is_float(y)
                &&& alike(*tokens, y)
                &&& packed(y)
                &&& self.continues(*tokens, device, train_mode, n, y)
            },
    {
        let ghost b = tensor_dims(*tokens)[0];
        let ghost shape = seq![b, n, self.emb_dim];
        let ghost fits = self.fits_embedded(*tokens, *device, n) && !train_mode;
        proof {
            assert(tensor_dims(*tokens) =~= shape);
            lemma_positions_fit(b, n, self.emb_dim);
            let m = position_count(n) as usize;
            assert(seq![m].push(self.emb_dim) =~= seq![m, self.emb_dim]);
            assert(broadcast(shape, seq![m, self.emb_dim]) =~= shape);
            assert(broadcast(shape, seq![self.emb_dim]) =~= shape);
            assert(with_last(shape, self.vocab_size) =~= seq![b, n, self.vocab_size]);
            if fits {
                assert(m == n);
            }
        }
        let positions: Tensor = embed_count(&self.pos_emb, n as u32, device)?;
        let placed: Tensor = plus(tokens, &positions)?;
        let mut x: Tensor = drop_out(&self.drop_emb, &placed, train_mode)?;

        let ghost mut states: Seq<Tensor> = seq![x];
        let mut i: usize = 0;
        while i < self.tranformers.len()
            invariant
                self.wf(),
                self.has_heads(),
                tensor_dims(*tokens) == shape,
                shape == seq![b, n, self.emb_dim],
                size_fault(shape) is None,
                self.embedding_fault() is None,
                broadcast(shape, seq![self.emb_dim]) == shape,
                fits == (self.fits_embedded(*tokens, *device, n) && !train_mode),
                i <= self.tranformers@.len(),
                blocks_fault(self.tranformers@.take(i as int), b, n) is None,
                i > 0 ==> feature_fault(shape) is None,
                forall|k: int|
                    0 <= k < i ==> n <= (#[trigger] self.tranformers@[k]).att.context_length,
                states.len() == i + 1,
                states.last() == x,
                dropout_yields(self.drop_emb, placed, train_mode, states.first()),
                chained(self.tranformers@.take(i as int), train_mode, states),
                tensor_dims(x) == shape,
                tensor_is_float(x),
                alike(*tokens, x),
                readable(x),
            decreases self.tranformers@.len() - i,
        {
            let block: &TransfomerBlock = &self.tranformers[i];
            proof {
                let all = self.tranformers@;
                assert(all.take(i + 1).drop_last() =~= all.take(i as int));
                assert(all.take(i + 1).last() == *block);
                if block.batch_fault(b, n) is Some {
                    lemma_first_blocks_fault(all, i + 1, b, n);
                }
                if fits {
                    assert(block.fits(x));
                }
            }
            let next: Tensor = block.forward_t(&x, train_mode)?;
            proof {
                let all = self.tranformers@;
                let longer = states.push(next);
                assert forall|k: int| 0 <= k < i + 1 implies (#[trigger] all.take(i + 1)[k]).yields(
                    longer[k],
                    train_mode,
                    longer[k + 1],
                ) by {
                    if k < i {
                        assert(all.take(i as int)[k] == all.take(i + 1)[k]);
                    }
                }
                states = longer;
            }
            x = next;
            i += 1;
        }
        assert(self.tranformers@.take(i as int) =~= self.tranformers@);
        let normed: Tensor = normalize(&self.final_norm, self.emb_dim, &x)?;
        let y: Tensor = linear(&self.out_head, self.vocab_size, &normed)?;
        proof {
            let t = ModelTrace { positions, placed, normed };
            assert(self.steps(*tokens, device, train_mode, n, t, states, y));
        }
        Ok(y)
    }

    /// The logits of the next token at every position of a tensor of batch and position.
    pub fn forward_t(&self, xs: &Tensor, train_mode: bool) -> (r: Result<Tensor, GptError>)
        requires
            self.wf(),
            self.has_heads(),
        ensures
            explained(self.forward_fault(*xs), r),
            tensor_dims(*xs).len() == 2 && lookup_fault(tensor_dims(*xs), self.emb_dim) is Some
                ==> r == Err::<Tensor, GptError>(GptError::TooLarge),
            r matches Ok(y) ==> {
                let dims = tensor_dims(*xs);
                &&& dims.len() == 2
                &&& self.sees(dims[1])
                &&& on_cpu(*xs) ==> self.covers(dims[1])
                &&& tensor_dims(y) == seq![dims[0], dims[1], self.vocab_size]
                &&& tensor_is_float(y)
                &&& packed(y)
                &&& self.yields(*xs, train_mode, y)
            },
    {
        let (_batch_size, seq_len): (usize, usize) = lift(xs.dims2())?;
        assert(tensor_dims(*xs) =~= seq![tensor_dims(*xs)[0], seq_len]);
        let tokens: Tensor = embed(&self.tok_emb, xs)?;
        self.forward_embedded(&tokens, seq_len, xs.device(), train_mode)
    }

    /// The logits of the next token at every position of a batch of token sequences.
    pub fn forward_tokens(&self, batch: &TokenBatch, train_mode: bool, device: &Device) -> (r:
        Result<Tensor, GptError>)
        requires
            self.wf(),
            self.has_heads(),
            batch.wf(),
        ensures
            explained(self.batch_fault(batch@.len() as usize, batch.len), r),
            lookup_fault(seq![batch@.len() as usize, batch.len], self.emb_dim) is Some ==> r
                == Err::<Tensor, GptError>(GptError::TooLarge),
            self.fits(batch.len) && self.batch_fault(batch@.len() as usize, batch.len) is None
                && device_is_cpu(*device) && all_below(flat(batch@), self.vocab_size)
                && batch@.len() > 0 && batch.len > 0 && !train_mode ==> r is Ok,
            r matches Ok(y) ==> {
                &&& self.sees(batch.len)
                &&& device_is_cpu(*device) ==> self.covers(batch.len) && all_known(
                    flat(batch@),
                    self.vocab_size,
                )
                &&& tensor_dims(y) == seq![batch@.len() as usize, batch.len, self.vocab_size]
                &&& tensor_is_float(y)
                &&& tensor_element(y) == tensor_element(embedding_table(self.tok_emb))
                &&& on_cpu(y) == device_is_cpu(*device)
                &&& packed(y)
                &&& self.yields_on(batch@, batch.len, device, train_mode, y)
            },
    {
        let rows: usize = batch.rows.len();
        let n: usize = batch.len;
        assert(seq![rows, n].push(self.emb_dim) =~= seq![rows, n, self.emb_dim]);
        let tokens: Tensor = embed_ids(&self.tok_emb, batch.flatten(), rows, n, device)?;
        proof {
            if self.fits(n) && rows > 0 && n > 0 && feature_fault(
                seq![rows, n, self.emb_dim],
            ) is None {
                lemma_cells_of_three(rows, n, self.emb_dim);
            }
        }
        self.forward_embedded(&tokens, n, device, train_mode)
    }
}

/// Two models differ in their dropouts at most.
pub open spec fn models_same_but_dropout(a: GPTModel, b: GPTModel) -> bool {
    &&& a.tok_emb == b.tok_emb
    &&& a.pos_emb == b.pos_emb
    &&& a.tranformers@.len() == b.tranformers@.len()
    &&& forall|i: int|
        0 <= i < a.tranformers@.len() ==> blocks_same_but_dropout(
            #[trigger] a.tranformers@[i],
            b.tranformers@[i],
        )
    &&& a.final_norm == b.final_norm
    &&& a.out_head == b.out_head
}

/// Outside of training a model gives what it would give with any other dropout.
pub proof fn law_model_ignores_dropout_outside_of_training(
    a: GPTModel,
    b: GPTModel,
    tokens: Tensor,
    device: &Device,
    n: usize,
    y: Tensor,
)
    requires
        models_same_but_dropout(a, b),
        a.continues(tokens, device, false, n, y),
    ensures
        b.continues(tokens, device, false, n, y),
{
    let (t, states) = choose|t: ModelTrace, states: Seq<Tensor>| #[trigger]
        a.steps(tokens, device, false, n, t, states, y);
    law_dropout_is_idle_outside_of_training(a.drop_emb, t.placed, states.first());
    law_dropout_is_idle_outside_of_training(b.drop_emb, t.placed, states.first());
    assert forall|i: int| 0 <= i < b.tranformers@.len() implies (
    #[trigger] b.tranformers@[i]).yields(states[i], false, states[i + 1]) by {
        assert(blocks_same_but_dropout(a.tranformers@[i], b.tranformers@[i]));
        law_block_ignores_dropout_outside_of_training(
            a.tranformers@[i],
            b.tranformers@[i],
            states[i],
            states[i + 1],
        );
    }
    assert(b.steps(tokens, device, false, n, t, states, y));
}

/// No blocks leave a state as it is.
pub proof fn law_chain_of_no_blocks(train: bool, states: Seq<Tensor>)
    ensures
        chained(Seq::empty(), train, states) <==> states.len() == 1,
{
}

/// A chain of a single block is what that block gives.
pub proof fn law_chain_of_one_block(block: TransfomerBlock, train: bool, x: Tensor, y: Tensor)
    ensures
        chained(seq![block], train, seq![x, y]) <==> block.yields(x, train, y),
{
    let blocks = seq![block];
    if chained(blocks, train, seq![x, y]) {
        assert(blocks[0].yields(seq![x, y][0], train, seq![x, y][1]));
    }
}

/// Blocks compose: where one chain ends in the state that another begins with, the blocks of both
/// chain all states.
pub proof fn law_chains_compose(
    a: Seq<TransfomerBlock>,
    b: Seq<TransfomerBlock>,
    train: bool,
    s: Seq<Tensor>,
    t: Seq<Tensor>,
)
    requires
        chained(a, train, s),
        chained(b, train, t),
        s.last() == t.first(),
    ensures
        chained(a + b, train, s + t.drop_first()),
        (s + t.drop_first()).first() == s.first(),
        (s + t.drop_first()).last() == t.last(),
{
    let all = a + b;
    let states = s + t.drop_first();
    assert forall|i: int| 0 <= i < all.len() implies (#[trigger] all[i]).yields(
        states[i],
        train,
        states[i + 1],
    ) by {
        if i < a.len() {
            assert(a[i].yields(s[i], train, s[i + 1]));
        } else {
            let k = i - a.len();
            assert(b[k].yields(t[k], train, t[k + 1]));
            assert(states[i] == t[k]);
        }
    }
}

/// Every chain splits: the first blocks chain the first states, and the others go on from the last
/// of those.
pub proof fn law_chains_split(
    a: Seq<TransfomerBlock>,
    b: Seq<TransfomerBlock>,
    train: bool,
    states: Seq<Tensor>,
)
    requires
        chained(a + b, train, states),
    ensures
        chained(a, train, states.take(a.len() as int + 1)),
        chained(b, train, states.skip(a.len() as int)),
        states.take(a.len() as int + 1).last() == states.skip(a.len() as int).first(),
{
    let all = a + b;
    let s = states.take(a.len() as int + 1);
    let t = states.skip(a.len() as int);
    assert forall|i: int| 0 <= i < a.len() implies (#[trigger] a[i]).yields(
        s[i],
        train,
        s[i + 1],
    ) by {
        assert(all[i].yields(states[i], train, states[i + 1]));
    }
    assert forall|i: int| 0 <= i < b.len() implies (#[trigger] b[i]).yields(
        t[i],
        train,
        t[i + 1],
    ) by {
        let k = i + a.len();
        assert(all[k].yields(states[k], train, states[k + 1]));
    }
}

/// A chain with one block more: the last block is applied to what the blocks before it give.
pub proof fn law_last_block_reads_the_others(
    blocks: Seq<TransfomerBlock>,
    train: bool,
    states: Seq<Tensor>,
)
    requires
        blocks.len() > 0,
        chained(blocks, train, states),
    ensures
        states.len() == blocks.len() + 1,
        chained(blocks.drop_last(), train, states.drop_last()),
        blocks.last().yields(states.drop_last().last(), train, states.last()),
{
    let last = blocks.len() - 1;
    assert(blocks.drop_last() + seq![blocks.last()] =~= blocks);
    law_chains_split(blocks.drop_last(), seq![blocks.last()], train, states);
    assert(states.take(last + 1) =~= states.drop_last());
    assert(states.skip(last) =~= seq![states[last], states[last + 1]]);
    law_chain_of_one_block(blocks.last(), train, states[last], states[last + 1]);
}

/// A model adds the embeddings of the positions from the first on to those of the tokens, drops
/// some out, applies its blocks, each to what the one before it gives, and then the last
/// normalisation and the head.
pub proof fn law_model_chains_its_blocks(
    model: GPTModel,
    tokens: Tensor,
    device: &Device,
    train: bool,
    n: usize,
    y: Tensor,
) -> (r: (ModelTrace, Seq<Tensor>))
    requires
        model.continues(tokens, device, train, n, y),
    ensures
        count_embedding_yields(model.pos_emb, n as u32, device, r.0.positions),
        sum_yields(tokens, r.0.positions, r.0.placed),
        dropout_yields(model.drop_emb, r.0.placed, train, r.1[0]),
        r.1.len() == model.tranformers@.len() + 1,
        forall|i: int|
            0 <= i < model.tranformers@.len() ==> (#[trigger] model.tranformers@[i]).yields(
                r.1[i],
                train,
                r.1[i + 1],
            ),
        norm_yields(model.final_norm, r.1.last(), r.0.normed),
        linear_yields(model.out_head, r.0.normed, y),
{
    choose|t: ModelTrace, states: Seq<Tensor>| #[trigger]
        model.steps(tokens, device, train, n, t, states, y)
}

/// A tensor that the steps of a model lead to is what the model gives.
pub proof fn law_model_gives_what_its_steps_lead_to(
    model: GPTModel,
    tokens: Tensor,
    device: &Device,
    train: bool,
    n: usize,
    t: ModelTrace,
    states: Seq<Tensor>,
    y: Tensor,
)
    requires
        count_embedding_yields(model.pos_emb, n as u32, device, t.positions),
        sum_yields(tokens, t.positions, t.placed),
        dropout_yields(model.drop_emb, t.placed, train, states[0]),
        states.len() == model.tranformers@.len() + 1,
        forall|i: int|
            0 <= i < model.tranformers@.len() ==> (#[trigger] model.tranformers@[i]).yields(
                states[i],
                train,
                states[i + 1],
            ),
        norm_yields(model.final_norm, states.last(), t.normed),
        linear_yields(model.out_head, t.normed, y),
    ensures
        model.continues(tokens, device, train, n, y),
{
    assert(model.steps(tokens, device, train, n, t, states, y));
}

/// A model starts from the embeddings of its tokens, on their device and with their positions.
pub proof fn law_model_embeds_its_tokens(model: GPTModel, xs: Tensor, train: bool, y: Tensor)
    ensures
        model.yields(xs, train, y) <==> exists|tokens: Tensor| #[trigger]
            embedding_yields(model.tok_emb, xs, tokens) && model.continues(
                tokens,
                &tensor_device(xs),
                train,
                tensor_dims(xs)[1],
                y,
            ),
{
}

/// A model starts from the embeddings of its token sequences, read row by row.
pub proof fn law_model_embeds_its_sequences(
    model: GPTModel,
    rows: Seq<Seq<u32>>,
    len: usize,
    device: &Device,
    train: bool,
    y: Tensor,
) -> (ids: Seq<u32>)
    requires
        rows.len() <= usize::MAX,
        all_of_len(rows, len as nat),
        model.yields_on(rows, len, device, train, y),
    ensures
        ids.len() == rows.len() * len,
        forall|i: int, k: int|
            0 <= i < rows.len() && 0 <= k < len ==> ids[i * len + k] == #[trigger] rows[i][k],
        exists|tokens: Tensor| #[trigger]
            ids_embedding_yields(
                model.tok_emb,
                ids,
                rows.len() as usize,
                len,
                device,
                tokens,
            ) && model.continues(tokens, device, train, len, y),
{
    let ids = flat(rows);
    lemma_flat_len(rows, len as nat);
    assert forall|i: int, k: int| 0 <= i < rows.len() && 0 <= k < len implies ids[i * len + k]
        == #[trigger] rows[i][k] by {
        law_flat_is_row_major(rows, len as nat, i, k);
    }
    ids
}

/// Blocks of one width keep the shape of sequences of that width.
pub proof fn law_chains_keep_the_shape(
    blocks: Seq<TransfomerBlock>,
    train: bool,
    states: Seq<Tensor>,
    width: usize,
)
    requires
        chained(blocks, train, states),
        forall|i: int|
            0 <= i < blocks.len() ==> (#[trigger] blocks[i]).wf() && blocks[i].width() == width,
        tensor_dims(states.first()).len() == 3,
        tensor_dims(states.first())[2] == width,
    ensures
        tensor_dims(states.last()) == tensor_dims(states.first()),
        alike(states.first(), states.last()),
    decreases blocks.len(),
{
    if blocks.len() > 0 {
        law_last_block_reads_the_others(blocks, train, states);
        let fewer = blocks.drop_last();
        assert forall|i: int| 0 <= i < fewer.len() implies (#[trigger] fewer[i]).wf()
            && fewer[i].width() == width by {
            assert(fewer[i] == blocks[i]);
        }
        assert(states.drop_last().first() == states.first());
        law_chains_keep_the_shape(fewer, train, states.drop_last(), width);
        assert(blocks[blocks.len() - 1].wf());
        law_block_keeps_the_shape(
            blocks.last(),
            states.drop_last().last(),
            train,
            states.last(),
        );
    }
}

/// A model gives a number for every token of the vocabulary at every position of every sequence.
pub proof fn law_logits_cover_positions_and_vocabulary(
    model: GPTModel,
    tokens: Tensor,
    device: &Device,
    train: bool,
    n: usize,
    y: Tensor,
)
    requires
        model.wf(),
        tensor_dims(tokens).len() == 3,
        tensor_dims(tokens)[1] == n,
        tensor_dims(tokens)[2] == model.emb_dim,
        model.continues(tokens, device, train, n, y),
    ensures
        tensor_dims(y) == seq![tensor_dims(tokens)[0], n, model.vocab_size],
{
    let (b, e) = (tensor_dims(tokens)[0], model.emb_dim);
    let (t, states) = law_model_chains_its_blocks(model, tokens, device, train, n, y);
    let m = n as u32;
    assert(n <= 1 ==> n as u32 == n) by (bit_vector);
    law_embedding_of_count_gives_the_first_rows(model.pos_emb, m, device, t.positions);
    law_sum_broadcasts(tokens, t.positions, t.placed);
    assert(tensor_dims(tokens) =~= seq![b, n, e]);
    assert(tensor_dims(t.placed) =~= seq![b, n, e]);
    law_dropout_keeps_the_shape(model.drop_emb, t.placed, train, states[0]);
    assert(chained(model.tranformers@, train, states));
    law_chains_keep_the_shape(model.tranformers@, train, states, e);
    law_norm_broadcasts_its_width(model.final_norm, states.last(), t.normed);
    assert(broadcast(seq![b, n, e], seq![e]) =~= seq![b, n, e]);
    law_linear_maps_inputs_to_outputs(model.out_head, t.normed, y);
    assert(with_last(seq![b, n, e], model.vocab_size) =~= seq![b, n, model.vocab_size]);
}

/// The parts of a model read the variables with their names.
pub proof fn law_model_reads_its_variables(
    model: GPTModel,
    vars: &VarMap,
    device: &Device,
    path: Seq<char>,
    context_length: usize,
)
    requires
        model.made_of(vars, device, path, context_length),
    ensures
        embedding_at(
            vars,
            device,
            child(path, "tok_emb"@),
            model.vocab_size,
            model.emb_dim,
            model.tok_emb,
        ),
        embedding_at(
            vars,
            device,
            child(path, "pos_enb"@),
            context_length,
            model.emb_dim,
            model.pos_emb,
        ),
        forall|i: int|
            0 <= i < model.tranformers@.len() ==> (#[trigger] model.tranformers@[i]).made_of(
                vars,
                device,
                child(path, "transformer "@ + decimal(i as nat)),
            ),
        layer_norm_at(vars, device, child(path, "final_norm"@), model.emb_dim, model.final_norm),
        linear_no_bias_at(
            vars,
            device,
            child(path, "out_head"@),
            model.emb_dim,
            model.vocab_size,
            model.out_head,
        ),
{
}

/// A call of the model gives logits that the model yields for its input, in training where that is
/// asked for and outside of it where it is not.
pub proof fn law_forward_yields_its_mode(model: &GPTModel, xs: &Tensor, train: bool, y: Tensor)
    requires
        call_ensures(
            GPTModel::forward_t,
            (model, xs, train),
            Ok::<Tensor, GptError>(y),
        ),
    ensures
        model.yields(*xs, train, y),
        tensor_dims(y) == seq![tensor_dims(*xs)[0], tensor_dims(*xs)[1], model.vocab_size],
{
}

/// Blocks have no error where none of them has one.
pub proof fn law_blocks_fault_is_that_of_a_block(
    blocks: Seq<TransfomerBlock>,
    b: usize,
    n: usize,
)
    ensures
        blocks_fault(blocks, b, n) is None <==> forall|i: int|
            0 <= i < blocks.len() ==> (#[trigger] blocks[i]).batch_fault(b, n) is None,
    decreases blocks.len(),
{
    if blocks.len() > 0 {
        let fewer = blocks.drop_last();
        law_blocks_fault_is_that_of_a_block(fewer, b, n);
        if blocks_fault(blocks, b, n) is None {
            assert forall|i: int| 0 <= i < blocks.len() implies (#[trigger] blocks[i]).batch_fault(
                b,
                n,
            ) is None by {
                if i < fewer.len() {
                    assert(fewer[i].batch_fault(b, n) is None);
                }
            }
        }
        if forall|i: int|
            0 <= i < blocks.len() ==> (#[trigger] blocks[i]).batch_fault(b, n) is None {
            assert forall|i: int| 0 <= i < fewer.len() implies (#[trigger] fewer[i]).batch_fault(
                b,
                n,
            ) is None by {
                assert(blocks[i].batch_fault(b, n) is None);
            }
            assert(blocks[blocks.len() - 1].batch_fault(b, n) is None);
        }
    }
}

/// Which batches a model takes: sequences that no block and no position is missing for, with parts
/// that are ready and no tensor on the way too large.
pub proof fn law_model_takes_known_batches(model: GPTModel, xs: Tensor, b: usize, n: usize)
    ensures
        model.fits(n) <==> {
            &&& embedding_ready(model.tok_emb)
            &&& embedding_ready(model.pos_emb)
            &&& norm_ready(model.final_norm)
            &&& linear_ready(model.out_head)
            &&& forall|i: int|
                0 <= i < model.tranformers@.len() ==> {
                    &&& (#[trigger] model.tranformers@[i]).ready()
                    &&& model.tranformers@[i].att.heads_fill()
                    &&& n <= model.tranformers@[i].att.context_length
                }
            &&& n as u32 <= embedding_rows(model.pos_emb)
            &&& n <= u32::MAX
        },
        model.batch_fault(b, n) is None <==> {
            &&& addressable(seq![b, n])
            &&& addressable(seq![b, n, model.emb_dim])
            &&& embedding_is_float(model.tok_emb)
            &&& embedding_is_float(model.pos_emb)
            &&& model.emb_dim > 0
            &&& forall|i: int|
                0 <= i < model.tranformers@.len() ==> (
                #[trigger] model.tranformers@[i]).batch_fault(b, n) is None
            &&& addressable(seq![b, n, model.vocab_size])
        },
        tensor_dims(xs).len() == 2 ==> model.forward_fault(xs) == model.batch_fault(
            tensor_dims(xs)[0],
            tensor_dims(xs)[1],
        ),
        tensor_dims(xs).len() != 2 ==> model.forward_fault(xs) is None,
        model.sees(n) <==> forall|i: int|
            0 <= i < model.tranformers@.len() ==> n <= (
            #[trigger] model.tranformers@[i]).att.context_length,
        model.covers(n) <==> model.sees(n) && n as u32 <= embedding_rows(model.pos_emb),
{
    law_blocks_fault_is_that_of_a_block(model.tranformers@, b, n);
    assert(seq![b, n].push(model.emb_dim) =~= seq![b, n, model.emb_dim]);
}

/// Which sizes a model is made of.
pub proof fn law_model_is_made_of_sizes_that_fit(
    vocab_size: usize,
    context_length: usize,
    emb_dim: usize,
    n_layers: usize,
)
    ensures
        GPTModel::new_fault(vocab_size, context_length, emb_dim, n_layers) is None <==> {
            &&& n_layers > 0 ==> TransfomerBlock::new_fault(emb_dim, context_length) is None
            &&& addressable(seq![vocab_size, emb_dim])
            &&& addressable(seq![context_length, emb_dim])
            &&& addressable(seq![emb_dim])
        },
{
}

/// A call of the model on token sequences gives what the model yields for them, in the mode that is
/// asked for, and outside of training succeeds where the model takes the batch and knows its
/// tokens.
pub proof fn law_forward_on_tokens_yields_its_mode(
    model: &GPTModel,
    batch: &TokenBatch,
    train: bool,
    device: &Device,
    r: Result<Tensor, GptError>,
)
    requires
        call_ensures(GPTModel::forward_tokens, (model, batch, train, device), r),
    ensures
        r is Ok ==> model.yields_on(batch@, batch.len, device, train, r->Ok_0),
        model.fits(batch.len) && model.batch_fault(batch@.len() as usize, batch.len) is None
            && device_is_cpu(*device) && all_below(flat(batch@), model.vocab_size) && batch@.len()
            > 0 && batch.len > 0 && !train ==> r is Ok,
{
}

/// A model that is made has the sizes that are asked for: as many blocks, each with as many heads
/// and a context as long, tables of as many tokens and positions, and one dropout everywhere.
pub proof fn law_new_model_has_its_sizes(
    vocab_size: usize,
    context_length: usize,
    emb_dim: usize,
    n_heads: usize,
    n_layers: usize,
    drop_rate: &Dropout,
    vb: &Scope,
    model: GPTModel,
)
    requires
        call_ensures(
            GPTModel::new,
            (vocab_size, context_length, emb_dim, n_heads, n_layers, drop_rate, vb),
            Ok::<GPTModel, GptError>(model),
        ),
    ensures
        model.vocab_size == vocab_size,
        model.emb_dim == emb_dim,
        model.tranformers@.len() == n_layers,
        embedding_rows(model.tok_emb) == vocab_size,
        embedding_rows(model.pos_emb) == context_length,
        norm_width(model.final_norm) == Some(emb_dim),
        model.drop_emb == *drop_rate,
        forall|i: int|
            0 <= i < n_layers ==> {
                &&& (#[trigger] model.tranformers@[i]).att.d_in == emb_dim
                &&& model.tranformers@[i].att.d_out == emb_dim
                &&& model.tranformers@[i].ff.emb_dim == emb_dim
                &&& model.tranformers@[i].att.num_heads == n_heads
                &&& model.tranformers@[i].att.context_length == context_length
                &&& model.tranformers@[i].att.dropout == *drop_rate
                &&& model.tranformers@[i].drop_shortcut == *drop_rate
            },
        model.made_of(vb.vars, vb.device, vb.path@, context_length),
{
    assert forall|i: int| 0 <= i < n_layers implies {
        &&& (#[trigger] model.tranformers@[i]).att.d_in == emb_dim
        &&& model.tranformers@[i].att.d_out == emb_dim
        &&& model.tranformers@[i].ff.emb_dim == emb_dim
        &&& model.tranformers@[i].att.num_heads == n_heads
        &&& model.tranformers@[i].att.context_length == context_length
        &&& model.tranformers@[i].att.dropout == *drop_rate
        &&& model.tranformers@[i].drop_shortcut == *drop_rate
    } by {
        assert(model.tranformers@[i].wf());
    }
}

} // verus!
