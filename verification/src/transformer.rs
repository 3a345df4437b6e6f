//! A transformer block.

use crate::attention::{
    law_attention_ignores_dropout_outside_of_training, law_attention_keeps_the_positions,
    same_but_dropout, MultiHeadAttention,
};
use crate::error::{explained, first_fault, GptError};
use crate::feed_forward::{
    hidden_width, law_network_activates_between_its_layers, FeedForward,
};
use crate::names::{block_layer_path, BlockLayer};
use crate::ops::{
    alike, drop_out, dropout_yields, feature_fault, filled, is_norm_ready,
    law_dropout_is_idle_outside_of_training, law_dropout_keeps_the_shape,
    law_norm_broadcasts_its_width, law_sum_broadcasts, norm_fault, norm_ready, norm_width,
    norm_yields, normalize, packed, plain, plus, size_fault, sum_yields, tensor_dims,
    tensor_is_float, with_last,
};
use crate::scope::{child, layer_norm_at, linear_at, Scope};
use crate::shapes::{broadcast, broadcast_size, lemma_cells_of_three};
use candle_core::{Device, Tensor};
use candle_nn::{Dropout, LayerNorm, VarMap};
use vstd::prelude::*;

verus! {

/// An attention and a position-wise network, each behind a normalisation and beside a shortcut.
pub struct TransfomerBlock {
    pub att: MultiHeadAttention,
    pub ff: FeedForward,
    pub norm1: LayerNorm,
    pub norm2: LayerNorm,
    pub drop_shortcut: Dropout,
}

/// The tensors between the input and the output of a block.
pub struct BlockTrace {
    pub normed: Tensor,
    pub attended: Tensor,
    pub kept: Tensor,
    pub middle: Tensor,
    pub middle_normed: Tensor,
    pub fed: Tensor,
    pub fed_kept: Tensor,
}

/// A shape of three dimensions broadcast against a single one.
proof fn lemma_broadcast_width(b: usize, n: usize, w: usize, width: usize)
    ensures
        broadcast(seq![b, n, w], seq![width]) == seq![b, n, broadcast_size(w, width)],
{
    assert(broadcast(seq![b, n, w], seq![width]) =~= seq![b, n, broadcast_size(w, width)]);
}

/// Two shapes that differ in the last of three dimensions broadcast against each other.
proof fn lemma_broadcast_last(b: usize, n: usize, v: usize, w: usize)
    ensures
        broadcast(seq![b, n, v], seq![b, n, w]) == seq![b, n, broadcast_size(v, w)],
{
    assert(broadcast(seq![b, n, v], seq![b, n, w]) =~= seq![b, n, broadcast_size(v, w)]);
}

impl TransfomerBlock {
    /// The width of the input and of the output.
    pub open spec fn width(self) -> usize {
        self.att.d_in
    }

    /// The parts are well formed and of one width.
    pub open spec fn wf(self) -> bool {
        &&& self.att.wf()
        &&& self.att.d_out == self.width()
        &&& self.ff.wf()
        &&& self.ff.emb_dim == self.width()
        &&& norm_width(self.norm1) == Some(self.width())
        &&& norm_width(self.norm2) == Some(self.width())
    }

    /// The error of sizes whose layers or whose mask are too large.
    pub open spec fn new_fault(emb_dim: usize, context_length: usize) -> Option<GptError> {
        first_fault(
            first_fault(FeedForward::new_fault(emb_dim), size_fault(seq![emb_dim])),
            MultiHeadAttention::new_fault(emb_dim, emb_dim, context_length),
        )
    }

    /// The network is made of the variables in the scope `ff`, the normalisations of those in the
    /// scopes `norm1` and `norm2`, and the attention of those beside these scopes.
    pub open spec fn made_of(self, vars: &VarMap, device: &Device, path: Seq<char>) -> bool {
        &&& self.ff.made_of(vars, device, child(path, "ff"@))
        &&& layer_norm_at(
            vars,
            device,
            block_layer_path(path, BlockLayer::Norm1),
            self.width(),
            self.norm1,
        )
        &&& layer_norm_at(
            vars,
            device,
            block_layer_path(path, BlockLayer::Norm2),
            self.width(),
            self.norm2,
        )
        &&& self.att.made_of(vars, device, path)
    }

    /// The block has the given sizes, and one dropout for all its parts.
    pub open spec fn has_sizes(
        self,
        emb_dim: usize,
        context_length: usize,
        n_heads: usize,
        dropout: Dropout,
    ) -> bool {
        &&& self.width() == emb_dim
        &&& self.att.context_length == context_length
        &&& self.att.num_heads == n_heads
        &&& self.att.dropout == dropout
        &&& self.drop_shortcut == dropout
    }

    /// A block of the given width over up to `context_length` positions, with its variables in
    /// the scope `vs`.
    pub fn new(
        emb_dim: usize,
        context_length: usize,
        n_heads: usize,
        dropout: &Dropout,
        vs: &Scope,
    ) -> (r: Result<Self, GptError>)
        ensures
            explained(Self::new_fault(emb_dim, context_length), r),
            hidden_width(emb_dim) > usize::MAX || size_fault(
                seq![hidden_width(emb_dim) as usize, emb_dim],
            ) is Some ==> r == Err::<Self, GptError>(GptError::TooLarge),
            r matches Ok(block) ==> {
                &&& block.wf()
                &&& block.has_sizes(emb_dim, context_length, n_heads, *dropout)
                &&& block.made_of(vs.vars, vs.device, vs.path@)
            },
    {
        proof {
            reveal_strlit("ff");
            reveal_strlit("norm1");
            reveal_strlit("norm2");
        }
        let ff: FeedForward = FeedForward::new(emb_dim, &vs.pp("ff"))?;
        let norm1: LayerNorm = vs.pp("norm1").layer_norm(emb_dim)?;
        let norm2: LayerNorm = vs.pp("norm2").layer_norm(emb_dim)?;
        let att: MultiHeadAttention = MultiHeadAttention::new(
            emb_dim,
            emb_dim,
            context_length,
            dropout,
            n_heads,
            vs,
        )?;
        Ok(TransfomerBlock { att, ff, norm1, norm2, drop_shortcut: dropout.clone() })
    }

    /// The parts succeed on tensors that operations succeed on.
    pub open spec fn ready(self) -> bool {
        &&& self.att.ready()
        &&& self.ff.ready()
        &&& norm_ready(self.norm1)
        &&& norm_ready(self.norm2)
    }

    /// Tests whether the parts succeed on tensors that operations succeed on.
    pub fn is_ready(&self) -> (yes: bool)
        ensures
            yes == self.ready(),
    {
        self.att.is_ready() && self.ff.is_ready() && is_norm_ready(&self.norm1) && is_norm_ready(
            &self.norm2,
        )
    }

    /// The block and an input that it succeeds on outside of training.
    pub open spec fn fits(self, x: Tensor) -> bool {
        &&& self.ready()
        &&& self.att.heads_fill()
        &&& plain(x)
        &&& tensor_dims(x).len() == 3
        &&& tensor_dims(x)[1] <= self.att.context_length
        &&& tensor_dims(x)[2] == self.width()
    }

    /// The steps from the input `x` to the output `y`: the attention of the normalised input,
    /// after dropout, is added to the input, and the network of that normalised sum, after
    /// dropout, to the sum.
    pub open spec fn steps(self, x: Tensor, train: bool, t: BlockTrace, y: Tensor) -> bool {
        &&& norm_yields(self.norm1, x, t.normed)
        &&& self.att.yields(t.normed, train, t.attended)
        &&& dropout_yields(self.drop_shortcut, t.attended, train, t.kept)
        &&& sum_yields(t.kept, x, t.middle)
        &&& norm_yields(self.norm2, t.middle, t.middle_normed)
        &&& self.ff.yields(t.middle_normed, t.fed)
        &&& dropout_yields(self.drop_shortcut, t.fed, train, t.fed_kept)
        &&& sum_yields(t.fed_kept, t.middle, y)
    }

    /// `y` is what the block gives for `x`, in training or outside of it.
    pub open spec fn yields(self, x: Tensor, train: bool, y: Tensor) -> bool {
        exists|t: BlockTrace| #[trigger] self.steps(x, train, t, y)
    }

    /// The error of `b` sequences of `n` positions that make a tensor on the way too large, or of
    /// a block without features.
    pub open spec fn batch_fault(self, b: usize, n: usize) -> Option<GptError> {
        first_fault(
            self.att.batch_fault(b, n),
            first_fault(
                feature_fault(seq![b, n, self.width()]),
                size_fault(seq![b, n, hidden_width(self.width()) as usize]),
            ),
        )
    }

    /// The error of an input that cannot be computed with or that makes a tensor on the way too
    /// large.
    pub open spec fn forward_fault(self, x: Tensor) -> Option<GptError> {
        let dims = tensor_dims(x);
        first_fault(
            norm_fault(x, self.width()),
            if dims.len() == 3 {
                self.batch_fault(dims[0], dims[1])
            } else {
                None
            },
        )
    }

    /// Applies the block to a batch of sequences, a tensor of batch, position and feature.
    pub fn forward_t(&self, x: &Tensor, train_mode: bool) -> (r: Result<Tensor, GptError>)
        requires
            self.wf(),
            self.att.num_heads > 0,
        ensures
            explained(self.forward_fault(*x), r),
            self.fits(*x) && self.forward_fault(*x) is None && !train_mode ==> r is Ok,
            r matches Ok(y) ==> {
                let dims = tensor_dims(*x);
                &&& dims.len() == 3
                &&& dims[1] <= self.att.context_length
                &&& dims[2] == self.width() || dims[2] == 1
                &&& tensor_dims(y) == seq![dims[0], dims[1], self.width()]
                &&& tensor_is_float(y)
                &&& alike(*x, y)
                &&& filled(y)
                &&& packed(y)
                &&& self.yields(*x, train_mode, y)
            },
    {
        let width: usize = self.att.d_in;
        let ghost dims = tensor_dims(*x);
        let ghost (b, n, w) = (dims[0], dims[1], dims[2]);
        proof {
            if dims.len() == 3 {
                assert(dims =~= seq![b, n, w]);
                lemma_broadcast_width(b, n, w, width);
                lemma_broadcast_width(b, n, width, width);
                lemma_broadcast_last(b, n, width, w);
                lemma_broadcast_last(b, n, width, width);
                assert(with_last(seq![b, n, width], hidden_width(width) as usize) =~= seq![
                    b,
                    n,
                    hidden_width(width) as usize,
                ]);
            }
        }
        let normed: Tensor = normalize(&self.norm1, width, x)?;
        let attended: Tensor = self.att.forward_t(&normed, train_mode)?;
        let kept: Tensor = drop_out(&self.drop_shortcut, &attended, train_mode)?;
        let middle: Tensor = plus(&kept, x)?;

        proof {
            if width > 0 {
                lemma_cells_of_three(b, n, width);
            }
        }
        let middle_normed: Tensor = normalize(&self.norm2, width, &middle)?;
        let fed: Tensor = self.ff.forward(&middle_normed)?;
        let fed_kept: Tensor = drop_out(&self.drop_shortcut, &fed, train_mode)?;
        let y: Tensor = plus(&fed_kept, &middle)?;
        proof {
            let t = BlockTrace { normed, attended, kept, middle, middle_normed, fed, fed_kept };
            assert(self.steps(*x, train_mode, t, y));
        }
        Ok(y)
    }
}

/// Two blocks differ in their dropouts at most.
pub open spec fn blocks_same_but_dropout(a: TransfomerBlock, b: TransfomerBlock) -> bool {
    &&& same_but_dropout(a.att, b.att)
    &&& a.ff == b.ff
    &&& a.norm1 == b.norm1
    &&& a.norm2 == b.norm2
}

/// Outside of training a block gives what it would give with any other dropout.
pub proof fn law_block_ignores_dropout_outside_of_training(
    a: TransfomerBlock,
    b: TransfomerBlock,
    x: Tensor,
    y: Tensor,
)
    requires
        blocks_same_but_dropout(a, b),
        a.yields(x, false, y),
    ensures
        b.yields(x, false, y),
{
    let t = choose|t: BlockTrace| #[trigger] a.steps(x, false, t, y);
    law_attention_ignores_dropout_outside_of_training(a.att, b.att, t.normed, t.attended);
    law_dropout_is_idle_outside_of_training(a.drop_shortcut, t.attended, t.kept);
    law_dropout_is_idle_outside_of_training(b.drop_shortcut, t.attended, t.kept);
    law_dropout_is_idle_outside_of_training(a.drop_shortcut, t.fed, t.fed_kept);
    law_dropout_is_idle_outside_of_training(b.drop_shortcut, t.fed, t.fed_kept);
    assert(b.steps(x, false, t, y));
}

/// A block adds two branches, each to what goes into it: to the input the attention of the input as
/// the first normalisation gives it, and to that sum the network of the sum as the second
/// normalisation gives it. Each branch goes through dropout before it is added.
pub proof fn law_block_adds_normalised_branches(
    block: TransfomerBlock,
    x: Tensor,
    train: bool,
    y: Tensor,
) -> (t: BlockTrace)
    requires
        block.yields(x, train, y),
    ensures
        norm_yields(block.norm1, x, t.normed),
        block.att.yields(t.normed, train, t.attended),
        dropout_yields(block.drop_shortcut, t.attended, train, t.kept),
        sum_yields(t.kept, x, t.middle),
        norm_yields(block.norm2, t.middle, t.middle_normed),
        block.ff.yields(t.middle_normed, t.fed),
        dropout_yields(block.drop_shortcut, t.fed, train, t.fed_kept),
        sum_yields(t.fed_kept, t.middle, y),
{
    choose|t: BlockTrace| #[trigger] block.steps(x, train, t, y)
}

/// What the network of a block is applied to is what the second normalisation gives for the sum of
/// the input and the attention branch, and the output is that sum with the network added.
pub proof fn law_network_reads_the_second_normalisation(
    block: TransfomerBlock,
    x: Tensor,
    train: bool,
    y: Tensor,
)
    requires
        block.yields(x, train, y),
    ensures
        exists|m: Tensor, z: Tensor, f: Tensor, k: Tensor|
            #![trigger norm_yields(block.norm2, m, z), block.ff.yields(z, f), sum_yields(k, m, y)]
            {
                &&& norm_yields(block.norm2, m, z)
                &&& block.ff.yields(z, f)
                &&& dropout_yields(block.drop_shortcut, f, train, k)
                &&& sum_yields(k, m, y)
            },
{
    let t = law_block_adds_normalised_branches(block, x, train, y);
    assert(norm_yields(block.norm2, t.middle, t.middle_normed));
    assert(block.ff.yields(t.middle_normed, t.fed));
    assert(sum_yields(t.fed_kept, t.middle, y));
}

/// A tensor that both branches lead to is what the block gives.
pub proof fn law_block_gives_what_its_branches_lead_to(
    block: TransfomerBlock,
    x: Tensor,
    train: bool,
    t: BlockTrace,
    y: Tensor,
)
    requires
        norm_yields(block.norm1, x, t.normed),
        block.att.yields(t.normed, train, t.attended),
        dropout_yields(block.drop_shortcut, t.attended, train, t.kept),
        sum_yields(t.kept, x, t.middle),
        norm_yields(block.norm2, t.middle, t.middle_normed),
        block.ff.yields(t.middle_normed, t.fed),
        dropout_yields(block.drop_shortcut, t.fed, train, t.fed_kept),
        sum_yields(t.fed_kept, t.middle, y),
    ensures
        block.yields(x, train, y),
{
    assert(block.steps(x, train, t, y));
}

/// A block keeps the shape of sequences of its width.
pub proof fn law_block_keeps_the_shape(block: TransfomerBlock, x: Tensor, train: bool, y: Tensor)
    requires
        block.wf(),
        tensor_dims(x).len() == 3,
        tensor_dims(x)[2] == block.width(),
        block.yields(x, train, y),
    ensures
        tensor_dims(y) == tensor_dims(x),
        tensor_dims(x)[1] <= block.att.context_length,
        alike(x, y),
{
    let dims = tensor_dims(x);
    let (b, n, w) = (dims[0], dims[1], dims[2]);
    let t = law_block_adds_normalised_branches(block, x, train, y);
    assert(dims =~= seq![b, n, w]);
    lemma_broadcast_width(b, n, w, w);
    lemma_broadcast_last(b, n, w, w);
    law_norm_broadcasts_its_width(block.norm1, x, t.normed);
    law_attention_keeps_the_positions(block.att, t.normed, train, t.attended);
    law_dropout_keeps_the_shape(block.drop_shortcut, t.attended, train, t.kept);
    law_sum_broadcasts(t.kept, x, t.middle);
    law_norm_broadcasts_its_width(block.norm2, t.middle, t.middle_normed);
    law_network_activates_between_its_layers(block.ff, t.middle_normed, t.fed);
    law_dropout_keeps_the_shape(block.drop_shortcut, t.fed, train, t.fed_kept);
    law_sum_broadcasts(t.fed_kept, t.middle, y);
}

/// The parts of a block read the variables with their names.
pub proof fn law_block_reads_its_variables(
    block: TransfomerBlock,
    vars: &VarMap,
    device: &Device,
    path: Seq<char>,
)
    requires
        block.made_of(vars, device, path),
    ensures
        ({
            let ff = child(path, "ff"@);
            let (w, hidden) = (block.ff.emb_dim, (4 * block.ff.emb_dim) as usize);
            &&& linear_at(vars, device, child(ff, "linear1"@), w, hidden, block.ff.l1)
            &&& linear_at(vars, device, child(ff, "linear2"@), hidden, w, block.ff.l2)
        }),
        layer_norm_at(vars, device, child(path, "norm1"@), block.att.d_in, block.norm1),
        layer_norm_at(vars, device, child(path, "norm2"@), block.att.d_in, block.norm2),
        block.att.made_of(vars, device, path),
{
}

/// Which inputs a block takes: plain ones of sequences that are no longer than the context and as
/// wide as the block, with parts that are ready and no tensor on the way too large.
pub proof fn law_block_takes_plain_inputs(block: TransfomerBlock, x: Tensor, b: usize, n: usize)
    ensures
        block.fits(x) <==> {
            &&& block.att.ready()
            &&& block.ff.ready()
            &&& norm_ready(block.norm1)
            &&& norm_ready(block.norm2)
            &&& block.att.heads_fill()
            &&& plain(x)
            &&& tensor_dims(x).len() == 3
            &&& tensor_dims(x)[1] <= block.att.context_length
            &&& tensor_dims(x)[2] == block.att.d_in
        },
        block.batch_fault(b, n) is None <==> {
            &&& block.att.batch_fault(b, n) is None
            &&& block.att.d_in > 0
            &&& size_fault(seq![b, n, (4 * block.att.d_in) as usize]) is None
        },
        tensor_dims(x).len() == 3 ==> (block.forward_fault(x) is None <==> norm_fault(
            x,
            block.att.d_in,
        ) is None && block.batch_fault(tensor_dims(x)[0], tensor_dims(x)[1]) is None),
        tensor_dims(x).len() != 3 ==> block.forward_fault(x) == norm_fault(x, block.att.d_in),
        TransfomerBlock::new_fault(b, n) is None <==> {
            &&& FeedForward::new_fault(b) is None
            &&& size_fault(seq![b]) is None
            &&& MultiHeadAttention::new_fault(b, b, n) is None
        },
{
}

/// A call of the block gives what the block yields for its input, in the mode that is asked for.
pub proof fn law_block_call_yields(
    block: &TransfomerBlock,
    x: &Tensor,
    train: bool,
    r: Result<Tensor, GptError>,
)
    requires
        call_ensures(TransfomerBlock::forward_t, (block, x, train), r),
    ensures
        r is Ok ==> block.yields(*x, train, r->Ok_0),
        block.fits(*x) && block.forward_fault(*x) is None && !train ==> r is Ok,
{
}

} // verus!
