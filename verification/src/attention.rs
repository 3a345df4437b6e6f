//! Causal self-attention with several heads.

use crate::error::{explained, first_fault, lift, GptError};
use crate::names::{block_layer_path, BlockLayer};
use crate::ops::{
    alike, choice_yields, contiguous_yields, corner_yields, dense, device_is_cpu, divide_by_root,
    drop_out, dropout_yields, expand, expand_yields, fault_of, filled, is_linear_ready,
    law_choice_keeps_the_shape, law_corner_is_square, law_dropout_is_idle_outside_of_training,
    law_dropout_keeps_the_shape, law_expansion_has_the_shape, law_linear_maps_inputs_to_outputs,
    law_product_contracts_the_inner_size, law_reshape_keeps_the_elements,
    law_row_major_keeps_the_shape, law_scaling_is_by_a_reciprocal_root, law_softmax_keeps_the_shape,
    law_transpose_exchanges_two_dimensions, lemma_packed_is_reducible, lemma_packed_repeats_nothing,
    lemma_ready_widths, linear, linear_ready, linear_sized, linear_yields, matmul_yields,
    matrices_apart, minus_infinity, minus_infinity_yields, multiply, on_cpu, packed, pick, plain,
    reshape, reshape_yields, root_scaling_yields, row_major, single, size_fault, softmax,
    softmax_yields, swapped, tensor_dims, tensor_element, tensor_is_float, tensor_strides, top_left,
    transpose, transpose_yields, with_last, Element,
};
use crate::scope::{child, linear_at, linear_no_bias_at, lower_triangle_yields, Scope};
use crate::shapes::{
    addressable, at_least_one, lemma_cells_of_four, lemma_cells_of_three, lemma_product_of_four,
    lemma_product_of_three, lemma_size_within_volume, lemma_volume_of_four, product, size_from_end,
    volume,
};
use candle_core::{Device, Tensor};
use candle_nn::{Dropout, Linear, VarMap};
use vstd::prelude::*;

verus! {

/// Attention of the positions of a sequence to themselves and to those before them, in
/// `num_heads` heads beside each other.
pub struct MultiHeadAttention {
    pub wq: Linear,
    pub wk: Linear,
    pub wv: Linear,
    pub dropout: Dropout,
    pub mask: Tensor,
    pub out_proj: Linear,
    pub num_heads: usize,
    pub d_in: usize,
    pub d_out: usize,
    pub context_length: usize,
}

/// The tensors between the input and the output of an attention.
pub struct AttentionTrace {
    pub queries: Tensor,
    pub keys: Tensor,
    pub values: Tensor,
    pub query_heads: Tensor,
    pub key_heads: Tensor,
    pub value_heads: Tensor,
    pub key_columns: Tensor,
    pub scores: Tensor,
    pub corner: Tensor,
    pub visible: Tensor,
    pub infinity: Tensor,
    pub hidden: Tensor,
    pub masked: Tensor,
    pub scaled: Tensor,
    pub weights: Tensor,
    pub kept: Tensor,
    pub context: Tensor,
    pub rows: Tensor,
    pub dense: Tensor,
    pub joined: Tensor,
}

/// The steps that part the last dimension of a projection into heads.
pub open spec fn head_steps(
    x: Tensor,
    dims: Seq<usize>,
    parted: Tensor,
    turned: Tensor,
    y: Tensor,
) -> bool {
    &&& reshape_yields(x, dims, parted)
    &&& transpose_yields(parted, 1, 2, turned)
    &&& contiguous_yields(turned, y)
}

/// `y` holds the heads of the projection `x`: the elements in the shape `dims`, which is batch,
/// position, head and feature, with the heads before the positions.
pub open spec fn heads_yield(x: Tensor, dims: Seq<usize>, y: Tensor) -> bool {
    exists|parted: Tensor, turned: Tensor| #[trigger] head_steps(x, dims, parted, turned, y)
}

/// Parts the last dimension of a projection into heads.
fn split_heads(x: &Tensor, b: usize, n: usize, heads: usize, width: usize) -> (r: Result<
    Tensor,
    GptError,
>)
    requires
        addressable(tensor_dims(*x)),
    ensures
        explained(size_fault(seq![b, n, heads, width]), r),
        addressable(seq![b, n, heads, width]) && single(*x) && product(tensor_dims(*x)) == product(
            seq![b, n, heads, width],
        ) ==> r is Ok,
        r matches Ok(y) ==> {
            &&& product(tensor_dims(*x)) == product(seq![b, n, heads, width])
            &&& tensor_dims(y) == seq![b, heads, n, width]
            &&& alike(*x, y)
            &&& dense(y)
            &&& filled(y) ==> matrices_apart(y)
            &&& heads_yield(*x, seq![b, n, heads, width], y)
        },
{
    let dims: Vec<usize> = vec![b, n, heads, width];
    assert(dims@ =~= seq![b, n, heads, width]);
    let parted: Tensor = reshape(x, dims)?;
    let turned: Tensor = transpose(&parted, 1, 2)?;
    proof {
        assert(swapped(seq![b, n, heads, width], 1, 2) =~= seq![b, heads, n, width]);
        lemma_heads_swap(b, n, heads, width);
    }
    let y: Tensor = row_major(&turned)?;
    proof {
        lemma_cells_of_four(b, heads, n, width);
        lemma_cells_of_four(b, n, heads, width);
        if filled(y) {
            lemma_packed_repeats_nothing(parted);
            if packed(y) {
                lemma_packed_repeats_nothing(y);
            }
        }
    }
    assert(head_steps(*x, seq![b, n, heads, width], parted, turned, y));
    Ok(y)
}

/// Exchanging two inner sizes leaves the volume as it is.
proof fn lemma_heads_swap(b: usize, n: usize, heads: usize, width: usize)
    ensures
        volume(seq![b, heads, n, width]) == volume(seq![b, n, heads, width]),
        volume(seq![b, heads, width, n]) == volume(seq![b, n, heads, width]),
{
    lemma_volume_of_four(b, n, heads, width);
    lemma_volume_of_four(b, heads, n, width);
    lemma_volume_of_four(b, heads, width, n);
    let p = at_least_one(b);
    let q = at_least_one(n);
    let s = at_least_one(heads);
    let t = at_least_one(width);
    assert(p * s * q * t == p * q * s * t) by (nonlinear_arith);
    assert(p * s * t * q == p * q * s * t) by (nonlinear_arith);
}

/// Where a batch with cells has as many of them parted into heads as before, the heads fill the
/// width.
proof fn lemma_heads_fill(b: usize, n: usize, heads: usize, width: usize, d_out: usize)
    requires
        product(seq![b, n, d_out]) == product(seq![b, n, heads, width]),
    ensures
        b > 0 && n > 0 ==> heads * width == d_out,
{
    lemma_product_of_three(b, n, d_out);
    lemma_product_of_four(b, n, heads, width);
    assert(b > 0 && n > 0 ==> heads * width == d_out) by (nonlinear_arith)
        requires
            b * n * d_out == b * n * heads * width,
    ;
}

/// The shapes on the way of an attention whose heads fill its width have cells, and parting the
/// features into heads keeps their number.
proof fn lemma_attention_cells(att: MultiHeadAttention, b: usize, n: usize)
    requires
        att.wf(),
        att.ready(),
        att.heads_fill(),
        product(seq![b, n, att.d_in]) > 0,
    ensures
        product(seq![b, n, att.d_out]) > 0,
        product(seq![b, n, att.num_heads, att.head_width()]) == product(seq![b, n, att.d_out]),
        product(seq![b, att.num_heads, n, att.head_width()]) > 0,
        product(seq![b, att.num_heads, n, n]) > 0,
{
    let heads = att.num_heads;
    let width = att.head_width();
    lemma_ready_widths(att.wq);
    lemma_cells_of_three(b, n, att.d_in);
    lemma_cells_of_three(b, n, att.d_out);
    assert(heads > 0 && width > 0) by (nonlinear_arith)
        requires
            heads * width > 0,
            heads >= 0,
            width >= 0,
    ;
    lemma_cells_of_four(b, heads, n, width);
    lemma_cells_of_four(b, heads, n, n);
    lemma_product_of_three(b, n, att.d_out);
    lemma_product_of_four(b, n, heads, width);
    assert(b * n * heads * width == b * n * att.d_out) by (nonlinear_arith)
        requires
            heads * width == att.d_out,
    ;
}

impl MultiHeadAttention {
    /// The layers have the widths of the attention, and the mask covers the context with bytes.
    pub open spec fn wf(self) -> bool {
        &&& linear_sized(self.wq, self.d_in, self.d_out)
        &&& linear_sized(self.wk, self.d_in, self.d_out)
        &&& linear_sized(self.wv, self.d_in, self.d_out)
        &&& linear_sized(self.out_proj, self.d_out, self.d_out)
        &&& tensor_dims(self.mask) == seq![self.context_length, self.context_length]
        &&& tensor_element(self.mask) == Element::U8
    }

    /// The error of sizes whose layers or whose mask are too large.
    pub open spec fn new_fault(d_in: usize, d_out: usize, context_length: usize) -> Option<
        GptError,
    > {
        first_fault(
            first_fault(size_fault(seq![d_out, d_in]), size_fault(seq![d_out, d_out])),
            size_fault(seq![context_length, context_length]),
        )
    }

    /// The layers are made of the variables `wq`, `wk` and `wv`, without a bias, and `out_proj`,
    /// with one, under the given path, and the mask is a lower triangle on the given device.
    pub open spec fn made_of(self, vars: &VarMap, device: &Device, path: Seq<char>) -> bool {
        let d_in = self.d_in;
        let d_out = self.d_out;
        &&& linear_no_bias_at(
            vars,
            device,
            block_layer_path(path, BlockLayer::Query),
            d_in,
            d_out,
            self.wq,
        )
        &&& linear_no_bias_at(
            vars,
            device,
            block_layer_path(path, BlockLayer::Key),
            d_in,
            d_out,
            self.wk,
        )
        &&& linear_no_bias_at(
            vars,
            device,
            block_layer_path(path, BlockLayer::Value),
            d_in,
            d_out,
            self.wv,
        )
        &&& linear_at(
            vars,
            device,
            block_layer_path(path, BlockLayer::OutProj),
            d_out,
            d_out,
            self.out_proj,
        )
        &&& lower_triangle_yields(self.context_length, device, self.mask)
        &&& on_cpu(self.mask) == device_is_cpu(*device)
    }

    /// An attention from inputs of the width `d_in` to outputs of the width `d_out` over up to
    /// `context_length` positions, with its variables in the scope `vs`.
    pub fn new(
        d_in: usize,
        d_out: usize,
        context_length: usize,
        dropout: &Dropout,
        num_heads: usize,
        vs: &Scope,
    ) -> (r: Result<MultiHeadAttention, GptError>)
        ensures
            explained(Self::new_fault(d_in, d_out, context_length), r),
            size_fault(seq![d_out, d_in]) is Some ==> r == Err::<Self, GptError>(
                GptError::TooLarge,
            ),
            r matches Ok(att) ==> {
                &&& att.wf()
                &&& att.d_in == d_in
                &&& att.d_out == d_out
                &&& att.context_length == context_length
                &&& att.num_heads == num_heads
                &&& att.dropout == *dropout
                &&& att.made_of(vs.vars, vs.device, vs.path@)
            },
    {
        proof {
            reveal_strlit("wq");
            reveal_strlit("wk");
            reveal_strlit("wv");
            reveal_strlit("out_proj");
        }
        let wq: Linear = vs.pp("wq").linear_no_bias(d_in, d_out)?;
        let wk: Linear = vs.pp("wk").linear_no_bias(d_in, d_out)?;
        let wv: Linear = vs.pp("wv").linear_no_bias(d_in, d_out)?;
        let out_proj: Linear = vs.pp("out_proj").linear(d_out, d_out)?;
        let mask: Tensor = vs.causal_mask(context_length)?;
        Ok(
            MultiHeadAttention {
                wq,
                wk,
                wv,
                dropout: dropout.clone(),
                mask,
                out_proj,
                num_heads,
                d_in,
                d_out,
                context_length,
            },
        )
    }

    /// The layers succeed on tensors that operations succeed on, and the mask is on the CPU.
    pub open spec fn ready(self) -> bool {
        &&& linear_ready(self.wq)
        &&& linear_ready(self.wk)
        &&& linear_ready(self.wv)
        &&& linear_ready(self.out_proj)
        &&& on_cpu(self.mask)
    }

    /// Tests whether the layers succeed on tensors that operations succeed on, and the mask is on
    /// the CPU.
    pub fn is_ready(&self) -> (yes: bool)
        ensures
            yes == self.ready(),
    {
        is_linear_ready(&self.wq) && is_linear_ready(&self.wk) && is_linear_ready(&self.wv)
            && is_linear_ready(&self.out_proj) && self.mask.device().is_cpu()
    }

    /// The heads fill the width of the output.
    pub open spec fn heads_fill(self) -> bool {
        self.num_heads * self.head_width() == self.d_out
    }

    /// The attention and an input that it succeeds on outside of training.
    pub open spec fn fits(self, xs: Tensor) -> bool {
        &&& self.ready()
        &&& self.heads_fill()
        &&& plain(xs)
        &&& tensor_dims(xs).len() == 3
        &&& tensor_dims(xs)[1] <= self.context_length
        &&& tensor_dims(xs)[2] == self.d_in
    }

    /// The width of a head.
    pub open spec fn head_width(self) -> usize {
        self.d_out / self.num_heads
    }

    /// The steps from the input `xs`, with `b` sequences of `n` positions, to the output `y`.
    ///
    /// Queries, keys and values are projections of the input, parted into heads. A score is the
    /// product of a query and a key. It is minus infinity where the mask is zero, and is divided
    /// by the square root of the width of a head. The softmax of the scores, after dropout,
    /// weighs the values; their sums, heads beside each other again, go through the last layer.
    pub open spec fn steps(
        self,
        xs: Tensor,
        train: bool,
        b: usize,
        n: usize,
        t: AttentionTrace,
        y: Tensor,
    ) -> bool {
        let parts = seq![b, n, self.num_heads, self.head_width()];
        let grid = seq![b, self.num_heads, n, n];
        &&& linear_yields(self.wq, xs, t.queries)
        &&& linear_yields(self.wk, xs, t.keys)
        &&& linear_yields(self.wv, xs, t.values)
        &&& heads_yield(t.queries, parts, t.query_heads)
        &&& heads_yield(t.keys, parts, t.key_heads)
        &&& heads_yield(t.values, parts, t.value_heads)
        &&& transpose_yields(t.key_heads, 2, 3, t.key_columns)
        &&& matmul_yields(t.query_heads, t.key_columns, t.scores)
        &&& corner_yields(self.mask, n, t.corner)
        &&& expand_yields(t.corner, grid, t.visible)
        &&& minus_infinity_yields(xs, t.infinity)
        &&& expand_yields(t.infinity, grid, t.hidden)
        &&& choice_yields(t.visible, t.scores, t.hidden, t.masked)
        &&& root_scaling_yields(t.masked, self.head_width(), t.scaled)
        &&& softmax_yields(t.scaled, t.weights)
        &&& dropout_yields(self.dropout, t.weights, train, t.kept)
        &&& matmul_yields(t.kept, t.value_heads, t.context)
        &&& transpose_yields(t.context, 1, 2, t.rows)
        &&& contiguous_yields(t.rows, t.dense)
        &&& reshape_yields(t.dense, seq![b, n, self.d_out], t.joined)
        &&& linear_yields(self.out_proj, t.joined, y)
    }

    /// `y` is what the attention gives for `xs`, in training or outside of it.
    pub open spec fn yields(self, xs: Tensor, train: bool, y: Tensor) -> bool {
        let dims = tensor_dims(xs);
        exists|t: AttentionTrace| #[trigger] self.steps(xs, train, dims[0], dims[1], t, y)
    }

    /// The error of `b` sequences of `n` positions that make a tensor on the way too large, or
    /// that are none.
    pub open spec fn batch_fault(self, b: usize, n: usize) -> Option<GptError> {
        first_fault(
            first_fault(
                size_fault(seq![b, n, self.d_out]),
                first_fault(
                    size_fault(seq![b, n, self.num_heads, self.head_width()]),
                    size_fault(seq![b, self.num_heads, n, n]),
                ),
            ),
            if b == 0 || n == 0 {
                Some(GptError::NoElements)
            } else {
                None
            },
        )
    }

    /// The error of an input that cannot be computed with, makes a tensor on the way too large or
    /// has no positions.
    pub open spec fn forward_fault(self, xs: Tensor) -> Option<GptError> {
        let dims = tensor_dims(xs);
        if dims.len() != 3 {
            None
        } else {
            first_fault(fault_of(xs), self.batch_fault(dims[0], dims[1]))
        }
    }

    /// Applies the attention to a batch of sequences, a tensor of batch, position and feature.
    pub fn forward_t(&self, xs: &Tensor, train_mode: bool) -> (r: Result<Tensor, GptError>)
        requires
            self.wf(),
            self.num_heads > 0,
        ensures
            explained(self.forward_fault(*xs), r),
            self.fits(*xs) && self.forward_fault(*xs) is None && !train_mode ==> r is Ok,
            r matches Ok(y) ==> {
                let dims = tensor_dims(*xs);
                &&& dims.len() == 3
                &&& dims[1] <= self.context_length
                &&& dims[2] == self.d_in
                &&& dims[0] > 0
                &&& dims[1] > 0
                &&& self.heads_fill()
                &&& tensor_dims(y) == seq![dims[0], dims[1], self.d_out]
                &&& tensor_is_float(y)
                &&& alike(*xs, y)
                &&& packed(y)
                &&& self.yields(*xs, train_mode, y)
            },
    {
        let head_dims: usize = self.d_out / self.num_heads;
        let (b, n, _d_in): (usize, usize, usize) = lift(xs.dims3())?;
        assert(with_last(tensor_dims(*xs), self.d_out) =~= seq![b, n, self.d_out]);
        let ghost fits = self.fits(*xs) && self.forward_fault(*xs) is None;
        proof {
            if fits {
                lemma_attention_cells(*self, b, n);
            }
        }
        let queries: Tensor = linear(&self.wq, self.d_out, xs)?;
        let keys: Tensor = linear(&self.wk, self.d_out, xs)?;
        let values: Tensor = linear(&self.wv, self.d_out, xs)?;

        let key_heads: Tensor = split_heads(&keys, b, n, self.num_heads, head_dims)?;
        let query_heads: Tensor = split_heads(&queries, b, n, self.num_heads, head_dims)?;
        let value_heads: Tensor = split_heads(&values, b, n, self.num_heads, head_dims)?;

        let key_columns: Tensor = transpose(&key_heads, 2, 3)?;
        proof {
            let turned = seq![b, self.num_heads, n, head_dims];
            assert(swapped(turned, 2, 3) =~= seq![b, self.num_heads, head_dims, n]);
            assert(with_last(turned, n) =~= seq![b, self.num_heads, n, n]);
            lemma_heads_swap(b, n, self.num_heads, head_dims);
            let strides = tensor_strides(key_heads);
            assert(swapped(swapped(turned, 2, 3), 2, 3) =~= turned);
            assert(swapped(swapped(strides, 2, 3), 2, 3) =~= strides);
            assert(turned.take(2) =~= swapped(turned, 2, 3).take(2));
            lemma_cells_of_four(b, self.num_heads, head_dims, n);
            lemma_cells_of_four(b, self.num_heads, n, head_dims);
        }
        let scores: Tensor = multiply(&query_heads, &key_columns)?;

        let corner: Tensor = top_left(&self.mask, n)?;
        proof {
            let grid = seq![b, self.num_heads, n, n];
            assert(tensor_dims(corner) =~= seq![n, n]);
            assert(size_from_end(seq![n, n], 1) == size_from_end(grid, 1));
            assert(size_from_end(seq![n, n], 2) == size_from_end(grid, 2));
        }
        let grid: Vec<usize> = vec![b, self.num_heads, n, n];
        assert(grid@ =~= seq![b, self.num_heads, n, n]);
        let visible: Tensor = expand(&corner, grid)?;
        let infinity: Tensor = minus_infinity(xs)?;
        let grid: Vec<usize> = vec![b, self.num_heads, n, n];
        assert(grid@ =~= seq![b, self.num_heads, n, n]);
        let hidden: Tensor = expand(&infinity, grid)?;
        proof {
            lemma_cells_of_four(b, self.num_heads, n, n);
        }
        let masked: Tensor = pick(&visible, &scores, &hidden)?;

        proof {
            lemma_size_within_volume(seq![b, n, self.num_heads, head_dims], 3);
        }
        let scaled: Tensor = divide_by_root(&masked, head_dims)?;
        proof {
            lemma_packed_is_reducible(scaled);
        }
        let weights: Tensor = softmax(&scaled)?;
        let kept: Tensor = drop_out(&self.dropout, &weights, train_mode)?;
        proof {
            assert(with_last(seq![b, self.num_heads, n, n], head_dims) =~= seq![
                b,
                self.num_heads,
                n,
                head_dims,
            ]);
            assert(seq![b, self.num_heads, n, n].take(2) =~= seq![
                b,
                self.num_heads,
                n,
                head_dims,
            ].take(2));
        }
        let context: Tensor = multiply(&kept, &value_heads)?;
        let rows: Tensor = transpose(&context, 1, 2)?;
        proof {
            assert(swapped(seq![b, self.num_heads, n, head_dims], 1, 2) =~= seq![
                b,
                n,
                self.num_heads,
                head_dims,
            ]);
        }
        let dense: Tensor = row_major(&rows)?;
        let joint: Vec<usize> = vec![b, n, self.d_out];
        assert(joint@ =~= seq![b, n, self.d_out]);
        let joined: Tensor = reshape(&dense, joint)?;
        assert(with_last(seq![b, n, self.d_out], self.d_out) =~= seq![b, n, self.d_out]);
        let y: Tensor = linear(&self.out_proj, self.d_out, &joined)?;
        proof {
            let t = AttentionTrace {
                queries,
                keys,
                values,
                query_heads,
                key_heads,
                value_heads,
                key_columns,
                scores,
                corner,
                visible,
                infinity,
                hidden,
                masked,
                scaled,
                weights,
                kept,
                context,
                rows,
                dense,
                joined,
            };
            assert(self.steps(*xs, train_mode, b, n, t, y));
            lemma_heads_fill(b, n, self.num_heads, head_dims, self.d_out);
        }
        Ok(y)
    }
}

/// Two attentions differ in their dropout at most.
pub open spec fn same_but_dropout(a: MultiHeadAttention, b: MultiHeadAttention) -> bool {
    &&& a.wq == b.wq
    &&& a.wk == b.wk
    &&& a.wv == b.wv
    &&& a.mask == b.mask
    &&& a.out_proj == b.out_proj
    &&& a.num_heads == b.num_heads
    &&& a.d_in == b.d_in
    &&& a.d_out == b.d_out
    &&& a.context_length == b.context_length
}

/// Outside of training an attention gives what it would give with any other dropout.
pub proof fn law_attention_ignores_dropout_outside_of_training(
    a: MultiHeadAttention,
    b: MultiHeadAttention,
    xs: Tensor,
    y: Tensor,
)
    requires
        same_but_dropout(a, b),
        a.yields(xs, false, y),
    ensures
        b.yields(xs, false, y),
{
    let dims = tensor_dims(xs);
    let t = choose|t: AttentionTrace| #[trigger] a.steps(xs, false, dims[0], dims[1], t, y);
    law_dropout_is_idle_outside_of_training(a.dropout, t.weights, t.kept);
    law_dropout_is_idle_outside_of_training(b.dropout, t.weights, t.kept);
    assert(b.steps(xs, false, dims[0], dims[1], t, y));
}

/// The heads of a projection lie before its positions: its elements take the shape `dims`, which is
/// sequence, position, head and feature, the heads change places with the positions, and the result
/// is in row-major order.
pub proof fn law_heads_change_places_with_positions(x: Tensor, dims: Seq<usize>, y: Tensor)
    requires
        dims.len() == 4,
    ensures
        heads_yield(x, dims, y) <==> exists|parted: Tensor, turned: Tensor|
            #![trigger reshape_yields(x, dims, parted), contiguous_yields(turned, y)]
            reshape_yields(x, dims, parted) && transpose_yields(parted, 1, 2, turned)
                && contiguous_yields(turned, y),
        heads_yield(x, dims, y) ==> {
            &&& tensor_dims(y) == seq![dims[0], dims[2], dims[1], dims[3]]
            &&& product(tensor_dims(x)) == product(dims)
            &&& alike(x, y)
        },
{
    if heads_yield(x, dims, y) {
        let (parted, turned) = choose|parted: Tensor, turned: Tensor| #[trigger]
            head_steps(x, dims, parted, turned, y);
        assert(reshape_yields(x, dims, parted) && contiguous_yields(turned, y));
        law_reshape_keeps_the_elements(x, dims, parted);
        law_transpose_exchanges_two_dimensions(parted, 1, 2, turned);
        law_row_major_keeps_the_shape(turned, y);
        assert(swapped(dims, 1, 2) =~= seq![dims[0], dims[2], dims[1], dims[3]]);
    }
    assert forall|parted: Tensor, turned: Tensor|
        #![trigger reshape_yields(x, dims, parted), contiguous_yields(turned, y)]
        reshape_yields(x, dims, parted) && transpose_yields(parted, 1, 2, turned)
            && contiguous_yields(turned, y) implies heads_yield(x, dims, y) by {
        assert(head_steps(x, dims, parted, turned, y));
    }
}

/// The heads of an attention part its output evenly: a head is as wide as the output is, divided by
/// the number of heads.
pub proof fn law_heads_part_the_output(
    att: MultiHeadAttention,
    xs: Tensor,
    train: bool,
    y: Tensor,
) -> (t: AttentionTrace)
    requires
        att.wf(),
        tensor_dims(xs).len() == 3,
        tensor_dims(xs)[0] > 0,
        tensor_dims(xs)[1] > 0,
        att.num_heads > 0,
        att.yields(xs, train, y),
    ensures
        att.heads_fill(),
        att.num_heads * att.head_width() == att.d_out,
        linear_yields(att.wq, xs, t.queries),
        linear_yields(att.wk, xs, t.keys),
        linear_yields(att.wv, xs, t.values),
        ({
            let parts = seq![
                tensor_dims(xs)[0],
                tensor_dims(xs)[1],
                att.num_heads,
                (att.d_out / att.num_heads) as usize,
            ];
            &&& heads_yield(t.queries, parts, t.query_heads)
            &&& heads_yield(t.keys, parts, t.key_heads)
            &&& heads_yield(t.values, parts, t.value_heads)
        }),
        tensor_dims(t.query_heads) == tensor_dims(t.key_heads),
        tensor_dims(t.value_heads) == tensor_dims(t.key_heads),
        tensor_dims(t.key_heads).len() == 4,
        tensor_dims(t.key_heads)[0] == tensor_dims(xs)[0],
        tensor_dims(t.key_heads)[1] == att.num_heads,
        tensor_dims(t.key_heads)[2] == tensor_dims(xs)[1],
        tensor_dims(t.key_heads)[3] * att.num_heads == att.d_out,
        att.steps(xs, train, tensor_dims(xs)[0], tensor_dims(xs)[1], t, y),
{
    let (b, n) = (tensor_dims(xs)[0], tensor_dims(xs)[1]);
    let (heads, width) = (att.num_heads, att.head_width());
    let parts = seq![b, n, heads, width];
    let t = choose|t: AttentionTrace| #[trigger] att.steps(xs, train, b, n, t, y);
    law_linear_maps_inputs_to_outputs(att.wk, xs, t.keys);
    law_heads_change_places_with_positions(t.queries, parts, t.query_heads);
    law_heads_change_places_with_positions(t.keys, parts, t.key_heads);
    law_heads_change_places_with_positions(t.values, parts, t.value_heads);
    assert(with_last(tensor_dims(xs), att.d_out) =~= seq![b, n, att.d_out]);
    lemma_heads_fill(b, n, heads, width, att.d_out);
    assert(width * heads == heads * width) by (nonlinear_arith);
    t
}

/// The scores of an attention compare every query of a head with every key of it: they are the
/// product of the query heads and the key heads with positions and features exchanged, so that the
/// sum goes over the features, and there is a row and a column for every position.
pub proof fn law_scores_compare_queries_with_keys(
    att: MultiHeadAttention,
    xs: Tensor,
    train: bool,
    y: Tensor,
) -> (t: AttentionTrace)
    requires
        att.wf(),
        tensor_dims(xs).len() == 3,
        tensor_dims(xs)[0] > 0,
        tensor_dims(xs)[1] > 0,
        att.num_heads > 0,
        att.yields(xs, train, y),
    ensures
        linear_yields(att.wq, xs, t.queries),
        linear_yields(att.wk, xs, t.keys),
        ({
            let parts = seq![
                tensor_dims(xs)[0],
                tensor_dims(xs)[1],
                att.num_heads,
                (att.d_out / att.num_heads) as usize,
            ];
            &&& heads_yield(t.queries, parts, t.query_heads)
            &&& heads_yield(t.keys, parts, t.key_heads)
        }),
        transpose_yields(t.key_heads, 2, 3, t.key_columns),
        matmul_yields(t.query_heads, t.key_columns, t.scores),
        tensor_dims(t.query_heads).last() == tensor_dims(t.key_heads).last(),
        tensor_dims(t.scores) == seq![
            tensor_dims(xs)[0],
            att.num_heads,
            tensor_dims(xs)[1],
            tensor_dims(xs)[1],
        ],
        att.steps(xs, train, tensor_dims(xs)[0], tensor_dims(xs)[1], t, y),
{
    let t = law_heads_part_the_output(att, xs, train, y);
    let n = tensor_dims(xs)[1];
    law_transpose_exchanges_two_dimensions(t.key_heads, 2, 3, t.key_columns);
    law_product_contracts_the_inner_size(t.query_heads, t.key_columns, t.scores);
    assert(tensor_dims(t.key_columns).last() == n);
    assert(with_last(tensor_dims(t.query_heads), n) =~= seq![
        tensor_dims(xs)[0],
        att.num_heads,
        n,
        n,
    ]);
    t
}

/// A position is hidden from those before it: where the corner of the mask over the positions is
/// zero, minus infinity stands in place of the score of a query and a key.
pub proof fn law_mask_hides_scores(
    att: MultiHeadAttention,
    xs: Tensor,
    train: bool,
    y: Tensor,
) -> (t: AttentionTrace)
    requires
        att.wf(),
        tensor_dims(xs).len() == 3,
        tensor_dims(xs)[0] > 0,
        tensor_dims(xs)[1] > 0,
        att.num_heads > 0,
        att.yields(xs, train, y),
    ensures
        matmul_yields(t.query_heads, t.key_columns, t.scores),
        corner_yields(att.mask, tensor_dims(xs)[1], t.corner),
        tensor_dims(t.corner) == seq![tensor_dims(xs)[1], tensor_dims(xs)[1]],
        expand_yields(t.corner, tensor_dims(t.scores), t.visible),
        minus_infinity_yields(xs, t.infinity),
        expand_yields(t.infinity, tensor_dims(t.scores), t.hidden),
        choice_yields(t.visible, t.scores, t.hidden, t.masked),
        tensor_dims(t.masked) == tensor_dims(t.scores),
        tensor_dims(xs)[1] <= att.context_length,
        att.steps(xs, train, tensor_dims(xs)[0], tensor_dims(xs)[1], t, y),
{
    let t = law_scores_compare_queries_with_keys(att, xs, train, y);
    let n = tensor_dims(xs)[1];
    law_corner_is_square(att.mask, n, t.corner);
    assert(tensor_dims(t.corner) =~= seq![n, n]);
    law_expansion_has_the_shape(t.corner, tensor_dims(t.scores), t.visible);
    law_choice_keeps_the_shape(t.visible, t.scores, t.hidden, t.masked);
    t
}

/// Scores are divided by the square root of the length of the keys: the number under the root is
/// the size of the dimension that a score sums over, which times the number of heads is the width
/// of the output.
pub proof fn law_scores_are_divided_by_the_root_of_the_key_length(
    att: MultiHeadAttention,
    xs: Tensor,
    train: bool,
    y: Tensor,
) -> (t: AttentionTrace)
    requires
        att.wf(),
        tensor_dims(xs).len() == 3,
        tensor_dims(xs)[0] > 0,
        tensor_dims(xs)[1] > 0,
        att.num_heads > 0,
        att.yields(xs, train, y),
    ensures
        matmul_yields(t.query_heads, t.key_columns, t.scores),
        choice_yields(t.visible, t.scores, t.hidden, t.masked),
        root_scaling_yields(t.masked, tensor_dims(t.key_heads)[3], t.scaled),
        root_scaling_yields(t.masked, size_from_end(tensor_dims(t.key_columns), 2), t.scaled),
        tensor_dims(t.key_heads)[3] * att.num_heads == att.d_out,
        tensor_dims(t.scaled) == tensor_dims(t.scores),
        att.steps(xs, train, tensor_dims(xs)[0], tensor_dims(xs)[1], t, y),
{
    let t = law_mask_hides_scores(att, xs, train, y);
    let (b, n) = (tensor_dims(xs)[0], tensor_dims(xs)[1]);
    let (heads, width) = (att.num_heads, att.head_width());
    let parts = seq![b, n, heads, width];
    law_linear_maps_inputs_to_outputs(att.wk, xs, t.keys);
    law_heads_change_places_with_positions(t.keys, parts, t.key_heads);
    assert(with_last(tensor_dims(xs), att.d_out) =~= seq![b, n, att.d_out]);
    lemma_heads_fill(b, n, heads, width, att.d_out);
    assert(width * heads == heads * width) by (nonlinear_arith);
    law_transpose_exchanges_two_dimensions(t.key_heads, 2, 3, t.key_columns);
    law_scaling_is_by_a_reciprocal_root(t.masked, width, t.scaled);
    t
}

/// The softmax of the scaled scores, after dropout, weighs the values of a head, one weight for
/// every key: the sums have the shape of the values.
pub proof fn law_softmax_weighs_the_values(
    att: MultiHeadAttention,
    xs: Tensor,
    train: bool,
    y: Tensor,
) -> (t: AttentionTrace)
    requires
        att.wf(),
        tensor_dims(xs).len() == 3,
        tensor_dims(xs)[0] > 0,
        tensor_dims(xs)[1] > 0,
        att.num_heads > 0,
        att.yields(xs, train, y),
    ensures
        root_scaling_yields(t.masked, tensor_dims(t.key_heads)[3], t.scaled),
        softmax_yields(t.scaled, t.weights),
        dropout_yields(att.dropout, t.weights, train, t.kept),
        linear_yields(att.wv, xs, t.values),
        heads_yield(
            t.values,
            seq![
                tensor_dims(xs)[0],
                tensor_dims(xs)[1],
                att.num_heads,
                (att.d_out / att.num_heads) as usize,
            ],
            t.value_heads,
        ),
        matmul_yields(t.kept, t.value_heads, t.context),
        tensor_dims(t.kept) == tensor_dims(t.scores),
        tensor_dims(t.context) == tensor_dims(t.value_heads),
        att.steps(xs, train, tensor_dims(xs)[0], tensor_dims(xs)[1], t, y),
{
    let t = law_scores_are_divided_by_the_root_of_the_key_length(att, xs, train, y);
    let (b, n) = (tensor_dims(xs)[0], tensor_dims(xs)[1]);
    let (heads, width) = (att.num_heads, att.head_width());
    let parts = seq![b, n, heads, width];
    law_softmax_keeps_the_shape(t.scaled, t.weights);
    law_dropout_keeps_the_shape(att.dropout, t.weights, train, t.kept);
    law_heads_change_places_with_positions(t.queries, parts, t.query_heads);
    law_heads_change_places_with_positions(t.keys, parts, t.key_heads);
    law_heads_change_places_with_positions(t.values, parts, t.value_heads);
    law_transpose_exchanges_two_dimensions(t.key_heads, 2, 3, t.key_columns);
    law_product_contracts_the_inner_size(t.query_heads, t.key_columns, t.scores);
    law_product_contracts_the_inner_size(t.kept, t.value_heads, t.context);
    assert(tensor_dims(t.context) =~= tensor_dims(t.value_heads));
    t
}

/// All of an attention: queries, keys and values are projections of one input, parted into heads;
/// the scores of queries and keys, hidden where the mask is zero and divided by the root of the
/// length of the keys, become weights; the weights sum up the values; and the heads of a position,
/// beside each other again, go through the last layer.
pub proof fn law_attention_projects_weighted_values(
    att: MultiHeadAttention,
    xs: Tensor,
    train: bool,
    y: Tensor,
) -> (t: AttentionTrace)
    requires
        att.wf(),
        tensor_dims(xs).len() == 3,
        tensor_dims(xs)[0] > 0,
        tensor_dims(xs)[1] > 0,
        att.num_heads > 0,
        att.yields(xs, train, y),
    ensures
        linear_yields(att.wq, xs, t.queries),
        linear_yields(att.wk, xs, t.keys),
        linear_yields(att.wv, xs, t.values),
        ({
            let parts = seq![
                tensor_dims(xs)[0],
                tensor_dims(xs)[1],
                att.num_heads,
                (att.d_out / att.num_heads) as usize,
            ];
            &&& heads_yield(t.queries, parts, t.query_heads)
            &&& heads_yield(t.keys, parts, t.key_heads)
            &&& heads_yield(t.values, parts, t.value_heads)
            &&& tensor_dims(t.dense) == parts
        }),
        transpose_yields(t.key_heads, 2, 3, t.key_columns),
        matmul_yields(t.query_heads, t.key_columns, t.scores),
        corner_yields(att.mask, tensor_dims(xs)[1], t.corner),
        expand_yields(t.corner, tensor_dims(t.scores), t.visible),
        minus_infinity_yields(xs, t.infinity),
        expand_yields(t.infinity, tensor_dims(t.scores), t.hidden),
        choice_yields(t.visible, t.scores, t.hidden, t.masked),
        root_scaling_yields(t.masked, tensor_dims(t.key_heads)[3], t.scaled),
        tensor_dims(t.key_heads)[3] * att.num_heads == att.d_out,
        softmax_yields(t.scaled, t.weights),
        dropout_yields(att.dropout, t.weights, train, t.kept),
        matmul_yields(t.kept, t.value_heads, t.context),
        transpose_yields(t.context, 1, 2, t.rows),
        contiguous_yields(t.rows, t.dense),
        reshape_yields(
            t.dense,
            seq![tensor_dims(xs)[0], tensor_dims(xs)[1], att.d_out],
            t.joined,
        ),
        linear_yields(att.out_proj, t.joined, y),
        tensor_dims(y) == seq![tensor_dims(xs)[0], tensor_dims(xs)[1], att.d_out],
{
    let t = law_softmax_weighs_the_values(att, xs, train, y);
    let (b, n) = (tensor_dims(xs)[0], tensor_dims(xs)[1]);
    let (heads, width) = (att.num_heads, att.head_width());
    let parts = seq![b, n, heads, width];
    law_linear_maps_inputs_to_outputs(att.wk, xs, t.keys);
    law_heads_change_places_with_positions(t.queries, parts, t.query_heads);
    law_heads_change_places_with_positions(t.keys, parts, t.key_heads);
    law_heads_change_places_with_positions(t.values, parts, t.value_heads);
    assert(with_last(tensor_dims(xs), att.d_out) =~= seq![b, n, att.d_out]);
    lemma_heads_fill(b, n, heads, width, att.d_out);
    assert(width * heads == heads * width) by (nonlinear_arith);
    law_transpose_exchanges_two_dimensions(t.key_heads, 2, 3, t.key_columns);
    law_product_contracts_the_inner_size(t.query_heads, t.key_columns, t.scores);
    assert(tensor_dims(t.scores) =~= seq![b, heads, n, n]);
    law_transpose_exchanges_two_dimensions(t.context, 1, 2, t.rows);
    law_row_major_keeps_the_shape(t.rows, t.dense);
    assert(tensor_dims(t.dense) =~= parts);
    law_attention_keeps_the_positions(att, xs, train, y);
    t
}

/// A tensor that all steps of an attention lead to is what the attention gives, with the scores
/// divided by the root of the width of a head.
pub proof fn law_attention_gives_what_its_steps_lead_to(
    att: MultiHeadAttention,
    xs: Tensor,
    train: bool,
    t: AttentionTrace,
    y: Tensor,
)
    requires
        linear_yields(att.wq, xs, t.queries),
        linear_yields(att.wk, xs, t.keys),
        linear_yields(att.wv, xs, t.values),
        ({
            let parts = seq![
                tensor_dims(xs)[0],
                tensor_dims(xs)[1],
                att.num_heads,
                (att.d_out / att.num_heads) as usize,
            ];
            &&& heads_yield(t.queries, parts, t.query_heads)
            &&& heads_yield(t.keys, parts, t.key_heads)
            &&& heads_yield(t.values, parts, t.value_heads)
        }),
        transpose_yields(t.key_heads, 2, 3, t.key_columns),
        matmul_yields(t.query_heads, t.key_columns, t.scores),
        corner_yields(att.mask, tensor_dims(xs)[1], t.corner),
        ({
            let grid = seq![
                tensor_dims(xs)[0],
                att.num_heads,
                tensor_dims(xs)[1],
                tensor_dims(xs)[1],
            ];
            &&& expand_yields(t.corner, grid, t.visible)
            &&& expand_yields(t.infinity, grid, t.hidden)
        }),
        minus_infinity_yields(xs, t.infinity),
        choice_yields(t.visible, t.scores, t.hidden, t.masked),
        root_scaling_yields(t.masked, (att.d_out / att.num_heads) as usize, t.scaled),
        softmax_yields(t.scaled, t.weights),
        dropout_yields(att.dropout, t.weights, train, t.kept),
        matmul_yields(t.kept, t.value_heads, t.context),
        transpose_yields(t.context, 1, 2, t.rows),
        contiguous_yields(t.rows, t.dense),
        reshape_yields(
            t.dense,
            seq![tensor_dims(xs)[0], tensor_dims(xs)[1], att.d_out],
            t.joined,
        ),
        linear_yields(att.out_proj, t.joined, y),
    ensures
        att.yields(xs, train, y),
{
    assert(att.steps(xs, train, tensor_dims(xs)[0], tensor_dims(xs)[1], t, y));
}

/// An attention keeps the sequences and their positions, and its output has its own width.
pub proof fn law_attention_keeps_the_positions(
    att: MultiHeadAttention,
    xs: Tensor,
    train: bool,
    y: Tensor,
)
    requires
        att.wf(),
        tensor_dims(xs).len() == 3,
        att.yields(xs, train, y),
    ensures
        tensor_dims(xs)[2] == att.d_in,
        tensor_dims(xs)[1] <= att.context_length,
        tensor_dims(y) == seq![tensor_dims(xs)[0], tensor_dims(xs)[1], att.d_out],
        alike(xs, y),
{
    let (b, n) = (tensor_dims(xs)[0], tensor_dims(xs)[1]);
    let t = choose|t: AttentionTrace| #[trigger] att.steps(xs, train, b, n, t, y);
    let parts = seq![b, n, att.num_heads, att.head_width()];
    law_linear_maps_inputs_to_outputs(att.wv, xs, t.values);
    law_linear_maps_inputs_to_outputs(att.wq, xs, t.queries);
    law_heads_change_places_with_positions(t.queries, parts, t.query_heads);
    law_product_contracts_the_inner_size(t.query_heads, t.key_columns, t.scores);
    law_choice_keeps_the_shape(t.visible, t.scores, t.hidden, t.masked);
    law_scaling_is_by_a_reciprocal_root(t.masked, att.head_width(), t.scaled);
    law_softmax_keeps_the_shape(t.scaled, t.weights);
    law_dropout_keeps_the_shape(att.dropout, t.weights, train, t.kept);
    law_product_contracts_the_inner_size(t.kept, t.value_heads, t.context);
    law_transpose_exchanges_two_dimensions(t.context, 1, 2, t.rows);
    law_row_major_keeps_the_shape(t.rows, t.dense);
    law_corner_is_square(att.mask, n, t.corner);
    law_reshape_keeps_the_elements(t.dense, seq![b, n, att.d_out], t.joined);
    law_linear_maps_inputs_to_outputs(att.out_proj, t.joined, y);
    assert(with_last(seq![b, n, att.d_out], att.d_out) =~= seq![b, n, att.d_out]);
}

/// The projections of an attention, its mask and its last layer read the variables with their
/// names.
pub proof fn law_attention_reads_its_variables(
    att: MultiHeadAttention,
    vars: &VarMap,
    device: &Device,
    path: Seq<char>,
)
    ensures
        att.made_of(vars, device, path) <==> {
            &&& linear_no_bias_at(vars, device, child(path, "wq"@), att.d_in, att.d_out, att.wq)
            &&& linear_no_bias_at(vars, device, child(path, "wk"@), att.d_in, att.d_out, att.wk)
            &&& linear_no_bias_at(vars, device, child(path, "wv"@), att.d_in, att.d_out, att.wv)
            &&& linear_at(
                vars,
                device,
                child(path, "out_proj"@),
                att.d_out,
                att.d_out,
                att.out_proj,
            )
            &&& lower_triangle_yields(att.context_length, device, att.mask)
            &&& on_cpu(att.mask) == device_is_cpu(*device)
        },
{
}

/// Which inputs an attention takes: plain ones of sequences that are no longer than the context and
/// as wide as the attention, with heads that fill its width and no tensor on the way too large.
pub proof fn law_attention_takes_plain_inputs(
    att: MultiHeadAttention,
    xs: Tensor,
    b: usize,
    n: usize,
)
    ensures
        att.fits(xs) <==> {
            &&& linear_ready(att.wq)
            &&& linear_ready(att.wk)
            &&& linear_ready(att.wv)
            &&& linear_ready(att.out_proj)
            &&& on_cpu(att.mask)
            &&& att.num_heads * (att.d_out / att.num_heads) == att.d_out
            &&& plain(xs)
            &&& tensor_dims(xs).len() == 3
            &&& tensor_dims(xs)[1] <= att.context_length
            &&& tensor_dims(xs)[2] == att.d_in
        },
        att.batch_fault(b, n) is None <==> {
            &&& addressable(seq![b, n, att.d_out])
            &&& addressable(seq![b, n, att.num_heads, (att.d_out / att.num_heads) as usize])
            &&& addressable(seq![b, att.num_heads, n, n])
            &&& b > 0
            &&& n > 0
        },
        tensor_dims(xs).len() != 3 ==> att.forward_fault(xs) is None,
        tensor_dims(xs).len() == 3 ==> (att.forward_fault(xs) is None <==> fault_of(xs) is None
            && att.batch_fault(tensor_dims(xs)[0], tensor_dims(xs)[1]) is None),
        MultiHeadAttention::new_fault(b, n, b) is None <==> {
            &&& addressable(seq![n, b])
            &&& addressable(seq![n, n])
            &&& addressable(seq![b, b])
        },
{
}

/// A call of the attention gives what the attention yields for its input, in the mode that is asked
/// for.
pub proof fn law_attention_call_yields(
    att: &MultiHeadAttention,
    xs: &Tensor,
    train: bool,
    r: Result<Tensor, GptError>,
)
    requires
        call_ensures(MultiHeadAttention::forward_t, (att, xs, train), r),
    ensures
        r is Ok ==> att.yields(*xs, train, r->Ok_0) && tensor_dims(*xs)[0] > 0 && tensor_dims(
            *xs,
        )[1] > 0,
        att.fits(*xs) && att.forward_fault(*xs) is None && !train ==> r is Ok,
{
}

} // verus!
