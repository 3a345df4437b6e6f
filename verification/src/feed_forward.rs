//! The position-wise network of a transformer block.

use crate::error::{explained, first_fault, GptError};
use crate::ops::{
    activate, alike, fault_of, gelu_yields, is_linear_ready, law_activation_is_gelu,
    law_linear_maps_inputs_to_outputs, lemma_ready_widths, linear, linear_outputs, linear_ready,
    linear_sized, linear_yields, packed, plain, size_fault, tensor_dims, tensor_is_float, with_last,
};
use crate::scope::{child, linear_at, Scope};
use crate::shapes::{lemma_product_push, product};
use candle_core::{Device, Tensor};
use candle_nn::{Linear, VarMap};
use vstd::prelude::*;

verus! {

/// Two linear layers with the activation function GELU between them. The hidden layer is four
/// times as wide as the input and the output.
pub struct FeedForward {
    pub l1: Linear,
    pub l2: Linear,
    pub emb_dim: usize,
}

/// The width of the hidden layer.
pub open spec fn hidden_width(emb_dim: usize) -> int {
    4 * emb_dim
}

/// Replacing a size that is not 0 by another leaves cells.
proof fn lemma_product_with_last(dims: Seq<usize>, last: usize)
    requires
        dims.len() > 0,
        product(dims) > 0,
        last > 0,
    ensures
        product(with_last(dims, last)) > 0,
{
    let front = dims.drop_last();
    lemma_product_push(front, dims.last());
    lemma_product_push(front, last);
    assert(front.push(dims.last()) =~= dims);
    let p = product(front) as int;
    assert(p * last > 0) by (nonlinear_arith)
        requires
            p * dims.last() > 0,
            p >= 0,
            dims.last() >= 0,
            last > 0,
    ;
}

impl FeedForward {
    /// The two layers have the widths that belong to the width of the input.
    pub open spec fn wf(self) -> bool {
        &&& hidden_width(self.emb_dim) <= usize::MAX
        &&& linear_sized(self.l1, self.emb_dim, hidden_width(self.emb_dim) as usize)
        &&& linear_sized(self.l2, hidden_width(self.emb_dim) as usize, self.emb_dim)
    }

    /// The error of a width whose layers are too large.
    pub open spec fn new_fault(emb_dim: usize) -> Option<GptError> {
        if hidden_width(emb_dim) > usize::MAX {
            Some(GptError::TooLarge)
        } else {
            first_fault(
                size_fault(seq![hidden_width(emb_dim) as usize, emb_dim]),
                size_fault(seq![emb_dim, hidden_width(emb_dim) as usize]),
            )
        }
    }

    /// The layers are made of the variables `linear1` and `linear2` under the given path.
    pub open spec fn made_of(self, vars: &VarMap, device: &Device, path: Seq<char>) -> bool {
        let hidden = hidden_width(self.emb_dim) as usize;
        &&& linear_at(vars, device, child(path, "linear1"@), self.emb_dim, hidden, self.l1)
        &&& linear_at(vars, device, child(path, "linear2"@), hidden, self.emb_dim, self.l2)
    }

    /// A network for inputs of the given width, with its variables in the scope `vs`.
    pub fn new(emb_dim: usize, vs: &Scope) -> (r: Result<Self, GptError>)
        ensures
            explained(Self::new_fault(emb_dim), r),
            hidden_width(emb_dim) > usize::MAX || size_fault(
                seq![hidden_width(emb_dim) as usize, emb_dim],
            ) is Some ==> r == Err::<Self, GptError>(GptError::TooLarge),
            r matches Ok(ff) ==> {
                &&& ff.wf()
                &&& ff.emb_dim == emb_dim
                &&& ff.made_of(vs.vars, vs.device, vs.path@)
            },
    {
        proof {
            reveal_strlit("linear1");
            reveal_strlit("linear2");
        }
        let hidden: usize = match emb_dim.checked_mul(4) {
            Some(hidden) => hidden,
            None => {
                return Err(GptError::TooLarge);
            },
        };
        let l1: Linear = vs.pp("linear1").linear(emb_dim, hidden)?;
        let l2: Linear = vs.pp("linear2").linear(hidden, emb_dim)?;
        Ok(FeedForward { l1, l2, emb_dim })
    }

    /// Both layers succeed on tensors that operations succeed on.
    pub open spec fn ready(self) -> bool {
        linear_ready(self.l1) && linear_ready(self.l2)
    }

    /// Tests whether both layers succeed on tensors that operations succeed on.
    pub fn is_ready(&self) -> (yes: bool)
        ensures
            yes == self.ready(),
    {
        is_linear_ready(&self.l1) && is_linear_ready(&self.l2)
    }

    /// The network and an input that it succeeds on.
    pub open spec fn fits(self, xs: Tensor) -> bool {
        &&& self.ready()
        &&& plain(xs)
        &&& 2 <= tensor_dims(xs).len() <= 4
        &&& tensor_dims(xs).last() == self.emb_dim
    }

    /// The steps from the input `xs` to the output `y`.
    pub open spec fn steps(self, xs: Tensor, hidden: Tensor, active: Tensor, y: Tensor) -> bool {
        &&& linear_yields(self.l1, xs, hidden)
        &&& gelu_yields(hidden, active)
        &&& linear_yields(self.l2, active, y)
    }

    /// `y` is what the network gives for `xs`: the second layer of the activation of the first.
    pub open spec fn yields(self, xs: Tensor, y: Tensor) -> bool {
        exists|hidden: Tensor, active: Tensor| #[trigger] self.steps(xs, hidden, active, y)
    }

    /// The error of an input that cannot be computed with or whose hidden layer is too large.
    pub open spec fn forward_fault(self, xs: Tensor) -> Option<GptError> {
        first_fault(
            fault_of(xs),
            size_fault(with_last(tensor_dims(xs), hidden_width(self.emb_dim) as usize)),
        )
    }

    /// Applies the network along the last dimension.
    pub fn forward(&self, xs: &Tensor) -> (r: Result<Tensor, GptError>)
        requires
            self.wf(),
        ensures
            explained(self.forward_fault(*xs), r),
            self.fits(*xs) && self.forward_fault(*xs) is None ==> r is Ok,
            r matches Ok(y) ==> {
                &&& tensor_dims(*xs).len() >= 2
                &&& tensor_dims(*xs).last() == self.emb_dim
                &&& tensor_dims(y) == tensor_dims(*xs)
                &&& tensor_is_float(y)
                &&& alike(*xs, y)
                &&& packed(y)
                &&& self.yields(*xs, y)
            },
    {
        let l: Tensor = linear(&self.l1, 4 * self.emb_dim, xs)?;
        proof {
            let dims = tensor_dims(*xs);
            let hidden = hidden_width(self.emb_dim) as usize;
            assert(with_last(with_last(dims, hidden), self.emb_dim) =~= dims);
            if self.fits(*xs) {
                lemma_ready_widths(self.l1);
                lemma_product_with_last(dims, hidden);
            }
        }
        let o: Tensor = activate(&l)?;
        let y: Tensor = linear(&self.l2, self.emb_dim, &o)?;
        assert(self.steps(*xs, l, o, y));
        Ok(y)
    }
}

/// What the network gives is the second layer of the activation of the first layer of its input:
/// the first layer widens the last dimension by four, the activation keeps the shape, and the
/// second layer gives the width back. Every such tensor is what the network gives.
pub proof fn law_network_activates_between_its_layers(ff: FeedForward, xs: Tensor, y: Tensor)
    ensures
        ff.yields(xs, y) <==> exists|wide: Tensor, active: Tensor|
            #![trigger linear_yields(ff.l1, xs, wide), linear_yields(ff.l2, active, y)]
            linear_yields(ff.l1, xs, wide) && gelu_yields(wide, active) && linear_yields(
                ff.l2,
                active,
                y,
            ),
        ff.wf() && ff.yields(xs, y) ==> exists|wide: Tensor, active: Tensor|
            #![trigger linear_yields(ff.l1, xs, wide), linear_yields(ff.l2, active, y)]
            {
                &&& linear_yields(ff.l1, xs, wide)
                &&& linear_yields(ff.l2, active, y)
                &&& tensor_dims(wide).last() == 4 * tensor_dims(xs).last()
                &&& tensor_dims(active) == tensor_dims(wide)
                &&& tensor_dims(y) == tensor_dims(xs)
                &&& alike(xs, y)
            },
{
    if ff.yields(xs, y) {
        let (wide, active) = choose|wide: Tensor, active: Tensor| #[trigger]
            ff.steps(xs, wide, active, y);
        assert(linear_yields(ff.l1, xs, wide) && linear_yields(ff.l2, active, y));
        law_linear_maps_inputs_to_outputs(ff.l1, xs, wide);
        law_activation_is_gelu(wide, active);
        law_linear_maps_inputs_to_outputs(ff.l2, active, y);
        if ff.wf() {
            let dims = tensor_dims(xs);
            assert(with_last(with_last(dims, linear_outputs(ff.l1)), ff.emb_dim) =~= dims);
        }
    }
    assert forall|wide: Tensor, active: Tensor|
        #![trigger linear_yields(ff.l1, xs, wide), linear_yields(ff.l2, active, y)]
        linear_yields(ff.l1, xs, wide) && gelu_yields(wide, active) && linear_yields(
            ff.l2,
            active,
            y,
        ) implies ff.yields(xs, y) by {
        assert(ff.steps(xs, wide, active, y));
    }
}

/// Which inputs a network takes: plain ones of two to four dimensions whose last is as wide as the
/// network, with a hidden layer that is not too large. A network is made of any width whose hidden
/// layer is four times as wide and whose weights are not too large.
pub proof fn law_network_takes_plain_inputs(ff: FeedForward, xs: Tensor, emb_dim: usize)
    ensures
        ff.fits(xs) <==> {
            &&& linear_ready(ff.l1)
            &&& linear_ready(ff.l2)
            &&& plain(xs)
            &&& 2 <= tensor_dims(xs).len() <= 4
            &&& tensor_dims(xs).last() == ff.emb_dim
        },
        ff.forward_fault(xs) is None <==> fault_of(xs) is None && size_fault(
            with_last(tensor_dims(xs), (4 * ff.emb_dim) as usize),
        ) is None,
        FeedForward::new_fault(emb_dim) is None <==> {
            &&& 4 * emb_dim <= usize::MAX
            &&& size_fault(seq![(4 * emb_dim) as usize, emb_dim]) is None
            &&& size_fault(seq![emb_dim, (4 * emb_dim) as usize]) is None
        },
{
}

/// A call of the network gives what the network yields for its input.
pub proof fn law_network_call_yields(ff: &FeedForward, xs: &Tensor, r: Result<Tensor, GptError>)
    requires
        call_ensures(FeedForward::forward, (ff, xs), r),
    ensures
        r is Ok ==> ff.yields(*xs, r->Ok_0) && tensor_dims(r->Ok_0) == tensor_dims(*xs),
        linear_ready(ff.l1) && linear_ready(ff.l2) && plain(*xs) && 2 <= tensor_dims(*xs).len()
            <= 4 && tensor_dims(*xs).last() == ff.emb_dim && ff.forward_fault(*xs) is None
            ==> r is Ok,
{
}

} // verus!
