//! Scopes of named variables, and layers made of them.
//!
//! The variables of a layer in a scope with the path `p` are named `p.weight` and `p.bias`. A
//! variable that the store holds under such a name is used where it has the shape that is asked
//! for, and the call fails where it has another. A variable that the store lacks is added to it.
//! A layer normalisation also takes variables that the store holds as `p.gamma` and `p.beta`.
//! The lock of the store is taken on the way; it is poisoned, and the call then panics, only
//! where a thread has panicked while it held it.

use crate::error::{guarded, lift, GptError};
use crate::ops::{
    check_addressable, device_is_cpu, embedding_sized, linear_sized, norm_width, on_cpu, size_fault,
    tensor_dims, tensor_element, Element,
};
use crate::shapes::addressable;
use candle_core::{Device, Tensor};
use candle_nn::{Embedding, LayerNorm, Linear, VarBuilder, VarMap};
use vstd::prelude::*;
use vstd::string::StringExecFns;

verus! {

/// A place in a store of named variables: the path is put in front of the names of the variables
/// that are made there. The root has the empty path, and layers are made in the scopes below it.
pub struct Scope<'a> {
    pub vars: &'a VarMap,
    pub device: &'a Device,
    pub path: String,
}

/// The path of the scope `name` within the scope with the given path.
pub open spec fn child(path: Seq<char>, name: Seq<char>) -> Seq<char> {
    if path.len() == 0 {
        name
    } else {
        path.push('.') + name
    }
}

impl<'a> Scope<'a> {
    /// The root of a store.
    pub fn root(vars: &'a VarMap, device: &'a Device) -> (scope: Self)
        ensures
            scope.vars == vars,
            scope.device == device,
            scope.path@.len() == 0,
    {
        Scope { vars, device, path: String::new() }
    }

    /// The scope `name` within this one.
    pub fn pp(&self, name: &str) -> (scope: Self)
        requires
            name@.len() > 0,
        ensures
            scope.vars == self.vars,
            scope.device == self.device,
            scope.path@ == child(self.path@, name@),
            scope.path@.len() > 0,
    {
        if self.path.as_str().is_empty() {
            return Scope { vars: self.vars, device: self.device, path: name.to_owned() };
        }
        let mut path: String = self.path.clone();
        proof {
            reveal_strlit(".");
        }
        path.append(".");
        path.append(name);
        assert(path@ =~= child(self.path@, name@));
        Scope { vars: self.vars, device: self.device, path }
    }
}

/// `candle_nn::linear` on `VarBuilder::from_varmap` of single precision with the prefix `path`:
/// on success the layer has the widths that are asked for.
#[verifier::external_body]
fn linear_in(
    inputs: usize,
    outputs: usize,
    vars: &VarMap,
    device: &Device,
    path: &str,
) -> (r: Result<Linear, candle_core::Error>)
    requires
        path@.len() > 0,
        addressable(seq![outputs, inputs]),
    ensures
        r matches Ok(layer) ==> linear_sized(layer, inputs, outputs),
{
    let vb = VarBuilder::from_varmap(vars, candle_core::DType::F32, device).set_prefix(path);
    candle_nn::linear(inputs, outputs, vb)
}

/// `candle_nn::linear_no_bias` on `VarBuilder::from_varmap` of single precision with the prefix
/// `path`: on success the layer has the widths that are asked for.
#[verifier::external_body]
fn linear_no_bias_in(
    inputs: usize,
    outputs: usize,
    vars: &VarMap,
    device: &Device,
    path: &str,
) -> (r: Result<Linear, candle_core::Error>)
    requires
        path@.len() > 0,
        addressable(seq![outputs, inputs]),
    ensures
        r matches Ok(layer) ==> linear_sized(layer, inputs, outputs),
{
    let vb = VarBuilder::from_varmap(vars, candle_core::DType::F32, device).set_prefix(path);
    candle_nn::linear_no_bias(inputs, outputs, vb)
}

/// `candle_nn::embedding` on `VarBuilder::from_varmap` of single precision with the prefix
/// `path`: on success the table has the size that is asked for.
#[verifier::external_body]
fn embedding_in(rows: usize, width: usize, vars: &VarMap, device: &Device, path: &str) -> (r:
    Result<Embedding, candle_core::Error>)
    requires
        path@.len() > 0,
        addressable(seq![rows, width]),
    ensures
        r matches Ok(table) ==> embedding_sized(table, rows, width),
{
    let vb = VarBuilder::from_varmap(vars, candle_core::DType::F32, device).set_prefix(path);
    candle_nn::embedding(rows, width, vb)
}

/// `candle_nn::layer_norm` with its default configuration (an epsilon of one part in a hundred
/// thousand, the mean removed, with a bias) on `VarBuilder::from_varmap` of single precision with
/// the prefix `path`: on success the normalisation has the width that is asked for.
#[verifier::external_body]
fn layer_norm_in(width: usize, vars: &VarMap, device: &Device, path: &str) -> (r: Result<
    LayerNorm,
    candle_core::Error,
>)
    requires
        path@.len() > 0,
        addressable(seq![width]),
    ensures
        r matches Ok(norm) ==> norm_width(norm) == Some(width),
{
    let vb = VarBuilder::from_varmap(vars, candle_core::DType::F32, device).set_prefix(path);
    candle_nn::layer_norm(width, candle_nn::LayerNormConfig::default(), vb)
}

/// `Tensor::tril2` of bytes: a square matrix, ones on the diagonal and below, zeros above. It
/// succeeds on the CPU.
#[verifier::external_body]
fn lower_triangle(size: usize, device: &Device) -> (r: Result<Tensor, candle_core::Error>)
    requires
        addressable(seq![size, size]),
    ensures
        device_is_cpu(*device) ==> r is Ok,
        r matches Ok(mask) ==> {
            &&& tensor_dims(mask) == seq![size, size]
            &&& tensor_element(mask) == Element::U8
            &&& on_cpu(mask) == device_is_cpu(*device)
        },
{
    Tensor::tril2(size, candle_core::DType::U8, device)
}

/// `layer` is what the variables under `path` give as a linear layer with a bias.
pub closed spec fn linear_at(
    vars: &VarMap,
    device: &Device,
    path: Seq<char>,
    inputs: usize,
    outputs: usize,
    layer: Linear,
) -> bool {
    exists|prefix: &str|
        prefix@ == path && #[trigger] call_ensures(
            linear_in,
            (inputs, outputs, vars, device, prefix),
            Ok::<Linear, candle_core::Error>(layer),
        )
}

/// `layer` is what the variables under `path` give as a linear layer without a bias.
pub closed spec fn linear_no_bias_at(
    vars: &VarMap,
    device: &Device,
    path: Seq<char>,
    inputs: usize,
    outputs: usize,
    layer: Linear,
) -> bool {
    exists|prefix: &str|
        prefix@ == path && #[trigger] call_ensures(
            linear_no_bias_in,
            (inputs, outputs, vars, device, prefix),
            Ok::<Linear, candle_core::Error>(layer),
        )
}

/// `table` is what the variables under `path` give as an embedding table.
pub closed spec fn embedding_at(
    vars: &VarMap,
    device: &Device,
    path: Seq<char>,
    rows: usize,
    width: usize,
    table: Embedding,
) -> bool {
    exists|prefix: &str|
        prefix@ == path && #[trigger] call_ensures(
            embedding_in,
            (rows, width, vars, device, prefix),
            Ok::<Embedding, candle_core::Error>(table),
        )
}

/// `norm` is what the variables under `path` give as a layer normalisation.
pub closed spec fn layer_norm_at(
    vars: &VarMap,
    device: &Device,
    path: Seq<char>,
    width: usize,
    norm: LayerNorm,
) -> bool {
    exists|prefix: &str|
        prefix@ == path && #[trigger] call_ensures(
            layer_norm_in,
            (width, vars, device, prefix),
            Ok::<LayerNorm, candle_core::Error>(norm),
        )
}

/// `mask` is what the lower triangle of a square matrix gives.
pub closed spec fn lower_triangle_yields(size: usize, device: &Device, mask: Tensor) -> bool {
    call_ensures(lower_triangle, (size, device), Ok::<Tensor, candle_core::Error>(mask))
}

impl<'a> Scope<'a> {
    /// A linear layer with a bias.
    pub fn linear(&self, inputs: usize, outputs: usize) -> (r: Result<Linear, GptError>)
        requires
            self.path@.len() > 0,
        ensures
            guarded(size_fault(seq![outputs, inputs]), r),
            r matches Ok(layer) ==> {
                &&& linear_sized(layer, inputs, outputs)
                &&& linear_at(self.vars, self.device, self.path@, inputs, outputs, layer)
            },
    {
        check_matrix(outputs, inputs)?;
        lift(linear_in(inputs, outputs, self.vars, self.device, self.path.as_str()))
    }

    /// A linear layer without a bias.
    pub fn linear_no_bias(&self, inputs: usize, outputs: usize) -> (r: Result<Linear, GptError>)
        requires
            self.path@.len() > 0,
        ensures
            guarded(size_fault(seq![outputs, inputs]), r),
            r matches Ok(layer) ==> {
                &&& linear_sized(layer, inputs, outputs)
                &&& linear_no_bias_at(self.vars, self.device, self.path@, inputs, outputs, layer)
            },
    {
        check_matrix(outputs, inputs)?;
        lift(linear_no_bias_in(inputs, outputs, self.vars, self.device, self.path.as_str()))
    }

    /// An embedding table.
    pub fn embedding(&self, rows: usize, width: usize) -> (r: Result<Embedding, GptError>)
        requires
            self.path@.len() > 0,
        ensures
            guarded(size_fault(seq![rows, width]), r),
            r matches Ok(table) ==> {
                &&& embedding_sized(table, rows, width)
                &&& embedding_at(self.vars, self.device, self.path@, rows, width, table)
            },
    {
        check_matrix(rows, width)?;
        lift(embedding_in(rows, width, self.vars, self.device, self.path.as_str()))
    }

    /// A layer normalisation.
    pub fn layer_norm(&self, width: usize) -> (r: Result<LayerNorm, GptError>)
        requires
            self.path@.len() > 0,
        ensures
            guarded(size_fault(seq![width]), r),
            r matches Ok(norm) ==> {
                &&& norm_width(norm) == Some(width)
                &&& layer_norm_at(self.vars, self.device, self.path@, width, norm)
            },
    {
        let dims: [usize; 1] = [width];
        assert(dims@ =~= seq![width]);
        check_addressable(&dims)?;
        lift(layer_norm_in(width, self.vars, self.device, self.path.as_str()))
    }

    /// The causal mask over `size` positions: a position sees itself and those before it.
    pub fn causal_mask(&self, size: usize) -> (r: Result<Tensor, GptError>)
        ensures
            guarded(size_fault(seq![size, size]), r),
            addressable(seq![size, size]) && device_is_cpu(*self.device) ==> r is Ok,
            r matches Ok(mask) ==> {
                &&& tensor_dims(mask) == seq![size, size]
                &&& tensor_element(mask) == Element::U8
                &&& on_cpu(mask) == device_is_cpu(*self.device)
                &&& lower_triangle_yields(size, self.device, mask)
            },
    {
        check_matrix(size, size)?;
        lift(lower_triangle(size, self.device))
    }
}

/// Tests whether the shape of a matrix is addressable.
fn check_matrix(rows: usize, columns: usize) -> (r: Result<(), GptError>)
    ensures
        r is Ok <==> addressable(seq![rows, columns]),
        r matches Err(e) ==> size_fault(seq![rows, columns]) == Some(e),
{
    let dims: [usize; 2] = [rows, columns];
    assert(dims@ =~= seq![rows, columns]);
    check_addressable(&dims)
}

/// A scope within another has its name behind the path of the other and a full stop.
pub proof fn law_paths_are_joined_by_a_stop(path: Seq<char>, name: Seq<char>)
    ensures
        path.len() == 0 ==> child(path, name) == name,
        path.len() > 0 ==> child(path, name) == path + "."@ + name,
{
    reveal_strlit(".");
    assert(path.push('.') + name =~= path + "."@ + name);
}

/// The layers and the mask of a scope make the calls that they are named after, on the variables
/// under their path and with their own sizes.
proof fn law_layers_make_their_calls(
    vars: &VarMap,
    device: &Device,
    path: Seq<char>,
    a: usize,
    b: usize,
    layer: Linear,
    table: Embedding,
    norm: LayerNorm,
    mask: Tensor,
)
    ensures
        linear_at(vars, device, path, a, b, layer) <==> exists|prefix: &str|
            prefix@ == path && #[trigger] call_ensures(
                linear_in,
                (a, b, vars, device, prefix),
                Ok::<Linear, candle_core::Error>(layer),
            ),
        linear_no_bias_at(vars, device, path, a, b, layer) <==> exists|prefix: &str|
            prefix@ == path && #[trigger] call_ensures(
                linear_no_bias_in,
                (a, b, vars, device, prefix),
                Ok::<Linear, candle_core::Error>(layer),
            ),
        embedding_at(vars, device, path, a, b, table) <==> exists|prefix: &str|
            prefix@ == path && #[trigger] call_ensures(
                embedding_in,
                (a, b, vars, device, prefix),
                Ok::<Embedding, candle_core::Error>(table),
            ),
        layer_norm_at(vars, device, path, a, norm) <==> exists|prefix: &str|
            prefix@ == path && #[trigger] call_ensures(
                layer_norm_in,
                (a, vars, device, prefix),
                Ok::<LayerNorm, candle_core::Error>(norm),
            ),
        lower_triangle_yields(a, device, mask) <==> call_ensures(
            lower_triangle,
            (a, device),
            Ok::<Tensor, candle_core::Error>(mask),
        ),
{
}

} // verus!
