//! Tensor operations of the tensor library, with what they do to shapes.
//!
//! A tensor is opaque here but for its sizes and strides, the type of its elements and its device.
//! These never change, and where an operation depends on nothing else its success is stated too.
//! What an operation computes is stated as a relation between its inputs and its output: the
//! output is one that the tensor library gives for these inputs. Floating point results differ
//! from machine to machine, and variables change in training, so the relation is no function.
//! It is closed: only a call of the operation establishes it, and so a contract that holds it
//! fixes which operation was applied to which tensors.
//!
//! What the cells of a tensor hold is left unsaid of every operation, also of those that only
//! make or move integers: cells can be overwritten in place behind shared references, as by
//! `Tensor::slice_set`, and so are no function of the tensor.

use crate::error::{first_fault, guarded, lift, GptError};
use crate::shapes::{
    addressable, broadcast, broadcasts, copy_dims, has_cells, is_addressable, lemma_empty_product,
    lemma_full_product, lemma_product_of_two, product, size_from_end,
};
use candle_core::Tensor as CandleTensor;
use candle_core::{DType, Device};
use candle_nn::{Dropout, Embedding, LayerNorm, Linear};
use vstd::prelude::*;

verus! {

/// A tensor of the tensor library.
#[verifier::external_type_specification]
#[verifier::external_body]
pub struct ExTensor(CandleTensor);

/// A device that tensors live on.
#[verifier::external_type_specification]
#[verifier::external_body]
pub struct ExDevice(candle_core::Device);

/// A linear layer of the tensor library.
#[verifier::external_type_specification]
#[verifier::external_body]
pub struct ExLinear(candle_nn::Linear);

/// An embedding table of the tensor library.
#[verifier::external_type_specification]
#[verifier::external_body]
pub struct ExEmbedding(candle_nn::Embedding);

/// A layer normalisation of the tensor library.
#[verifier::external_type_specification]
#[verifier::external_body]
pub struct ExLayerNorm(candle_nn::LayerNorm);

/// A dropout layer of the tensor library.
#[verifier::external_type_specification]
#[verifier::external_body]
pub struct ExDropout(candle_nn::Dropout);

/// A store of named variables of the tensor library.
#[verifier::external_type_specification]
#[verifier::external_body]
pub struct ExVarMap(candle_nn::VarMap);

/// The sizes of a tensor's dimensions, as `Tensor::dims` gives them. They never change.
pub uninterp spec fn tensor_dims(t: CandleTensor) -> Seq<usize>;

/// How far apart in memory the neighbours along each dimension of a tensor lie, as
/// `Tensor::stride` gives it. They never change.
pub uninterp spec fn tensor_strides(t: CandleTensor) -> Seq<usize>;

/// Where in its storage a tensor begins, as `Layout::start_offset` gives it. It never changes.
pub uninterp spec fn tensor_start(t: CandleTensor) -> usize;

/// The type of a tensor's elements, as `Tensor::dtype` gives it. It never changes.
pub uninterp spec fn tensor_element(t: CandleTensor) -> Element;

/// The device of a tensor, as `Tensor::device` gives it. It never changes.
pub uninterp spec fn tensor_device(t: CandleTensor) -> Device;

/// Whether a device is the CPU, as `Device::is_cpu` says.
pub uninterp spec fn device_is_cpu(device: Device) -> bool;

/// `Tensor::dims`: the sizes of the dimensions.
pub assume_specification[ CandleTensor::dims ](t: &CandleTensor) -> (dims: &[usize])
    ensures
        dims@ == tensor_dims(*t),
;

/// `Tensor::dims2`: the two sizes of a tensor with two dimensions, an error for any other.
pub assume_specification[ CandleTensor::dims2 ](t: &CandleTensor) -> (r: Result<
    (usize, usize),
    candle_core::Error,
>)
    ensures
        r is Ok <==> tensor_dims(*t).len() == 2,
        r matches Ok(d) ==> tensor_dims(*t) == seq![d.0, d.1],
;

/// `Tensor::dims3`: the three sizes of a tensor with three dimensions, an error for any other.
pub assume_specification[ CandleTensor::dims3 ](t: &CandleTensor) -> (r: Result<
    (usize, usize, usize),
    candle_core::Error,
>)
    ensures
        r is Ok <==> tensor_dims(*t).len() == 3,
        r matches Ok(d) ==> tensor_dims(*t) == seq![d.0, d.1, d.2],
;

/// The types of elements of the tensor library.
#[derive(Clone, Copy, Debug, PartialEq, Eq)]
pub enum Element {
    U8,
    U32,
    I16,
    I32,
    I64,
    BF16,
    F16,
    F32,
    F64,
    F8E4M3,
    F6E2M3,
    F6E3M2,
    F4,
    F8E8M0,
    /// A type that is not among the others.
    Unknown,
}

/// `Tensor::dtype`: the type of the elements.
#[verifier::external_body]
pub(crate) fn element_of(t: &CandleTensor) -> (element: Element)
    ensures
        element == tensor_element(*t),
{
    match t.dtype() {
        DType::U8 => Element::U8, DType::U32 => Element::U32,
        DType::I16 => Element::I16, DType::I32 => Element::I32, DType::I64 => Element::I64,
        DType::BF16 => Element::BF16, DType::F16 => Element::F16,
        DType::F32 => Element::F32, DType::F64 => Element::F64,
        DType::F8E4M3 => Element::F8E4M3, DType::F6E2M3 => Element::F6E2M3,
        DType::F6E3M2 => Element::F6E3M2, DType::F4 => Element::F4,
        DType::F8E8M0 => Element::F8E8M0, _ => Element::Unknown,
    }
}

/// `Tensor::device`: the device of the tensor.
pub assume_specification[ CandleTensor::device ](t: &CandleTensor) -> (device: &Device)
    ensures
        *device == tensor_device(*t),
;

/// `Device::is_cpu`: whether the device is the CPU.
pub assume_specification[ candle_core::Device::is_cpu ](device: &Device) -> (yes: bool)
    ensures
        yes == device_is_cpu(*device),
;

/// Strides of a tensor whose elements lie in row-major order without gaps. The stride along a
/// dimension with a single cell does not matter.
pub open spec fn is_row_major(dims: Seq<usize>, strides: Seq<usize>) -> bool {
    &&& strides.len() == dims.len()
    &&& forall|i: int|
        0 <= i < dims.len() && dims[i] > 1 ==> #[trigger] strides[i] == product(dims.skip(i + 1))
}

/// The elements of a tensor lie in row-major order without gaps.
pub open spec fn dense(t: CandleTensor) -> bool {
    is_row_major(tensor_dims(t), tensor_strides(t))
}

/// The strides of a tensor are those of row-major order without gaps, along dimensions with a
/// single cell too.
pub open spec fn packed(t: CandleTensor) -> bool {
    let dims = tensor_dims(t);
    &&& tensor_strides(t).len() == dims.len()
    &&& forall|i: int|
        0 <= i < dims.len() ==> #[trigger] tensor_strides(t)[i] == product(dims.skip(i + 1))
}

/// `Tensor::stride`: how far apart the neighbours along each dimension lie.
pub assume_specification[ CandleTensor::stride ](t: &CandleTensor) -> (strides: &[usize])
    ensures
        strides@ == tensor_strides(*t),
        strides@.len() == tensor_dims(*t).len(),
;

/// The last dimension can be reduced: it is not a single cell with the stride of a repeated one.
pub open spec fn reducible(t: CandleTensor) -> bool {
    tensor_dims(t).len() > 0 && tensor_dims(t).last() == 1 ==> tensor_strides(t).last() != 0
}

/// Tests whether the last dimension can be reduced.
fn is_reducible(t: &CandleTensor) -> (yes: bool)
    ensures
        yes == reducible(*t),
{
    let dims: &[usize] = t.dims();
    let strides: &[usize] = t.stride();
    if dims.len() == 0 {
        return true;
    }
    let last: usize = dims.len() - 1;
    dims[last] != 1 || strides[last] != 0
}

/// The last dimension of a packed tensor can be reduced.
pub proof fn lemma_packed_is_reducible(t: CandleTensor)
    requires
        packed(t),
    ensures
        reducible(t),
{
    let dims = tensor_dims(t);
    if dims.len() > 0 {
        let last = dims.len() - 1;
        assert(dims.skip(last + 1) =~= Seq::<usize>::empty());
        assert(tensor_strides(t)[last] == product(dims.skip(last + 1)));
    }
}

/// A packed tensor with elements repeats no cell.
pub proof fn lemma_packed_repeats_nothing(t: CandleTensor)
    requires
        packed(t),
        filled(t),
    ensures
        forall|i: int| 0 <= i < tensor_dims(t).len() ==> #[trigger] tensor_strides(t)[i] != 0,
{
    let dims = tensor_dims(t);
    assert forall|i: int| 0 <= i < dims.len() implies #[trigger] tensor_strides(t)[i] != 0 by {
        let rest = dims.skip(i + 1);
        assert forall|k: int| 0 <= k < rest.len() implies #[trigger] rest[k] > 0 by {
            if dims[k + i + 1] == 0 {
                lemma_empty_product(dims, k + i + 1);
            }
        }
        lemma_full_product(rest);
    }
}

/// The elements of a tensor can be brought in row-major order: they are in it, or are of a type
/// that the tensor library makes new tensors of.
pub open spec fn movable(t: CandleTensor) -> bool {
    ||| dense(t)
    ||| match tensor_element(t) {
        Element::F6E2M3
        | Element::F6E3M2
        | Element::F4
        | Element::F8E8M0
        | Element::Unknown => false,
        _ => true,
    }
}

/// `Tensor::is_contiguous`: whether the elements lie in row-major order without gaps.
pub assume_specification[ CandleTensor::is_contiguous ](t: &CandleTensor) -> (yes: bool)
    requires
        addressable(tensor_dims(*t)),
    ensures
        yes == dense(*t),
;

/// The type is one of floating point numbers.
pub open spec fn is_float_element(element: Element) -> bool {
    match element {
        Element::U8 | Element::U32 | Element::I16 | Element::I32 | Element::I64
        | Element::Unknown => false,
        _ => true,
    }
}

/// The elements of a tensor are floating point numbers.
pub open spec fn tensor_is_float(t: CandleTensor) -> bool {
    is_float_element(tensor_element(t))
}

/// Tests whether the elements of a tensor are floating point numbers.
fn is_float(t: &CandleTensor) -> (yes: bool)
    ensures
        yes == tensor_is_float(*t),
{
    match element_of(t) {
        Element::U8 | Element::U32 | Element::I16 | Element::I32 | Element::I64
        | Element::Unknown => false,
        _ => true,
    }
}

/// A tensor is on the CPU.
pub open spec fn on_cpu(t: CandleTensor) -> bool {
    device_is_cpu(tensor_device(t))
}

/// A tensor holds numbers of single precision and is on the CPU.
pub open spec fn single(t: CandleTensor) -> bool {
    tensor_element(t) == Element::F32 && on_cpu(t)
}

/// A tensor has elements.
pub open spec fn filled(t: CandleTensor) -> bool {
    product(tensor_dims(t)) > 0
}

/// `Tensor::layout` and `Layout::start_offset`: where in its storage a tensor begins.
#[verifier::external_body]
fn start_of(t: &CandleTensor) -> (start: usize)
    ensures
        start == tensor_start(*t),
{
    t.layout().start_offset()
}

/// The storage of a tensor reaches as far as the tensor begins: the tensor has elements, or begins
/// where its storage does. A part without elements of another tensor can begin behind it.
pub open spec fn readable(t: CandleTensor) -> bool {
    filled(t) || tensor_start(t) == 0
}

/// The error of a tensor without elements that can begin behind its storage.
pub open spec fn reading_fault(t: CandleTensor) -> Option<GptError> {
    if readable(t) {
        None
    } else {
        Some(GptError::NoElements)
    }
}

/// Tests whether a tensor begins in its storage.
fn check_readable(t: &CandleTensor) -> (r: Result<(), GptError>)
    ensures
        r is Ok <==> readable(*t),
        r matches Err(e) ==> reading_fault(*t) == Some(e),
{
    if has_cells(t.dims()) || start_of(t) == 0 {
        Ok(())
    } else {
        Err(GptError::NoElements)
    }
}

/// A tensor that the operations of the model succeed on: it has elements, they are numbers of
/// single precision, and it is on the CPU.
pub open spec fn plain(t: CandleTensor) -> bool {
    single(t) && filled(t)
}

/// A tensor that the operations of the model succeed on, with its elements in row-major order and
/// an addressable shape.
pub open spec fn usable(t: CandleTensor) -> bool {
    plain(t) && dense(t) && addressable(tensor_dims(t))
}

/// Tests whether the operations of the model succeed on a tensor, with its elements in row-major
/// order and an addressable shape.
pub fn is_usable(t: &CandleTensor) -> (yes: bool)
    ensures
        yes == usable(*t),
{
    if !is_addressable(t.dims()) {
        return false;
    }
    let is_single: bool = match element_of(t) {
        Element::F32 => true,
        _ => false,
    };
    is_single && t.device().is_cpu() && has_cells(t.dims()) && t.is_contiguous()
}

/// Two tensors have elements of one type, and both or neither are on the CPU.
pub open spec fn alike(x: CandleTensor, y: CandleTensor) -> bool {
    tensor_element(y) == tensor_element(x) && on_cpu(y) == on_cpu(x)
}

/// A tensor of single or double precision on the CPU.
pub open spec fn single_or_double(t: CandleTensor) -> bool {
    (tensor_element(t) == Element::F32 || tensor_element(t) == Element::F64) && on_cpu(t)
}

/// A tensor that the operations below can compute with: its elements are floating point numbers
/// and its shape is addressable.
pub open spec fn computable(t: CandleTensor) -> bool {
    tensor_is_float(t) && addressable(tensor_dims(t))
}

/// The error of a shape that is too large.
pub open spec fn size_fault(dims: Seq<usize>) -> Option<GptError> {
    if addressable(dims) {
        None
    } else {
        Some(GptError::TooLarge)
    }
}

/// The error of a tensor that cannot be computed with.
pub open spec fn fault_of(t: CandleTensor) -> Option<GptError> {
    if tensor_is_float(t) {
        size_fault(tensor_dims(t))
    } else {
        Some(GptError::NotFloat)
    }
}

/// The error of a shape with more than the eight dimensions that elementwise operations on
/// several tensors are defined on.
pub open spec fn rank_fault(dims: Seq<usize>) -> Option<GptError> {
    if dims.len() <= 8 {
        None
    } else {
        Some(GptError::TooManyDimensions)
    }
}

/// Tests whether a shape has no more dimensions than elementwise operations are defined on.
fn check_rank(dims: &[usize]) -> (r: Result<(), GptError>)
    ensures
        r is Ok <==> dims@.len() <= 8,
        r matches Err(e) ==> rank_fault(dims@) == Some(e),
{
    if dims.len() <= 8 {
        Ok(())
    } else {
        Err(GptError::TooManyDimensions)
    }
}

/// The error of a tensor whose last dimension cannot be reduced.
pub open spec fn reduction_fault(t: CandleTensor) -> Option<GptError> {
    if reducible(t) {
        None
    } else {
        Some(GptError::RepeatedCell)
    }
}

/// Tests whether the last dimension of a tensor can be reduced.
pub(crate) fn check_reducible(t: &CandleTensor) -> (r: Result<(), GptError>)
    ensures
        r is Ok <==> reducible(*t),
        r matches Err(e) ==> reduction_fault(*t) == Some(e),
{
    if is_reducible(t) {
        Ok(())
    } else {
        Err(GptError::RepeatedCell)
    }
}

/// Tests whether a tensor can be computed with.
pub fn check_computable(t: &CandleTensor) -> (r: Result<(), GptError>)
    ensures
        r is Ok <==> computable(*t),
        r matches Err(e) ==> fault_of(*t) == Some(e),
{
    if !is_float(t) {
        return Err(GptError::NotFloat);
    }
    check_addressable(t.dims())
}

/// Tests whether a shape is addressable.
pub fn check_addressable(dims: &[usize]) -> (r: Result<(), GptError>)
    ensures
        r is Ok <==> addressable(dims@),
        r matches Err(e) ==> size_fault(dims@) == Some(e),
{
    if is_addressable(dims) {
        Ok(())
    } else {
        Err(GptError::TooLarge)
    }
}

/// A tensor as the tensor library hands it out where a call succeeds.
pub open spec fn given(t: CandleTensor) -> Result<CandleTensor, candle_core::Error> {
    Ok(t)
}

// Elementwise functions.

/// `Tensor::gelu`: the shape, the type of the elements and the device stay. It succeeds in single
/// and double precision on the CPU.
pub assume_specification[ CandleTensor::gelu ](x: &CandleTensor) -> (r: Result<
    CandleTensor,
    candle_core::Error,
>)
    requires
        computable(*x),
    ensures
        single_or_double(*x) ==> r is Ok,
        r matches Ok(y) ==> tensor_dims(y) == tensor_dims(*x) && alike(*x, y),
        r matches Ok(y) ==> (filled(y) ==> packed(y)),
;

/// `Tensor::log`: the shape, the type of the elements and the device stay. It succeeds in single
/// and double precision on the CPU.
pub assume_specification[ CandleTensor::log ](x: &CandleTensor) -> (r: Result<
    CandleTensor,
    candle_core::Error,
>)
    requires
        computable(*x),
    ensures
        single_or_double(*x) ==> r is Ok,
        r matches Ok(y) ==> tensor_dims(y) == tensor_dims(*x) && alike(*x, y),
        r matches Ok(y) ==> (filled(y) ==> packed(y)),
;

/// `Tensor::sqrt`: the shape, the type of the elements and the device stay. It succeeds in single
/// and double precision on the CPU.
pub assume_specification[ CandleTensor::sqrt ](x: &CandleTensor) -> (r: Result<
    CandleTensor,
    candle_core::Error,
>)
    requires
        computable(*x),
    ensures
        single_or_double(*x) ==> r is Ok,
        r matches Ok(y) ==> tensor_dims(y) == tensor_dims(*x) && alike(*x, y),
        r matches Ok(y) ==> (filled(y) ==> packed(y)),
;

/// `Tensor::recip`: the shape, the type of the elements and the device stay. It succeeds in single
/// and double precision on the CPU.
pub assume_specification[ CandleTensor::recip ](x: &CandleTensor) -> (r: Result<
    CandleTensor,
    candle_core::Error,
>)
    requires
        computable(*x),
    ensures
        single_or_double(*x) ==> r is Ok,
        r matches Ok(y) ==> tensor_dims(y) == tensor_dims(*x) && alike(*x, y),
        r matches Ok(y) ==> (filled(y) ==> packed(y)),
;

/// `y` is what the activation function GELU gives for `x`.
pub closed spec fn gelu_yields(x: CandleTensor, y: CandleTensor) -> bool {
    call_ensures(CandleTensor::gelu, (&x,), given(y))
}

/// The activation function GELU.
pub fn activate(x: &CandleTensor) -> (r: Result<CandleTensor, GptError>)
    ensures
        guarded(fault_of(*x), r),
        fault_of(*x) is None && single_or_double(*x) ==> r is Ok,
        r matches Ok(y) ==> {
            &&& tensor_dims(y) == tensor_dims(*x)
            &&& alike(*x, y)
            &&& filled(y) ==> packed(y)
            &&& gelu_yields(*x, y)
        },
{
    check_computable(x)?;
    lift(x.gelu())
}


// Layers.

/// The weight of a linear layer, as `Linear::weight` gives it.
pub uninterp spec fn linear_weight(layer: Linear) -> CandleTensor;

/// The bias of a linear layer, as `Linear::bias` gives it.
pub uninterp spec fn linear_bias(layer: Linear) -> Option<CandleTensor>;

/// `Linear::weight`: the weight of the layer.
pub assume_specification[ candle_nn::Linear::weight ](layer: &Linear) -> (weight: &CandleTensor)
    ensures
        *weight == linear_weight(*layer),
;

/// `Linear::bias`: the bias of the layer, where it has one.
pub assume_specification[ candle_nn::Linear::bias ](layer: &Linear) -> (bias: Option<&CandleTensor>)
    ensures
        bias is Some <==> linear_bias(*layer) is Some,
        bias matches Some(t) ==> linear_bias(*layer) == Some(*t),
;

/// The numbers of inputs and of outputs of a linear layer: `Some((inputs, outputs))` where the
/// weight has the shape `[outputs, inputs]` and the bias is absent or has the shape `[outputs]`.
pub open spec fn linear_widths(layer: Linear) -> Option<(usize, usize)> {
    let dims = tensor_dims(linear_weight(layer));
    if dims.len() == 2 && (linear_bias(layer) matches Some(bias) ==> tensor_dims(bias) == seq![
        dims[0],
    ]) {
        Some((dims[1], dims[0]))
    } else {
        None
    }
}

/// A linear layer has the given numbers of inputs and of outputs, and its weight is addressable.
pub open spec fn linear_sized(layer: Linear, inputs: usize, outputs: usize) -> bool {
    linear_widths(layer) == Some((inputs, outputs)) && addressable(
        tensor_dims(linear_weight(layer)),
    )
}

/// A linear layer that succeeds on a tensor that operations succeed on.
pub open spec fn linear_ready(layer: Linear) -> bool {
    &&& usable(linear_weight(layer))
    &&& linear_bias(layer) matches Some(bias) ==> usable(bias)
}

/// A linear layer that succeeds somewhere has inputs and outputs.
pub proof fn lemma_ready_widths(layer: Linear)
    requires
        linear_ready(layer),
        linear_widths(layer) is Some,
    ensures
        linear_inputs(layer) > 0,
        linear_outputs(layer) > 0,
{
    let dims = tensor_dims(linear_weight(layer));
    assert(dims =~= seq![dims[0], dims[1]]);
    lemma_product_of_two(dims[0], dims[1]);
    assert(dims[0] > 0 && dims[1] > 0) by (nonlinear_arith)
        requires
            dims[0] * dims[1] > 0,
            dims[0] >= 0,
            dims[1] >= 0,
    ;
}

/// Tests whether a linear layer succeeds on a tensor that operations succeed on.
pub fn is_linear_ready(layer: &Linear) -> (yes: bool)
    ensures
        yes == linear_ready(*layer),
{
    let bias_ready: bool = match layer.bias() {
        Some(bias) => is_usable(bias),
        None => true,
    };
    is_usable(layer.weight()) && bias_ready
}

/// The number of inputs of a linear layer.
pub open spec fn linear_inputs(layer: Linear) -> usize {
    linear_widths(layer).unwrap().0
}

/// The number of outputs of a linear layer.
pub open spec fn linear_outputs(layer: Linear) -> usize {
    linear_widths(layer).unwrap().1
}

/// The weight of a layer normalisation, as `LayerNorm::weight` gives it.
pub uninterp spec fn norm_weight(norm: LayerNorm) -> CandleTensor;

/// The bias of a layer normalisation, as `LayerNorm::bias` gives it.
pub uninterp spec fn norm_bias(norm: LayerNorm) -> Option<CandleTensor>;

/// `LayerNorm::weight`: the weight of the normalisation.
pub assume_specification[ candle_nn::LayerNorm::weight ](norm: &LayerNorm) -> (weight:
    &CandleTensor)
    ensures
        *weight == norm_weight(*norm),
;

/// `LayerNorm::bias`: the bias of the normalisation, where it has one.
pub assume_specification[ candle_nn::LayerNorm::bias ](norm: &LayerNorm) -> (bias: Option<
    &CandleTensor,
>)
    ensures
        bias is Some <==> norm_bias(*norm) is Some,
        bias matches Some(t) ==> norm_bias(*norm) == Some(*t),
;

/// The width of a layer normalisation: `Some(width)` where it has a bias, and the weight and the
/// bias have the shape `[width]`.
pub open spec fn norm_width(norm: LayerNorm) -> Option<usize> {
    let dims = tensor_dims(norm_weight(norm));
    if dims.len() == 1 && (norm_bias(norm) matches Some(bias) && tensor_dims(bias) == dims) {
        Some(dims[0])
    } else {
        None
    }
}

/// A layer normalisation that succeeds on a tensor that operations succeed on.
pub open spec fn norm_ready(norm: LayerNorm) -> bool {
    &&& usable(norm_weight(norm))
    &&& norm_bias(norm) matches Some(bias) ==> usable(bias)
}

/// Tests whether a layer normalisation succeeds on a tensor that operations succeed on.
pub fn is_norm_ready(norm: &LayerNorm) -> (yes: bool)
    ensures
        yes == norm_ready(*norm),
{
    let bias_ready: bool = match norm.bias() {
        Some(bias) => is_usable(bias),
        None => true,
    };
    is_usable(norm.weight()) && bias_ready
}

/// The rows of an embedding table as a tensor, as `Embedding::embeddings` gives them.
pub uninterp spec fn embedding_table(table: Embedding) -> CandleTensor;

/// The width that an embedding table was made with, as `Embedding::hidden_size` gives it.
pub uninterp spec fn embedding_hidden_size(table: Embedding) -> usize;

/// `Embedding::embeddings`: the rows of the table as a tensor.
pub assume_specification[ candle_nn::Embedding::embeddings ](table: &Embedding) -> (rows:
    &CandleTensor)
    ensures
        *rows == embedding_table(*table),
;

/// `Embedding::hidden_size`: the width that the table was made with.
pub assume_specification[ candle_nn::Embedding::hidden_size ](table: &Embedding) -> (width: usize)
    ensures
        width == embedding_hidden_size(*table),
;

/// The number of rows of an embedding table and their width: `Some((rows, width))` where the rows
/// have the shape `[rows, width]` and `width` is the width that the table was made with.
pub open spec fn embedding_widths(table: Embedding) -> Option<(usize, usize)> {
    let dims = tensor_dims(embedding_table(table));
    if dims.len() == 2 && dims[1] == embedding_hidden_size(table) {
        Some((dims[0], dims[1]))
    } else {
        None
    }
}

/// An embedding table has the given numbers of rows and of columns, and is addressable and
/// readable.
pub open spec fn embedding_sized(table: Embedding, rows: usize, width: usize) -> bool {
    &&& embedding_widths(table) == Some((rows, width))
    &&& addressable(tensor_dims(embedding_table(table)))
    &&& readable(embedding_table(table))
}

/// The rows of an embedding table hold floating point numbers.
pub open spec fn embedding_is_float(table: Embedding) -> bool {
    tensor_is_float(embedding_table(table))
}

/// An embedding table whose rows can be looked up on the CPU.
pub open spec fn embedding_ready(table: Embedding) -> bool {
    usable(embedding_table(table))
}

/// Tests whether the rows of an embedding table can be looked up on the CPU.
pub fn is_embedding_ready(table: &Embedding) -> (yes: bool)
    ensures
        yes == embedding_ready(*table),
{
    is_usable(table.embeddings())
}

/// The number of rows of an embedding table.
pub open spec fn embedding_rows(table: Embedding) -> usize {
    embedding_widths(table).unwrap().0
}

/// The width of the rows of an embedding table.
pub open spec fn embedding_width(table: Embedding) -> usize {
    embedding_widths(table).unwrap().1
}

/// The shape `dims` with the size of the last dimension replaced.
pub open spec fn with_last(dims: Seq<usize>, last: usize) -> Seq<usize> {
    if dims.len() == 0 {
        dims
    } else {
        dims.drop_last().push(last)
    }
}

/// A copy of a shape with the size of the last dimension replaced.
fn replace_last(dims: &[usize], last: usize) -> (replaced: Vec<usize>)
    ensures
        replaced@ == with_last(dims@, last),
{
    let mut replaced: Vec<usize> = copy_dims(dims);
    if replaced.len() > 0 {
        let end: usize = replaced.len() - 1;
        replaced.set(end, last);
        assert(replaced@ =~= with_last(dims@, last));
    }
    replaced
}

/// A linear layer and an input that it succeeds on.
pub open spec fn linear_fits(layer: Linear, x: CandleTensor) -> bool {
    &&& linear_ready(layer)
    &&& plain(x)
    &&& 2 <= tensor_dims(x).len() <= 4
    &&& tensor_dims(x).last() == linear_inputs(layer)
}

/// `Module::forward` of a `Linear`: the inputs lie along the last of two or more dimensions, and
/// the outputs take their place, with elements of the same type on the same device. It succeeds
/// on two to four dimensions where the input is plain, the layer is ready and the widths fit. With
/// three or four dimensions it reads the input as if it were in row-major order.
#[verifier::external_body]
fn linear_forward(layer: &Linear, x: &CandleTensor) -> (r: Result<CandleTensor, candle_core::Error>)
    requires
        computable(*x),
        tensor_dims(*x).len() == 3 || tensor_dims(*x).len() == 4 ==> dense(*x),
        linear_widths(*layer) is Some,
        addressable(tensor_dims(linear_weight(*layer))),
        addressable(with_last(tensor_dims(*x), linear_outputs(*layer))),
    ensures
        linear_fits(*layer, *x) ==> r is Ok,
        r matches Ok(y) ==> {
            &&& tensor_dims(*x).len() >= 2
            &&& tensor_dims(*x).last() == linear_inputs(*layer)
            &&& tensor_dims(y) == with_last(tensor_dims(*x), linear_outputs(*layer))
            &&& alike(*x, y)
            &&& packed(y)
        },
{
    candle_core::Module::forward(layer, x)
}

/// The steps of a linear layer: with three or four dimensions, the input is brought in row-major
/// order first.
spec fn linear_steps(layer: Linear, x: CandleTensor, rows: CandleTensor, y: CandleTensor) -> bool {
    let rank = tensor_dims(x).len();
    &&& if rank == 3 || rank == 4 {
        call_ensures(CandleTensor::contiguous, (&x,), given(rows))
    } else {
        rows == x
    }
    &&& call_ensures(linear_forward, (&layer, &rows), given(y))
}

/// `y` is what the linear layer gives for `x`.
pub closed spec fn linear_yields(layer: Linear, x: CandleTensor, y: CandleTensor) -> bool {
    exists|rows: CandleTensor| #[trigger] linear_steps(layer, x, rows, y)
}

/// Applies a linear layer with `outputs` outputs along the last dimension.
pub fn linear(layer: &Linear, outputs: usize, x: &CandleTensor) -> (r: Result<
    CandleTensor,
    GptError,
>)
    requires
        linear_widths(*layer) is Some,
        addressable(tensor_dims(linear_weight(*layer))),
        linear_outputs(*layer) == outputs,
    ensures
        guarded(
            first_fault(fault_of(*x), size_fault(with_last(tensor_dims(*x), outputs))),
            r,
        ),
        linear_fits(*layer, *x) && first_fault(
            fault_of(*x),
            size_fault(with_last(tensor_dims(*x), outputs)),
        ) is None ==> r is Ok,
        r matches Ok(y) ==> {
            &&& tensor_dims(*x).len() >= 2
            &&& tensor_dims(*x).last() == linear_inputs(*layer)
            &&& tensor_dims(y) == with_last(tensor_dims(*x), outputs)
            &&& alike(*x, y)
            &&& packed(y)
            &&& linear_yields(*layer, *x, y)
        },
{
    check_computable(x)?;
    check_addressable(&replace_last(x.dims(), outputs))?;
    let rank: usize = x.dims().len();
    if rank == 3 || rank == 4 {
        let rows: CandleTensor = lift(x.contiguous())?;
        let y: CandleTensor = lift(linear_forward(layer, &rows))?;
        assert(linear_steps(*layer, *x, rows, y));
        return Ok(y);
    }
    let y: CandleTensor = lift(linear_forward(layer, x))?;
    assert(linear_steps(*layer, *x, *x, y));
    Ok(y)
}

/// A layer normalisation and an input that it succeeds on.
pub open spec fn norm_fits(norm: LayerNorm, x: CandleTensor) -> bool {
    &&& norm_ready(norm)
    &&& plain(x)
    &&& tensor_dims(x).len() > 0
    &&& Some(tensor_dims(x).last()) == norm_width(norm)
}

/// `Module::forward` of a `LayerNorm`: the last of one or more dimensions is normalised. The
/// width is broadcast against the shape. The type of the elements and the device stay. It succeeds
/// where the input is plain, the normalisation is ready and the widths are equal. An empty last
/// dimension, more than eight dimensions, or no elements behind the storage can make it panic.
#[verifier::external_body]
fn norm_forward(norm: &LayerNorm, x: &CandleTensor) -> (r: Result<CandleTensor, candle_core::Error>)
    requires
        computable(*x),
        norm_width(*norm) is Some,
        tensor_dims(*x).len() <= 8,
        readable(*x),
        tensor_dims(*x).len() > 0 ==> tensor_dims(*x).last() > 0,
        addressable(broadcast(tensor_dims(*x), seq![norm_width(*norm)->0])),
    ensures
        norm_fits(*norm, *x) ==> r is Ok,
        r matches Ok(y) ==> {
            &&& tensor_dims(*x).len() > 0
            &&& broadcasts(tensor_dims(*x), seq![norm_width(*norm)->0])
            &&& tensor_dims(y) == broadcast(tensor_dims(*x), seq![norm_width(*norm)->0])
            &&& alike(*x, y)
            &&& filled(y) ==> packed(y)
        },
{
    candle_core::Module::forward(norm, x)
}

/// `y` is what the layer normalisation gives for `x`.
pub closed spec fn norm_yields(norm: LayerNorm, x: CandleTensor, y: CandleTensor) -> bool {
    call_ensures(norm_forward, (&norm, &x), given(y))
}

/// The shape that two shapes broadcast to.
fn broadcast_dims(a: &[usize], b: &[usize]) -> (dims: Vec<usize>)
    ensures
        dims@ == broadcast(a@, b@),
{
    let rank: usize = if a.len() < b.len() { b.len() } else { a.len() };
    let mut dims: Vec<usize> = Vec::with_capacity(rank);
    let mut i: usize = 0;
    while i < rank
        invariant
            i <= rank == broadcast(a@, b@).len(),
            rank >= a@.len(),
            rank >= b@.len(),
            dims@ == broadcast(a@, b@).take(i as int),
        decreases rank - i,
    {
        let back: usize = rank - i;
        let x: usize = if back <= a.len() { a[a.len() - back] } else { 1 };
        let y: usize = if back <= b.len() { b[b.len() - back] } else { 1 };
        dims.push(if x == 1 { y } else { x });
        assert(broadcast(a@, b@).take(i + 1) =~= broadcast(a@, b@).take(i as int).push(
            broadcast(a@, b@)[i as int],
        ));
        i += 1;
    }
    assert(broadcast(a@, b@).take(rank as int) =~= broadcast(a@, b@));
    dims
}

/// The error of a shape whose last dimension is empty.
pub open spec fn feature_fault(dims: Seq<usize>) -> Option<GptError> {
    if dims.len() > 0 && dims.last() == 0 {
        Some(GptError::NoFeatures)
    } else {
        None
    }
}

/// The error of a tensor that cannot be normalised along its last dimension.
pub open spec fn norm_fault(x: CandleTensor, width: usize) -> Option<GptError> {
    let dims = tensor_dims(x);
    first_fault(
        first_fault(first_fault(fault_of(x), rank_fault(dims)), feature_fault(dims)),
        first_fault(size_fault(broadcast(dims, seq![width])), reading_fault(x)),
    )
}

/// Normalises along the last dimension, with a layer normalisation of the given width.
pub fn normalize(norm: &LayerNorm, width: usize, x: &CandleTensor) -> (r: Result<
    CandleTensor,
    GptError,
>)
    requires
        norm_width(*norm) == Some(width),
    ensures
        guarded(norm_fault(*x, width), r),
        norm_fits(*norm, *x) && norm_fault(*x, width) is None ==> r is Ok,
        r matches Ok(y) ==> {
            &&& tensor_dims(*x).len() > 0
            &&& broadcasts(tensor_dims(*x), seq![width])
            &&& tensor_dims(y) == broadcast(tensor_dims(*x), seq![width])
            &&& alike(*x, y)
            &&& filled(y) ==> packed(y)
            &&& norm_yields(*norm, *x, y)
        },
{
    check_computable(x)?;
    let dims: &[usize] = x.dims();
    check_rank(dims)?;
    if dims.len() > 0 && dims[dims.len() - 1] == 0 {
        return Err(GptError::NoFeatures);
    }
    let widths: [usize; 1] = [width];
    assert(widths@ =~= seq![width]);
    check_addressable(&broadcast_dims(dims, &widths))?;
    check_readable(x)?;
    lift(norm_forward(norm, x))
}

/// `Module::forward` of an `Embedding`: each index becomes a row of the table, and the elements
/// are of the type of the table. Which indices it refuses is left unsaid, as are the cells of
/// any tensor.
#[verifier::external_body]
fn embedding_forward(table: &Embedding, ids: &CandleTensor) -> (r: Result<
    CandleTensor,
    candle_core::Error,
>)
    requires
        addressable(tensor_dims(*ids)),
        embedding_widths(*table) is Some,
        addressable(tensor_dims(embedding_table(*table))),
        readable(embedding_table(*table)),
        addressable(tensor_dims(*ids).push(embedding_width(*table))),
    ensures
        r matches Ok(y) ==> {
            &&& tensor_dims(y) == tensor_dims(*ids).push(embedding_width(*table))
            &&& tensor_element(y) == tensor_element(embedding_table(*table))
            &&& readable(y)
            &&& on_cpu(y) == on_cpu(*ids)
            &&& filled(y) ==> packed(y)
        },
{
    candle_core::Module::forward(table, ids)
}

/// `y` is what the embedding table gives for `ids`.
pub closed spec fn embedding_yields(table: Embedding, ids: CandleTensor, y: CandleTensor) -> bool {
    call_ensures(embedding_forward, (&table, &ids), given(y))
}

/// The error of indices whose rows are too large.
pub open spec fn lookup_fault(dims: Seq<usize>, width: usize) -> Option<GptError> {
    first_fault(size_fault(dims), size_fault(dims.push(width)))
}

/// Looks up the rows of an embedding table that a tensor of indices names.
pub fn embed(table: &Embedding, ids: &CandleTensor) -> (r: Result<CandleTensor, GptError>)
    requires
        embedding_widths(*table) is Some,
        addressable(tensor_dims(embedding_table(*table))),
        readable(embedding_table(*table)),
    ensures
        guarded(lookup_fault(tensor_dims(*ids), embedding_width(*table)), r),
        r matches Ok(y) ==> {
            &&& tensor_dims(y) == tensor_dims(*ids).push(embedding_width(*table))
            &&& tensor_element(y) == tensor_element(embedding_table(*table))
            &&& readable(y)
            &&& on_cpu(y) == on_cpu(*ids)
            &&& filled(y) ==> packed(y)
            &&& embedding_yields(*table, *ids, y)
        },
{
    check_addressable(ids.dims())?;
    let mut dims: Vec<usize> = copy_dims(ids.dims());
    dims.push(table.hidden_size());
    check_addressable(&dims)?;
    lift(embedding_forward(table, ids))
}

/// Every index is that of one of `rows` rows.
pub open spec fn all_below(ids: Seq<u32>, rows: usize) -> bool {
    forall|i: int| 0 <= i < ids.len() ==> #[trigger] ids[i] < rows
}

/// Every index is that of one of `rows` rows or is the largest, which stands for a row of zeros.
pub open spec fn all_known(ids: Seq<u32>, rows: usize) -> bool {
    forall|i: int| 0 <= i < ids.len() ==> #[trigger] ids[i] < rows || ids[i] == u32::MAX
}

/// `Module::forward` of an `Embedding` on the indices of a matrix, row by row, which
/// `Tensor::from_vec` makes a tensor of: each index becomes a row of the table, with elements of
/// its type. On the CPU it succeeds where the table is ready and has a row for every index, and
/// fails where an index other than the largest has no row.
#[verifier::external_body]
fn embedding_of_ids(
    table: &Embedding,
    ids: Vec<u32>,
    rows: usize,
    columns: usize,
    device: &Device,
) -> (r: Result<CandleTensor, candle_core::Error>)
    requires
        ids@.len() == rows * columns,
        addressable(seq![rows, columns]),
        embedding_widths(*table) is Some,
        addressable(tensor_dims(embedding_table(*table))),
        readable(embedding_table(*table)),
        addressable(seq![rows, columns, embedding_width(*table)]),
    ensures
        device_is_cpu(*device) && embedding_ready(*table) && all_below(
            ids@,
            embedding_rows(*table),
        ) ==> r is Ok,
        r is Ok && device_is_cpu(*device) ==> all_known(ids@, embedding_rows(*table)),
        r matches Ok(y) ==> {
            &&& tensor_dims(y) == seq![rows, columns, embedding_width(*table)]
            &&& tensor_element(y) == tensor_element(embedding_table(*table))
            &&& readable(y)
            &&& on_cpu(y) == device_is_cpu(*device)
            &&& filled(y) ==> packed(y)
        },
{
    let ids = CandleTensor::from_vec(ids, (rows, columns), device)?;
    candle_core::Module::forward(table, &ids)
}

/// `y` is what the embedding table gives for the indices of a matrix, row by row.
pub closed spec fn ids_embedding_yields(
    table: Embedding,
    ids: Seq<u32>,
    rows: usize,
    columns: usize,
    device: &Device,
    y: CandleTensor,
) -> bool {
    exists|list: Vec<u32>|
        list@ == ids && #[trigger] call_ensures(
            embedding_of_ids,
            (&table, list, rows, columns, device),
            given(y),
        )
}

/// Looks up the rows of an embedding table that the indices of a matrix, row by row, name.
pub fn embed_ids(
    table: &Embedding,
    ids: Vec<u32>,
    rows: usize,
    columns: usize,
    device: &Device,
) -> (r: Result<CandleTensor, GptError>)
    requires
        ids@.len() == rows * columns,
        embedding_widths(*table) is Some,
        addressable(tensor_dims(embedding_table(*table))),
        readable(embedding_table(*table)),
    ensures
        guarded(lookup_fault(seq![rows, columns], embedding_width(*table)), r),
        lookup_fault(seq![rows, columns], embedding_width(*table)) is None && device_is_cpu(*device)
            && embedding_ready(*table) && all_below(ids@, embedding_rows(*table)) ==> r is Ok,
        r is Ok && device_is_cpu(*device) ==> all_known(ids@, embedding_rows(*table)),
        r matches Ok(y) ==> {
            &&& tensor_dims(y) == seq![rows, columns, embedding_width(*table)]
            &&& tensor_element(y) == tensor_element(embedding_table(*table))
            &&& readable(y)
            &&& on_cpu(y) == device_is_cpu(*device)
            &&& filled(y) ==> packed(y)
            &&& ids_embedding_yields(*table, ids@, rows, columns, device, y)
        },
{
    let mut dims: Vec<usize> = vec![rows, columns];
    assert(dims@ =~= seq![rows, columns]);
    check_addressable(&dims)?;
    dims.push(table.hidden_size());
    assert(dims@ =~= seq![rows, columns, embedding_width(*table)]);
    assert(seq![rows, columns].push(embedding_width(*table)) =~= dims@);
    check_addressable(&dims)?;
    lift(embedding_of_ids(table, ids, rows, columns, device))
}

/// `Module::forward` of an `Embedding` on the numbers below `count`, which `Tensor::arange` makes
/// a tensor of: the first rows of the table. On the CPU it succeeds where the table is ready and
/// has so many rows, and fails where it has fewer.
#[verifier::external_body]
fn embedding_of_count(table: &Embedding, count: u32, device: &Device) -> (r: Result<
    CandleTensor,
    candle_core::Error,
>)
    requires
        addressable(seq![count as usize]),
        embedding_widths(*table) is Some,
        addressable(tensor_dims(embedding_table(*table))),
        readable(embedding_table(*table)),
        addressable(seq![count as usize, embedding_width(*table)]),
    ensures
        device_is_cpu(*device) && embedding_ready(*table) && count <= embedding_rows(*table)
            ==> r is Ok,
        r is Ok && device_is_cpu(*device) ==> count <= embedding_rows(*table),
        r matches Ok(y) ==> {
            &&& tensor_dims(y) == seq![count as usize, embedding_width(*table)]
            &&& tensor_element(y) == tensor_element(embedding_table(*table))
            &&& readable(y)
            &&& on_cpu(y) == device_is_cpu(*device)
            &&& filled(y) ==> packed(y)
        },
{
    let numbers = CandleTensor::arange(0u32, count, device)?;
    candle_core::Module::forward(table, &numbers)
}

/// `y` is what the first `count` rows of the embedding table give.
pub closed spec fn count_embedding_yields(
    table: Embedding,
    count: u32,
    device: &Device,
    y: CandleTensor,
) -> bool {
    call_ensures(embedding_of_count, (&table, count, device), given(y))
}

/// Looks up the first `count` rows of an embedding table.
pub fn embed_count(table: &Embedding, count: u32, device: &Device) -> (r: Result<
    CandleTensor,
    GptError,
>)
    requires
        embedding_widths(*table) is Some,
        addressable(tensor_dims(embedding_table(*table))),
        readable(embedding_table(*table)),
    ensures
        guarded(lookup_fault(seq![count as usize], embedding_width(*table)), r),
        lookup_fault(seq![count as usize], embedding_width(*table)) is None && device_is_cpu(
            *device,
        ) && embedding_ready(*table) && count <= embedding_rows(*table) ==> r is Ok,
        r is Ok && device_is_cpu(*device) ==> count <= embedding_rows(*table),
        r matches Ok(y) ==> {
            &&& tensor_dims(y) == seq![count as usize, embedding_width(*table)]
            &&& tensor_element(y) == tensor_element(embedding_table(*table))
            &&& readable(y)
            &&& on_cpu(y) == device_is_cpu(*device)
            &&& filled(y) ==> packed(y)
            &&& count_embedding_yields(*table, count, device, y)
        },
{
    let mut dims: Vec<usize> = vec![count as usize];
    assert(dims@ =~= seq![count as usize]);
    check_addressable(&dims)?;
    dims.push(table.hidden_size());
    assert(dims@ =~= seq![count as usize, embedding_width(*table)]);
    assert(seq![count as usize].push(embedding_width(*table)) =~= dims@);
    check_addressable(&dims)?;
    lift(embedding_of_count(table, count, device))
}

/// `Dropout::forward`: the shape, the type of the elements and the device stay, and outside of
/// training the tensor itself is handed back.
pub assume_specification[ candle_nn::Dropout::forward ](
    layer: &Dropout,
    x: &CandleTensor,
    train: bool,
) -> (r: Result<CandleTensor, candle_core::Error>)
    requires
        train ==> computable(*x) && tensor_dims(*x).len() <= 8,
    ensures
        !train ==> r == given(*x),
        r matches Ok(y) ==> tensor_dims(y) == tensor_dims(*x) && alike(*x, y),
        r matches Ok(y) ==> (readable(*x) ==> readable(y)),
;

/// `Clone::clone` of a `Dropout`: it drops at the same rate.
pub assume_specification[ <candle_nn::Dropout as Clone>::clone ](layer: &Dropout) -> (copy: Dropout)
    ensures
        copy == *layer,
;

/// `y` is what the dropout layer gives for `x` in training, and is `x` outside of it.
pub closed spec fn dropout_yields(
    layer: Dropout,
    x: CandleTensor,
    train: bool,
    y: CandleTensor,
) -> bool {
    if train {
        call_ensures(candle_nn::Dropout::forward, (&layer, &x, train), given(y))
    } else {
        y == x
    }
}

/// Applies dropout. Outside of training the tensor goes through unchanged.
pub fn drop_out(layer: &Dropout, x: &CandleTensor, train: bool) -> (r: Result<
    CandleTensor,
    GptError,
>)
    ensures
        guarded(
            if train {
                first_fault(fault_of(*x), rank_fault(tensor_dims(*x)))
            } else {
                None
            },
            r,
        ),
        r matches Ok(y) ==> {
            &&& tensor_dims(y) == tensor_dims(*x)
            &&& alike(*x, y)
            &&& readable(*x) ==> readable(y)
            &&& dropout_yields(*layer, *x, train, y)
        },
        !train ==> r == Ok::<CandleTensor, GptError>(*x),
{
    if train {
        check_computable(x)?;
        check_rank(x.dims())?;
    }
    lift(layer.forward(x, train))
}

/// Outside of training dropout hands its input on, whatever its rate.
pub proof fn law_dropout_is_idle_outside_of_training(
    layer: Dropout,
    x: CandleTensor,
    y: CandleTensor,
)
    ensures
        dropout_yields(layer, x, false, y) <==> y == x,
{
}

// Arithmetic between tensors.

/// `Tensor::broadcast_add`: the two shapes broadcast to the shape of the sum, whose elements are of
/// the type of the terms. It succeeds in single precision on the CPU where the shapes broadcast.
pub assume_specification[ CandleTensor::broadcast_add ](
    x: &CandleTensor,
    y: &CandleTensor,
) -> (r: Result<CandleTensor, candle_core::Error>)
    requires
        computable(*x),
        computable(*y),
        tensor_dims(*x).len() <= 8,
        tensor_dims(*y).len() <= 8,
        addressable(broadcast(tensor_dims(*x), tensor_dims(*y))),
    ensures
        single(*x) && single(*y) && broadcasts(tensor_dims(*x), tensor_dims(*y)) ==> r is Ok,
        r matches Ok(sum) ==> {
            &&& broadcasts(tensor_dims(*x), tensor_dims(*y))
            &&& tensor_dims(sum) == broadcast(tensor_dims(*x), tensor_dims(*y))
            &&& alike(*x, sum)
            &&& filled(sum) ==> packed(sum)
            &&& readable(*x) && tensor_dims(sum) == tensor_dims(*x) ==> readable(sum)
        },
;

/// `sum` is what the broadcast sum of `x` and `y` gives.
pub closed spec fn sum_yields(x: CandleTensor, y: CandleTensor, sum: CandleTensor) -> bool {
    call_ensures(CandleTensor::broadcast_add, (&x, &y), given(sum))
}

/// The error of two terms of which one cannot be computed with, or whose sum is too large.
pub open spec fn sum_fault(x: CandleTensor, y: CandleTensor) -> Option<GptError> {
    first_fault(
        first_fault(
            first_fault(fault_of(x), fault_of(y)),
            first_fault(rank_fault(tensor_dims(x)), rank_fault(tensor_dims(y))),
        ),
        size_fault(broadcast(tensor_dims(x), tensor_dims(y))),
    )
}

/// The sum of two tensors, broadcast against each other.
pub fn plus(x: &CandleTensor, y: &CandleTensor) -> (r: Result<CandleTensor, GptError>)
    ensures
        guarded(sum_fault(*x, *y), r),
        sum_fault(*x, *y) is None && single(*x) && single(*y) && broadcasts(
            tensor_dims(*x),
            tensor_dims(*y),
        ) ==> r is Ok,
        r matches Ok(sum) ==> {
            &&& broadcasts(tensor_dims(*x), tensor_dims(*y))
            &&& tensor_dims(sum) == broadcast(tensor_dims(*x), tensor_dims(*y))
            &&& alike(*x, sum)
            &&& filled(sum) ==> packed(sum)
            &&& readable(*x) && tensor_dims(sum) == tensor_dims(*x) ==> readable(sum)
            &&& sum_yields(*x, *y, sum)
        },
{
    check_computable(x)?;
    check_computable(y)?;
    check_rank(x.dims())?;
    check_rank(y.dims())?;
    check_addressable(&broadcast_dims(x.dims(), y.dims()))?;
    lift(x.broadcast_add(y))
}

/// Sizes or strides with two of them in each other's place.
pub open spec fn swapped(dims: Seq<usize>, i: usize, j: usize) -> Seq<usize> {
    dims.update(i as int, dims[j as int]).update(j as int, dims[i as int])
}

/// The transpose of the matrices along the last two dimensions is dense.
pub open spec fn dense_by_columns(t: CandleTensor) -> bool {
    let rank = tensor_dims(t).len();
    &&& rank >= 2
    &&& tensor_strides(t).len() == rank
    &&& is_row_major(
        swapped(tensor_dims(t), (rank - 2) as usize, (rank - 1) as usize),
        swapped(tensor_strides(t), (rank - 2) as usize, (rank - 1) as usize),
    )
}

/// Two factors whose matrix product succeeds.
pub open spec fn factors_fit(x: CandleTensor, y: CandleTensor) -> bool {
    let a = tensor_dims(x);
    let b = tensor_dims(y);
    &&& single(x)
    &&& single(y)
    &&& dense(x)
    &&& dense(y) || dense_by_columns(y)
    &&& 2 <= a.len() <= 4
    &&& a.len() == b.len()
    &&& a.take(a.len() - 2) == b.take(b.len() - 2)
    &&& a.last() == b[b.len() - 2]
}

/// No dimension before the last two repeats its cells.
pub open spec fn matrices_apart(t: CandleTensor) -> bool {
    forall|i: int| 0 <= i < tensor_dims(t).len() - 2 ==> #[trigger] tensor_strides(t)[i] != 0
}

/// The error of factors with elements of which the second repeats a matrix.
pub open spec fn repetition_fault(x: CandleTensor, y: CandleTensor) -> Option<GptError> {
    if filled(x) && filled(y) && !matrices_apart(y) {
        Some(GptError::RepeatedCell)
    } else {
        None
    }
}

/// Tests whether factors have no elements, or the second does not repeat a matrix.
fn check_factors(x: &CandleTensor, y: &CandleTensor) -> (r: Result<(), GptError>)
    ensures
        r is Ok <==> repetition_fault(*x, *y) is None,
        r matches Err(e) ==> repetition_fault(*x, *y) == Some(e),
{
    if !has_cells(x.dims()) || !has_cells(y.dims()) {
        return Ok(());
    }
    let strides: &[usize] = y.stride();
    let mut i: usize = 2;
    while i < strides.len()
        invariant
            2 <= i,
            strides@ == tensor_strides(*y),
            strides@.len() == tensor_dims(*y).len(),
            filled(*x),
            filled(*y),
            forall|k: int| 0 <= k < i - 2 ==> #[trigger] tensor_strides(*y)[k] != 0,
        decreases strides@.len() - i,
    {
        if strides[i - 2] == 0 {
            assert(!matrices_apart(*y)) by {
                assert(tensor_strides(*y)[i - 2] == 0);
            }
            return Err(GptError::RepeatedCell);
        }
        i += 1;
    }
    Ok(())
}

/// `Tensor::matmul`: `[.., m, k]` times `[.., k, n]` is `[.., m, n]`, and the leading dimensions
/// are those of the first factor. The elements are of the type of both factors. It succeeds in
/// single precision on the CPU on two to four dimensions where the sizes fit, the first factor is
/// dense, and the second is dense or is the transpose of a dense one. Where the second repeats a
/// matrix it reads the first as if it were in row-major order.
pub assume_specification[ CandleTensor::matmul ](x: &CandleTensor, y: &CandleTensor) -> (r: Result<
    CandleTensor,
    candle_core::Error,
>)
    requires
        addressable(tensor_dims(*x)),
        addressable(tensor_dims(*y)),
        tensor_dims(*y).len() > 0 ==> addressable(
            with_last(tensor_dims(*x), tensor_dims(*y).last()),
        ),
        repetition_fault(*x, *y) is None,
    ensures
        factors_fit(*x, *y) ==> r is Ok,
        r matches Ok(z) ==> {
            &&& tensor_dims(*x).len() >= 2
            &&& tensor_dims(*x).len() == tensor_dims(*y).len()
            &&& tensor_dims(*x).last() == size_from_end(tensor_dims(*y), 2)
            &&& tensor_dims(z) == with_last(tensor_dims(*x), tensor_dims(*y).last())
            &&& alike(*x, z)
            &&& filled(z) ==> packed(z)
        },
;

/// `z` is what the matrix product of `x` and `y` gives.
pub closed spec fn matmul_yields(x: CandleTensor, y: CandleTensor, z: CandleTensor) -> bool {
    call_ensures(CandleTensor::matmul, (&x, &y), given(z))
}

/// The error of two factors of which one, or whose product, is too large, or of which the second
/// repeats a matrix.
pub open spec fn product_fault(x: CandleTensor, y: CandleTensor) -> Option<GptError> {
    let a = tensor_dims(x);
    let b = tensor_dims(y);
    first_fault(
        first_fault(
            first_fault(size_fault(a), size_fault(b)),
            if b.len() > 0 {
                size_fault(with_last(a, b.last()))
            } else {
                None
            },
        ),
        repetition_fault(x, y),
    )
}

/// The matrix product along the last two dimensions.
pub fn multiply(x: &CandleTensor, y: &CandleTensor) -> (r: Result<CandleTensor, GptError>)
    ensures
        guarded(product_fault(*x, *y), r),
        factors_fit(*x, *y) && product_fault(*x, *y) is None ==> r is Ok,
        r matches Ok(z) ==> {
            &&& tensor_dims(*x).len() >= 2
            &&& tensor_dims(*x).len() == tensor_dims(*y).len()
            &&& tensor_dims(*x).last() == size_from_end(tensor_dims(*y), 2)
            &&& tensor_dims(z) == with_last(tensor_dims(*x), tensor_dims(*y).last())
            &&& alike(*x, z)
            &&& filled(z) ==> packed(z)
            &&& matmul_yields(*x, *y, z)
        },
{
    check_addressable(x.dims())?;
    check_addressable(y.dims())?;
    let dims: &[usize] = y.dims();
    if dims.len() > 0 {
        check_addressable(&replace_last(x.dims(), dims[dims.len() - 1]))?;
    }
    check_factors(x, y)?;
    lift(x.matmul(y))
}

/// A tensor holds numbers of double precision and is on the CPU.
pub open spec fn double(t: CandleTensor) -> bool {
    tensor_element(t) == Element::F64 && on_cpu(t)
}

/// `Tensor::new` of an integer and `Tensor::to_dtype`: the count as a floating point scalar of
/// double precision, on the CPU.
#[verifier::external_body]
fn count_scalar(count: usize) -> (r: Result<CandleTensor, candle_core::Error>)
    requires
        count <= isize::MAX,
    ensures
        r is Ok,
        r matches Ok(y) ==> tensor_dims(y).len() == 0 && double(y),
{
    CandleTensor::new(count as i64, &Device::Cpu)?.to_dtype(candle_core::DType::F64)
}

/// `Tensor::affine` with the double precision scalar `factor` and no offset: each element is
/// multiplied by it. The shape, the type of the elements and the device stay. It succeeds on
/// tensors of single precision on the CPU.
#[verifier::external_body]
fn scaled(x: &CandleTensor, factor: &CandleTensor) -> (r: Result<CandleTensor, candle_core::Error>)
    requires
        computable(*x),
    ensures
        single(*x) && double(*factor) && tensor_dims(*factor).len() == 0 ==> r is Ok,
        r matches Ok(y) ==> tensor_dims(y) == tensor_dims(*x) && alike(*x, y),
        r matches Ok(y) ==> (filled(y) || packed(*x) ==> packed(y)),
{
    x.affine(factor.to_scalar()?, Default::default())
}

/// The steps from a count to the tensor that is scaled by the reciprocal of its square root.
spec fn root_scaling_steps(
    x: CandleTensor,
    count: usize,
    scalar: CandleTensor,
    root: CandleTensor,
    factor: CandleTensor,
    y: CandleTensor,
) -> bool {
    &&& call_ensures(count_scalar, (count,), given(scalar))
    &&& call_ensures(CandleTensor::sqrt, (&scalar,), given(root))
    &&& call_ensures(CandleTensor::recip, (&root,), given(factor))
    &&& call_ensures(scaled, (&x, &factor), given(y))
}

/// `y` is what scaling `x` by the reciprocal of the square root of `count` gives.
pub closed spec fn root_scaling_yields(x: CandleTensor, count: usize, y: CandleTensor) -> bool {
    exists|scalar: CandleTensor, root: CandleTensor, factor: CandleTensor| #[trigger]
        root_scaling_steps(x, count, scalar, root, factor, y)
}

/// The error of a tensor that cannot be computed with, or of a count that is too large.
pub open spec fn scaling_fault(x: CandleTensor, count: usize) -> Option<GptError> {
    first_fault(
        fault_of(x),
        if count > isize::MAX {
            Some(GptError::TooLarge)
        } else {
            None
        },
    )
}

/// Divides each element by the square root of `count`.
pub fn divide_by_root(x: &CandleTensor, count: usize) -> (r: Result<CandleTensor, GptError>)
    ensures
        guarded(scaling_fault(*x, count), r),
        scaling_fault(*x, count) is None && single(*x) ==> r is Ok,
        r matches Ok(y) ==> {
            &&& tensor_dims(y) == tensor_dims(*x)
            &&& alike(*x, y)
            &&& filled(y) || packed(*x) ==> packed(y)
            &&& root_scaling_yields(*x, count, y)
        },
{
    check_computable(x)?;
    if count > isize::MAX as usize {
        return Err(GptError::TooLarge);
    }
    let scalar: CandleTensor = lift(count_scalar(count))?;
    check_computable(&scalar)?;
    let root: CandleTensor = lift(scalar.sqrt())?;
    check_computable(&root)?;
    let factor: CandleTensor = lift(root.recip())?;
    let y: CandleTensor = lift(scaled(x, &factor))?;
    assert(root_scaling_steps(*x, count, scalar, root, factor, y));
    Ok(y)
}

/// `candle_nn::ops::softmax` along the last dimension: the shape, the type of the elements and the
/// device stay. It succeeds on elements of single precision on the CPU. More than eight
/// dimensions, or a repeated cell as the last of them, can make it panic.
#[verifier::external_body]
fn softmax_last(x: &CandleTensor) -> (r: Result<CandleTensor, candle_core::Error>)
    requires
        computable(*x),
        tensor_dims(*x).len() <= 8,
        reducible(*x),
    ensures
        plain(*x) && tensor_dims(*x).len() > 0 ==> r is Ok,
        r matches Ok(y) ==> {
            &&& tensor_dims(*x).len() > 0
            &&& tensor_dims(y) == tensor_dims(*x)
            &&& alike(*x, y)
            &&& packed(y)
        },
{
    candle_nn::ops::softmax(x, candle_core::D::Minus1)
}

/// `y` is what the softmax of `x` along the last dimension gives.
pub closed spec fn softmax_yields(x: CandleTensor, y: CandleTensor) -> bool {
    call_ensures(softmax_last, (&x,), given(y))
}

/// The error of a tensor without a softmax along its last dimension.
pub open spec fn softmax_fault(x: CandleTensor) -> Option<GptError> {
    first_fault(first_fault(fault_of(x), rank_fault(tensor_dims(x))), reduction_fault(x))
}

/// The softmax along the last dimension.
pub fn softmax(x: &CandleTensor) -> (r: Result<CandleTensor, GptError>)
    ensures
        guarded(softmax_fault(*x), r),
        softmax_fault(*x) is None && plain(*x) && tensor_dims(*x).len() > 0 ==> r is Ok,
        r matches Ok(y) ==> {
            &&& tensor_dims(*x).len() > 0
            &&& tensor_dims(y) == tensor_dims(*x)
            &&& alike(*x, y)
            &&& packed(y)
            &&& softmax_yields(*x, y)
        },
{
    check_computable(x)?;
    check_rank(x.dims())?;
    check_reducible(x)?;
    lift(softmax_last(x))
}

// Moving elements around.

/// `Tensor::reshape`: the elements in another shape with as many cells. On the CPU, with elements
/// that can be moved, it fails only where that shape has more cells or fewer.
#[verifier::external_body]
fn reshape_to(x: &CandleTensor, dims: Vec<usize>) -> (r: Result<CandleTensor, candle_core::Error>)
    requires
        addressable(tensor_dims(*x)),
        addressable(dims@),
    ensures
        on_cpu(*x) && movable(*x) && product(tensor_dims(*x)) == product(dims@) ==> r is Ok,
        r matches Ok(y) ==> {
            &&& product(tensor_dims(*x)) == product(dims@)
            &&& tensor_dims(y) == dims@
            &&& alike(*x, y)
            &&& packed(y)
        },
{
    x.reshape(dims)
}

/// `y` is what `x` gives in the shape `dims`.
pub closed spec fn reshape_yields(x: CandleTensor, dims: Seq<usize>, y: CandleTensor) -> bool {
    exists|target: Vec<usize>|
        target@ == dims && #[trigger] call_ensures(reshape_to, (&x, target), given(y))
}

/// The elements in another shape with as many cells.
pub fn reshape(x: &CandleTensor, dims: Vec<usize>) -> (r: Result<CandleTensor, GptError>)
    ensures
        guarded(first_fault(size_fault(tensor_dims(*x)), size_fault(dims@)), r),
        addressable(tensor_dims(*x)) && addressable(dims@) && on_cpu(*x) && movable(*x) && product(
            tensor_dims(*x),
        ) == product(dims@) ==> r is Ok,
        r matches Ok(y) ==> {
            &&& product(tensor_dims(*x)) == product(dims@)
            &&& tensor_dims(y) == dims@
            &&& alike(*x, y)
            &&& packed(y)
            &&& reshape_yields(*x, dims@, y)
        },
{
    check_addressable(x.dims())?;
    check_addressable(&dims)?;
    lift(reshape_to(x, dims))
}

/// The tensor has a dimension number `i`, counted from 0.
pub open spec fn has_dim(x: CandleTensor, i: usize) -> bool {
    i < tensor_dims(x).len()
}

/// `Tensor::transpose`: two dimensions change places, in the sizes and in the strides.
#[verifier::external_body]
fn transposed(x: &CandleTensor, i: usize, j: usize) -> (r: Result<CandleTensor, candle_core::Error>)
    ensures
        r is Ok <==> (has_dim(*x, i) && has_dim(*x, j)),
        r matches Ok(y) ==> tensor_dims(y) == swapped(tensor_dims(*x), i, j),
        r matches Ok(y) ==> tensor_strides(y) == swapped(tensor_strides(*x), i, j),
        r matches Ok(y) ==> alike(*x, y),
{
    x.transpose(i, j)
}

/// `y` is what `x` gives with the dimensions `i` and `j` in each other's place.
pub closed spec fn transpose_yields(
    x: CandleTensor,
    i: usize,
    j: usize,
    y: CandleTensor,
) -> bool {
    call_ensures(transposed, (&x, i, j), given(y))
}

/// The tensor with two dimensions in each other's place.
pub fn transpose(x: &CandleTensor, i: usize, j: usize) -> (r: Result<CandleTensor, GptError>)
    ensures
        guarded(None, r),
        r is Ok <==> (has_dim(*x, i) && has_dim(*x, j)),
        r matches Ok(y) ==> {
            &&& tensor_dims(y) == swapped(tensor_dims(*x), i, j)
            &&& tensor_strides(y) == swapped(tensor_strides(*x), i, j)
            &&& alike(*x, y)
            &&& transpose_yields(*x, i, j, y)
        },
{
    lift(transposed(x, i, j))
}

/// `Tensor::contiguous`: the same tensor in row-major order, which is itself where it is in that
/// order already. It succeeds on the CPU with elements that can be moved.
pub assume_specification[ CandleTensor::contiguous ](x: &CandleTensor) -> (r: Result<
    CandleTensor,
    candle_core::Error,
>)
    requires
        addressable(tensor_dims(*x)),
    ensures
        on_cpu(*x) && movable(*x) ==> r is Ok,
        r matches Ok(y) ==> tensor_dims(y) == tensor_dims(*x) && alike(*x, y) && dense(y),
        r matches Ok(y) ==> if dense(*x) {
            tensor_strides(y) == tensor_strides(*x)
        } else {
            packed(y)
        },
;

/// `y` is what `x` gives in row-major order.
pub closed spec fn contiguous_yields(x: CandleTensor, y: CandleTensor) -> bool {
    call_ensures(CandleTensor::contiguous, (&x,), given(y))
}

/// The tensor in row-major order.
pub fn row_major(x: &CandleTensor) -> (r: Result<CandleTensor, GptError>)
    ensures
        guarded(size_fault(tensor_dims(*x)), r),
        addressable(tensor_dims(*x)) && on_cpu(*x) && movable(*x) ==> r is Ok,
        r matches Ok(y) ==> {
            &&& tensor_dims(y) == tensor_dims(*x)
            &&& alike(*x, y)
            &&& dense(y)
            &&& if dense(*x) {
                tensor_strides(y) == tensor_strides(*x)
            } else {
                packed(y)
            }
            &&& contiguous_yields(*x, y)
        },
{
    check_addressable(x.dims())?;
    lift(x.contiguous())
}

/// The first two dimensions have at least `n` cells each.
pub open spec fn has_corner(x: CandleTensor, n: usize) -> bool {
    tensor_dims(x).len() >= 2 && n <= tensor_dims(x)[0] && n <= tensor_dims(x)[1]
}

/// `IndexOp::i` with the ranges `..n` and `..n`: the first `n` cells of the first two
/// dimensions, an error where one of them has fewer.
#[verifier::external_body]
fn corner(x: &CandleTensor, n: usize) -> (r: Result<CandleTensor, candle_core::Error>)
    ensures
        r is Ok <==> has_corner(*x, n),
        r matches Ok(y) ==> {
            &&& tensor_dims(y) == tensor_dims(*x).update(0, n).update(1, n)
            &&& alike(*x, y)
        },
{
    candle_core::IndexOp::i(x, (..n, ..n))
}

/// `y` is what the first `n` cells of the first two dimensions of `x` give.
pub closed spec fn corner_yields(x: CandleTensor, n: usize, y: CandleTensor) -> bool {
    call_ensures(corner, (&x, n), given(y))
}

/// The first `n` cells of the first two dimensions.
pub fn top_left(x: &CandleTensor, n: usize) -> (r: Result<CandleTensor, GptError>)
    ensures
        guarded(None, r),
        r is Ok <==> has_corner(*x, n),
        r matches Ok(y) ==> {
            &&& alike(*x, y)
            &&& tensor_dims(y) == tensor_dims(*x).update(0, n).update(1, n)
            &&& corner_yields(*x, n, y)
        },
{
    lift(corner(x, n))
}

/// A shape can be broadcast to the shape `target`: aligned at the end, its sizes are those of the
/// target or 1.
pub open spec fn expands_to(dims: Seq<usize>, target: Seq<usize>) -> bool {
    &&& dims.len() <= target.len()
    &&& forall|back: int|
        1 <= back <= dims.len() ==> #[trigger] size_from_end(dims, back) == size_from_end(
            target,
            back,
        ) || size_from_end(dims, back) == 1
}

/// `Tensor::broadcast_as`: the tensor repeated to the given shape.
#[verifier::external_body]
fn expanded(x: &CandleTensor, dims: Vec<usize>) -> (r: Result<CandleTensor, candle_core::Error>)
    ensures
        r is Ok <==> expands_to(tensor_dims(*x), dims@),
        r matches Ok(y) ==> tensor_dims(y) == dims@ && alike(*x, y),
{
    x.broadcast_as(dims)
}

/// `y` is what `x` gives repeated to the shape `dims`.
pub closed spec fn expand_yields(x: CandleTensor, dims: Seq<usize>, y: CandleTensor) -> bool {
    exists|target: Vec<usize>|
        target@ == dims && #[trigger] call_ensures(expanded, (&x, target), given(y))
}

/// The tensor repeated to the given shape.
pub fn expand(x: &CandleTensor, dims: Vec<usize>) -> (r: Result<CandleTensor, GptError>)
    ensures
        guarded(None, r),
        r is Ok <==> expands_to(tensor_dims(*x), dims@),
        r matches Ok(y) ==> {
            &&& tensor_dims(y) == dims@
            &&& alike(*x, y)
            &&& expand_yields(*x, dims@, y)
        },
{
    lift(expanded(x, dims))
}

/// A condition of bytes and two tensors of single precision, all of one shape and on the CPU.
pub open spec fn choice_fits(
    condition: CandleTensor,
    on_true: CandleTensor,
    on_false: CandleTensor,
) -> bool {
    &&& tensor_element(condition) == Element::U8
    &&& on_cpu(condition)
    &&& single(on_true)
    &&& single(on_false)
    &&& tensor_dims(condition) == tensor_dims(on_true)
    &&& tensor_dims(condition) == tensor_dims(on_false)
}

/// `Tensor::where_cond`: cell by cell, one of two tensors of the shape of the condition, with
/// elements of their type. It succeeds on bytes and single precision on the CPU. More than eight
/// dimensions, or no elements behind the storage, can make it panic.
pub assume_specification[ CandleTensor::where_cond ](
    condition: &CandleTensor,
    on_true: &CandleTensor,
    on_false: &CandleTensor,
) -> (r: Result<CandleTensor, candle_core::Error>)
    requires
        addressable(tensor_dims(*condition)),
        tensor_dims(*condition).len() <= 8,
        filled(*condition),
    ensures
        choice_fits(*condition, *on_true, *on_false) ==> r is Ok,
        r matches Ok(y) ==> {
            &&& tensor_dims(*condition) == tensor_dims(*on_true)
            &&& tensor_dims(*condition) == tensor_dims(*on_false)
            &&& tensor_dims(y) == tensor_dims(*condition)
            &&& alike(*on_true, y)
            &&& packed(y)
        },
;

/// `y` is what `condition` picks from `on_true` and `on_false`.
pub closed spec fn choice_yields(
    condition: CandleTensor,
    on_true: CandleTensor,
    on_false: CandleTensor,
    y: CandleTensor,
) -> bool {
    call_ensures(CandleTensor::where_cond, (&condition, &on_true, &on_false), given(y))
}

/// The error of a condition that is too large, has too many dimensions or has no elements.
pub open spec fn choice_fault(condition: CandleTensor) -> Option<GptError> {
    first_fault(
        first_fault(size_fault(tensor_dims(condition)), rank_fault(tensor_dims(condition))),
        if filled(condition) {
            None
        } else {
            Some(GptError::NoElements)
        },
    )
}

/// Cell by cell, `on_true` where the condition is not zero and `on_false` where it is.
pub fn pick(condition: &CandleTensor, on_true: &CandleTensor, on_false: &CandleTensor) -> (r:
    Result<CandleTensor, GptError>)
    ensures
        guarded(choice_fault(*condition), r),
        choice_fault(*condition) is None && choice_fits(*condition, *on_true, *on_false)
            ==> r is Ok,
        r matches Ok(y) ==> {
            &&& tensor_dims(*condition) == tensor_dims(*on_true)
            &&& tensor_dims(*condition) == tensor_dims(*on_false)
            &&& tensor_dims(y) == tensor_dims(*condition)
            &&& alike(*on_true, y)
            &&& packed(y)
            &&& choice_yields(*condition, *on_true, *on_false, y)
        },
{
    check_addressable(condition.dims())?;
    check_rank(condition.dims())?;
    if !has_cells(condition.dims()) {
        return Err(GptError::NoElements);
    }
    lift(condition.where_cond(on_true, on_false))
}

/// `Tensor::zeros` of no dimensions: the scalar 0 in single precision, on the device of `like`. It
/// succeeds on the CPU.
#[verifier::external_body]
fn zero_scalar(like: &CandleTensor) -> (r: Result<CandleTensor, candle_core::Error>)
    ensures
        on_cpu(*like) ==> r is Ok,
        r matches Ok(y) ==> {
            &&& tensor_dims(y).len() == 0
            &&& tensor_element(y) == Element::F32
            &&& on_cpu(y) == on_cpu(*like)
        },
{
    CandleTensor::zeros((), candle_core::DType::F32, like.device())
}

/// The steps from the scalar 0 to its logarithm.
spec fn minus_infinity_steps(like: CandleTensor, zero: CandleTensor, y: CandleTensor) -> bool {
    &&& call_ensures(zero_scalar, (&like,), given(zero))
    &&& call_ensures(CandleTensor::log, (&zero,), given(y))
}

/// `y` is what the logarithm of the scalar 0 gives: minus infinity.
pub closed spec fn minus_infinity_yields(like: CandleTensor, y: CandleTensor) -> bool {
    exists|zero: CandleTensor| #[trigger] minus_infinity_steps(like, zero, y)
}

/// The scalar minus infinity, on the device of `like`.
pub fn minus_infinity(like: &CandleTensor) -> (r: Result<CandleTensor, GptError>)
    ensures
        guarded(None, r),
        on_cpu(*like) ==> r is Ok,
        r matches Ok(y) ==> {
            &&& tensor_dims(y).len() == 0
            &&& tensor_element(y) == Element::F32
            &&& on_cpu(y) == on_cpu(*like)
            &&& minus_infinity_yields(*like, y)
        },
{
    let zero: CandleTensor = lift(zero_scalar(like))?;
    check_computable(&zero)?;
    let y: CandleTensor = lift(zero.log())?;
    assert(minus_infinity_steps(*like, zero, y));
    Ok(y)
}

/// `Tensor::flatten` of the dimensions 0 and 1: they become one. It succeeds on the CPU
/// with elements that can be moved.
#[verifier::external_body]
fn leading_merged(x: &CandleTensor) -> (r: Result<CandleTensor, candle_core::Error>)
    requires
        addressable(tensor_dims(*x)),
    ensures
        r is Ok ==> tensor_dims(*x).len() != 1,
        on_cpu(*x) && movable(*x) && tensor_dims(*x).len() != 1 ==> r is Ok,
        r matches Ok(y) ==> alike(*x, y) && packed(y),
        r matches Ok(y) ==> tensor_dims(*x).len() >= 2 ==> {
            &&& tensor_dims(y).len() == tensor_dims(*x).len() - 1
            &&& tensor_dims(y)[0] == tensor_dims(*x)[0] * tensor_dims(*x)[1]
            &&& tensor_dims(y).skip(1) == tensor_dims(*x).skip(2)
        },
{
    x.flatten(0, 1)
}

/// `y` is what `x` gives with its first two dimensions as one.
pub closed spec fn merge_yields(x: CandleTensor, y: CandleTensor) -> bool {
    call_ensures(leading_merged, (&x,), given(y))
}

/// The first two dimensions as one.
pub fn merge_leading(x: &CandleTensor) -> (r: Result<CandleTensor, GptError>)
    ensures
        guarded(size_fault(tensor_dims(*x)), r),
        addressable(tensor_dims(*x)) && on_cpu(*x) && movable(*x) && tensor_dims(*x).len() != 1
            ==> r is Ok,
        r matches Ok(y) ==> {
            &&& tensor_dims(*x).len() != 1
            &&& alike(*x, y)
            &&& packed(y)
            &&& merge_yields(*x, y)
        },
        r matches Ok(y) ==> tensor_dims(*x).len() >= 2 ==> {
            &&& tensor_dims(y).len() == tensor_dims(*x).len() - 1
            &&& tensor_dims(y)[0] == tensor_dims(*x)[0] * tensor_dims(*x)[1]
            &&& tensor_dims(y).skip(1) == tensor_dims(*x).skip(2)
        },
{
    check_addressable(x.dims())?;
    lift(leading_merged(x))
}

/// `Tensor::flatten_all`: the elements along a single dimension. It succeeds on the CPU with
/// elements that can be moved.
pub assume_specification[ CandleTensor::flatten_all ](x: &CandleTensor) -> (r: Result<
    CandleTensor,
    candle_core::Error,
>)
    requires
        addressable(tensor_dims(*x)),
    ensures
        on_cpu(*x) && movable(*x) ==> r is Ok,
        r matches Ok(y) ==> {
            &&& tensor_dims(y).len() == 1
            &&& tensor_dims(y)[0] == product(tensor_dims(*x))
            &&& alike(*x, y)
        },
;

/// `y` is what `x` gives along a single dimension.
pub closed spec fn flatten_yields(x: CandleTensor, y: CandleTensor) -> bool {
    call_ensures(CandleTensor::flatten_all, (&x,), given(y))
}

/// The elements along a single dimension.
pub fn flatten(x: &CandleTensor) -> (r: Result<CandleTensor, GptError>)
    ensures
        guarded(size_fault(tensor_dims(*x)), r),
        addressable(tensor_dims(*x)) && on_cpu(*x) && movable(*x) ==> r is Ok,
        r matches Ok(y) ==> {
            &&& tensor_dims(y).len() == 1
            &&& tensor_dims(y)[0] == product(tensor_dims(*x))
            &&& alike(*x, y)
            &&& flatten_yields(*x, y)
        },
{
    check_addressable(x.dims())?;
    lift(x.flatten_all())
}

// Tokens into tensors and back.

/// `Tensor::from_vec` of token ids: a matrix that holds them row by row, as unsigned integers. It
/// succeeds on the CPU.
#[verifier::external_body]
fn matrix_of_ids(ids: Vec<u32>, rows: usize, columns: usize, device: &Device) -> (r: Result<
    CandleTensor,
    candle_core::Error,
>)
    requires
        ids@.len() == rows * columns,
    ensures
        device_is_cpu(*device) ==> r is Ok,
        r matches Ok(y) ==> {
            &&& tensor_dims(y) == seq![rows, columns]
            &&& tensor_element(y) == Element::U32
            &&& on_cpu(y) == device_is_cpu(*device)
        },
{
    CandleTensor::from_vec(ids, (rows, columns), device)
}

/// `y` is what the token ids give as a matrix, row by row.
pub closed spec fn ids_yield(
    ids: Seq<u32>,
    rows: usize,
    columns: usize,
    device: &Device,
    y: CandleTensor,
) -> bool {
    exists|list: Vec<u32>|
        list@ == ids && #[trigger] call_ensures(
            matrix_of_ids,
            (list, rows, columns, device),
            given(y),
        )
}

/// A matrix that holds token ids row by row.
pub fn ids_tensor(ids: Vec<u32>, rows: usize, columns: usize, device: &Device) -> (r: Result<
    CandleTensor,
    GptError,
>)
    requires
        ids@.len() == rows * columns,
    ensures
        guarded(None, r),
        device_is_cpu(*device) ==> r is Ok,
        r matches Ok(y) ==> {
            &&& tensor_dims(y) == seq![rows, columns]
            &&& tensor_element(y) == Element::U32
            &&& on_cpu(y) == device_is_cpu(*device)
            &&& ids_yield(ids@, rows, columns, device, y)
        },
{
    lift(matrix_of_ids(ids, rows, columns, device))
}

/// The second dimension has a cell at the given position.
pub open spec fn has_position(x: CandleTensor, position: usize) -> bool {
    position < tensor_dims(x)[1]
}

/// `IndexOp::i` with a single position of the second of three dimensions: that dimension goes. An
/// error where there is no such position.
#[verifier::external_body]
fn position_of(x: &CandleTensor, position: usize) -> (r: Result<CandleTensor, candle_core::Error>)
    requires
        tensor_dims(*x).len() == 3,
    ensures
        r is Ok <==> has_position(*x, position),
        r matches Ok(y) ==> {
            &&& tensor_dims(y) == seq![tensor_dims(*x)[0], tensor_dims(*x)[2]]
            &&& tensor_strides(y) == seq![tensor_strides(*x)[0], tensor_strides(*x)[2]]
            &&& alike(*x, y)
        },
{
    candle_core::IndexOp::i(x, (.., position, ..))
}

/// `y` is what the given position of the second dimension of `x` gives.
pub closed spec fn position_yields(x: CandleTensor, position: usize, y: CandleTensor) -> bool {
    call_ensures(position_of, (&x, position), given(y))
}

/// What stands at one position of the second of three dimensions.
pub fn select_position(x: &CandleTensor, position: usize) -> (r: Result<CandleTensor, GptError>)
    requires
        tensor_dims(*x).len() == 3,
    ensures
        guarded(None, r),
        r is Ok <==> has_position(*x, position),
        r matches Ok(y) ==> {
            &&& tensor_dims(y) == seq![tensor_dims(*x)[0], tensor_dims(*x)[2]]
            &&& tensor_strides(y) == seq![tensor_strides(*x)[0], tensor_strides(*x)[2]]
            &&& alike(*x, y)
            &&& position_yields(*x, position, y)
        },
{
    lift(position_of(x, position))
}

/// `Tensor::argmax_keepdim` along the last dimension of a matrix, as a list: for each row a
/// column. It succeeds on elements of single precision on the CPU. A repeated cell as the last
/// dimension makes it panic. That it is a column with the largest element is left unsaid: the
/// elements are floating point numbers.
#[verifier::external_body]
fn best_columns(x: &CandleTensor) -> (r: Result<Vec<u32>, candle_core::Error>)
    requires
        computable(*x),
        tensor_dims(*x).len() == 2,
        reducible(*x),
    ensures
        plain(*x) ==> r is Ok,
        r matches Ok(ids) ==> ids@.len() == tensor_dims(*x)[0] && all_below(
            ids@,
            tensor_dims(*x)[1],
        ),
{
    x.argmax_keepdim(candle_core::D::Minus1)?.flatten_all()?.to_vec1()
}

/// `ids` are what the columns with the largest elements of the rows of `x` give.
pub closed spec fn argmax_yields(x: CandleTensor, ids: Seq<u32>) -> bool {
    exists|list: Vec<u32>|
        list@ == ids && #[trigger] call_ensures(
            best_columns,
            (&x,),
            Ok::<Vec<u32>, candle_core::Error>(list),
        )
}

/// For each row of a matrix the column with the largest element.
pub fn argmax(x: &CandleTensor) -> (r: Result<Vec<u32>, GptError>)
    requires
        tensor_dims(*x).len() == 2,
    ensures
        guarded(first_fault(fault_of(*x), reduction_fault(*x)), r),
        fault_of(*x) is None && reducible(*x) && plain(*x) ==> r is Ok,
        r matches Ok(ids) ==> {
            &&& ids@.len() == tensor_dims(*x)[0]
            &&& all_below(ids@, tensor_dims(*x)[1])
            &&& argmax_yields(*x, ids@)
        },
{
    check_computable(x)?;
    check_reducible(x)?;
    lift(best_columns(x))
}

// What the results of the operations satisfy.

/// The activation function of the model is GELU.
pub proof fn law_activation_is_gelu(x: CandleTensor, y: CandleTensor)
    ensures
        gelu_yields(x, y) <==> call_ensures(CandleTensor::gelu, (&x,), given(y)),
        gelu_yields(x, y) ==> tensor_dims(y) == tensor_dims(x) && alike(x, y),
{
}

/// In training a dropout drops at its own rate, and it keeps the shape in training and outside of
/// it.
pub proof fn law_dropout_keeps_the_shape(
    layer: Dropout,
    x: CandleTensor,
    train: bool,
    y: CandleTensor,
)
    requires
        dropout_yields(layer, x, train, y),
    ensures
        tensor_dims(y) == tensor_dims(x),
        alike(x, y),
        train ==> call_ensures(candle_nn::Dropout::forward, (&layer, &x, true), given(y)),
        !train ==> y == x,
{
}

/// A sum is the broadcast sum of its terms in their order, and has the shape that theirs broadcast
/// to.
pub proof fn law_sum_broadcasts(x: CandleTensor, y: CandleTensor, sum: CandleTensor)
    ensures
        sum_yields(x, y, sum) <==> call_ensures(
            CandleTensor::broadcast_add,
            (&x, &y),
            given(sum),
        ),
        sum_yields(x, y, sum) ==> {
            &&& broadcasts(tensor_dims(x), tensor_dims(y))
            &&& tensor_dims(sum) == broadcast(tensor_dims(x), tensor_dims(y))
            &&& alike(x, sum)
        },
{
}

/// A product is the matrix product of its factors in their order: the columns of the first are as
/// many as the rows of the second.
pub proof fn law_product_contracts_the_inner_size(
    x: CandleTensor,
    y: CandleTensor,
    z: CandleTensor,
)
    ensures
        matmul_yields(x, y, z) <==> call_ensures(CandleTensor::matmul, (&x, &y), given(z)),
        matmul_yields(x, y, z) ==> {
            &&& tensor_dims(x).len() >= 2
            &&& tensor_dims(x).len() == tensor_dims(y).len()
            &&& tensor_dims(x).last() == size_from_end(tensor_dims(y), 2)
            &&& tensor_dims(z) == with_last(tensor_dims(x), tensor_dims(y).last())
            &&& alike(x, z)
        },
{
}

/// A choice takes the first tensor where the condition is not zero and the second where it is, and
/// all three have its shape.
pub proof fn law_choice_keeps_the_shape(
    condition: CandleTensor,
    on_true: CandleTensor,
    on_false: CandleTensor,
    y: CandleTensor,
)
    ensures
        choice_yields(condition, on_true, on_false, y) <==> call_ensures(
            CandleTensor::where_cond,
            (&condition, &on_true, &on_false),
            given(y),
        ),
        choice_yields(condition, on_true, on_false, y) ==> {
            &&& tensor_dims(on_true) == tensor_dims(condition)
            &&& tensor_dims(on_false) == tensor_dims(condition)
            &&& tensor_dims(y) == tensor_dims(condition)
            &&& alike(on_true, y)
        },
{
}

/// Row-major order keeps the shape and leaves a tensor in that order as it lies.
pub proof fn law_row_major_keeps_the_shape(x: CandleTensor, y: CandleTensor)
    ensures
        contiguous_yields(x, y) <==> call_ensures(CandleTensor::contiguous, (&x,), given(y)),
        contiguous_yields(x, y) ==> {
            &&& tensor_dims(y) == tensor_dims(x)
            &&& alike(x, y)
            &&& dense(y)
        },
{
}

/// A flat tensor has all elements of the tensor along its only dimension.
pub proof fn law_flat_tensor_has_all_elements(x: CandleTensor, y: CandleTensor)
    ensures
        flatten_yields(x, y) <==> call_ensures(CandleTensor::flatten_all, (&x,), given(y)),
        flatten_yields(x, y) ==> tensor_dims(y) =~= seq![product(tensor_dims(x)) as usize]
            && tensor_dims(y)[0] == product(tensor_dims(x)),
{
}

/// A linear layer takes its inputs along the last dimension and puts its outputs there. With three
/// or four dimensions it reads a row-major copy of its input, and else the input itself.
pub proof fn law_linear_maps_inputs_to_outputs(layer: Linear, x: CandleTensor, y: CandleTensor)
    requires
        linear_yields(layer, x, y),
    ensures
        tensor_dims(x).len() >= 2,
        tensor_dims(x).last() == linear_inputs(layer),
        tensor_dims(y) == with_last(tensor_dims(x), linear_outputs(layer)),
        alike(x, y),
        packed(y),
{
    let rows = choose|rows: CandleTensor| #[trigger] linear_steps(layer, x, rows, y);
}

/// The layer that is applied is the one that is given, to the input or to its row-major copy.
proof fn law_linear_applies_its_layer(layer: Linear, x: CandleTensor, y: CandleTensor)
    ensures
        linear_yields(layer, x, y) <==> exists|rows: CandleTensor|
            #![trigger call_ensures(linear_forward, (&layer, &rows), given(y))]
            call_ensures(linear_forward, (&layer, &rows), given(y)) && if 3 <= tensor_dims(x).len()
                <= 4 {
                contiguous_yields(x, rows)
            } else {
                rows == x
            },
{
    if linear_yields(layer, x, y) {
        let rows = choose|rows: CandleTensor| #[trigger] linear_steps(layer, x, rows, y);
        assert(call_ensures(linear_forward, (&layer, &rows), given(y)));
    }
    assert forall|rows: CandleTensor|
        #![trigger call_ensures(linear_forward, (&layer, &rows), given(y))]
        call_ensures(linear_forward, (&layer, &rows), given(y)) && (if 3 <= tensor_dims(x).len()
            <= 4 {
            contiguous_yields(x, rows)
        } else {
            rows == x
        }) implies linear_yields(layer, x, y) by {
        assert(linear_steps(layer, x, rows, y));
    }
}

/// A layer normalisation has a width that the last dimension broadcasts against.
pub proof fn law_norm_broadcasts_its_width(norm: LayerNorm, x: CandleTensor, y: CandleTensor)
    requires
        norm_yields(norm, x, y),
    ensures
        tensor_dims(x).len() > 0,
        broadcasts(tensor_dims(x), seq![norm_width(norm)->0]),
        tensor_dims(y) == broadcast(tensor_dims(x), seq![norm_width(norm)->0]),
        alike(x, y),
{
}

/// An embedding gives a row of its table for every index of a tensor.
pub proof fn law_embedding_gives_a_row_for_each_index(
    table: Embedding,
    ids: CandleTensor,
    y: CandleTensor,
)
    requires
        embedding_yields(table, ids, y),
    ensures
        tensor_dims(y) == tensor_dims(ids).push(embedding_width(table)),
        tensor_element(y) == tensor_element(embedding_table(table)),
{
}

/// An embedding gives a row of its table for every index of a matrix, and on the CPU each of them
/// is known.
pub proof fn law_embedding_of_ids_gives_a_row_for_each(
    table: Embedding,
    ids: Seq<u32>,
    rows: usize,
    columns: usize,
    device: &Device,
    y: CandleTensor,
)
    requires
        ids_embedding_yields(table, ids, rows, columns, device, y),
    ensures
        tensor_dims(y) == seq![rows, columns, embedding_width(table)],
        tensor_element(y) == tensor_element(embedding_table(table)),
        on_cpu(y) == device_is_cpu(*device),
        device_is_cpu(*device) ==> all_known(ids, embedding_rows(table)),
{
}

/// The positions from the first on have the first rows of their table, and on the CPU there are as
/// many.
pub proof fn law_embedding_of_count_gives_the_first_rows(
    table: Embedding,
    count: u32,
    device: &Device,
    y: CandleTensor,
)
    requires
        count_embedding_yields(table, count, device, y),
    ensures
        tensor_dims(y) == seq![count as usize, embedding_width(table)],
        device_is_cpu(*device) ==> count <= embedding_rows(table),
{
}

/// A scaling keeps the shape, and multiplies by the reciprocal of a square root.
pub proof fn law_scaling_is_by_a_reciprocal_root(x: CandleTensor, count: usize, y: CandleTensor)
    requires
        root_scaling_yields(x, count, y),
    ensures
        tensor_dims(y) == tensor_dims(x),
        alike(x, y),
        exists|scalar: CandleTensor, root: CandleTensor, factor: CandleTensor|
            #![trigger call_ensures(CandleTensor::sqrt, (&scalar,), given(root)), call_ensures(
                CandleTensor::recip, (&root,), given(factor))]
            call_ensures(CandleTensor::sqrt, (&scalar,), given(root)) && call_ensures(
                CandleTensor::recip,
                (&root,),
                given(factor),
            ) && double(scalar) && double(factor),
{
    let (scalar, root, factor) = choose|
        scalar: CandleTensor,
        root: CandleTensor,
        factor: CandleTensor,
    | #[trigger] root_scaling_steps(x, count, scalar, root, factor, y);
    assert(call_ensures(CandleTensor::sqrt, (&scalar,), given(root)));
    assert(call_ensures(CandleTensor::recip, (&root,), given(factor)));
}

/// What is scaled by is the reciprocal of the root of the count that is given, and nothing else.
proof fn law_scaling_takes_the_count(x: CandleTensor, count: usize, y: CandleTensor)
    ensures
        root_scaling_yields(x, count, y) <==> exists|
            scalar: CandleTensor,
            root: CandleTensor,
            factor: CandleTensor,
        |
            #![trigger call_ensures(count_scalar, (count,), given(scalar)), call_ensures(
                CandleTensor::sqrt, (&scalar,), given(root)), call_ensures(
                CandleTensor::recip, (&root,), given(factor))]
            {
                &&& call_ensures(count_scalar, (count,), given(scalar))
                &&& call_ensures(CandleTensor::sqrt, (&scalar,), given(root))
                &&& call_ensures(CandleTensor::recip, (&root,), given(factor))
                &&& call_ensures(scaled, (&x, &factor), given(y))
            },
{
    if root_scaling_yields(x, count, y) {
        let (scalar, root, factor) = choose|
            scalar: CandleTensor,
            root: CandleTensor,
            factor: CandleTensor,
        | #[trigger] root_scaling_steps(x, count, scalar, root, factor, y);
        assert(call_ensures(count_scalar, (count,), given(scalar)));
        assert(call_ensures(CandleTensor::sqrt, (&scalar,), given(root)));
        assert(call_ensures(CandleTensor::recip, (&root,), given(factor)));
    }
    assert forall|scalar: CandleTensor, root: CandleTensor, factor: CandleTensor|
        #![trigger call_ensures(count_scalar, (count,), given(scalar)), call_ensures(
            CandleTensor::sqrt, (&scalar,), given(root)), call_ensures(
            CandleTensor::recip, (&root,), given(factor))]
        {
            &&& call_ensures(count_scalar, (count,), given(scalar))
            &&& call_ensures(CandleTensor::sqrt, (&scalar,), given(root))
            &&& call_ensures(CandleTensor::recip, (&root,), given(factor))
            &&& call_ensures(scaled, (&x, &factor), given(y))
        } implies root_scaling_yields(x, count, y) by {
        assert(root_scaling_steps(x, count, scalar, root, factor, y));
    }
}

/// A softmax keeps the shape.
pub proof fn law_softmax_keeps_the_shape(x: CandleTensor, y: CandleTensor)
    requires
        softmax_yields(x, y),
    ensures
        tensor_dims(x).len() > 0,
        tensor_dims(y) == tensor_dims(x),
        alike(x, y),
        packed(y),
{
}

/// Another shape has as many elements.
pub proof fn law_reshape_keeps_the_elements(x: CandleTensor, dims: Seq<usize>, y: CandleTensor)
    requires
        reshape_yields(x, dims, y),
    ensures
        product(tensor_dims(x)) == product(dims),
        tensor_dims(y) == dims,
        alike(x, y),
        packed(y),
{
}

/// A transpose exchanges the sizes and the strides of the two dimensions that it names.
pub proof fn law_transpose_exchanges_two_dimensions(
    x: CandleTensor,
    i: usize,
    j: usize,
    y: CandleTensor,
)
    requires
        transpose_yields(x, i, j, y),
    ensures
        has_dim(x, i) && has_dim(x, j),
        tensor_dims(y) == swapped(tensor_dims(x), i, j),
        tensor_strides(y) == swapped(tensor_strides(x), i, j),
        alike(x, y),
{
}

/// The corner of a mask over `n` positions has `n` rows and `n` columns.
pub proof fn law_corner_is_square(x: CandleTensor, n: usize, y: CandleTensor)
    requires
        corner_yields(x, n, y),
    ensures
        has_corner(x, n),
        tensor_dims(y) == tensor_dims(x).update(0, n).update(1, n),
        alike(x, y),
{
}

/// An expanded tensor has the shape that is asked for.
pub proof fn law_expansion_has_the_shape(x: CandleTensor, dims: Seq<usize>, y: CandleTensor)
    requires
        expand_yields(x, dims, y),
    ensures
        expands_to(tensor_dims(x), dims),
        tensor_dims(y) == dims,
        alike(x, y),
{
}

/// Minus infinity is the logarithm of a zero of single precision on the device of `like`.
pub proof fn law_minus_infinity_is_a_logarithm(like: CandleTensor, y: CandleTensor)
    requires
        minus_infinity_yields(like, y),
    ensures
        tensor_dims(y).len() == 0,
        tensor_element(y) == Element::F32,
        on_cpu(y) == on_cpu(like),
        exists|zero: CandleTensor| #[trigger]
            call_ensures(CandleTensor::log, (&zero,), given(y)),
{
    let zero = choose|zero: CandleTensor| #[trigger] minus_infinity_steps(like, zero, y);
    assert(call_ensures(CandleTensor::log, (&zero,), given(y)));
}

/// With its first two dimensions as one, a tensor of three dimensions has a row for every position
/// of every sequence.
pub proof fn law_merging_lists_the_positions(x: CandleTensor, y: CandleTensor)
    requires
        merge_yields(x, y),
        tensor_dims(x).len() == 3,
    ensures
        tensor_dims(y).len() == 2,
        tensor_dims(y)[0] == tensor_dims(x)[0] * tensor_dims(x)[1],
        tensor_dims(y)[1] == tensor_dims(x)[2],
        alike(x, y),
{
    assert(tensor_dims(y).skip(1)[0] == tensor_dims(x).skip(2)[0]);
}

/// A matrix of tokens has a cell for each of them.
pub proof fn law_matrix_of_ids_has_a_cell_for_each(
    ids: Seq<u32>,
    rows: usize,
    columns: usize,
    device: &Device,
    y: CandleTensor,
)
    requires
        ids_yield(ids, rows, columns, device, y),
    ensures
        tensor_dims(y) == seq![rows, columns],
        tensor_element(y) == Element::U32,
        on_cpu(y) == device_is_cpu(*device),
{
}

/// What stands at a position is read from a position that there is.
pub proof fn law_position_is_within(x: CandleTensor, position: usize, y: CandleTensor)
    requires
        position_yields(x, position, y),
    ensures
        has_position(x, position),
        tensor_dims(y) == seq![tensor_dims(x)[0], tensor_dims(x)[2]],
        alike(x, y),
{
}

/// For every row of a matrix a column of it is picked.
pub proof fn law_argmax_picks_a_column_of_each_row(x: CandleTensor, ids: Seq<u32>)
    requires
        argmax_yields(x, ids),
    ensures
        ids.len() == tensor_dims(x)[0],
        all_below(ids, tensor_dims(x)[1]),
{
}

/// Each operation makes the one call that it is named after, with its own arguments.
proof fn law_operations_make_their_calls(
    norm: LayerNorm,
    table: Embedding,
    x: CandleTensor,
    y: CandleTensor,
    i: usize,
    j: usize,
    count: u32,
    device: &Device,
    list: Vec<u32>,
    sizes: Vec<usize>,
)
    ensures
        norm_yields(norm, x, y) <==> call_ensures(norm_forward, (&norm, &x), given(y)),
        embedding_yields(table, x, y) <==> call_ensures(
            embedding_forward,
            (&table, &x),
            given(y),
        ),
        call_ensures(embedding_of_ids, (&table, list, i, j, device), given(y))
            ==> ids_embedding_yields(table, list@, i, j, device, y),
        count_embedding_yields(table, count, device, y) <==> call_ensures(
            embedding_of_count,
            (&table, count, device),
            given(y),
        ),
        softmax_yields(x, y) <==> call_ensures(softmax_last, (&x,), given(y)),
        call_ensures(reshape_to, (&x, sizes), given(y)) ==> reshape_yields(x, sizes@, y),
        transpose_yields(x, i, j, y) <==> call_ensures(transposed, (&x, i, j), given(y)),
        corner_yields(x, i, y) <==> call_ensures(corner, (&x, i), given(y)),
        call_ensures(expanded, (&x, sizes), given(y)) ==> expand_yields(x, sizes@, y),
        minus_infinity_yields(x, y) <==> exists|zero: CandleTensor|
            #![trigger call_ensures(zero_scalar, (&x,), given(zero))]
            call_ensures(zero_scalar, (&x,), given(zero)) && call_ensures(
                CandleTensor::log,
                (&zero,),
                given(y),
            ),
        merge_yields(x, y) <==> call_ensures(leading_merged, (&x,), given(y)),
        call_ensures(matrix_of_ids, (list, i, j, device), given(y)) ==> ids_yield(
            list@,
            i,
            j,
            device,
            y,
        ),
        position_yields(x, i, y) <==> call_ensures(position_of, (&x, i), given(y)),
        call_ensures(best_columns, (&x,), Ok::<Vec<u32>, candle_core::Error>(list))
            ==> argmax_yields(x, list@),
{
    if minus_infinity_yields(x, y) {
        let zero = choose|zero: CandleTensor| #[trigger] minus_infinity_steps(x, zero, y);
        assert(call_ensures(zero_scalar, (&x,), given(zero)));
    }
    assert forall|zero: CandleTensor|
        #![trigger call_ensures(zero_scalar, (&x,), given(zero))]
        call_ensures(zero_scalar, (&x,), given(zero)) && call_ensures(
            CandleTensor::log,
            (&zero,),
            given(y),
        ) implies minus_infinity_yields(x, y) by {
        assert(minus_infinity_steps(x, zero, y));
    }
}

/// A list of indices, sizes or tokens stands for its content: where an operation gives a result for
/// it, the call was made on a list with that content.
proof fn law_lists_stand_for_their_content(
    table: Embedding,
    x: CandleTensor,
    y: CandleTensor,
    ids: Seq<u32>,
    dims: Seq<usize>,
    i: usize,
    j: usize,
    device: &Device,
)
    ensures
        ids_embedding_yields(table, ids, i, j, device, y) ==> exists|list: Vec<u32>|
            list@ == ids && #[trigger] call_ensures(
                embedding_of_ids,
                (&table, list, i, j, device),
                given(y),
            ),
        reshape_yields(x, dims, y) ==> exists|list: Vec<usize>|
            list@ == dims && #[trigger] call_ensures(reshape_to, (&x, list), given(y)),
        expand_yields(x, dims, y) ==> exists|list: Vec<usize>|
            list@ == dims && #[trigger] call_ensures(expanded, (&x, list), given(y)),
        ids_yield(ids, i, j, device, y) ==> exists|list: Vec<u32>|
            list@ == ids && #[trigger] call_ensures(
                matrix_of_ids,
                (list, i, j, device),
                given(y),
            ),
        argmax_yields(x, ids) ==> exists|list: Vec<u32>|
            list@ == ids && #[trigger] call_ensures(
                best_columns,
                (&x,),
                Ok::<Vec<u32>, candle_core::Error>(list),
            ),
{
}

/// What operations need of a tensor, in terms of its sizes, its strides, its elements and its
/// device.
pub proof fn law_needs_of_tensors(t: CandleTensor)
    ensures
        on_cpu(t) <==> device_is_cpu(tensor_device(t)),
        filled(t) <==> product(tensor_dims(t)) > 0,
        plain(t) <==> tensor_element(t) == Element::F32 && on_cpu(t) && filled(t),
        usable(t) <==> plain(t) && dense(t) && addressable(tensor_dims(t)),
        tensor_is_float(t) <==> {
            ||| tensor_element(t) == Element::BF16
            ||| tensor_element(t) == Element::F16
            ||| tensor_element(t) == Element::F32
            ||| tensor_element(t) == Element::F64
            ||| tensor_element(t) == Element::F8E4M3
            ||| tensor_element(t) == Element::F6E2M3
            ||| tensor_element(t) == Element::F6E3M2
            ||| tensor_element(t) == Element::F4
            ||| tensor_element(t) == Element::F8E8M0
        },
        fault_of(t) is None <==> tensor_is_float(t) && addressable(tensor_dims(t)),
        fault_of(t) == Some(GptError::NotFloat) <==> !tensor_is_float(t),
        fault_of(t) == Some(GptError::TooLarge) <==> tensor_is_float(t) && !addressable(
            tensor_dims(t),
        ),
        rank_fault(tensor_dims(t)) is None <==> tensor_dims(t).len() <= 8,
        reduction_fault(t) is Some <==> tensor_dims(t).len() > 0 && tensor_dims(t).last() == 1
            && tensor_strides(t).last() == 0,
        reading_fault(t) is Some <==> product(tensor_dims(t)) == 0 && tensor_start(t) != 0,
        feature_fault(tensor_dims(t)) is Some <==> tensor_dims(t).len() > 0 && tensor_dims(
            t,
        ).last() == 0,
        feature_fault(tensor_dims(t)) is Some ==> feature_fault(tensor_dims(t)) == Some(
            GptError::NoFeatures,
        ),
        size_fault(tensor_dims(t)) is None <==> addressable(tensor_dims(t)),
        size_fault(tensor_dims(t)) is Some ==> size_fault(tensor_dims(t)) == Some(
            GptError::TooLarge,
        ),
{
}

/// What a softmax, a choice, a normalisation and the operations on two tensors refuse.
pub proof fn law_refusals_of_operations(
    x: CandleTensor,
    y: CandleTensor,
    width: usize,
    count: usize,
)
    ensures
        softmax_fault(x) is None <==> {
            &&& fault_of(x) is None
            &&& tensor_dims(x).len() <= 8
            &&& reduction_fault(x) is None
        },
        choice_fault(x) is None <==> {
            &&& addressable(tensor_dims(x))
            &&& tensor_dims(x).len() <= 8
            &&& filled(x)
        },
        norm_fault(x, width) is None <==> {
            &&& fault_of(x) is None
            &&& tensor_dims(x).len() <= 8
            &&& feature_fault(tensor_dims(x)) is None
            &&& addressable(broadcast(tensor_dims(x), seq![width]))
            &&& readable(x)
        },
        sum_fault(x, y) is None <==> {
            &&& fault_of(x) is None
            &&& fault_of(y) is None
            &&& tensor_dims(x).len() <= 8
            &&& tensor_dims(y).len() <= 8
            &&& addressable(broadcast(tensor_dims(x), tensor_dims(y)))
        },
        product_fault(x, y) is None <==> {
            &&& addressable(tensor_dims(x))
            &&& addressable(tensor_dims(y))
            &&& tensor_dims(y).len() > 0 ==> addressable(
                with_last(tensor_dims(x), tensor_dims(y).last()),
            )
            &&& filled(x) && filled(y) ==> forall|i: int|
                0 <= i < tensor_dims(y).len() - 2 ==> #[trigger] tensor_strides(y)[i] != 0
        },
        scaling_fault(x, count) is None <==> fault_of(x) is None && count <= isize::MAX,
        lookup_fault(tensor_dims(x), width) is None <==> addressable(tensor_dims(x))
            && addressable(tensor_dims(x).push(width)),
{
}

/// What makes layers ready: the tensors that they hold are usable.
pub proof fn law_ready_layers_hold_usable_tensors(
    layer: Linear,
    norm: LayerNorm,
    table: Embedding,
    x: CandleTensor,
)
    ensures
        linear_ready(layer) <==> usable(linear_weight(layer)) && (linear_bias(layer) is Some
            ==> usable(linear_bias(layer)->0)),
        norm_ready(norm) <==> usable(norm_weight(norm)) && (norm_bias(norm) is Some ==> usable(
            norm_bias(norm)->0,
        )),
        embedding_ready(table) <==> usable(embedding_table(table)),
        linear_widths(layer) is Some ==> tensor_dims(linear_weight(layer)) =~= seq![
            linear_outputs(layer),
            linear_inputs(layer),
        ],
        embedding_widths(table) is Some ==> tensor_dims(embedding_table(table)) =~= seq![
            embedding_rows(table),
            embedding_width(table),
        ],
        norm_width(norm) is Some ==> tensor_dims(norm_weight(norm)) =~= seq![
            norm_width(norm)->0,
        ],
        linear_fits(layer, x) <==> {
            &&& linear_ready(layer)
            &&& plain(x)
            &&& 2 <= tensor_dims(x).len() <= 4
            &&& tensor_dims(x).last() == linear_inputs(layer)
        },
{
}

/// Indices are below a number where each of them is, and known where each is below it or is the
/// largest.
pub proof fn law_indices_are_below_one_by_one(ids: Seq<u32>, rows: usize)
    ensures
        all_below(ids, rows) <==> forall|i: int| 0 <= i < ids.len() ==> #[trigger] ids[i] < rows,
        all_known(ids, rows) <==> forall|i: int|
            0 <= i < ids.len() ==> #[trigger] ids[i] < rows || ids[i] == u32::MAX,
        all_below(ids, rows) ==> all_known(ids, rows),
{
}

} // verus!
