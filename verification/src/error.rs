//! What can go wrong in a model.

use vstd::prelude::*;

verus! {

/// An error of the tensor library, as it comes from there.
#[verifier::external_type_specification]
#[verifier::external_body]
pub struct ExCandleError(candle_core::Error);

/// The errors of the model code.
#[derive(Debug)]
pub enum GptError {
    /// The tensor library refused an operation.
    Candle(candle_core::Error),
    /// A tensor holds integers where the operation is defined on floating point numbers alone.
    NotFloat,
    /// A tensor of the shape that is asked for is larger than any allocation.
    TooLarge,
    /// A tensor has more dimensions than the operation is defined on.
    TooManyDimensions,
    /// A dimension repeats one cell where the operation reads its cells one after the other.
    RepeatedCell,
    /// A tensor has no elements where the operation reads some.
    NoElements,
    /// The features to normalise along the last dimension are none.
    NoFeatures,
    /// The model was given no position to predict from.
    NoPosition,
}

/// The first of two errors, where there is one.
pub open spec fn first_fault(a: Option<GptError>, b: Option<GptError>) -> Option<GptError> {
    if a is Some {
        a
    } else {
        b
    }
}

/// The result of one call of the tensor library behind a test: the error `fault` where there is
/// one, and else what the tensor library gives.
pub open spec fn guarded<T>(fault: Option<GptError>, r: Result<T, GptError>) -> bool {
    match fault {
        Some(e) => r == Err::<T, GptError>(e),
        None => r matches Err(e) ==> e is Candle,
    }
}

/// The result of several calls of the tensor library behind tests: an error other than `fault`
/// comes from the tensor library, and where there is a `fault` there is no success.
pub open spec fn explained<T>(fault: Option<GptError>, r: Result<T, GptError>) -> bool {
    match r {
        Ok(_) => fault is None,
        Err(e) => e is Candle || fault == Some(e),
    }
}

/// The result of a call of the tensor library, with its error as an error of the model code.
pub(crate) fn lift<T>(result: Result<T, candle_core::Error>) -> (lifted: Result<T, GptError>)
    ensures
        lifted == match result {
            Ok(value) => Ok::<T, GptError>(value),
            Err(error) => Err::<T, GptError>(GptError::Candle(error)),
        },
{
    match result {
        Ok(value) => Ok(value),
        Err(error) => Err(GptError::Candle(error)),
    }
}

/// The first error that there is comes first.
pub proof fn law_first_fault_comes_first(a: Option<GptError>, b: Option<GptError>)
    ensures
        first_fault(a, b) is None <==> a is None && b is None,
        a is Some ==> first_fault(a, b) == a,
        a is None ==> first_fault(a, b) == b,
{
}

/// Behind a test, an error of the test is what comes back, and without one there is a success or an
/// error of the tensor library.
pub proof fn law_guarded_calls_return_their_fault<T>(
    fault: Option<GptError>,
    r: Result<T, GptError>,
)
    requires
        guarded(fault, r),
    ensures
        fault is Some ==> r is Err && r->Err_0 == fault->0,
        fault is None && r is Err ==> r->Err_0 is Candle,
{
}

/// Behind several tests, success shows that none of them had an error, and an error is that of a
/// test or of the tensor library.
pub proof fn law_explained_calls_return_their_fault<T>(
    fault: Option<GptError>,
    r: Result<T, GptError>,
)
    requires
        explained(fault, r),
    ensures
        r is Ok ==> fault is None,
        r is Err ==> r->Err_0 is Candle || fault == Some(r->Err_0),
{
}

} // verus!
