use vstd::prelude::*;

verus! {

/// An owned error message.
#[derive(Debug, Clone)]
pub struct ErrString {
    msg: String,
}

impl ErrString {
    pub closed spec fn view(&self) -> Seq<char> {
        self.msg@
    }

    pub fn new(msg: &str) -> (r: ErrString)
        ensures
            r@ == msg@,
    {
        ErrString { msg: msg.to_owned() }
    }

    pub fn as_str(&self) -> (r: &str)
        ensures
            r@ == self@,
    {
        self.msg.as_str()
    }
}

/// Failures of numeric and date-based computations.
#[derive(Debug, Clone)]
pub enum ComputeError {
    ZeroDivisionError,
    CastNumberError(ErrString),
    InvalidInput(ErrString),
    InterpolationError,
}

/// Failures of fitting an interpolation method or of evaluating a fitted one.
#[derive(Debug, Clone, Copy, PartialEq)]
pub enum InterpolationError<V> {
    /// Successive abscissas decrease.
    PointOrderError,
    /// The query lies below the first knot.
    OutOfLowerBound(V),
    /// The query lies at or beyond the last knot.
    OutOfUpperBound(V),
    /// Fewer knots than the method needs; holds the number given.
    InsufficientPointsError(usize),
}

/// The library's error type: a computation failure, or an interpolation
/// failure passed on unchanged.
#[derive(Debug, Clone)]
pub enum QLabError<V> {
    ComputeError(ComputeError),
    InterpolationError(InterpolationError<V>),
}

impl<V> From<ComputeError> for QLabError<V> {
    fn from(err: ComputeError) -> (r: QLabError<V>) {
        QLabError::ComputeError(err)
    }
}

impl<V> vstd::std_specs::convert::FromSpecImpl<ComputeError> for QLabError<V> {
    open spec fn obeys_from_spec() -> bool {
        true
    }

    open spec fn from_spec(err: ComputeError) -> QLabError<V> {
        QLabError::ComputeError(err)
    }
}

impl<V> From<InterpolationError<V>> for QLabError<V> {
    fn from(err: InterpolationError<V>) -> (r: QLabError<V>) {
        QLabError::InterpolationError(err)
    }
}

impl<V> vstd::std_specs::convert::FromSpecImpl<InterpolationError<V>> for QLabError<V> {
    open spec fn obeys_from_spec() -> bool {
        true
    }

    open spec fn from_spec(err: InterpolationError<V>) -> QLabError<V> {
        QLabError::InterpolationError(err)
    }
}

pub type QLabResult<T, V> = Result<T, QLabError<V>>;

} // verus!
