use vstd::prelude::*;
use crate::nodes::{DyadicFn, MonadicFn};
use crate::ops::{dyadic, monadic};
use crate::value::{dyadic_outcome, monadic_outcome, Outcome, Real, Value};

verus! {

/// Adds two values, by the rules of the promotion ladder and element by element on arrays.
pub fn add<R: Real>(first: &Value<R>, other: &Value<R>) -> (r: Outcome<R>)
    requires
        first.wf(),
        other.wf(),
    ensures
        dyadic_outcome(DyadicFn::Addition, *first, *other, r),
        r matches Ok(v) ==> v.wf(),
{
    dyadic(DyadicFn::Addition, first, other)
}

/// Subtracts the second value from the first, by the rules of the promotion ladder and element by element on arrays.
pub fn subtract<R: Real>(first: &Value<R>, other: &Value<R>) -> (r: Outcome<R>)
    requires
        first.wf(),
        other.wf(),
    ensures
        dyadic_outcome(DyadicFn::Subtraction, *first, *other, r),
        r matches Ok(v) ==> v.wf(),
{
    dyadic(DyadicFn::Subtraction, first, other)
}

/// Multiplies two values, by the rules of the promotion ladder and element by element on arrays.
pub fn multiply<R: Real>(first: &Value<R>, other: &Value<R>) -> (r: Outcome<R>)
    requires
        first.wf(),
        other.wf(),
    ensures
        dyadic_outcome(DyadicFn::Multiplication, *first, *other, r),
        r matches Ok(v) ==> v.wf(),
{
    dyadic(DyadicFn::Multiplication, first, other)
}

/// Divides the first value by the second; a zero divisor is a domain error, by the rules of the promotion ladder and element by element on arrays.
pub fn divide<R: Real>(first: &Value<R>, other: &Value<R>) -> (r: Outcome<R>)
    requires
        first.wf(),
        other.wf(),
    ensures
        dyadic_outcome(DyadicFn::Division, *first, *other, r),
        r matches Ok(v) ==> v.wf(),
{
    dyadic(DyadicFn::Division, first, other)
}

/// Divides an integer by a value.
pub fn divide_integer<R: Real>(i: i64, other: &Value<R>) -> (r: Outcome<R>)
    requires
        other.wf(),
    ensures
        dyadic_outcome(DyadicFn::Division, Value::AplInteger(i), *other, r),
        r matches Ok(v) ==> v.wf(),
{
    dyadic(DyadicFn::Division, &Value::AplInteger(i), other)
}

/// Raises the first value to the power of the second, by the rules of the promotion ladder and element by element on arrays.
pub fn power<R: Real>(first: &Value<R>, other: &Value<R>) -> (r: Outcome<R>)
    requires
        first.wf(),
        other.wf(),
    ensures
        dyadic_outcome(DyadicFn::Power, *first, *other, r),
        r matches Ok(v) ==> v.wf(),
{
    dyadic(DyadicFn::Power, first, other)
}

/// The larger of two values, by the rules of the promotion ladder and element by element on arrays.
pub fn maximum<R: Real>(first: &Value<R>, other: &Value<R>) -> (r: Outcome<R>)
    requires
        first.wf(),
        other.wf(),
    ensures
        dyadic_outcome(DyadicFn::Maximum, *first, *other, r),
        r matches Ok(v) ==> v.wf(),
{
    dyadic(DyadicFn::Maximum, first, other)
}

/// The smaller of two values, by the rules of the promotion ladder and element by element on arrays.
pub fn minimum<R: Real>(first: &Value<R>, other: &Value<R>) -> (r: Outcome<R>)
    requires
        first.wf(),
        other.wf(),
    ensures
        dyadic_outcome(DyadicFn::Minimum, *first, *other, r),
        r matches Ok(v) ==> v.wf(),
{
    dyadic(DyadicFn::Minimum, first, other)
}

/// The complex conjugate; a real value is returned unchanged; element by element on arrays.
pub fn conjugate<R: Real>(first: &Value<R>) -> (r: Outcome<R>)
    requires
        first.wf(),
    ensures
        monadic_outcome(MonadicFn::Conjugate, *first, r),
        r matches Ok(v) ==> v.wf(),
{
    monadic(MonadicFn::Conjugate, first)
}

/// The negation; element by element on arrays.
pub fn negate<R: Real>(first: &Value<R>) -> (r: Outcome<R>)
    requires
        first.wf(),
    ensures
        monadic_outcome(MonadicFn::Negate, *first, r),
        r matches Ok(v) ==> v.wf(),
{
    monadic(MonadicFn::Negate, first)
}

/// One divided by the value; element by element on arrays.
pub fn reciprocal<R: Real>(first: &Value<R>) -> (r: Outcome<R>)
    requires
        first.wf(),
    ensures
        monadic_outcome(MonadicFn::Reciprocal, *first, r),
        r matches Ok(v) ==> v.wf(),
{
    monadic(MonadicFn::Reciprocal, first)
}

/// The sign: -1, 0 or 1 for a real, the value over its magnitude for a complex number; element by element on arrays.
pub fn sign<R: Real>(first: &Value<R>) -> (r: Outcome<R>)
    requires
        first.wf(),
    ensures
        monadic_outcome(MonadicFn::Sign, *first, r),
        r matches Ok(v) ==> v.wf(),
{
    monadic(MonadicFn::Sign, first)
}

/// The absolute value; element by element on arrays.
pub fn magnitude<R: Real>(first: &Value<R>) -> (r: Outcome<R>)
    requires
        first.wf(),
    ensures
        monadic_outcome(MonadicFn::Magnitude, *first, r),
        r matches Ok(v) ==> v.wf(),
{
    monadic(MonadicFn::Magnitude, first)
}

/// The least integer not below the value; element by element on arrays.
pub fn ceiling<R: Real>(first: &Value<R>) -> (r: Outcome<R>)
    requires
        first.wf(),
    ensures
        monadic_outcome(MonadicFn::Ceiling, *first, r),
        r matches Ok(v) ==> v.wf(),
{
    monadic(MonadicFn::Ceiling, first)
}

/// The greatest integer not above the value; element by element on arrays.
pub fn floor<R: Real>(first: &Value<R>) -> (r: Outcome<R>)
    requires
        first.wf(),
    ensures
        monadic_outcome(MonadicFn::Floor, *first, r),
        r matches Ok(v) ==> v.wf(),
{
    monadic(MonadicFn::Floor, first)
}

/// e raised to the value; element by element on arrays.
pub fn exponential<R: Real>(first: &Value<R>) -> (r: Outcome<R>)
    requires
        first.wf(),
    ensures
        monadic_outcome(MonadicFn::Exponential, *first, r),
        r matches Ok(v) ==> v.wf(),
{
    monadic(MonadicFn::Exponential, first)
}

} // verus!
