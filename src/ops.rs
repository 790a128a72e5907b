use vstd::prelude::*;
use crate::error::AplError;
use crate::nodes::{DyadicFn, MonadicFn};
use crate::value::{
    abs, dyadic_outcome, exact_quotient, fits_i64, integer_op, monadic_outcome, power_of,
    scalar_dyadic_outcome, scalar_monadic_outcome, Complex, Outcome, Real, Value, real_of,
    complex_of, float_result, complex_result, is_zero_divisor, scalar_dyadic_result,
    scalar_monadic_result,
};

verus! {

/// Addition, subtraction or multiplication of two integers, where the result fits.
fn checked_integer_op(op: DyadicFn, i: i64, j: i64) -> (r: Option<i64>)
    ensures
        r == if fits_i64(integer_op(op, i as int, j as int)) {
            Some(integer_op(op, i as int, j as int) as i64)
        } else {
            None::<i64>
        },
{
    let a = i as i128;
    let b = j as i128;
    let x: i128 = match op {
        DyadicFn::Addition => a + b,
        DyadicFn::Subtraction => a - b,
        _ => {
            assert(-0x8000_0000_0000_0000 <= a <= 0x7fff_ffff_ffff_ffff);
            assert(-0x8000_0000_0000_0000 <= b <= 0x7fff_ffff_ffff_ffff);
            assert(-0x4000_0000_0000_0000_0000_0000_0000_0000 <= a * b
                <= 0x4000_0000_0000_0000_0000_0000_0000_0000) by (nonlinear_arith)
                requires
                    -0x8000_0000_0000_0000 <= a <= 0x7fff_ffff_ffff_ffff,
                    -0x8000_0000_0000_0000 <= b <= 0x7fff_ffff_ffff_ffff,
            ;
            a * b
        },
    };
    if x < -0x8000_0000_0000_0000 || x > 0x7fff_ffff_ffff_ffff {
        None
    } else {
        Some(x as i64)
    }
}

fn magnitude_of(i: i64) -> (r: u128)
    ensures
        r == abs(i as int),
{
    if i < 0 {
        (-(i as i128)) as u128
    } else {
        i as u128
    }
}

/// The quotient of two integers where the divisor divides the dividend and the
/// quotient fits.
fn exact_division(i: i64, j: i64) -> (r: Option<i64>)
    requires
        j != 0,
    ensures
        r == if abs(i as int) % abs(j as int) == 0 && fits_i64(exact_quotient(i as int, j as int)) {
            Some(exact_quotient(i as int, j as int) as i64)
        } else {
            None::<i64>
        },
{
    let ai = magnitude_of(i);
    let aj = magnitude_of(j);
    if ai % aj != 0 {
        return None;
    }
    let q = ai / aj;
    assert(q <= ai) by (nonlinear_arith)
        requires
            q == ai / aj,
            aj >= 1,
    ;
    if (i < 0) == (j < 0) {
        if q <= 0x7fff_ffff_ffff_ffff {
            Some(q as i64)
        } else {
            None
        }
    } else {
        Some((-(q as i128)) as i64)
    }
}

/// The power of a base of magnitude at least two only grows.
proof fn lemma_power_grows(b: int, n: nat, m: nat)
    requires
        abs(b) >= 2,
        n <= m,
    ensures
        abs(power_of(b, m)) >= abs(power_of(b, n)),
        n < m ==> abs(power_of(b, m)) >= 2 * abs(power_of(b, n)),
    decreases m - n,
{
    if n < m {
        lemma_power_grows(b, n, (m - 1) as nat);
        let p = power_of(b, (m - 1) as nat);
        assert(abs(b * p) == abs(b) * abs(p)) by (nonlinear_arith);
        assert(abs(b) * abs(p) >= 2 * abs(p)) by (nonlinear_arith)
            requires
                abs(b) >= 2,
                abs(p) >= 0,
        ;
    }
}

/// `i` to the power `j`, for `j >= 0`, where the result fits.
fn integer_power(i: i64, j: i64) -> (r: Option<i64>)
    requires
        j >= 0,
    ensures
        r == if fits_i64(power_of(i as int, j as nat)) {
            Some(power_of(i as int, j as nat) as i64)
        } else {
            None::<i64>
        },
{
    if i == 0 || i == 1 {
        proof {
            lemma_small_powers(i as int, j as nat);
        }
        return if i == 0 && j > 0 {
            Some(0)
        } else {
            Some(1)
        };
    }
    if i == -1 {
        proof {
            lemma_small_powers(i as int, j as nat);
        }
        return if j % 2 == 0 {
            Some(1)
        } else {
            Some(-1)
        };
    }
    let mut acc: i64 = 1;
    let mut k: i64 = 0;
    while k < j
        invariant
            0 <= k <= j,
            abs(i as int) >= 2,
            acc as int == power_of(i as int, k as nat),
        decreases j - k,
    {
        match checked_integer_op(DyadicFn::Multiplication, acc, i) {
            Some(next) => {
                acc = next;
                k = k + 1;
            },
            None => {
                proof {
                    lemma_power_grows(i as int, (k + 1) as nat, j as nat);
                    assert(power_of(i as int, (k + 1) as nat) == i * power_of(i as int, k as nat));
                }
                return None;
            },
        }
    }
    Some(acc)
}

/// Powers of 0, 1 and -1.
proof fn lemma_small_powers(b: int, e: nat)
    requires
        -1 <= b <= 1,
    ensures
        b == 0 ==> power_of(b, e) == if e == 0 {
            1int
        } else {
            0int
        },
        b == 1 ==> power_of(b, e) == 1,
        b == -1 ==> power_of(b, e) == if e % 2 == 0 {
            1int
        } else {
            -1int
        },
    decreases e,
{
    if e > 0 {
        lemma_small_powers(b, (e - 1) as nat);
    }
}

/// A scalar as a real; an integer is widened.
fn to_real<R: Real>(v: &Value<R>) -> (r: R)
    ensures
        r == real_of(*v),
{
    match v {
        Value::AplInteger(i) => R::from_integer(*i),
        Value::AplFloat(f) => *f,
        _ => R::from_integer(0),
    }
}

/// A scalar as a complex number; a real is widened.
fn to_complex<R: Real>(v: &Value<R>) -> (r: Complex<R>)
    ensures
        r == complex_of(*v),
{
    match v {
        Value::AplComplex(c) => *c,
        Value::AplInteger(i) => Complex { re: R::from_integer(*i), im: R::from_integer(0) },
        Value::AplFloat(f) => Complex { re: *f, im: R::from_integer(0) },
        _ => Complex { re: R::from_integer(0), im: R::from_integer(0) },
    }
}

/// The same scalar.
fn copy_scalar<R: Real>(v: &Value<R>) -> (r: Value<R>)
    requires
        !(v is AplArray),
    ensures
        r == *v,
{
    match v {
        Value::AplInteger(i) => Value::AplInteger(*i),
        Value::AplFloat(f) => Value::AplFloat(*f),
        Value::AplComplex(c) => Value::AplComplex(*c),
        Value::AplArray(..) => Value::AplInteger(0),
    }
}

fn float<R: Real>(x: R) -> (r: Outcome<R>)
    ensures
        r == float_result(x),
{
    Ok(Box::new(Value::AplFloat(x)))
}

fn complex<R: Real>(c: Complex<R>) -> (r: Outcome<R>)
    ensures
        r == complex_result(c),
{
    Ok(Box::new(Value::AplComplex(c)))
}

/// Whether a scalar is a zero divisor.
fn is_zero_scalar<R: Real>(v: &Value<R>) -> (r: bool)
    ensures
        r == is_zero_divisor(*v),
{
    match v {
        Value::AplInteger(i) => *i == 0,
        Value::AplFloat(f) => f.is_zero(),
        Value::AplComplex(c) => c.re.is_zero() && c.im.is_zero(),
        Value::AplArray(..) => false,
    }
}

/// A dyadic primitive on two scalars: both are widened to the higher rung of the
/// ladder integer, float, complex, and combined there.
pub fn scalar_dyadic<R: Real>(op: DyadicFn, a: &Value<R>, b: &Value<R>) -> (r: Outcome<R>)
    requires
        !(a is AplArray),
        !(b is AplArray),
    ensures
        scalar_dyadic_outcome(op, *a, *b, r),
{
    let complex_involved = a.is_complex_value() || b.is_complex_value();
    match op {
        DyadicFn::Addition | DyadicFn::Subtraction | DyadicFn::Multiplication => {
            if let (Value::AplInteger(i), Value::AplInteger(j)) = (a, b) {
                if let Some(x) = checked_integer_op(op, *i, *j) {
                    return Ok(Box::new(Value::AplInteger(x)));
                }
            }
            if complex_involved {
                let (x, y) = (to_complex(a), to_complex(b));
                complex(
                    match op {
                        DyadicFn::Addition => R::complex_plus(x, y),
                        DyadicFn::Subtraction => R::complex_minus(x, y),
                        _ => R::complex_times(x, y),
                    },
                )
            } else {
                let (x, y) = (to_real(a), to_real(b));
                float(
                    match op {
                        DyadicFn::Addition => x.plus(y),
                        DyadicFn::Subtraction => x.minus(y),
                        _ => x.times(y),
                    },
                )
            }
        },
        DyadicFn::Division => {
            if is_zero_scalar(b) {
                return Err(AplError::DivisionByZero);
            }
            if let (Value::AplInteger(i), Value::AplInteger(j)) = (a, b) {
                if let Some(q) = exact_division(*i, *j) {
                    return Ok(Box::new(Value::AplInteger(q)));
                }
            }
            if complex_involved {
                complex(R::complex_divided_by(to_complex(a), to_complex(b)))
            } else {
                float(to_real(a).divided_by(to_real(b)))
            }
        },
        DyadicFn::Power => {
            if a.is_complex_value() {
                return Err(AplError::ComplexUnsupported);
            }
            if let Value::AplComplex(c) = b {
                return complex(R::real_power_complex(to_real(a), *c));
            }
            if let (Value::AplInteger(i), Value::AplInteger(j)) = (a, b) {
                if *i == 0 && *j < 0 {
                    return Err(AplError::ZeroToNegativePower);
                }
                if *j >= 0 {
                    if let Some(x) = integer_power(*i, *j) {
                        return Ok(Box::new(Value::AplInteger(x)));
                    }
                } else if *i == 1 {
                    return Ok(Box::new(Value::AplInteger(1)));
                } else if *i == -1 {
                    return Ok(Box::new(Value::AplInteger(if magnitude_of(*j) % 2 == 0 { 1 } else { -1 })));
                }
                return float(to_real(a).power(to_real(b)));
            }
            let zero_base = match a {
                Value::AplInteger(i) => *i == 0,
                Value::AplFloat(f) => f.is_zero(),
                _ => false,
            };
            let negative_exponent = match b {
                Value::AplInteger(j) => *j < 0,
                Value::AplFloat(g) => g.is_negative(),
                _ => false,
            };
            if zero_base && negative_exponent {
                Err(AplError::ZeroToNegativePower)
            } else {
                float(to_real(a).power(to_real(b)))
            }
        },
        DyadicFn::Maximum | DyadicFn::Minimum => {
            if complex_involved {
                return Err(AplError::ComplexUnsupported);
            }
            let first_wins = if let (Value::AplInteger(i), Value::AplInteger(j)) = (a, b) {
                if op == DyadicFn::Maximum {
                    *i > *j
                } else {
                    *i < *j
                }
            } else if op == DyadicFn::Maximum {
                to_real(a).greater_than(to_real(b))
            } else {
                to_real(a).less_than(to_real(b))
            };
            if first_wins {
                Ok(Box::new(copy_scalar(a)))
            } else {
                Ok(Box::new(copy_scalar(b)))
            }
        },
    }
}

fn copy_shape(shape: &Vec<usize>) -> (r: Vec<usize>)
    ensures
        r@ == shape@,
{
    let mut r: Vec<usize> = Vec::new();
    let mut i: usize = 0;
    while i < shape.len()
        invariant
            i <= shape.len(),
            r@ == shape@.subrange(0, i as int),
        decreases shape.len() - i,
    {
        r.push(shape[i]);
        i = i + 1;
        proof {
            assert(r@ =~= shape@.subrange(0, i as int));
        }
    }
    proof {
        assert(r@ =~= shape@);
    }
    r
}

fn same_shape(a: &Vec<usize>, b: &Vec<usize>) -> (r: bool)
    ensures
        r == (a@ == b@),
{
    if a.len() != b.len() {
        return false;
    }
    let mut i: usize = 0;
    while i < a.len()
        invariant
            i <= a.len(),
            a.len() == b.len(),
            forall|k: int| 0 <= k < i ==> a@[k] == b@[k],
        decreases a.len() - i,
    {
        if a[i] != b[i] {
            return false;
        }
        i = i + 1;
    }
    proof {
        assert(a@ =~= b@);
    }
    true
}

/// An element of the array on the right that fails after the ones before it
/// succeeded makes the whole operation fail.
proof fn lemma_fails_right<R: Real>(
    op: DyadicFn,
    a: Value<R>,
    b: Value<R>,
    k: int,
    ys: Seq<Box<Value<R>>>,
    e: AplError,
)
    requires
        !(a is AplArray),
        b matches Value::AplArray(_, _, xb) && 0 <= k < xb.len() && ys.len() == k && (forall|j: int|
            0 <= j < k ==> dyadic_outcome(op, a, *xb@[j], Ok(#[trigger] ys[j])))
            && dyadic_outcome(op, a, *xb@[k], Err(e)),
    ensures
        dyadic_outcome(op, a, b, Err(e)),
{
    match b {
        Value::AplArray(_, _, xb) => {
            // The witness: element `k`, and the results of the elements before it.
            assert(ys.len() == k && dyadic_outcome(op, a, *xb@[k], Err(e)));
        },
        _ => {},
    }
}

/// An element of the array on the left that fails after the ones before it
/// succeeded makes the whole operation fail.
proof fn lemma_fails_left<R: Real>(
    op: DyadicFn,
    a: Value<R>,
    b: Value<R>,
    k: int,
    ys: Seq<Box<Value<R>>>,
    e: AplError,
)
    requires
        !(b is AplArray),
        a matches Value::AplArray(_, _, xa) && 0 <= k < xa.len() && ys.len() == k && (forall|j: int|
            0 <= j < k ==> dyadic_outcome(op, *xa@[j], b, Ok(#[trigger] ys[j])))
            && dyadic_outcome(op, *xa@[k], b, Err(e)),
    ensures
        dyadic_outcome(op, a, b, Err(e)),
{
    match a {
        Value::AplArray(_, _, xa) => {
            // The witness: element `k`, and the results of the elements before it.
            assert(ys.len() == k && dyadic_outcome(op, *xa@[k], b, Err(e)));
        },
        _ => {},
    }
}

/// A pair of elements that fails after the pairs before it succeeded makes the
/// whole operation on two arrays of equal depth and shape fail.
proof fn lemma_fails_both<R: Real>(
    op: DyadicFn,
    a: Value<R>,
    b: Value<R>,
    k: int,
    ys: Seq<Box<Value<R>>>,
    e: AplError,
)
    requires
        a matches Value::AplArray(da, sa, xa) && b matches Value::AplArray(db, sb, xb) && da == db
            && sa@ == sb@ && 0 <= k < xa.len() && k < xb.len() && ys.len() == k && (forall|j: int|
            0 <= j < k ==> dyadic_outcome(op, *xa@[j], *xb@[j], Ok(#[trigger] ys[j])))
            && dyadic_outcome(op, *xa@[k], *xb@[k], Err(e)),
    ensures
        dyadic_outcome(op, a, b, Err(e)),
{
    match a {
        Value::AplArray(_, _, xa) => match b {
            Value::AplArray(_, _, xb) => {
                // The witness: pair `k`, and the results of the pairs before it.
                assert(ys.len() == k && dyadic_outcome(op, *xa@[k], *xb@[k], Err(e)));
            },
            _ => {},
        },
        _ => {},
    }
}

/// A dyadic primitive: the rules of the promotion ladder on scalars, and
/// element by element on arrays.
pub fn dyadic<R: Real>(op: DyadicFn, first: &Value<R>, other: &Value<R>) -> (r: Outcome<R>)
    requires
        first.wf(),
        other.wf(),
    ensures
        dyadic_outcome(op, *first, *other, r),
        r matches Ok(v) ==> v.wf(),
    decreases *first, *other, 1int,
{
    match first {
        Value::AplArray(..) => match other {
            Value::AplArray(..) => dual_dyadic_array(op, first, other),
            _ => inverse_simple_dyadic_array(op, first, other),
        },
        _ => match other {
            Value::AplArray(..) => simple_dyadic_array(op, first, other),
            _ => scalar_dyadic(op, first, other),
        },
    }
}

/// A scalar against each element of an array, keeping the array's depth and shape.
pub fn simple_dyadic_array<R: Real>(op: DyadicFn, param: &Value<R>, other: &Value<R>) -> (r:
    Outcome<R>)
    requires
        param.wf(),
        other.wf(),
        !(param is AplArray),
        other is AplArray,
    ensures
        dyadic_outcome(op, *param, *other, r),
        r matches Ok(v) ==> v.wf(),
    decreases *param, *other, 0int,
{
    match other {
        Value::AplArray(depth, dimensions, values) => {
            let mut result_values: Vec<Box<Value<R>>> = Vec::new();
            let mut i: usize = 0;
            while i < values.len()
                invariant
                    i <= values.len(),
                    result_values.len() == i,
                    other.wf(),
                    param.wf(),
                    !(param is AplArray),
                    *other == Value::AplArray(*depth, *dimensions, *values),
                    forall|k: int|
                        0 <= k < i ==> dyadic_outcome(op, *param, *values@[k], Ok(#[trigger] result_values@[k]))
                            && result_values@[k].wf(),
                decreases values.len() - i,
            {
                assert(values@[i as int].wf());
                match dyadic(op, param, &values[i]) {
                    Ok(val) => {
                        result_values.push(val);
                    },
                    Err(err) => {
                        proof {
                            lemma_fails_right(op, *param, *other, i as int, result_values@, err);
                        }
                        return Err(err);
                    },
                }
                i = i + 1;
            }
            Ok(Box::new(Value::AplArray(*depth, copy_shape(dimensions), result_values)))
        },
        _ => Err(AplError::Rank),
    }
}

/// Each element of an array against a scalar, keeping the array's depth and shape.
pub fn inverse_simple_dyadic_array<R: Real>(op: DyadicFn, param: &Value<R>, other: &Value<R>) -> (r:
    Outcome<R>)
    requires
        param.wf(),
        other.wf(),
        param is AplArray,
        !(other is AplArray),
    ensures
        dyadic_outcome(op, *param, *other, r),
        r matches Ok(v) ==> v.wf(),
    decreases *param, *other, 0int,
{
    match param {
        Value::AplArray(depth, dimensions, values) => {
            let mut result_values: Vec<Box<Value<R>>> = Vec::new();
            let mut i: usize = 0;
            while i < values.len()
                invariant
                    i <= values.len(),
                    result_values.len() == i,
                    other.wf(),
                    param.wf(),
                    !(other is AplArray),
                    *param == Value::AplArray(*depth, *dimensions, *values),
                    forall|k: int|
                        0 <= k < i ==> dyadic_outcome(op, *values@[k], *other, Ok(#[trigger] result_values@[k]))
                            && result_values@[k].wf(),
                decreases values.len() - i,
            {
                assert(values@[i as int].wf());
                match dyadic(op, &values[i], other) {
                    Ok(val) => {
                        result_values.push(val);
                    },
                    Err(err) => {
                        proof {
                            lemma_fails_left(op, *param, *other, i as int, result_values@, err);
                        }
                        return Err(err);
                    },
                }
                i = i + 1;
            }
            Ok(Box::new(Value::AplArray(*depth, copy_shape(dimensions), result_values)))
        },
        _ => Err(AplError::Rank),
    }
}

/// Two arrays element by element. Arrays of different depth give a rank error;
/// arrays of equal depth and different shape give a length error.
pub fn dual_dyadic_array<R: Real>(op: DyadicFn, param: &Value<R>, other: &Value<R>) -> (r: Outcome<
    R,
>)
    requires
        param.wf(),
        other.wf(),
        param is AplArray,
        other is AplArray,
    ensures
        dyadic_outcome(op, *param, *other, r),
        r matches Ok(v) ==> v.wf(),
    decreases *param, *other, 0int,
{
    match param {
        Value::AplArray(left_depth, left_dimensions, left_values) => match other {
            Value::AplArray(right_depth, right_dimensions, right_values) => {
                if *left_depth != *right_depth {
                    return Err(AplError::Rank);
                } else if !same_shape(left_dimensions, right_dimensions) {
                    return Err(AplError::Length);
                }
                assert(left_dimensions@[0] == left_values.len());
                assert(right_dimensions@[0] == right_values.len());
                let mut result_values: Vec<Box<Value<R>>> = Vec::new();
                let mut i: usize = 0;
                while i < left_values.len()
                    invariant
                        i <= left_values.len(),
                        left_values.len() == right_values.len(),
                        result_values.len() == i,
                        other.wf(),
                        param.wf(),
                        left_depth == right_depth,
                        left_dimensions@ == right_dimensions@,
                        *param == Value::AplArray(*left_depth, *left_dimensions, *left_values),
                        *other == Value::AplArray(*right_depth, *right_dimensions, *right_values),
                        forall|k: int|
                            0 <= k < i ==> dyadic_outcome(
                                op,
                                *left_values@[k],
                                *right_values@[k],
                                Ok(#[trigger] result_values@[k]),
                            ) && result_values@[k].wf(),
                    decreases left_values.len() - i,
                {
                    assert(left_values@[i as int].wf());
                    assert(right_values@[i as int].wf());
                    match dyadic(op, &left_values[i], &right_values[i]) {
                        Ok(val) => {
                            result_values.push(val);
                        },
                        Err(err) => {
                            proof {
                                lemma_fails_both(op, *param, *other, i as int, result_values@, err);
                            }
                            return Err(err);
                        },
                    }
                    i = i + 1;
                }
                Ok(Box::new(Value::AplArray(*left_depth, copy_shape(left_dimensions), result_values)))
            },
            _ => Err(AplError::Rank),
        },
        _ => Err(AplError::Rank),
    }
}

/// A monadic primitive on a scalar.
pub fn scalar_monadic<R: Real>(op: MonadicFn, a: &Value<R>) -> (r: Outcome<R>)
    requires
        !(a is AplArray),
    ensures
        scalar_monadic_outcome(op, *a, r),
{
    match op {
        MonadicFn::Conjugate => match a {
            Value::AplComplex(c) => complex(R::complex_conjugate(*c)),
            _ => Ok(Box::new(copy_scalar(a))),
        },
        MonadicFn::Negate => match a {
            Value::AplInteger(i) => {
                if *i == i64::MIN {
                    float(R::from_integer(*i).negated())
                } else {
                    Ok(Box::new(Value::AplInteger(-*i)))
                }
            },
            Value::AplFloat(f) => float(f.negated()),
            _ => complex(R::complex_negated(to_complex(a))),
        },
        MonadicFn::Reciprocal => scalar_dyadic(DyadicFn::Division, &Value::AplInteger(1), a),
        MonadicFn::Sign => match a {
            Value::AplInteger(i) => Ok(
                Box::new(
                    Value::AplInteger(
                        if *i < 0 {
                            -1
                        } else if *i > 0 {
                            1
                        } else {
                            0
                        },
                    ),
                ),
            ),
            Value::AplFloat(f) => Ok(
                Box::new(
                    Value::AplInteger(
                        if f.is_negative() {
                            -1
                        } else if f.is_positive() {
                            1
                        } else {
                            0
                        },
                    ),
                ),
            ),
            _ => {
                // The sign of a complex number is the number divided by its magnitude.
                let m = R::complex_absolute(to_complex(a));
                let r = scalar_dyadic(DyadicFn::Division, a, &Value::AplFloat(m));
                r
            },
        },
        MonadicFn::Magnitude => match a {
            Value::AplInteger(i) => {
                if *i == i64::MIN {
                    float(R::from_integer(*i).absolute())
                } else if *i < 0 {
                    Ok(Box::new(Value::AplInteger(-*i)))
                } else {
                    Ok(Box::new(Value::AplInteger(*i)))
                }
            },
            Value::AplFloat(f) => float(f.absolute()),
            _ => float(R::complex_absolute(to_complex(a))),
        },
        MonadicFn::Ceiling => match a {
            Value::AplInteger(i) => Ok(Box::new(Value::AplInteger(*i))),
            Value::AplFloat(f) => Ok(Box::new(Value::AplInteger(f.ceiling().to_integer()))),
            _ => {
                let c = to_complex(a);
                complex(Complex { re: c.re.ceiling(), im: c.im.ceiling() })
            },
        },
        MonadicFn::Floor => match a {
            Value::AplInteger(i) => Ok(Box::new(Value::AplInteger(*i))),
            Value::AplFloat(f) => Ok(Box::new(Value::AplInteger(f.floor().to_integer()))),
            _ => {
                let c = to_complex(a);
                complex(Complex { re: c.re.floor(), im: c.im.floor() })
            },
        },
        MonadicFn::Exponential => match a {
            Value::AplComplex(c) => complex(R::complex_exponential(*c)),
            _ => float(to_real(a).exponential()),
        },
    }
}

/// An element of an array that fails after the ones before it succeeded makes the
/// whole monadic operation fail.
proof fn lemma_monadic_fails<R: Real>(op: MonadicFn, a: Value<R>, k: int, ys: Seq<Box<Value<R>>>, e: AplError)
    requires
        a matches Value::AplArray(_, _, xs) && 0 <= k < xs.len() && ys.len() == k && (forall|j: int|
            0 <= j < k ==> monadic_outcome(op, *xs@[j], Ok(#[trigger] ys[j])))
            && monadic_outcome(op, *xs@[k], Err(e)),
    ensures
        monadic_outcome(op, a, Err(e)),
{
    match a {
        Value::AplArray(_, _, xs) => {
            // The witness: element `k`, and the results of the elements before it.
            assert(ys.len() == k && monadic_outcome(op, *xs@[k], Err(e)));
        },
        _ => {},
    }
}

/// A monadic primitive: directly on a scalar, element by element on an array.
pub fn monadic<R: Real>(op: MonadicFn, first: &Value<R>) -> (r: Outcome<R>)
    requires
        first.wf(),
    ensures
        monadic_outcome(op, *first, r),
        r matches Ok(v) ==> v.wf(),
    decreases *first, 1int,
{
    match first {
        Value::AplArray(..) => simple_monadic_array(op, first),
        _ => scalar_monadic(op, first),
    }
}

/// A monadic primitive on each element of an array, keeping its depth and shape.
pub fn simple_monadic_array<R: Real>(op: MonadicFn, param: &Value<R>) -> (r: Outcome<R>)
    requires
        param.wf(),
        param is AplArray,
    ensures
        monadic_outcome(op, *param, r),
        r matches Ok(v) ==> v.wf(),
    decreases *param, 0int,
{
    match param {
        Value::AplArray(depth, dimensions, values) => {
            let mut result_values: Vec<Box<Value<R>>> = Vec::new();
            let mut i: usize = 0;
            while i < values.len()
                invariant
                    i <= values.len(),
                    result_values.len() == i,
                    param.wf(),
                    *param == Value::AplArray(*depth, *dimensions, *values),
                    forall|k: int|
                        0 <= k < i ==> monadic_outcome(op, *values@[k], Ok(#[trigger] result_values@[k]))
                            && result_values@[k].wf(),
                decreases values.len() - i,
            {
                assert(values@[i as int].wf());
                match monadic(op, &values[i]) {
                    Ok(val) => {
                        result_values.push(val);
                    },
                    Err(err) => {
                        proof {
                            lemma_monadic_fails(op, *param, i as int, result_values@, err);
                        }
                        return Err(err);
                    },
                }
                i = i + 1;
            }
            Ok(Box::new(Value::AplArray(*depth, copy_shape(dimensions), result_values)))
        },
        _ => Err(AplError::Rank),
    }
}

} // verus!
