use vstd::prelude::*;
use crate::error::AplError;
use crate::nodes::{DyadicFn, MonadicFn};

verus! {

/// A complex number over the reals `R`.
#[derive(Clone, Copy, Debug)]
pub struct Complex<R> {
    pub re: R,
    pub im: R,
}

/// The arithmetic on real numbers that the interpreter computes with. Each
/// operation's result is named by a specification function of its arguments;
/// the interpreter's rules say which operation is applied to which operands,
/// and hold whatever values an implementation computes.
pub trait Real: Sized + Copy {
    spec fn spec_from_integer(i: i64) -> Self;

    /// The real number written in a text; the library applies it to sequences
    /// of characters.
    spec fn spec_from_decimal<T>(text: T) -> Option<Self>;

    spec fn spec_plus(self, other: Self) -> Self;

    spec fn spec_minus(self, other: Self) -> Self;

    spec fn spec_times(self, other: Self) -> Self;

    spec fn spec_divided_by(self, other: Self) -> Self;

    spec fn spec_power(self, other: Self) -> Self;

    spec fn spec_negated(self) -> Self;

    spec fn spec_absolute(self) -> Self;

    spec fn spec_exponential(self) -> Self;

    spec fn spec_ceiling(self) -> Self;

    spec fn spec_floor(self) -> Self;

    spec fn spec_to_integer(self) -> i64;

    spec fn spec_is_zero(self) -> bool;

    spec fn spec_is_negative(self) -> bool;

    spec fn spec_is_positive(self) -> bool;

    spec fn spec_greater_than(self, other: Self) -> bool;

    spec fn spec_less_than(self, other: Self) -> bool;

    spec fn spec_complex_plus(a: Complex<Self>, b: Complex<Self>) -> Complex<Self>;

    spec fn spec_complex_minus(a: Complex<Self>, b: Complex<Self>) -> Complex<Self>;

    spec fn spec_complex_times(a: Complex<Self>, b: Complex<Self>) -> Complex<Self>;

    spec fn spec_complex_divided_by(a: Complex<Self>, b: Complex<Self>) -> Complex<Self>;

    spec fn spec_complex_negated(a: Complex<Self>) -> Complex<Self>;

    spec fn spec_complex_conjugate(a: Complex<Self>) -> Complex<Self>;

    spec fn spec_complex_absolute(a: Complex<Self>) -> Self;

    spec fn spec_complex_exponential(a: Complex<Self>) -> Complex<Self>;

    spec fn spec_real_power_complex(base: Self, exponent: Complex<Self>) -> Complex<Self>;

    spec fn spec_decimal_text(self) -> String;

    /// The real number of an integer.
    fn from_integer(i: i64) -> (r: Self)
        ensures
            r == Self::spec_from_integer(i),
    ;

    /// The real number written in decimal, without a sign; `None` if the text is
    /// not such a number.
    fn from_decimal(text: &Vec<char>) -> (r: Option<Self>)
        ensures
            r == Self::spec_from_decimal::<Seq<char>>(text@),
    ;

    fn plus(self, other: Self) -> (r: Self)
        ensures
            r == self.spec_plus(other),
    ;

    fn minus(self, other: Self) -> (r: Self)
        ensures
            r == self.spec_minus(other),
    ;

    fn times(self, other: Self) -> (r: Self)
        ensures
            r == self.spec_times(other),
    ;

    fn divided_by(self, other: Self) -> (r: Self)
        ensures
            r == self.spec_divided_by(other),
    ;

    /// `self` raised to the power `other`.
    fn power(self, other: Self) -> (r: Self)
        ensures
            r == self.spec_power(other),
    ;

    fn negated(self) -> (r: Self)
        ensures
            r == self.spec_negated(),
    ;

    fn absolute(self) -> (r: Self)
        ensures
            r == self.spec_absolute(),
    ;

    /// e raised to the power `self`.
    fn exponential(self) -> (r: Self)
        ensures
            r == self.spec_exponential(),
    ;

    fn ceiling(self) -> (r: Self)
        ensures
            r == self.spec_ceiling(),
    ;

    fn floor(self) -> (r: Self)
        ensures
            r == self.spec_floor(),
    ;

    /// The integer that `self` rounds to toward zero, saturated at the bounds of `i64`.
    fn to_integer(self) -> (r: i64)
        ensures
            r == self.spec_to_integer(),
    ;

    fn is_zero(self) -> (r: bool)
        ensures
            r == self.spec_is_zero(),
    ;

    fn is_negative(self) -> (r: bool)
        ensures
            r == self.spec_is_negative(),
    ;

    fn is_positive(self) -> (r: bool)
        ensures
            r == self.spec_is_positive(),
    ;

    fn greater_than(self, other: Self) -> (r: bool)
        ensures
            r == self.spec_greater_than(other),
    ;

    fn less_than(self, other: Self) -> (r: bool)
        ensures
            r == self.spec_less_than(other),
    ;

    fn complex_plus(a: Complex<Self>, b: Complex<Self>) -> (r: Complex<Self>)
        ensures
            r == Self::spec_complex_plus(a, b),
    ;

    fn complex_minus(a: Complex<Self>, b: Complex<Self>) -> (r: Complex<Self>)
        ensures
            r == Self::spec_complex_minus(a, b),
    ;

    fn complex_times(a: Complex<Self>, b: Complex<Self>) -> (r: Complex<Self>)
        ensures
            r == Self::spec_complex_times(a, b),
    ;

    fn complex_divided_by(a: Complex<Self>, b: Complex<Self>) -> (r: Complex<Self>)
        ensures
            r == Self::spec_complex_divided_by(a, b),
    ;

    fn complex_negated(a: Complex<Self>) -> (r: Complex<Self>)
        ensures
            r == Self::spec_complex_negated(a),
    ;

    fn complex_conjugate(a: Complex<Self>) -> (r: Complex<Self>)
        ensures
            r == Self::spec_complex_conjugate(a),
    ;

    /// The modulus of a complex number.
    fn complex_absolute(a: Complex<Self>) -> (r: Self)
        ensures
            r == Self::spec_complex_absolute(a),
    ;

    /// e raised to a complex power.
    fn complex_exponential(a: Complex<Self>) -> (r: Complex<Self>)
        ensures
            r == Self::spec_complex_exponential(a),
    ;

    /// A real base raised to a complex power.
    fn real_power_complex(base: Self, exponent: Complex<Self>) -> (r: Complex<Self>)
        ensures
            r == Self::spec_real_power_complex(base, exponent),
    ;

    /// The number in decimal notation.
    fn decimal_text(self) -> (r: String)
        ensures
            r == self.spec_decimal_text(),
    ;
}

/// A runtime value: a scalar of the numeric tower, or a flat array of values
/// with its depth and its shape.
#[derive(Debug)]
pub enum Value<R> {
    AplFloat(R),
    AplInteger(i64),
    AplComplex(Complex<R>),
    AplArray(usize, Vec<usize>, Vec<Box<Value<R>>>),
}

pub type Outcome<R> = Result<Box<Value<R>>, AplError>;

impl<R> Value<R> {
    /// Every array's shape is the one-element vector of its length.
    pub open spec fn wf(&self) -> bool
        decreases self,
    {
        match self {
            Value::AplArray(_, shape, items) => {
                &&& shape@ == seq![items.len()]
                &&& forall|i: int| 0 <= i < items.len() ==> (#[trigger] items@[i]).wf()
            },
            _ => true,
        }
    }

    pub fn is_complex_value(&self) -> (r: bool)
        ensures
            r == (self is AplComplex),
    {
        match self {
            Value::AplComplex(_) => true,
            _ => false,
        }
    }

}

pub open spec fn fits_i64(x: int) -> bool {
    i64::MIN <= x <= i64::MAX
}

pub open spec fn integer<R>(x: int) -> Outcome<R> {
    Ok(Box::new(Value::AplInteger(x as i64)))
}

/// The sign of an integer.
pub open spec fn signum(i: int) -> int {
    if i < 0 {
        -1
    } else if i > 0 {
        1
    } else {
        0
    }
}

pub open spec fn abs(x: int) -> int {
    if x < 0 {
        -x
    } else {
        x
    }
}

/// The quotient of `i` by `j` where `j` divides `i`.
pub open spec fn exact_quotient(i: int, j: int) -> int {
    if (i < 0) == (j < 0) {
        abs(i) / abs(j)
    } else {
        -(abs(i) / abs(j))
    }
}

/// The integer result of addition, subtraction or multiplication.
pub open spec fn integer_op(op: DyadicFn, i: int, j: int) -> int {
    if op == DyadicFn::Addition {
        i + j
    } else if op == DyadicFn::Subtraction {
        i - j
    } else {
        i * j
    }
}

/// `b` to the power `e`, for natural `e`.
pub open spec fn power_of(b: int, e: nat) -> int
    decreases e,
{
    if e == 0 {
        1
    } else {
        b * power_of(b, (e - 1) as nat)
    }
}

/// A scalar as a real; an integer is widened.
pub open spec fn real_of<R: Real>(v: Value<R>) -> R {
    match v {
        Value::AplInteger(i) => R::spec_from_integer(i),
        Value::AplFloat(f) => f,
        _ => R::spec_from_integer(0),
    }
}

/// A scalar as a complex number; a real is widened with a zero imaginary part.
pub open spec fn complex_of<R: Real>(v: Value<R>) -> Complex<R> {
    match v {
        Value::AplComplex(c) => c,
        Value::AplInteger(i) => Complex { re: R::spec_from_integer(i), im: R::spec_from_integer(0) },
        Value::AplFloat(f) => Complex { re: f, im: R::spec_from_integer(0) },
        _ => Complex { re: R::spec_from_integer(0), im: R::spec_from_integer(0) },
    }
}

pub open spec fn float_result<R>(x: R) -> Outcome<R> {
    Ok(Box::new(Value::AplFloat(x)))
}

pub open spec fn complex_result<R>(c: Complex<R>) -> Outcome<R> {
    Ok(Box::new(Value::AplComplex(c)))
}

/// Whether a scalar is zero as a divisor.
pub open spec fn is_zero_divisor<R: Real>(v: Value<R>) -> bool {
    match v {
        Value::AplInteger(i) => i == 0,
        Value::AplFloat(f) => f.spec_is_zero(),
        Value::AplComplex(c) => c.re.spec_is_zero() && c.im.spec_is_zero(),
        _ => false,
    }
}

/// What a dyadic primitive gives on two scalars: integers combine exactly where
/// the result fits; otherwise both operands are widened to the higher rung of
/// the ladder integer, float, complex, and combined there.
pub open spec fn scalar_dyadic_result<R: Real>(op: DyadicFn, a: Value<R>, b: Value<R>) -> Outcome<R> {
    let complex = a is AplComplex || b is AplComplex;
    match op {
        DyadicFn::Addition | DyadicFn::Subtraction | DyadicFn::Multiplication => {
            if a is AplInteger && b is AplInteger && fits_i64(
                integer_op(op, a->AplInteger_0 as int, b->AplInteger_0 as int),
            ) {
                integer(integer_op(op, a->AplInteger_0 as int, b->AplInteger_0 as int))
            } else if complex {
                let (x, y) = (complex_of(a), complex_of(b));
                complex_result(
                    if op == DyadicFn::Addition {
                        R::spec_complex_plus(x, y)
                    } else if op == DyadicFn::Subtraction {
                        R::spec_complex_minus(x, y)
                    } else {
                        R::spec_complex_times(x, y)
                    },
                )
            } else {
                let (x, y) = (real_of(a), real_of(b));
                float_result(
                    if op == DyadicFn::Addition {
                        x.spec_plus(y)
                    } else if op == DyadicFn::Subtraction {
                        x.spec_minus(y)
                    } else {
                        x.spec_times(y)
                    },
                )
            }
        },
        DyadicFn::Division => {
            if is_zero_divisor(b) {
                Err(AplError::DivisionByZero)
            } else if a is AplInteger && b is AplInteger && abs(a->AplInteger_0 as int) % abs(
                b->AplInteger_0 as int,
            ) == 0 && fits_i64(exact_quotient(a->AplInteger_0 as int, b->AplInteger_0 as int)) {
                integer(exact_quotient(a->AplInteger_0 as int, b->AplInteger_0 as int))
            } else if complex {
                complex_result(R::spec_complex_divided_by(complex_of(a), complex_of(b)))
            } else {
                float_result(real_of(a).spec_divided_by(real_of(b)))
            }
        },
        DyadicFn::Power => {
            if a is AplComplex {
                Err(AplError::ComplexUnsupported)
            } else if b is AplComplex {
                complex_result(R::spec_real_power_complex(real_of(a), b->AplComplex_0))
            } else if a is AplInteger && b is AplInteger {
                let (i, j) = (a->AplInteger_0, b->AplInteger_0);
                if i == 0 && j < 0 {
                    Err(AplError::ZeroToNegativePower)
                } else if j >= 0 && fits_i64(power_of(i as int, j as nat)) {
                    integer(power_of(i as int, j as nat))
                } else if j < 0 && i == 1 {
                    integer(1)
                } else if j < 0 && i == -1 {
                    integer(
                        if abs(j as int) % 2 == 0 {
                            1
                        } else {
                            -1
                        },
                    )
                } else {
                    float_result(real_of(a).spec_power(real_of(b)))
                }
            } else {
                let zero_base = match a {
                    Value::AplInteger(i) => i == 0,
                    _ => real_of(a).spec_is_zero(),
                };
                let negative_exponent = match b {
                    Value::AplInteger(j) => j < 0,
                    _ => real_of(b).spec_is_negative(),
                };
                if zero_base && negative_exponent {
                    Err(AplError::ZeroToNegativePower)
                } else {
                    float_result(real_of(a).spec_power(real_of(b)))
                }
            }
        },
        DyadicFn::Maximum | DyadicFn::Minimum => {
            if complex {
                Err(AplError::ComplexUnsupported)
            } else {
                let first_wins = if a is AplInteger && b is AplInteger {
                    if op == DyadicFn::Maximum {
                        a->AplInteger_0 > b->AplInteger_0
                    } else {
                        a->AplInteger_0 < b->AplInteger_0
                    }
                } else if op == DyadicFn::Maximum {
                    real_of(a).spec_greater_than(real_of(b))
                } else {
                    real_of(a).spec_less_than(real_of(b))
                };
                if first_wins {
                    Ok(Box::new(a))
                } else {
                    Ok(Box::new(b))
                }
            }
        },
    }
}

pub open spec fn scalar_dyadic_outcome<R: Real>(
    op: DyadicFn,
    a: Value<R>,
    b: Value<R>,
    r: Outcome<R>,
) -> bool {
    r == scalar_dyadic_result(op, a, b)
}

/// What a dyadic primitive gives: scalars combine directly; an array and a
/// scalar combine element by element; two arrays of equal depth and shape
/// combine element by element, else fail with a rank or a length error. An
/// element-by-element result fails with the error of the first element that fails.
pub open spec fn dyadic_outcome<R: Real>(op: DyadicFn, a: Value<R>, b: Value<R>, r: Outcome<R>) -> bool
    decreases a, b,
{
    match a {
        Value::AplArray(da, sa, xa) => match b {
            Value::AplArray(db, sb, xb) => {
                if da != db {
                    r == Err::<Box<Value<R>>, AplError>(AplError::Rank)
                } else if sa@ != sb@ {
                    r == Err::<Box<Value<R>>, AplError>(AplError::Length)
                } else {
                    ||| r matches Ok(v) && *v matches Value::AplArray(d2, s2, ys) && d2 == da
                        && s2@ == sa@ && ys.len() == xa.len() && forall|i: int|
                        0 <= i < xa.len() && i < xb.len() ==> dyadic_outcome(
                            op,
                            *xa@[i],
                            *xb@[i],
                            Ok(#[trigger] ys@[i]),
                        )
                    ||| r matches Err(e) && exists|k: int, ys: Seq<Box<Value<R>>>|
                        #![trigger xa@[k], ys.len()]
                        0 <= k < xa.len() && k < xb.len() && ys.len() == k && dyadic_outcome(
                            op,
                            *xa@[k],
                            *xb@[k],
                            Err(e),
                        ) && forall|j: int|
                            0 <= j < k ==> dyadic_outcome(op, *xa@[j], *xb@[j], Ok(#[trigger] ys[j]))
                }
            },
            _ => {
                ||| r matches Ok(v) && *v matches Value::AplArray(d2, s2, ys) && d2 == da && s2@
                    == sa@ && ys.len() == xa.len() && forall|i: int|
                    0 <= i < xa.len() ==> dyadic_outcome(op, *xa@[i], b, Ok(#[trigger] ys@[i]))
                ||| r matches Err(e) && exists|k: int, ys: Seq<Box<Value<R>>>|
                    #![trigger xa@[k], ys.len()]
                    0 <= k < xa.len() && ys.len() == k && dyadic_outcome(op, *xa@[k], b, Err(e))
                        && forall|j: int| 0 <= j < k ==> dyadic_outcome(op, *xa@[j], b, Ok(#[trigger] ys[j]))
            },
        },
        _ => match b {
            Value::AplArray(db, sb, xb) => {
                ||| r matches Ok(v) && *v matches Value::AplArray(d2, s2, ys) && d2 == db && s2@
                    == sb@ && ys.len() == xb.len() && forall|i: int|
                    0 <= i < xb.len() ==> dyadic_outcome(op, a, *xb@[i], Ok(#[trigger] ys@[i]))
                ||| r matches Err(e) && exists|k: int, ys: Seq<Box<Value<R>>>|
                    #![trigger xb@[k], ys.len()]
                    0 <= k < xb.len() && ys.len() == k && dyadic_outcome(op, a, *xb@[k], Err(e))
                        && forall|j: int| 0 <= j < k ==> dyadic_outcome(op, a, *xb@[j], Ok(#[trigger] ys[j]))
            },
            _ => scalar_dyadic_outcome(op, a, b, r),
        },
    }
}

/// What a monadic primitive gives on a scalar.
pub open spec fn scalar_monadic_result<R: Real>(op: MonadicFn, a: Value<R>) -> Outcome<R> {
    match op {
        MonadicFn::Conjugate => match a {
            Value::AplComplex(c) => complex_result(R::spec_complex_conjugate(c)),
            _ => Ok(Box::new(a)),
        },
        MonadicFn::Negate => match a {
            Value::AplInteger(i) => if i == i64::MIN {
                float_result(R::spec_from_integer(i).spec_negated())
            } else {
                integer(-i)
            },
            Value::AplFloat(f) => float_result(f.spec_negated()),
            _ => complex_result(R::spec_complex_negated(complex_of(a))),
        },
        MonadicFn::Reciprocal => scalar_dyadic_result(DyadicFn::Division, Value::AplInteger(1), a),
        MonadicFn::Sign => match a {
            Value::AplInteger(i) => integer(signum(i as int)),
            Value::AplFloat(f) => integer(
                if f.spec_is_negative() {
                    -1
                } else if f.spec_is_positive() {
                    1
                } else {
                    0
                },
            ),
            _ => scalar_dyadic_result(
                DyadicFn::Division,
                a,
                Value::AplFloat(R::spec_complex_absolute(complex_of(a))),
            ),
        },
        MonadicFn::Magnitude => match a {
            Value::AplInteger(i) => if i == i64::MIN {
                float_result(R::spec_from_integer(i).spec_absolute())
            } else {
                integer(abs(i as int))
            },
            Value::AplFloat(f) => float_result(f.spec_absolute()),
            _ => float_result(R::spec_complex_absolute(complex_of(a))),
        },
        MonadicFn::Ceiling => match a {
            Value::AplInteger(_) => Ok(Box::new(a)),
            Value::AplFloat(f) => integer(f.spec_ceiling().spec_to_integer() as int),
            _ => complex_result(
                Complex { re: complex_of(a).re.spec_ceiling(), im: complex_of(a).im.spec_ceiling() },
            ),
        },
        MonadicFn::Floor => match a {
            Value::AplInteger(_) => Ok(Box::new(a)),
            Value::AplFloat(f) => integer(f.spec_floor().spec_to_integer() as int),
            _ => complex_result(
                Complex { re: complex_of(a).re.spec_floor(), im: complex_of(a).im.spec_floor() },
            ),
        },
        MonadicFn::Exponential => match a {
            Value::AplComplex(c) => complex_result(R::spec_complex_exponential(c)),
            _ => float_result(real_of(a).spec_exponential()),
        },
    }
}

pub open spec fn scalar_monadic_outcome<R: Real>(op: MonadicFn, a: Value<R>, r: Outcome<R>) -> bool {
    r == scalar_monadic_result(op, a)
}

/// What a monadic primitive gives: on a scalar directly, on an array element by
/// element, failing with the error of the first element that fails.
pub open spec fn monadic_outcome<R: Real>(op: MonadicFn, a: Value<R>, r: Outcome<R>) -> bool
    decreases a,
{
    match a {
        Value::AplArray(d, sh, xs) => {
            ||| r matches Ok(v) && *v matches Value::AplArray(d2, s2, ys) && d2 == d && s2@ == sh@
                && ys.len() == xs.len() && forall|i: int|
                0 <= i < xs.len() ==> monadic_outcome(op, *xs@[i], Ok(#[trigger] ys@[i]))
            ||| r matches Err(e) && exists|k: int, ys: Seq<Box<Value<R>>>|
                #![trigger xs@[k], ys.len()]
                0 <= k < xs.len() && ys.len() == k && monadic_outcome(op, *xs@[k], Err(e))
                    && forall|j: int| 0 <= j < k ==> monadic_outcome(op, *xs@[j], Ok(#[trigger] ys[j]))
        },
        _ => scalar_monadic_outcome(op, a, r),
    }
}

} // verus!
