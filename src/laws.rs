use vstd::prelude::*;
use crate::nodes::MonadicFn;
use crate::value::{monadic_outcome, Outcome, Real, Value};

verus! {

/// The value holds no complex number, at any depth.
pub open spec fn has_no_complex<R>(v: Value<R>) -> bool
    decreases v,
{
    match v {
        Value::AplComplex(_) => false,
        Value::AplArray(_, _, xs) => forall|i: int|
            0 <= i < xs.len() ==> has_no_complex(*#[trigger] xs@[i]),
        _ => true,
    }
}

/// Two values are equal scalars, or arrays of the same depth and shape whose
/// elements are alike in order.
pub open spec fn alike<R>(a: Value<R>, b: Value<R>) -> bool
    decreases a,
{
    match a {
        Value::AplArray(da, sa, xa) => match b {
            Value::AplArray(db, sb, xb) => da == db && sa@ == sb@ && xa.len() == xb.len() && forall|
                i: int,
            |
                0 <= i < xa.len() ==> alike(*#[trigger] xa@[i], *xb@[i]),
            _ => false,
        },
        _ => a == b,
    }
}

/// Conjugate is the identity on every value without complex numbers: it succeeds
/// and gives back a value alike to its argument.
pub proof fn lemma_conjugate_identity<R: Real>(v: Value<R>, r: Outcome<R>)
    requires
        has_no_complex(v),
        monadic_outcome(MonadicFn::Conjugate, v, r),
    ensures
        r matches Ok(w) && alike(v, *w),
    decreases v,
{
    match v {
        Value::AplArray(d, sh, xs) => {
            if r is Err {
                let e = r->Err_0;
                let (k, ys) = choose|k: int, ys: Seq<Box<Value<R>>>|
                    #![trigger xs@[k], ys.len()]
                    0 <= k < xs.len() && ys.len() == k && monadic_outcome(
                        MonadicFn::Conjugate,
                        *xs@[k],
                        Err(e),
                    ) && forall|j: int|
                        0 <= j < k ==> monadic_outcome(
                            MonadicFn::Conjugate,
                            *xs@[j],
                            Ok(#[trigger] ys[j]),
                        );
                lemma_conjugate_identity(*xs@[k], Err(e));
            } else {
                let w = r->Ok_0;
                match *w {
                    Value::AplArray(d2, s2, ys) => {
                        assert forall|i: int| 0 <= i < xs.len() implies alike(
                            *#[trigger] xs@[i],
                            *ys@[i],
                        ) by {
                            lemma_conjugate_identity(*xs@[i], Ok(ys@[i]));
                        }
                    },
                    _ => {},
                }
            }
        },
        _ => {},
    }
}

/// Conjugate applied twice to an integer or a float gives back the same value.
pub proof fn lemma_conjugate_twice<R: Real>(v: Value<R>, once: Outcome<R>, twice: Outcome<R>)
    requires
        v is AplInteger || v is AplFloat,
        monadic_outcome(MonadicFn::Conjugate, v, once),
        once is Ok,
        monadic_outcome(MonadicFn::Conjugate, *once->Ok_0, twice),
    ensures
        twice == Ok::<Box<Value<R>>, crate::error::AplError>(Box::new(v)),
{
}

/// Ceiling and floor leave an integer as it is.
pub proof fn lemma_ceiling_floor_keep_integers<R: Real>(i: i64, r: Outcome<R>, s: Outcome<R>)
    requires
        monadic_outcome(MonadicFn::Ceiling, Value::<R>::AplInteger(i), r),
        monadic_outcome(MonadicFn::Floor, Value::<R>::AplInteger(i), s),
    ensures
        r == Ok::<Box<Value<R>>, crate::error::AplError>(Box::new(Value::AplInteger(i))),
        s == Ok::<Box<Value<R>>, crate::error::AplError>(Box::new(Value::AplInteger(i))),
{
}

} // verus!
