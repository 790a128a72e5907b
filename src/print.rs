use vstd::prelude::*;
use crate::tokenizer::{chars_of, string_of};
use crate::value::{Real, Value};

verus! {

/// The decimal digits of a natural number.
pub open spec fn digits_of(n: nat) -> Seq<char>
    decreases n,
{
    if n < 10 {
        seq![(n + 48) as char]
    } else {
        digits_of(n / 10).push(((n % 10) + 48) as char)
    }
}

/// An integer in decimal, with a leading minus when negative.
pub open spec fn decimal(i: int) -> Seq<char> {
    if i < 0 {
        seq!['-'] + digits_of((-i) as nat)
    } else {
        digits_of(i as nat)
    }
}

/// Texts joined with single spaces.
pub open spec fn joined(ts: Seq<Seq<char>>) -> Seq<char>
    decreases ts.len(),
{
    if ts.len() == 0 {
        Seq::empty()
    } else if ts.len() == 1 {
        ts[0]
    } else {
        joined(ts.drop_last()) + seq![' '] + ts.last()
    }
}

/// Every array in the value, at any depth, has depth 1.
pub open spec fn printable<R: Real>(v: Value<R>) -> bool
    decreases v,
{
    match v {
        Value::AplArray(depth, _, xs) => depth == 1 && forall|i: int|
            0 <= i < xs.len() ==> printable(*#[trigger] xs@[i]),
        _ => true,
    }
}

/// The text of a scalar: an integer in decimal, a float as the real
/// arithmetic writes it, a complex number as its two parts around `J`.
pub open spec fn scalar_text<R: Real>(v: Value<R>) -> Seq<char> {
    match v {
        Value::AplInteger(i) => decimal(i as int),
        Value::AplFloat(f) => f.spec_decimal_text()@,
        Value::AplComplex(c) => c.re.spec_decimal_text()@ + seq!['J'] + c.im.spec_decimal_text()@,
        _ => Seq::empty(),
    }
}

/// The texts of the elements of a flat array.
pub open spec fn element_texts<R: Real>(xs: Seq<Box<Value<R>>>) -> Seq<Seq<char>> {
    Seq::new(xs.len() as nat, |i: int| scalar_text(*xs[i]))
}

/// The text of a scalar, or of an array of scalars: the elements' texts joined
/// with spaces. An array that holds arrays has no text here.
pub open spec fn shown<R: Real>(v: Value<R>) -> Option<Seq<char>> {
    match v {
        Value::AplArray(_, _, xs) => if forall|i: int|
            0 <= i < xs.len() ==> !((*#[trigger] xs@[i]) is AplArray) {
            Some(joined(element_texts(xs@)))
        } else {
            None
        },
        _ => Some(scalar_text(v)),
    }
}

/// The decimal digits of a natural number below 2^64.
fn digits_text(n: u64) -> (r: Vec<char>)
    ensures
        r@ == digits_of(n as nat),
    decreases n,
{
    if n < 10 {
        let d = ((n as u32) + 48) as u8 as char;
        let r = vec![d];
        proof {
            assert(r@ =~= seq![(n + 48) as char]);
        }
        r
    } else {
        let mut r = digits_text(n / 10);
        let d = (((n % 10) as u32) + 48) as u8 as char;
        r.push(d);
        r
    }
}

/// An integer in decimal.
fn integer_decimal(i: i64) -> (r: Vec<char>)
    ensures
        r@ == decimal(i as int),
{
    if i < 0 {
        let magnitude: u64 = (-(i as i128)) as u64;
        let digits = digits_text(magnitude);
        let mut r = vec!['-'];
        let mut k: usize = 0;
        while k < digits.len()
            invariant
                k <= digits.len(),
                r@ == seq!['-'] + digits@.subrange(0, k as int),
            decreases digits.len() - k,
        {
            r.push(digits[k]);
            k = k + 1;
            proof {
                assert(r@ =~= seq!['-'] + digits@.subrange(0, k as int));
            }
        }
        proof {
            assert(digits@.subrange(0, digits@.len() as int) =~= digits@);
        }
        r
    } else {
        digits_text(i as u64)
    }
}

fn append(out: &mut Vec<char>, more: &Vec<char>)
    ensures
        final(out)@ == old(out)@ + more@,
{
    let mut k: usize = 0;
    let ghost start = out@;
    while k < more.len()
        invariant
            k <= more.len(),
            out@ == start + more@.subrange(0, k as int),
        decreases more.len() - k,
    {
        out.push(more[k]);
        k = k + 1;
        proof {
            assert(out@ =~= start + more@.subrange(0, k as int));
        }
    }
    proof {
        assert(more@.subrange(0, more@.len() as int) =~= more@);
    }
}

/// The text of a value, as characters.
fn value_text<R: Real>(v: &Value<R>) -> (r: Vec<char>)
    requires
        printable(*v),
    ensures
        shown(*v) matches Some(t) ==> r@ == t,
    decreases *v,
{
    match v {
        Value::AplInteger(i) => integer_decimal(*i),
        Value::AplFloat(f) => chars_of(f.decimal_text().as_str()),
        Value::AplComplex(c) => {
            let mut r = chars_of(c.re.decimal_text().as_str());
            r.push('J');
            append(&mut r, &chars_of(c.im.decimal_text().as_str()));
            r
        },
        Value::AplArray(_, _, contents) => {
            let ghost texts = element_texts(contents@);
            let mut r: Vec<char> = Vec::new();
            let mut k: usize = 0;
            while k < contents.len()
                invariant
                    k <= contents.len(),
                    printable(*v),
                    *v == Value::AplArray(v->AplArray_0, v->AplArray_1, *contents),
                    texts == element_texts(contents@),
                    shown(*v) is Some ==> {
                        &&& forall|i: int| 0 <= i < contents.len() ==> !((*#[trigger] contents@[i]) is AplArray)
                        &&& shown(*v)->Some_0 == joined(texts)
                        &&& r@ == joined(texts.subrange(0, k as int))
                    },
                decreases contents.len() - k,
            {
                assert(printable(*contents@[k as int]));
                let item = value_text(&contents[k]);
                proof {
                    if shown(*v) is Some {
                        assert(!((*contents@[k as int]) is AplArray));
                        let sub = texts.subrange(0, k + 1);
                        assert(sub.drop_last() =~= texts.subrange(0, k as int));
                        assert(sub.last() == texts[k as int]);
                    }
                }
                if k > 0 {
                    r.push(' ');
                }
                append(&mut r, &item);
                k = k + 1;
                proof {
                    if shown(*v) is Some && k == 1 {
                        assert(texts.subrange(0, 1) =~= seq![texts[0]]);
                    }
                }
            }
            proof {
                assert(texts.subrange(0, contents.len() as int) =~= texts);
            }
            r
        },
    }
}

/// Text forms of a value.
pub trait Printable {
    /// Whether the value can be shown.
    spec fn can_print(&self) -> bool;

    /// The value as text: an integer in decimal, a float in decimal notation, a
    /// complex number as its parts around `J`, an array as its elements joined
    /// with spaces.
    fn to_string(&self) -> String
        requires
            self.can_print(),
    ;

    /// The text with the name of the value's type around it.
    fn to_typed_string(&self) -> String
        requires
            self.can_print(),
    ;
}

impl<R: Real> Printable for Value<R> {
    open spec fn can_print(&self) -> bool {
        printable(*self)
    }

    fn to_string(&self) -> (r: String)
        ensures
            shown(*self) matches Some(t) ==> r@ == t,
    {
        string_of(&value_text(self))
    }

    fn to_typed_string(&self) -> (r: String)
        ensures
            shown(*self) matches Some(t) ==> r@ == (match *self {
                Value::AplFloat(_) => seq!['F', 'L', 'O', 'A', 'T', '('],
                Value::AplInteger(_) => seq!['I', 'N', 'T', 'E', 'G', 'E', 'R', '('],
                Value::AplArray(..) => seq!['A', 'R', 'R', 'A', 'Y', '('],
                Value::AplComplex(_) => seq!['C', 'O', 'M', 'P', 'L', 'E', 'X', '('],
            }) + t + seq![')'],
    {
        let mut r: Vec<char> = match self {
            Value::AplFloat(_) => vec!['F', 'L', 'O', 'A', 'T', '('],
            Value::AplInteger(_) => vec!['I', 'N', 'T', 'E', 'G', 'E', 'R', '('],
            Value::AplArray(..) => vec!['A', 'R', 'R', 'A', 'Y', '('],
            Value::AplComplex(_) => vec!['C', 'O', 'M', 'P', 'L', 'E', 'X', '('],
        };
        append(&mut r, &value_text(self));
        r.push(')');
        string_of(&r)
    }
}

} // verus!
