use vstd::prelude::*;
use crate::error::AplError;
use crate::lexspec::{is_digit, TokenView};
use crate::nodes::{DyadicFn, MonadicFn, Node, Tree};
use crate::ops::{dyadic, monadic};
use crate::parser::{parse_statement, Parser};
use crate::tokenizer::Token;
use crate::value::{
    complex_result, dyadic_outcome, fits_i64, float_result, integer, monadic_outcome, Complex,
    Outcome, Real, Value,
};

verus! {

/// The value of a string of decimal digits.
pub open spec fn digits_value(t: Seq<char>) -> int
    decreases t.len(),
{
    if t.len() == 0 {
        0
    } else {
        digits_value(t.drop_last()) * 10 + (t.last() as u32 - 48)
    }
}

pub open spec fn all_digits(t: Seq<char>) -> bool {
    forall|i: int| 0 <= i < t.len() ==> is_digit(#[trigger] t[i])
}

/// A text without its leading high minus, and whether it had one.
pub open spec fn unsigned_part(t: Seq<char>) -> (Seq<char>, bool) {
    if t.len() > 0 && t[0] == '¯' {
        (t.drop_first(), true)
    } else {
        (t, false)
    }
}

/// The first position of `c` in `t` at or after `i`; the length if there is none.
pub open spec fn index_from(t: Seq<char>, c: char, i: int) -> int
    decreases t.len() - i,
{
    if i < 0 || i >= t.len() {
        t.len() as int
    } else if t[i] == c {
        i
    } else {
        index_from(t, c, i + 1)
    }
}

/// A real component: the real arithmetic's reading of the digits, negated
/// after a high minus.
pub open spec fn signed_real<R: Real>(text: Seq<char>) -> Option<R> {
    let (d, negative) = unsigned_part(text);
    match R::spec_from_decimal::<Seq<char>>(d) {
        Some(x) => Some(
            if negative {
                x.spec_negated()
            } else {
                x
            },
        ),
        None => None,
    }
}

/// What a numeric literal evaluates to: with `J` a complex number of the parts
/// before and after the first `J`; with a period a float; else an integer,
/// exact where it fits in 64 bits and otherwise read as a float. A real part
/// that the real arithmetic cannot read is an invalid number.
pub open spec fn number_result<R: Real>(t: Seq<char>) -> Outcome<R> {
    if t.contains('J') {
        let k = index_from(t, 'J', 0);
        match (signed_real::<R>(t.subrange(0, k)), signed_real::<R>(t.subrange(k + 1, t.len() as int))) {
            (Some(re), Some(im)) => complex_result(Complex { re, im }),
            _ => Err(AplError::InvalidNumber),
        }
    } else if t.contains('.') {
        match signed_real::<R>(t) {
            Some(x) => float_result(x),
            None => Err(AplError::InvalidNumber),
        }
    } else {
        let (d, negative) = unsigned_part(t);
        if d.len() > 0 && all_digits(d) {
            if fits_i64(digits_value(d)) {
                integer(
                    if negative {
                        -digits_value(d)
                    } else {
                        digits_value(d)
                    },
                )
            } else {
                match signed_real::<R>(t) {
                    Some(x) => float_result(x),
                    None => Err(AplError::InvalidNumber),
                }
            }
        } else {
            Err(AplError::InvalidNumber)
        }
    }
}

pub open spec fn number_outcome<R: Real>(t: Seq<char>, r: Outcome<R>) -> bool {
    r == number_result::<R>(t)
}

/// What a run of numeric literals evaluates to: one literal is a scalar; several
/// form a flat array of depth 1, and fail with the first literal that fails.
pub open spec fn array_outcome<R: Real>(texts: Seq<Seq<char>>, r: Outcome<R>) -> bool {
    if texts.len() == 1 {
        number_outcome(texts[0], r)
    } else {
        ||| r matches Ok(v) && *v matches Value::AplArray(d, s, ys) && d == 1 && s@ == seq![
            texts.len() as usize,
        ] && ys.len() == texts.len() && forall|i: int|
            0 <= i < texts.len() ==> number_outcome(texts[i], Ok(#[trigger] ys@[i]))
        ||| r matches Err(e) && exists|k: int, ys: Seq<Box<Value<R>>>|
            #![trigger texts[k], ys.len()]
            0 <= k < texts.len() && ys.len() == k && number_outcome::<R>(texts[k], Err(e)) && forall|j: int|
                0 <= j < k ==> number_outcome(texts[j], Ok(#[trigger] ys[j]))
    }
}

/// Holds of every value: names an intermediate value in the quantifiers below.
pub open spec fn intermediate<R>(v: Box<Value<R>>) -> bool {
    true
}

/// What evaluating an expression tree gives: the right operand is evaluated
/// after the left one, and the first error stops the evaluation.
pub open spec fn tree_outcome<R: Real>(t: Tree, r: Outcome<R>) -> bool
    decreases t,
{
    match t {
        Tree::Dyadic(f, _, left, right) => {
            (exists|lv: Box<Value<R>>, rv: Box<Value<R>>|
                #![trigger intermediate(lv), intermediate(rv)]
                tree_outcome(*left, Ok(lv)) && tree_outcome(*right, Ok(rv)) && dyadic_outcome(
                    f,
                    *lv,
                    *rv,
                    r,
                )) || (r is Err && tree_outcome::<R>(*left, Err(r->Err_0))) || (r is Err && (exists|
                lv: Box<Value<R>>,
            |
                #[trigger] intermediate(lv) && tree_outcome(*left, Ok(lv)) && tree_outcome::<R>(
                    *right,
                    Err(r->Err_0),
                )))
        },
        Tree::Monadic(f, _, operand) => {
            (exists|v: Box<Value<R>>|
                #[trigger] intermediate(v) && tree_outcome(*operand, Ok(v)) && monadic_outcome(f, *v, r)) || (
            r is Err && tree_outcome::<R>(*operand, Err(r->Err_0)))
        },
        Tree::Array(texts) => array_outcome(texts, r),
        Tree::Variable(_) | Tree::Zilde(_) => r == Err::<Box<Value<R>>, AplError>(
            AplError::NotImplemented,
        ),
    }
}

/// A text without its leading high minus, and whether it had one.
fn get_string_and_sign(token_string: &Vec<char>) -> (r: (Vec<char>, bool))
    ensures
        (r.0@, r.1) == unsigned_part(token_string@),
{
    if token_string.len() > 0 && token_string[0] == '¯' {
        let mut rest: Vec<char> = Vec::new();
        let mut i: usize = 1;
        while i < token_string.len()
            invariant
                1 <= i <= token_string.len(),
                rest@ == token_string@.subrange(1, i as int),
            decreases token_string.len() - i,
        {
            rest.push(token_string[i]);
            i = i + 1;
            proof {
                assert(rest@ =~= token_string@.subrange(1, i as int));
            }
        }
        proof {
            assert(rest@ =~= token_string@.drop_first());
        }
        (rest, true)
    } else {
        let mut copy: Vec<char> = Vec::new();
        let mut i: usize = 0;
        while i < token_string.len()
            invariant
                i <= token_string.len(),
                copy@ == token_string@.subrange(0, i as int),
            decreases token_string.len() - i,
        {
            copy.push(token_string[i]);
            i = i + 1;
            proof {
                assert(copy@ =~= token_string@.subrange(0, i as int));
            }
        }
        proof {
            assert(copy@ =~= token_string@);
        }
        (copy, false)
    }
}

fn position_of(t: &Vec<char>, c: char) -> (r: Option<usize>)
    ensures
        match r {
            Some(k) => k < t@.len() && t@[k as int] == c && k == index_from(t@, c, 0),
            None => !t@.contains(c),
        },
{
    let mut i: usize = 0;
    while i < t.len()
        invariant
            i <= t.len(),
            forall|k: int| 0 <= k < i ==> t@[k] != c,
            index_from(t@, c, 0) == index_from(t@, c, i as int),
        decreases t.len() - i,
    {
        if t[i] == c {
            return Some(i);
        }
        i = i + 1;
    }
    None
}

/// A digit run only grows as digits are appended.
proof fn lemma_digits_grow(t: Seq<char>, k: int)
    requires
        all_digits(t),
        0 <= k <= t.len(),
    ensures
        digits_value(t) >= digits_value(t.subrange(0, k)) >= 0,
    decreases t.len(),
{
    if t.len() > 0 {
        let init = t.drop_last();
        assert(all_digits(init)) by {
            assert forall|i: int| 0 <= i < init.len() implies is_digit(#[trigger] init[i]) by {
                assert(init[i] == t[i]);
            }
        }
        if k < t.len() {
            lemma_digits_grow(init, k);
            assert(init.subrange(0, k) =~= t.subrange(0, k));
        } else {
            assert(t.subrange(0, k) =~= t);
            lemma_digits_grow(init, init.len() as int);
            assert(init.subrange(0, init.len() as int) =~= init);
        }
        assert(is_digit(t.last()));
    } else {
        assert(t.subrange(0, k) =~= t);
    }
}

/// The value of a run of digits, where it fits.
fn digits_to_integer(d: &Vec<char>) -> (r: Option<i64>)
    requires
        all_digits(d@),
    ensures
        r == if fits_i64(digits_value(d@)) {
            Some(digits_value(d@) as i64)
        } else {
            None::<i64>
        },
{
    let mut acc: i64 = 0;
    let mut i: usize = 0;
    while i < d.len()
        invariant
            i <= d.len(),
            all_digits(d@),
            acc >= 0,
            acc as int == digits_value(d@.subrange(0, i as int)),
        decreases d.len() - i,
    {
        let ghost prefix = d@.subrange(0, i as int);
        let ghost next = d@.subrange(0, i + 1);
        proof {
            assert(next.drop_last() =~= prefix);
            assert(is_digit(d@[i as int]));
        }
        let digit = (d[i] as u32 - 48) as i64;
        if acc > (0x7fff_ffff_ffff_ffff - digit) / 10 {
            proof {
                lemma_digits_grow(d@, i + 1);
                assert(digits_value(next) == acc * 10 + digit);
                assert(acc * 10 + digit > 0x7fff_ffff_ffff_ffff) by (nonlinear_arith)
                    requires
                        acc > (0x7fff_ffff_ffff_ffff - digit) / 10,
                        0 <= digit <= 9,
                ;
            }
            return None;
        }
        assert(acc * 10 + digit <= 0x7fff_ffff_ffff_ffff) by (nonlinear_arith)
            requires
                acc <= (0x7fff_ffff_ffff_ffff - digit) / 10,
                0 <= digit <= 9,
                acc >= 0,
        ;
        acc = acc * 10 + digit;
        i = i + 1;
    }
    proof {
        assert(d@.subrange(0, i as int) =~= d@);
    }
    Some(acc)
}

fn all_digits_exec(d: &Vec<char>) -> (r: bool)
    ensures
        r == all_digits(d@),
{
    let mut i: usize = 0;
    while i < d.len()
        invariant
            i <= d.len(),
            forall|k: int| 0 <= k < i ==> is_digit(d@[k]),
        decreases d.len() - i,
    {
        if !('0' <= d[i] && d[i] <= '9') {
            return false;
        }
        i = i + 1;
    }
    true
}

/// Copies the characters from `from` up to `to`.
fn copy_range(t: &Vec<char>, from: usize, to: usize) -> (r: Vec<char>)
    requires
        from <= to <= t.len(),
    ensures
        r@ == t@.subrange(from as int, to as int),
{
    let mut r: Vec<char> = Vec::new();
    let mut i = from;
    while i < to
        invariant
            from <= i <= to <= t.len(),
            r@ == t@.subrange(from as int, i as int),
        decreases to - i,
    {
        r.push(t[i]);
        i = i + 1;
        proof {
            assert(r@ =~= t@.subrange(from as int, i as int));
        }
    }
    r
}

/// A real component of a numeric literal.
fn signed_real_of<R: Real>(text: &Vec<char>) -> (r: Option<R>)
    ensures
        r == signed_real::<R>(text@),
{
    let (digits, is_negative) = get_string_and_sign(text);
    match R::from_decimal(&digits) {
        Some(x) => Some(
            if is_negative {
                x.negated()
            } else {
                x
            },
        ),
        None => None,
    }
}

/// A literal with a period.
fn eval_float<R: Real>(token_string: &Vec<char>) -> (r: Outcome<R>)
    ensures
        r == match signed_real::<R>(token_string@) {
            Some(x) => float_result(x),
            None => Err(AplError::InvalidNumber),
        },
{
    match signed_real_of(token_string) {
        Some(x) => Ok(Box::new(Value::AplFloat(x))),
        None => Err(AplError::InvalidNumber),
    }
}

/// A literal of two real components around `J`.
fn eval_complex<R: Real>(left: &Vec<char>, right: &Vec<char>) -> (r: Outcome<R>)
    ensures
        r == match (signed_real::<R>(left@), signed_real::<R>(right@)) {
            (Some(re), Some(im)) => complex_result(Complex { re, im }),
            _ => Err(AplError::InvalidNumber),
        },
{
    match (signed_real_of(left), signed_real_of(right)) {
        (Some(re), Some(im)) => Ok(Box::new(Value::AplComplex(Complex { re, im }))),
        _ => Err(AplError::InvalidNumber),
    }
}

/// A literal of digits: an integer where it fits, else a float.
fn eval_int<R: Real>(token_string: &Vec<char>) -> (r: Outcome<R>)
    requires
        !token_string@.contains('J'),
        !token_string@.contains('.'),
    ensures
        number_outcome(token_string@, r),
{
    let (digits, is_negative) = get_string_and_sign(token_string);
    if digits.len() == 0 || !all_digits_exec(&digits) {
        return Err(AplError::InvalidNumber);
    }
    proof {
        lemma_digits_grow(digits@, 0);
    }
    match digits_to_integer(&digits) {
        Some(i) => Ok(Box::new(Value::AplInteger(if is_negative { -i } else { i }))),
        None => eval_float(token_string),
    }
}

/// Evaluates one numeric literal.
fn eval_number<R: Real>(token_string: &Vec<char>) -> (r: Outcome<R>)
    ensures
        number_outcome(token_string@, r),
        r matches Ok(v) ==> v.wf(),
{
    match position_of(token_string, 'J') {
        Some(pos) => {
            assert(pos < token_string.len());
            let left = copy_range(token_string, 0, pos);
            let right = copy_range(token_string, pos + 1, token_string.len());
            proof {
                assert(token_string@.contains('J'));
            }
            eval_complex(&left, &right)
        },
        None => match position_of(token_string, '.') {
            Some(_) => eval_float(token_string),
            None => eval_int(token_string),
        },
    }
}

/// The text of a token.
fn token_text(token: &Token) -> (r: Vec<char>)
    ensures
        r@ == token.text(),
{
    match token {
        Token::Number(d) => d.chars(),
        Token::Newline(d) => d.chars(),
        Token::String(d) => d.chars(),
        Token::Primitive(d) => d.chars(),
        Token::Variable(d) => d.chars(),
        Token::EndOfFile => Vec::new(),
    }
}

/// Evaluates a run of numeric literals.
fn eval_array<R: Real>(tokens: &Vec<Box<Token>>) -> (r: Outcome<R>)
    ensures
        array_outcome(tokens@.map_values(|t: Box<Token>| t.text()), r),
        r matches Ok(v) ==> v.wf(),
{
    let ghost texts = tokens@.map_values(|t: Box<Token>| t.text());
    if tokens.len() == 1 {
        return eval_number(&token_text(&tokens[0]));
    }
    let mut array_contents: Vec<Box<Value<R>>> = Vec::new();
    let mut i: usize = 0;
    while i < tokens.len()
        invariant
            i <= tokens.len(),
            texts == tokens@.map_values(|t: Box<Token>| t.text()),
            array_contents.len() == i,
            forall|k: int|
                0 <= k < i ==> number_outcome(texts[k], Ok(#[trigger] array_contents@[k]))
                    && array_contents@[k].wf(),
        decreases tokens.len() - i,
    {
        match eval_number(&token_text(&tokens[i])) {
            Ok(v) => {
                array_contents.push(v);
            },
            Err(e) => {
                proof {
                    let k = i as int;
                    let ys = array_contents@;
                    // The witness: literal `k`, and the values of the literals before it.
                    assert(ys.len() == k && number_outcome::<R>(texts[k], Err(e)));
                }
                return Err(e);
            },
        }
        i = i + 1;
    }
    let n = array_contents.len();
    let shape = vec![n];
    proof {
        assert(shape@ =~= seq![texts.len() as usize]);
    }
    Ok(Box::new(Value::AplArray(1, shape, array_contents)))
}

/// Evaluates an expression tree.
pub fn eval_node<R: Real>(node: &Node) -> (r: Outcome<R>)
    ensures
        tree_outcome(node.tree(), r),
        r matches Ok(v) ==> v.wf(),
    decreases node.size(),
{
    match node {
        Node::Array(tokens) => eval_array(tokens),
        Node::Variable(_) | Node::Zilde(_) => Err(AplError::NotImplemented),
        Node::Addition(_, left, right) => eval_dyadic(DyadicFn::Addition, left, right),
        Node::Subtraction(_, left, right) => eval_dyadic(DyadicFn::Subtraction, left, right),
        Node::Multiplication(_, left, right) => eval_dyadic(DyadicFn::Multiplication, left, right),
        Node::Division(_, left, right) => eval_dyadic(DyadicFn::Division, left, right),
        Node::Maximum(_, left, right) => eval_dyadic(DyadicFn::Maximum, left, right),
        Node::Minimum(_, left, right) => eval_dyadic(DyadicFn::Minimum, left, right),
        Node::Power(_, left, right) => eval_dyadic(DyadicFn::Power, left, right),
        Node::Conjugate(_, operand) => eval_monadic(MonadicFn::Conjugate, operand),
        Node::Negate(_, operand) => eval_monadic(MonadicFn::Negate, operand),
        Node::Reciprocal(_, operand) => eval_monadic(MonadicFn::Reciprocal, operand),
        Node::Sign(_, operand) => eval_monadic(MonadicFn::Sign, operand),
        Node::Magnitude(_, operand) => eval_monadic(MonadicFn::Magnitude, operand),
        Node::Ceiling(_, operand) => eval_monadic(MonadicFn::Ceiling, operand),
        Node::Floor(_, operand) => eval_monadic(MonadicFn::Floor, operand),
        Node::Exponential(_, operand) => eval_monadic(MonadicFn::Exponential, operand),
    }
}

/// Evaluates two operand trees, left then right, and applies a dyadic primitive.
pub fn eval_dyadic<R: Real>(func: DyadicFn, left: &Node, right: &Node) -> (r: Outcome<R>)
    ensures
        forall|op: TokenView| #[trigger] tree_outcome(Tree::Dyadic(func, op, Box::new(left.tree()), Box::new(right.tree())), r),
        r matches Ok(v) ==> v.wf(),
    decreases left.size() + right.size() + 1,
{
    let left_value = match eval_node(left) {
        Ok(v) => v,
        Err(e) => {
            return Err(e);
        },
    };
    let right_value = match eval_node(right) {
        Ok(v) => v,
        Err(e) => {
            proof {
                assert(intermediate(left_value));
            }
            return Err(e);
        },
    };
    let r = dyadic(func, &left_value, &right_value);
    proof {
        assert(intermediate(left_value) && intermediate(right_value));
    }
    r
}

/// Evaluates an operand tree and applies a monadic primitive.
pub fn eval_monadic<R: Real>(func: MonadicFn, operand: &Node) -> (r: Outcome<R>)
    ensures
        forall|op: TokenView| #[trigger] tree_outcome(Tree::Monadic(func, op, Box::new(operand.tree())), r),
        r matches Ok(v) ==> v.wf(),
    decreases operand.size() + 1,
{
    let value = match eval_node(operand) {
        Ok(v) => v,
        Err(e) => {
            return Err(e);
        },
    };
    let r = monadic(func, &value);
    proof {
        assert(intermediate(value));
    }
    r
}

/// Evaluates both operands and adds them.
pub fn eval_addition<R: Real>(left: &Node, right: &Node) -> (r: Outcome<R>)
    ensures
        forall|op: TokenView| #[trigger] tree_outcome(Tree::Dyadic(DyadicFn::Addition, op, Box::new(left.tree()), Box::new(right.tree())), r),
        r matches Ok(v) ==> v.wf(),
{
    eval_dyadic(DyadicFn::Addition, left, right)
}

/// Evaluates both operands and subtracts the right one from the left one.
pub fn eval_subtraction<R: Real>(left: &Node, right: &Node) -> (r: Outcome<R>)
    ensures
        forall|op: TokenView| #[trigger] tree_outcome(Tree::Dyadic(DyadicFn::Subtraction, op, Box::new(left.tree()), Box::new(right.tree())), r),
        r matches Ok(v) ==> v.wf(),
{
    eval_dyadic(DyadicFn::Subtraction, left, right)
}

/// Evaluates both operands and multiplies them.
pub fn eval_multiplication<R: Real>(left: &Node, right: &Node) -> (r: Outcome<R>)
    ensures
        forall|op: TokenView| #[trigger] tree_outcome(Tree::Dyadic(DyadicFn::Multiplication, op, Box::new(left.tree()), Box::new(right.tree())), r),
        r matches Ok(v) ==> v.wf(),
{
    eval_dyadic(DyadicFn::Multiplication, left, right)
}

/// Evaluates both operands and divides the left one by the right one.
pub fn eval_division<R: Real>(left: &Node, right: &Node) -> (r: Outcome<R>)
    ensures
        forall|op: TokenView| #[trigger] tree_outcome(Tree::Dyadic(DyadicFn::Division, op, Box::new(left.tree()), Box::new(right.tree())), r),
        r matches Ok(v) ==> v.wf(),
{
    eval_dyadic(DyadicFn::Division, left, right)
}

/// Evaluates both operands and takes the larger.
pub fn eval_maximum<R: Real>(left: &Node, right: &Node) -> (r: Outcome<R>)
    ensures
        forall|op: TokenView| #[trigger] tree_outcome(Tree::Dyadic(DyadicFn::Maximum, op, Box::new(left.tree()), Box::new(right.tree())), r),
        r matches Ok(v) ==> v.wf(),
{
    eval_dyadic(DyadicFn::Maximum, left, right)
}

/// Evaluates both operands and takes the smaller.
pub fn eval_minimum<R: Real>(left: &Node, right: &Node) -> (r: Outcome<R>)
    ensures
        forall|op: TokenView| #[trigger] tree_outcome(Tree::Dyadic(DyadicFn::Minimum, op, Box::new(left.tree()), Box::new(right.tree())), r),
        r matches Ok(v) ==> v.wf(),
{
    eval_dyadic(DyadicFn::Minimum, left, right)
}

/// Evaluates both operands and raises the left one to the right one.
pub fn eval_power<R: Real>(left: &Node, right: &Node) -> (r: Outcome<R>)
    ensures
        forall|op: TokenView| #[trigger] tree_outcome(Tree::Dyadic(DyadicFn::Power, op, Box::new(left.tree()), Box::new(right.tree())), r),
        r matches Ok(v) ==> v.wf(),
{
    eval_dyadic(DyadicFn::Power, left, right)
}

/// Evaluates the operand and takes its conjugate.
pub fn eval_conjugate<R: Real>(left: &Node) -> (r: Outcome<R>)
    ensures
        forall|op: TokenView| #[trigger] tree_outcome(Tree::Monadic(MonadicFn::Conjugate, op, Box::new(left.tree())), r),
        r matches Ok(v) ==> v.wf(),
{
    eval_monadic(MonadicFn::Conjugate, left)
}

/// Evaluates the operand and negates it.
pub fn eval_negate<R: Real>(left: &Node) -> (r: Outcome<R>)
    ensures
        forall|op: TokenView| #[trigger] tree_outcome(Tree::Monadic(MonadicFn::Negate, op, Box::new(left.tree())), r),
        r matches Ok(v) ==> v.wf(),
{
    eval_monadic(MonadicFn::Negate, left)
}

/// Evaluates the operand and takes its reciprocal.
pub fn eval_reciprocal<R: Real>(left: &Node) -> (r: Outcome<R>)
    ensures
        forall|op: TokenView| #[trigger] tree_outcome(Tree::Monadic(MonadicFn::Reciprocal, op, Box::new(left.tree())), r),
        r matches Ok(v) ==> v.wf(),
{
    eval_monadic(MonadicFn::Reciprocal, left)
}

/// Evaluates the operand and takes its sign.
pub fn eval_sign<R: Real>(left: &Node) -> (r: Outcome<R>)
    ensures
        forall|op: TokenView| #[trigger] tree_outcome(Tree::Monadic(MonadicFn::Sign, op, Box::new(left.tree())), r),
        r matches Ok(v) ==> v.wf(),
{
    eval_monadic(MonadicFn::Sign, left)
}

/// Evaluates the operand and takes its magnitude.
pub fn eval_magnitude<R: Real>(left: &Node) -> (r: Outcome<R>)
    ensures
        forall|op: TokenView| #[trigger] tree_outcome(Tree::Monadic(MonadicFn::Magnitude, op, Box::new(left.tree())), r),
        r matches Ok(v) ==> v.wf(),
{
    eval_monadic(MonadicFn::Magnitude, left)
}

/// Evaluates the operand and rounds it up.
pub fn eval_ceiling<R: Real>(left: &Node) -> (r: Outcome<R>)
    ensures
        forall|op: TokenView| #[trigger] tree_outcome(Tree::Monadic(MonadicFn::Ceiling, op, Box::new(left.tree())), r),
        r matches Ok(v) ==> v.wf(),
{
    eval_monadic(MonadicFn::Ceiling, left)
}

/// Evaluates the operand and rounds it down.
pub fn eval_floor<R: Real>(left: &Node) -> (r: Outcome<R>)
    ensures
        forall|op: TokenView| #[trigger] tree_outcome(Tree::Monadic(MonadicFn::Floor, op, Box::new(left.tree())), r),
        r matches Ok(v) ==> v.wf(),
{
    eval_monadic(MonadicFn::Floor, left)
}

/// Evaluates the operand and raises e to it.
pub fn eval_exponential<R: Real>(left: &Node) -> (r: Outcome<R>)
    ensures
        forall|op: TokenView| #[trigger] tree_outcome(Tree::Monadic(MonadicFn::Exponential, op, Box::new(left.tree())), r),
        r matches Ok(v) ==> v.wf(),
{
    eval_monadic(MonadicFn::Exponential, left)
}

/// An expression tree that can be evaluated.
pub trait EvalNode {
    fn eval<R: Real>(&self) -> Outcome<R>;
}

impl EvalNode for Node {
    fn eval<R: Real>(&self) -> (r: Outcome<R>)
        ensures
            tree_outcome(self.tree(), r),
    {
        eval_node(self)
    }
}

/// Evaluates one line of source text: parses one statement and evaluates it.
pub struct Evaluator {
    parser: Parser,
}

impl Evaluator {
    /// The source text.
    pub closed spec fn source(&self) -> Seq<char> {
        self.parser.source()
    }

    /// Nothing has been parsed yet.
    pub closed spec fn fresh(&self) -> bool {
        self.parser.fresh()
    }

    pub fn new(input_string: String) -> (r: Evaluator)
        ensures
            r.fresh(),
            r.source() == input_string@,
    {
        Evaluator { parser: Parser::new(input_string) }
    }

    /// Parses the statement and evaluates it; a parse error is returned as it is.
    pub fn eval<R: Real>(&mut self) -> (r: Outcome<R>)
        requires
            old(self).fresh(),
        ensures
            match parse_statement(old(self).source()) {
                Ok(t) => tree_outcome(t, r),
                Err(e) => r == Err::<Box<Value<R>>, AplError>(e),
            },
            r matches Ok(v) ==> v.wf(),
    {
        match self.parser.parse_next_statement() {
            Ok(node) => eval_node(&node),
            Err(msg) => Err(msg),
        }
    }
}

} // verus!
