use vstd::prelude::*;
use crate::error::AplError;
use crate::lexspec::{TokenKind, TokenView};
use crate::parser::{apply_dyadic, apply_monadic, at_end, parse_base_spec, parsed_as, Parser};
use crate::tokenizer::{Token, TokenData};

verus! {

/// The two-operand primitives.
#[derive(Clone, Copy, Debug, PartialEq, Eq, Structural)]
pub enum DyadicFn {
    Addition,
    Subtraction,
    Multiplication,
    Division,
    Maximum,
    Minimum,
    Power,
}

/// The one-operand primitives.
#[derive(Clone, Copy, Debug, PartialEq, Eq, Structural)]
pub enum MonadicFn {
    Conjugate,
    Negate,
    Reciprocal,
    Sign,
    Magnitude,
    Ceiling,
    Floor,
    Exponential,
}

/// An expression tree as the specification sees it: each node with the kind
/// and text of the token it was built from.
pub enum Tree {
    Dyadic(DyadicFn, TokenView, Box<Tree>, Box<Tree>),
    Monadic(MonadicFn, TokenView, Box<Tree>),
    Variable(Seq<char>),
    Array(Seq<Seq<char>>),
    Zilde(TokenView),
}

/// The dyadic primitive that a glyph names, if any.
pub open spec fn dyadic_glyph(t: Seq<char>) -> Option<DyadicFn> {
    if t == seq!['+'] {
        Some(DyadicFn::Addition)
    } else if t == seq!['-'] || t == seq!['−'] {
        Some(DyadicFn::Subtraction)
    } else if t == seq!['×'] {
        Some(DyadicFn::Multiplication)
    } else if t == seq!['÷'] {
        Some(DyadicFn::Division)
    } else if t == seq!['⌈'] {
        Some(DyadicFn::Maximum)
    } else if t == seq!['⌊'] {
        Some(DyadicFn::Minimum)
    } else if t == seq!['⋆'] || t == seq!['*'] {
        Some(DyadicFn::Power)
    } else {
        None
    }
}

/// The monadic primitive that a glyph names, if any.
pub open spec fn monadic_glyph(t: Seq<char>) -> Option<MonadicFn> {
    if t == seq!['+'] {
        Some(MonadicFn::Conjugate)
    } else if t == seq!['-'] || t == seq!['−'] {
        Some(MonadicFn::Negate)
    } else if t == seq!['×'] {
        Some(MonadicFn::Sign)
    } else if t == seq!['÷'] {
        Some(MonadicFn::Reciprocal)
    } else if t == seq!['|'] || t == seq!['∣'] {
        Some(MonadicFn::Magnitude)
    } else if t == seq!['⌈'] {
        Some(MonadicFn::Ceiling)
    } else if t == seq!['⌊'] {
        Some(MonadicFn::Floor)
    } else if t == seq!['⋆'] || t == seq!['*'] {
        Some(MonadicFn::Exponential)
    } else {
        None
    }
}

/// The character of a one-character text.
fn single_char(cs: &Vec<char>) -> (r: Option<char>)
    ensures
        r == if cs@.len() == 1 {
            Some(cs@[0])
        } else {
            None::<char>
        },
{
    if cs.len() == 1 {
        Some(cs[0])
    } else {
        None
    }
}

/// Looks a glyph up in the table of dyadic primitives.
pub fn dyadic_fn_of(glyph: &Vec<char>) -> (r: Option<DyadicFn>)
    ensures
        r == dyadic_glyph(glyph@),
{
    match single_char(glyph) {
        Some(c) => {
            proof {
                assert(glyph@ =~= seq![c]);
            }
            if c == '+' {
                Some(DyadicFn::Addition)
            } else if c == '-' || c == '−' {
                Some(DyadicFn::Subtraction)
            } else if c == '×' {
                Some(DyadicFn::Multiplication)
            } else if c == '÷' {
                Some(DyadicFn::Division)
            } else if c == '⌈' {
                Some(DyadicFn::Maximum)
            } else if c == '⌊' {
                Some(DyadicFn::Minimum)
            } else if c == '⋆' || c == '*' {
                Some(DyadicFn::Power)
            } else {
                None
            }
        },
        None => {
            proof {
                assert(glyph@.len() != 1);
                assert(seq!['+'].len() == 1);
            }
            None
        },
    }
}

/// Looks a glyph up in the table of monadic primitives.
pub fn monadic_fn_of(glyph: &Vec<char>) -> (r: Option<MonadicFn>)
    ensures
        r == monadic_glyph(glyph@),
{
    match single_char(glyph) {
        Some(c) => {
            proof {
                assert(glyph@ =~= seq![c]);
            }
            if c == '+' {
                Some(MonadicFn::Conjugate)
            } else if c == '-' || c == '−' {
                Some(MonadicFn::Negate)
            } else if c == '×' {
                Some(MonadicFn::Sign)
            } else if c == '÷' {
                Some(MonadicFn::Reciprocal)
            } else if c == '|' || c == '∣' {
                Some(MonadicFn::Magnitude)
            } else if c == '⌈' {
                Some(MonadicFn::Ceiling)
            } else if c == '⌊' {
                Some(MonadicFn::Floor)
            } else if c == '⋆' || c == '*' {
                Some(MonadicFn::Exponential)
            } else {
                None
            }
        },
        None => {
            proof {
                assert(seq!['+'].len() == 1);
            }
            None
        },
    }
}

/// An expression tree. Each operator node keeps the token of its glyph.
#[derive(Debug)]
pub enum Node {
    Addition(Box<Token>, Box<Node>, Box<Node>),
    Subtraction(Box<Token>, Box<Node>, Box<Node>),
    Multiplication(Box<Token>, Box<Node>, Box<Node>),
    Division(Box<Token>, Box<Node>, Box<Node>),
    Maximum(Box<Token>, Box<Node>, Box<Node>),
    Minimum(Box<Token>, Box<Node>, Box<Node>),
    Power(Box<Token>, Box<Node>, Box<Node>),
    Conjugate(Box<Token>, Box<Node>),
    Negate(Box<Token>, Box<Node>),
    Reciprocal(Box<Token>, Box<Node>),
    Sign(Box<Token>, Box<Node>),
    Magnitude(Box<Token>, Box<Node>),
    Ceiling(Box<Token>, Box<Node>),
    Floor(Box<Token>, Box<Node>),
    Exponential(Box<Token>, Box<Node>),
    Variable(Box<Token>),
    Array(Vec<Box<Token>>),
    Zilde(Box<Token>),
}

impl Node {
    /// The number of operator and leaf nodes, counted twice: a measure that
    /// each operand is below.
    pub open spec fn size(&self) -> nat
        decreases self,
    {
        match self {
            Node::Addition(_, l, r) | Node::Subtraction(_, l, r) | Node::Multiplication(_, l, r)
            | Node::Division(_, l, r) | Node::Maximum(_, l, r) | Node::Minimum(_, l, r)
            | Node::Power(_, l, r) => l.size() + r.size() + 2,
            Node::Conjugate(_, x) | Node::Negate(_, x) | Node::Reciprocal(_, x) | Node::Sign(_, x)
            | Node::Magnitude(_, x) | Node::Ceiling(_, x) | Node::Floor(_, x) | Node::Exponential(
                _,
                x,
            ) => x.size() + 2,
            _ => 1,
        }
    }

    /// The shape of this tree.
    pub open spec fn tree(&self) -> Tree
        decreases self,
    {
        match self {
            Node::Addition(op, l, r) => Tree::Dyadic(
                DyadicFn::Addition,
                (op.kind(), op.text()),
                Box::new(l.tree()),
                Box::new(r.tree()),
            ),
            Node::Subtraction(op, l, r) => Tree::Dyadic(
                DyadicFn::Subtraction,
                (op.kind(), op.text()),
                Box::new(l.tree()),
                Box::new(r.tree()),
            ),
            Node::Multiplication(op, l, r) => Tree::Dyadic(
                DyadicFn::Multiplication,
                (op.kind(), op.text()),
                Box::new(l.tree()),
                Box::new(r.tree()),
            ),
            Node::Division(op, l, r) => Tree::Dyadic(
                DyadicFn::Division,
                (op.kind(), op.text()),
                Box::new(l.tree()),
                Box::new(r.tree()),
            ),
            Node::Maximum(op, l, r) => Tree::Dyadic(
                DyadicFn::Maximum,
                (op.kind(), op.text()),
                Box::new(l.tree()),
                Box::new(r.tree()),
            ),
            Node::Minimum(op, l, r) => Tree::Dyadic(
                DyadicFn::Minimum,
                (op.kind(), op.text()),
                Box::new(l.tree()),
                Box::new(r.tree()),
            ),
            Node::Power(op, l, r) => Tree::Dyadic(
                DyadicFn::Power,
                (op.kind(), op.text()),
                Box::new(l.tree()),
                Box::new(r.tree()),
            ),
            Node::Conjugate(op, x) => Tree::Monadic(MonadicFn::Conjugate, (op.kind(), op.text()), Box::new(x.tree())),
            Node::Negate(op, x) => Tree::Monadic(MonadicFn::Negate, (op.kind(), op.text()), Box::new(x.tree())),
            Node::Reciprocal(op, x) => Tree::Monadic(MonadicFn::Reciprocal, (op.kind(), op.text()), Box::new(x.tree())),
            Node::Sign(op, x) => Tree::Monadic(MonadicFn::Sign, (op.kind(), op.text()), Box::new(x.tree())),
            Node::Magnitude(op, x) => Tree::Monadic(MonadicFn::Magnitude, (op.kind(), op.text()), Box::new(x.tree())),
            Node::Ceiling(op, x) => Tree::Monadic(MonadicFn::Ceiling, (op.kind(), op.text()), Box::new(x.tree())),
            Node::Floor(op, x) => Tree::Monadic(MonadicFn::Floor, (op.kind(), op.text()), Box::new(x.tree())),
            Node::Exponential(op, x) => Tree::Monadic(
                MonadicFn::Exponential,
                (op.kind(), op.text()),
                Box::new(x.tree()),
            ),
            Node::Variable(t) => Tree::Variable(t.text()),
            Node::Array(ts) => Tree::Array(ts@.map_values(|t: Box<Token>| t.text())),
            Node::Zilde(t) => Tree::Zilde((t.kind(), t.text())),
        }
    }

    /// The node of a dyadic primitive.
    pub fn dyadic(f: DyadicFn, op: Box<Token>, left: Box<Node>, right: Box<Node>) -> (r: Node)
        ensures
            r.tree() == Tree::Dyadic(
                f,
                (op.kind(), op.text()),
                Box::new(left.tree()),
                Box::new(right.tree()),
            ),
    {
        match f {
            DyadicFn::Addition => Node::Addition(op, left, right),
            DyadicFn::Subtraction => Node::Subtraction(op, left, right),
            DyadicFn::Multiplication => Node::Multiplication(op, left, right),
            DyadicFn::Division => Node::Division(op, left, right),
            DyadicFn::Maximum => Node::Maximum(op, left, right),
            DyadicFn::Minimum => Node::Minimum(op, left, right),
            DyadicFn::Power => Node::Power(op, left, right),
        }
    }

    /// The node of a monadic primitive.
    pub fn monadic(f: MonadicFn, op: Box<Token>, operand: Box<Node>) -> (r: Node)
        ensures
            r.tree() == Tree::Monadic(f, (op.kind(), op.text()), Box::new(operand.tree())),
    {
        match f {
            MonadicFn::Conjugate => Node::Conjugate(op, operand),
            MonadicFn::Negate => Node::Negate(op, operand),
            MonadicFn::Reciprocal => Node::Reciprocal(op, operand),
            MonadicFn::Sign => Node::Sign(op, operand),
            MonadicFn::Magnitude => Node::Magnitude(op, operand),
            MonadicFn::Ceiling => Node::Ceiling(op, operand),
            MonadicFn::Floor => Node::Floor(op, operand),
            MonadicFn::Exponential => Node::Exponential(op, operand),
        }
    }
}

/// Relies on the derived `Debug` of `Node`: a text that shows the whole tree.
#[verifier::external_body]
pub fn node_to_string(node: &Node) -> String {
    format!("{:?}", node)
}

/// A primitive glyph that builds its node from the parser's position.
pub trait Parseable {
    /// The text of the glyph.
    spec fn glyph(&self) -> Seq<char>;

    /// Builds the monadic application of the glyph, which is the parser's current
    /// token, to everything after it; a glyph with no monadic meaning is parsed
    /// as a plain operand.
    fn monadic(&self, parser: &mut Parser) -> (r: Result<Box<Node>, AplError>)
        requires
            old(parser).wf(),
            old(parser).cursor().1 == (TokenKind::Primitive, self.glyph()),
        ensures
            final(parser).source() == old(parser).source(),
            parsed_as(
                match monadic_glyph(self.glyph()) {
                    Some(f) => apply_monadic(old(parser).source(), old(parser).cursor(), f),
                    None => parse_base_spec(old(parser).source(), old(parser).cursor()),
                },
                r,
                *final(parser),
            ),
    ;

    /// Builds the dyadic application of the glyph, which is the parser's current
    /// token, to `left` and to everything after the glyph.
    fn dyadic(&self, parser: &mut Parser, left: Box<Node>) -> (r: Result<Box<Node>, AplError>)
        requires
            old(parser).wf(),
            old(parser).cursor().1 == (TokenKind::Primitive, self.glyph()),
        ensures
            final(parser).source() == old(parser).source(),
            parsed_as(
                match dyadic_glyph(self.glyph()) {
                    Some(f) => apply_dyadic(
                        old(parser).source(),
                        old(parser).cursor(),
                        f,
                        left.tree(),
                    ),
                    None => Err(AplError::UnknownOperator),
                },
                r,
                *final(parser),
            ),
            dyadic_glyph(self.glyph()) is None ==> *final(parser) == *old(parser),
    ;
}

impl Parseable for TokenData {
    open spec fn glyph(&self) -> Seq<char> {
        self.string@
    }

    fn monadic(&self, parser: &mut Parser) -> (r: Result<Box<Node>, AplError>) {
        match monadic_fn_of(&self.chars()) {
            Some(f) => parser.create_monadic_result(f),
            None => parser.parse_base_expression(),
        }
    }

    fn dyadic(&self, parser: &mut Parser, left: Box<Node>) -> (r: Result<Box<Node>, AplError>) {
        match dyadic_fn_of(&self.chars()) {
            Some(f) => parser.create_dyadic_result(left, f),
            None => Err(AplError::UnknownOperator),
        }
    }
}

} // verus!
