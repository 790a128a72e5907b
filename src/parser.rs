use vstd::prelude::*;
use crate::error::AplError;
use crate::lexspec::{lex, lemma_lex_progress, Lexed, TokenKind, TokenView};
use crate::nodes::{
    dyadic_fn_of, dyadic_glyph, monadic_fn_of, monadic_glyph, DyadicFn, MonadicFn, Node, Tree,
};
use crate::tokenizer::{Token, Tokenizer};

verus! {

/// Where the parser stands: the position after the current token, and that token.
pub type Cursor = (int, TokenView);

/// A parsed tree and the cursor after it, or the first error.
pub type Parsed = Result<(Tree, Cursor), AplError>;

/// The cursor after reading one more token.
pub open spec fn step(s: Seq<char>, c: Cursor) -> Result<Cursor, AplError> {
    if 0 <= c.0 <= s.len() {
        match lex(s, c.0) {
            Lexed::Token(kind, text, e) => Ok((e, (kind, text))),
            Lexed::Failure(err) => Err(err),
        }
    } else {
        Err(AplError::EndOfInput)
    }
}

/// What is left to read: the text after the cursor, and the current token.
pub open spec fn measure(s: Seq<char>, c: Cursor) -> int {
    s.len() - c.0 + if c.1.0 == TokenKind::EndOfFile {
        0int
    } else {
        1int
    }
}

pub open spec fn at_end(c: Cursor) -> bool {
    c.1.0 == TokenKind::EndOfFile
}

pub proof fn lemma_step(s: Seq<char>, c: Cursor)
    requires
        0 <= c.0 <= s.len(),
    ensures
        step(s, c) matches Ok(c2) ==> {
            &&& 0 <= c2.0 <= s.len()
            &&& 0 <= measure(s, c2) <= s.len() - c.0
        },
{
    lemma_lex_progress(s, c.0);
}

/// The texts of the run of number tokens at the cursor, and the cursor after it.
pub open spec fn array_numbers(s: Seq<char>, c: Cursor) -> Result<
    (Seq<Seq<char>>, Cursor),
    AplError,
>
    decreases measure(s, c),
    via array_numbers_decreases
{
    if c.1.0 == TokenKind::Number && 0 <= c.0 <= s.len() {
        match step(s, c) {
            Err(e) => Err(e),
            Ok(c2) => match array_numbers(s, c2) {
                Ok((rest, c3)) => Ok((seq![c.1.1] + rest, c3)),
                Err(e) => Err(e),
            },
        }
    } else {
        Ok((Seq::empty(), c))
    }
}

#[via_fn]
proof fn array_numbers_decreases(s: Seq<char>, c: Cursor) {
    if c.1.0 == TokenKind::Number && 0 <= c.0 <= s.len() {
        lemma_step(s, c);
    }
}

/// An operand that is not an application: a run of numbers, a name or zilde.
pub open spec fn parse_base_spec(s: Seq<char>, c: Cursor) -> Parsed {
    if at_end(c) {
        Err(AplError::UnexpectedEndOfSource)
    } else if c.1.0 == TokenKind::Number {
        match array_numbers(s, c) {
            Ok((ts, c2)) => Ok((Tree::Array(ts), c2)),
            Err(e) => Err(e),
        }
    } else if c.1.0 == TokenKind::Variable {
        match step(s, c) {
            Ok(c2) => Ok((Tree::Variable(c.1.1), c2)),
            Err(e) => Err(e),
        }
    } else if c.1.0 == TokenKind::Primitive {
        if c.1.1 == seq!['⍬'] {
            match step(s, c) {
                Ok(c2) => Ok((Tree::Zilde(c.1), c2)),
                Err(e) => Err(e),
            }
        } else if c.1.1 == seq!['('] {
            Err(AplError::NotImplemented)
        } else {
            Err(AplError::UnexpectedPrimitive)
        }
    } else {
        Err(AplError::UnexpectedToken)
    }
}

/// `dyadic → monadic [glyph dyadic]`: the right operand takes in everything to
/// the right, so the rightmost application binds first. After an application
/// one more token is read.
pub open spec fn parse_dyadic_spec(s: Seq<char>, c: Cursor) -> Parsed
    decreases measure(s, c), 1int,
{
    if at_end(c) {
        Err(AplError::UnexpectedEndOfSource)
    } else {
        match parse_monadic_spec(s, c) {
            Err(e) => Err(e),
            Ok((left, c1)) => {
                if c1.1.0 != TokenKind::Primitive {
                    Ok((left, c1))
                } else {
                    match dyadic_glyph(c1.1.1) {
                        None => Err(AplError::UnknownOperator),
                        Some(f) => match step(s, c1) {
                            Err(e) => Err(e),
                            Ok(c2) => if 0 <= measure(s, c2) < measure(s, c) {
                                match parse_dyadic_spec(s, c2) {
                                    Err(e) => Err(e),
                                    Ok((right, c3)) => match step(s, c3) {
                                        Err(e) => Err(e),
                                        Ok(c4) => Ok(
                                            (Tree::Dyadic(f, c1.1, Box::new(left), Box::new(right)), c4),
                                        ),
                                    },
                                }
                            } else {
                                // Never taken: no parse ends before it starts.
                                Err(AplError::UnexpectedToken)
                            },
                        },
                    }
                }
            },
        }
    }
}

/// `monadic → glyph dyadic | base`: a monadic glyph applies to everything on its
/// right. After the application one more token is read.
pub open spec fn parse_monadic_spec(s: Seq<char>, c: Cursor) -> Parsed
    decreases measure(s, c), 0int,
    via parse_monadic_decreases
{
    if at_end(c) {
        Err(AplError::UnexpectedEndOfSource)
    } else if c.1.0 == TokenKind::Primitive && monadic_glyph(c.1.1) is Some {
        match step(s, c) {
            Err(e) => Err(e),
            Ok(c2) => match parse_dyadic_spec(s, c2) {
                Err(e) => Err(e),
                Ok((operand, c3)) => match step(s, c3) {
                    Err(e) => Err(e),
                    Ok(c4) => Ok(
                        (Tree::Monadic(monadic_glyph(c.1.1)->Some_0, c.1, Box::new(operand)), c4),
                    ),
                },
            },
        }
    } else {
        parse_base_spec(s, c)
    }
}

#[via_fn]
proof fn parse_monadic_decreases(s: Seq<char>, c: Cursor) {
    if 0 <= c.0 <= s.len() {
        lemma_step(s, c);
    }
}

pub open spec fn cursor_ok(s: Seq<char>, c: Cursor) -> bool {
    0 <= c.0 <= s.len()
}

proof fn lemma_array_numbers_advance(s: Seq<char>, c: Cursor)
    requires
        cursor_ok(s, c),
    ensures
        array_numbers(s, c) matches Ok((ts, c2)) ==> cursor_ok(s, c2) && measure(s, c2) <= measure(
            s,
            c,
        ),
    decreases measure(s, c),
{
    if c.1.0 == TokenKind::Number {
        lemma_step(s, c);
        match step(s, c) {
            Ok(c2) => {
                lemma_array_numbers_advance(s, c2);
            },
            _ => {},
        }
    }
}

proof fn lemma_base_advance(s: Seq<char>, c: Cursor)
    requires
        cursor_ok(s, c),
    ensures
        parse_base_spec(s, c) matches Ok((t, c2)) ==> cursor_ok(s, c2) && measure(s, c2) <= measure(
            s,
            c,
        ),
{
    lemma_step(s, c);
    lemma_array_numbers_advance(s, c);
}

/// No parse ends before it starts, nor outside the text.
proof fn lemma_dyadic_advance(s: Seq<char>, c: Cursor)
    requires
        cursor_ok(s, c),
    ensures
        parse_dyadic_spec(s, c) matches Ok((t, c2)) ==> cursor_ok(s, c2) && measure(s, c2)
            <= measure(s, c),
    decreases measure(s, c), 1int,
{
    if !at_end(c) {
        lemma_monadic_advance(s, c);
        match parse_monadic_spec(s, c) {
            Ok((left, c1)) => {
                lemma_step(s, c1);
                if c1.1.0 == TokenKind::Primitive {
                    match step(s, c1) {
                        Ok(c2) => {
                            if 0 <= measure(s, c2) < measure(s, c) {
                                lemma_dyadic_advance(s, c2);
                                match parse_dyadic_spec(s, c2) {
                                    Ok((right, c3)) => {
                                        lemma_step(s, c3);
                                    },
                                    _ => {},
                                }
                            }
                        },
                        _ => {},
                    }
                }
            },
            _ => {},
        }
    }
}

proof fn lemma_monadic_advance(s: Seq<char>, c: Cursor)
    requires
        cursor_ok(s, c),
    ensures
        parse_monadic_spec(s, c) matches Ok((t, c2)) ==> cursor_ok(s, c2) && measure(s, c2)
            <= measure(s, c),
    decreases measure(s, c), 0int,
{
    lemma_base_advance(s, c);
    lemma_step(s, c);
    if !at_end(c) && c.1.0 == TokenKind::Primitive && monadic_glyph(c.1.1) is Some {
        match step(s, c) {
            Ok(c2) => {
                lemma_dyadic_advance(s, c2);
                match parse_dyadic_spec(s, c2) {
                    Ok((operand, c3)) => {
                        lemma_step(s, c3);
                    },
                    _ => {},
                }
            },
            _ => {},
        }
    }
}

/// Applying the dyadic primitive `f` of the glyph at cursor `c` to `left`: the right
/// operand is everything after the glyph, and one more token is read after it.
pub open spec fn apply_dyadic(s: Seq<char>, c: Cursor, f: DyadicFn, left: Tree) -> Parsed {
    match step(s, c) {
        Err(e) => Err(e),
        Ok(c2) => match parse_dyadic_spec(s, c2) {
            Err(e) => Err(e),
            Ok((right, c3)) => match step(s, c3) {
                Err(e) => Err(e),
                Ok(c4) => Ok((Tree::Dyadic(f, c.1, Box::new(left), Box::new(right)), c4)),
            },
        },
    }
}

/// Applying the monadic primitive `f` of the glyph at cursor `c` to everything after it.
pub open spec fn apply_monadic(s: Seq<char>, c: Cursor, f: MonadicFn) -> Parsed {
    match step(s, c) {
        Err(e) => Err(e),
        Ok(c2) => match parse_dyadic_spec(s, c2) {
            Err(e) => Err(e),
            Ok((operand, c3)) => match step(s, c3) {
                Err(e) => Err(e),
                Ok(c4) => Ok((Tree::Monadic(f, c.1, Box::new(operand)), c4)),
            },
        },
    }
}

pub open spec fn token_texts(ts: Seq<Box<Token>>) -> Seq<Seq<char>> {
    ts.map_values(|t: Box<Token>| t.text())
}

/// What parsing a statement of the text gives; a blank line, whose first token
/// is a line break or the end, holds no statement.
pub open spec fn parse_statement(s: Seq<char>) -> Result<Tree, AplError> {
    match step(s, (0, (TokenKind::EndOfFile, Seq::empty()))) {
        Err(e) => Err(e),
        Ok(c) => if at_end(c) || c.1.0 == TokenKind::Newline {
            Err(AplError::EndOfInput)
        } else {
            match parse_dyadic_spec(s, c) {
                Ok((t, _)) => Ok(t),
                Err(e) => Err(e),
            }
        },
    }
}

/// Whether a parse result and the parser after it are what the specification says.
pub open spec fn parsed_as(
    expected: Parsed,
    r: Result<Box<Node>, AplError>,
    after: Parser,
) -> bool {
    match expected {
        Ok((t, c)) => r matches Ok(n) && n.tree() == t && after.wf() && after.cursor() == c,
        Err(e) => r == Err::<Box<Node>, AplError>(e),
    }
}

/// A recursive-descent parser that reads its tokens one at a time.
pub struct Parser {
    tokenizer: Tokenizer,
    current_token: Option<Token>,
}

impl Parser {
    /// The source text.
    pub closed spec fn source(&self) -> Seq<char> {
        self.tokenizer.chars()
    }

    /// The position after the current token, and that token.
    pub closed spec fn cursor(&self) -> Cursor {
        (
            self.tokenizer.pos(),
            match self.current_token {
                Some(t) => (t.kind(), t.text()),
                None => (TokenKind::EndOfFile, Seq::empty()),
            },
        )
    }

    /// The tokenizer is sound and a current token has been read.
    pub closed spec fn wf(&self) -> bool {
        &&& self.tokenizer.wf()
        &&& 0 <= self.tokenizer.pos() <= self.tokenizer.chars().len()
        &&& self.current_token is Some
    }

    /// Nothing has been read yet.
    pub closed spec fn fresh(&self) -> bool {
        &&& self.tokenizer.wf()
        &&& self.tokenizer.pos() == 0
        &&& self.current_token is None
    }

    pub fn new(input_string: String) -> (r: Parser)
        ensures
            r.fresh(),
            r.source() == input_string@,
    {
        Parser { tokenizer: Tokenizer::new(input_string), current_token: None }
    }

    /// Parses the one statement of the text.
    pub fn parse_next_statement(&mut self) -> (r: Result<Box<Node>, AplError>)
        requires
            old(self).fresh(),
        ensures
            match parse_statement(old(self).source()) {
                Ok(t) => r matches Ok(n) && n.tree() == t,
                Err(e) => r == Err::<Box<Node>, AplError>(e),
            },
    {
        let ghost s = self.source();
        proof {
            assert(self.cursor() == (0int, (TokenKind::EndOfFile, Seq::<char>::empty())));
        }
        match self.read_next_token() {
            Ok(()) => {
                if self.end_of_source() || self.token_is_newline() {
                    Err(AplError::EndOfInput)
                } else {
                    let r = self.parse_dyadic();
                    r
                }
            },
            Err(e) => Err(e),
        }
    }

    fn read_next_token(&mut self) -> (r: Result<(), AplError>)
        requires
            old(self).tokenizer.wf(),
            0 <= old(self).tokenizer.pos() <= old(self).tokenizer.chars().len(),
        ensures
            final(self).source() == old(self).source(),
            match step(old(self).source(), old(self).cursor()) {
                Ok(c) => r is Ok && final(self).wf() && final(self).cursor() == c,
                Err(e) => r == Err::<(), AplError>(e),
            },
    {
        match self.tokenizer.read_next_token() {
            Ok(token) => {
                self.current_token = Some(token);
                Ok(())
            },
            Err(msg) => {
                self.current_token = None;
                Err(msg)
            },
        }
    }

    fn end_of_source(&self) -> (r: bool)
        requires
            self.wf(),
        ensures
            r == at_end(self.cursor()),
    {
        match &self.current_token {
            Some(Token::EndOfFile) => true,
            Some(_) => false,
            None => true,
        }
    }

    fn token_is_number(&self) -> (r: bool)
        requires
            self.wf(),
        ensures
            r == (self.cursor().1.0 == TokenKind::Number),
    {
        match &self.current_token {
            Some(Token::Number(_)) => true,
            _ => false,
        }
    }

    fn token_is_newline(&self) -> (r: bool)
        requires
            self.wf(),
        ensures
            r == (self.cursor().1.0 == TokenKind::Newline),
    {
        match &self.current_token {
            Some(Token::Newline(_)) => true,
            _ => false,
        }
    }

    /// Takes the current token out and reads the next one.
    fn stash(&mut self) -> (r: Result<Box<Token>, AplError>)
        requires
            old(self).wf(),
        ensures
            final(self).source() == old(self).source(),
            match step(old(self).source(), old(self).cursor()) {
                Ok(c) => r matches Ok(t) && (t.kind(), t.text()) == old(self).cursor().1
                    && final(self).wf() && final(self).cursor() == c,
                Err(e) => r is Err && r->Err_0 == e,
            },
    {
        let stash = self.current_token.take().unwrap();
        match self.read_next_token() {
            Ok(()) => Ok(Box::new(stash)),
            Err(e) => Err(e),
        }
    }

    fn parse_dyadic(&mut self) -> (r: Result<Box<Node>, AplError>)
        requires
            old(self).wf(),
        ensures
            final(self).source() == old(self).source(),
            parsed_as(parse_dyadic_spec(old(self).source(), old(self).cursor()), r, *final(self)),
        decreases measure(old(self).source(), old(self).cursor()), 2int,
    {
        let ghost s = self.source();
        let ghost c = self.cursor();
        if self.end_of_source() {
            return Err(AplError::UnexpectedEndOfSource);
        }
        let left = match self.parse_monadic() {
            Ok(left) => left,
            Err(e) => {
                return Err(e);
            },
        };
        proof {
            lemma_monadic_advance(s, c);
        }
        if self.end_of_source() {
            return Ok(left);
        }
        let glyph = match &self.current_token {
            Some(Token::Primitive(token_data)) => Some(token_data.chars()),
            _ => None,
        };
        match glyph {
            Some(glyph) => match dyadic_fn_of(&glyph) {
                Some(f) => {
                    proof {
                        lemma_step(s, self.cursor());
                    }
                    self.create_dyadic_result(left, f)
                },
                None => Err(AplError::UnknownOperator),
            },
            None => Ok(left),
        }
    }

    /// Applies the dyadic primitive `kind`, whose glyph is the current token, to
    /// `left` and to everything after the glyph.
    pub fn create_dyadic_result(&mut self, left: Box<Node>, kind: DyadicFn) -> (r: Result<
        Box<Node>,
        AplError,
    >)
        requires
            old(self).wf(),
            !at_end(old(self).cursor()),
        ensures
            final(self).source() == old(self).source(),
            parsed_as(
                apply_dyadic(old(self).source(), old(self).cursor(), kind, left.tree()),
                r,
                *final(self),
            ),
        decreases measure(old(self).source(), old(self).cursor()), 0int,
    {
        let ghost s = self.source();
        let ghost c = self.cursor();
        proof {
            lemma_step(s, c);
        }
        let stash = match self.stash() {
            Ok(stash) => stash,
            Err(e) => {
                return Err(e);
            },
        };
        let right = match self.parse_dyadic() {
            Ok(right) => right,
            Err(e) => {
                return Err(e);
            },
        };
        let item = Box::new(Node::dyadic(kind, stash, left, right));
        match self.read_next_token() {
            Ok(()) => Ok(item),
            Err(e) => Err(e),
        }
    }

    /// Applies the monadic primitive `kind`, whose glyph is the current token, to
    /// everything after the glyph.
    pub fn create_monadic_result(&mut self, kind: MonadicFn) -> (r: Result<Box<Node>, AplError>)
        requires
            old(self).wf(),
            !at_end(old(self).cursor()),
        ensures
            final(self).source() == old(self).source(),
            parsed_as(apply_monadic(old(self).source(), old(self).cursor(), kind), r, *final(self)),
        decreases measure(old(self).source(), old(self).cursor()), 0int,
    {
        let ghost s = self.source();
        let ghost c = self.cursor();
        proof {
            lemma_step(s, c);
        }
        let stash = match self.stash() {
            Ok(stash) => stash,
            Err(e) => {
                return Err(e);
            },
        };
        let operand = match self.parse_dyadic() {
            Ok(operand) => operand,
            Err(e) => {
                return Err(e);
            },
        };
        let item = Box::new(Node::monadic(kind, stash, operand));
        match self.read_next_token() {
            Ok(()) => Ok(item),
            Err(e) => Err(e),
        }
    }

    fn parse_monadic(&mut self) -> (r: Result<Box<Node>, AplError>)
        requires
            old(self).wf(),
        ensures
            final(self).source() == old(self).source(),
            parsed_as(parse_monadic_spec(old(self).source(), old(self).cursor()), r, *final(self)),
        decreases measure(old(self).source(), old(self).cursor()), 1int,
    {
        if self.end_of_source() {
            return Err(AplError::UnexpectedEndOfSource);
        }
        let glyph = match &self.current_token {
            Some(Token::Primitive(token_data)) => Some(token_data.chars()),
            _ => None,
        };
        match glyph {
            Some(glyph) => match monadic_fn_of(&glyph) {
                Some(f) => self.create_monadic_result(f),
                None => self.parse_base_expression(),
            },
            None => self.parse_base_expression(),
        }
    }

    /// Parses an operand that is not an application: a run of numbers, a name or
    /// zilde.
    pub fn parse_base_expression(&mut self) -> (r: Result<Box<Node>, AplError>)
        requires
            old(self).wf(),
        ensures
            final(self).source() == old(self).source(),
            parsed_as(parse_base_spec(old(self).source(), old(self).cursor()), r, *final(self)),
    {
        if self.end_of_source() {
            return Err(AplError::UnexpectedEndOfSource);
        }
        let ghost c = self.cursor();
        let mut zilde = false;
        let mut bracket = false;
        let kind: u8 = match &self.current_token {
            Some(Token::Number(_)) => 0,
            Some(Token::Variable(_)) => 1,
            Some(Token::Primitive(token_data)) => {
                let glyph = token_data.chars();
                if glyph.len() == 1 && glyph[0] == '⍬' {
                    proof {
                        assert(glyph@ =~= seq!['⍬']);
                    }
                    zilde = true;
                } else if glyph.len() == 1 && glyph[0] == '(' {
                    proof {
                        assert(glyph@ =~= seq!['(']);
                    }
                    bracket = true;
                } else {
                    proof {
                        assert(seq!['⍬'].len() == 1 && seq!['('].len() == 1);
                        assert(seq!['⍬'][0] == '⍬' && seq!['('][0] == '(');
                    }
                }
                2
            },
            _ => 3,
        };
        if kind == 0 {
            self.parse_array()
        } else if kind == 1 {
            self.parse_variable()
        } else if kind == 2 {
            if zilde {
                self.parse_zilde()
            } else if bracket {
                Err(AplError::NotImplemented)
            } else {
                Err(AplError::UnexpectedPrimitive)
            }
        } else {
            Err(AplError::UnexpectedToken)
        }
    }

    fn parse_array(&mut self) -> (r: Result<Box<Node>, AplError>)
        requires
            old(self).wf(),
        ensures
            final(self).source() == old(self).source(),
            match array_numbers(old(self).source(), old(self).cursor()) {
                Ok((ts, c)) => r matches Ok(n) && n.tree() == Tree::Array(ts) && final(self).wf()
                    && final(self).cursor() == c,
                Err(e) => r == Err::<Box<Node>, AplError>(e),
            },
    {
        let ghost s = self.source();
        let ghost c0 = self.cursor();
        let mut tokens: Vec<Box<Token>> = Vec::new();
        proof {
            match array_numbers(s, c0) {
                Ok((rest, c3)) => {
                    assert(token_texts(tokens@) + rest =~= rest);
                },
                _ => {},
            }
        }
        while self.token_is_number()
            invariant
                self.wf(),
                self.source() == s,
                s == old(self).source(),
                c0 == old(self).cursor(),
                array_numbers(s, c0) == match array_numbers(s, self.cursor()) {
                    Ok((rest, c3)) => Ok((token_texts(tokens@) + rest, c3)),
                    Err(e) => Err(e),
                },
            decreases measure(s, self.cursor()),
        {
            let ghost c = self.cursor();
            let ghost before = tokens@;
            proof {
                lemma_step(s, c);
            }
            let token = self.current_token.take().unwrap();
            tokens.push(Box::new(token));
            proof {
                assert(token_texts(tokens@) =~= token_texts(before).push(c.1.1));
            }
            match self.read_next_token() {
                Ok(()) => {
                    proof {
                        match array_numbers(s, self.cursor()) {
                            Ok((rest, c3)) => {
                                assert(token_texts(before) + (seq![c.1.1] + rest) =~= token_texts(
                                    tokens@,
                                ) + rest);
                            },
                            _ => {},
                        }
                    }
                },
                Err(e) => {
                    return Err(e);
                },
            }
        }
        proof {
            assert(token_texts(tokens@) + Seq::<Seq<char>>::empty() =~= token_texts(tokens@));
        }
        Ok(Box::new(Node::Array(tokens)))
    }

    fn parse_variable(&mut self) -> (r: Result<Box<Node>, AplError>)
        requires
            old(self).wf(),
            old(self).cursor().1.0 == TokenKind::Variable,
        ensures
            final(self).source() == old(self).source(),
            parsed_as(parse_base_spec(old(self).source(), old(self).cursor()), r, *final(self)),
    {
        let token = self.current_token.take().unwrap();
        let result = Box::new(Node::Variable(Box::new(token)));
        match self.read_next_token() {
            Ok(()) => Ok(result),
            Err(e) => Err(e),
        }
    }

    fn parse_zilde(&mut self) -> (r: Result<Box<Node>, AplError>)
        requires
            old(self).wf(),
            old(self).cursor().1 == (TokenKind::Primitive, seq!['⍬']),
        ensures
            final(self).source() == old(self).source(),
            parsed_as(parse_base_spec(old(self).source(), old(self).cursor()), r, *final(self)),
    {
        let token = self.current_token.take().unwrap();
        let result = Box::new(Node::Zilde(Box::new(token)));
        match self.read_next_token() {
            Ok(()) => Ok(result),
            Err(e) => Err(e),
        }
    }
}

} // verus!
