use vstd::prelude::*;
use crate::error::AplError;
use vstd::std_specs::iter::IteratorSpec;
use crate::lexspec::{
    TokenKind, Lexed, is_digit, is_number_char, is_number_start, is_newline_char, is_quote,
    is_variable_char, is_primitive_glyph, spaces_end, comment_end, blank_end, number_end,
    variable_end, real_literal, number_body, valid_number, string_scan, lex, lex_from,
    lemma_number_end_bounds, lemma_real_literal_push,
    lemma_number_body_prefix, lemma_lex_progress, lex_all, TokenView, stripped, joined_texts,
    has_no_quotes, lemma_tokens_rejoin_to_source,
};

verus! {

/// The text of a token.
#[derive(Clone, Debug)]
pub struct TokenData {
    pub string: String,
}

impl TokenData {
    /// The characters of the token's text.
    pub fn chars(&self) -> (r: Vec<char>)
        ensures
            r@ == self.string@,
    {
        chars_of(self.string.as_str())
    }
}

/// A classified lexical token.
#[derive(Clone, Debug)]
pub enum Token {
    Number(TokenData),
    Newline(TokenData),
    String(TokenData),
    Primitive(TokenData),
    Variable(TokenData),
    EndOfFile,
}

impl Token {
    pub open spec fn kind(&self) -> TokenKind {
        match self {
            Token::Number(_) => TokenKind::Number,
            Token::Newline(_) => TokenKind::Newline,
            Token::String(_) => TokenKind::String,
            Token::Primitive(_) => TokenKind::Primitive,
            Token::Variable(_) => TokenKind::Variable,
            Token::EndOfFile => TokenKind::EndOfFile,
        }
    }

    pub open spec fn text(&self) -> Seq<char> {
        match self {
            Token::Number(d) => d.string@,
            Token::Newline(d) => d.string@,
            Token::String(d) => d.string@,
            Token::Primitive(d) => d.string@,
            Token::Variable(d) => d.string@,
            Token::EndOfFile => Seq::empty(),
        }
    }

    /// Whether this token has the given kind and text.
    pub open spec fn is(&self, kind: TokenKind, text: Seq<char>) -> bool {
        self.kind() == kind && self.text() == text
    }
}

/// The characters of a text, in order.
pub(crate) fn chars_of(s: &str) -> (r: Vec<char>)
    ensures
        r@ == s@,
{
    let mut chars = s.chars();
    let mut r: Vec<char> = Vec::new();
    loop
        invariant
            r@ + chars.remaining() == s@,
            chars.obeys_prophetic_iter_laws(),
            chars.decrease() is Some,
        decreases chars.decrease()->0,
    {
        match chars.next() {
            Some(c) => {
                proof {
                    assert(r@.push(c) + chars.remaining() =~= s@);
                }
                r.push(c);
            },
            None => {
                proof {
                    assert(r@ =~= s@);
                }
                return r;
            },
        }
    }
}

/// Relies on `FromIterator<char>` for `String`: a string of exactly these characters.
#[verifier::external_body]
pub(crate) fn string_of(cs: &Vec<char>) -> (r: String)
    ensures
        r@ == cs@,
{
    cs.iter().collect()
}

fn token_data(cs: &Vec<char>) -> (r: TokenData)
    ensures
        r.string@ == cs@,
{
    TokenData { string: string_of(cs) }
}

/// A saved reader position, to return to after a lookahead.
pub struct Backtrack {
    position: usize,
}

/// A cursor over the characters of the source text.
pub struct CharReader {
    source: Vec<char>,
    position: usize,
}

impl CharReader {
    pub closed spec fn chars(&self) -> Seq<char> {
        self.source@
    }

    /// The index of the current character; the length of the text once all are read.
    pub closed spec fn pos(&self) -> int {
        self.position as int
    }

    pub closed spec fn wf(&self) -> bool {
        self.position <= self.source.len()
    }

    pub open spec fn current(&self) -> Option<char> {
        if 0 <= self.pos() < self.chars().len() {
            Some(self.chars()[self.pos()])
        } else {
            None
        }
    }

    /// A reader at the first character of the text.
    pub fn new(input_string: String) -> (r: CharReader)
        ensures
            r.wf(),
            r.chars() == input_string@,
            r.pos() == 0,
    {
        CharReader { source: chars_of(input_string.as_str()), position: 0 }
    }

    fn current_char(&self) -> (r: Option<char>)
        requires
            self.wf(),
        ensures
            r == self.current(),
    {
        if self.position < self.source.len() {
            Some(self.source[self.position])
        } else {
            None
        }
    }

    /// Moves to the next character, unless the text is used up.
    fn read_and_stash_char(&mut self)
        requires
            old(self).wf(),
        ensures
            final(self).wf(),
            final(self).chars() == old(self).chars(),
            final(self).pos() == if old(self).pos() < old(self).chars().len() {
                old(self).pos() + 1
            } else {
                old(self).pos()
            },
    {
        if self.position < self.source.len() {
            self.position = self.position + 1;
        }
    }

    fn wind_past_whitespace(&mut self)
        requires
            old(self).wf(),
        ensures
            final(self).wf(),
            final(self).chars() == old(self).chars(),
            final(self).pos() == spaces_end(old(self).chars(), old(self).pos()),
    {
        while self.position < self.source.len() && self.source[self.position] == ' '
            invariant
                self.wf(),
                self.chars() == old(self).chars(),
                spaces_end(self.chars(), self.pos()) == spaces_end(
                    old(self).chars(),
                    old(self).pos(),
                ),
            decreases self.source.len() - self.position,
        {
            self.position = self.position + 1;
        }
    }

    fn wind_past_comments(&mut self)
        requires
            old(self).wf(),
        ensures
            final(self).wf(),
            final(self).chars() == old(self).chars(),
            final(self).pos() == if old(self).current() == Some('⍝') {
                comment_end(old(self).chars(), old(self).pos())
            } else {
                old(self).pos()
            },
    {
        if self.position < self.source.len() && self.source[self.position] == '⍝' {
            while self.position < self.source.len() && self.source[self.position] != '\n'
                && self.source[self.position] != '\r'
                invariant
                    self.wf(),
                    self.chars() == old(self).chars(),
                    comment_end(self.chars(), self.pos()) == comment_end(
                        old(self).chars(),
                        old(self).pos(),
                    ),
                decreases self.source.len() - self.position,
            {
                self.position = self.position + 1;
            }
        }
    }

    fn create_backtrack(&self) -> (r: Backtrack)
        ensures
            r.position == self.pos(),
    {
        Backtrack { position: self.position }
    }

    fn backtrack(&mut self, backtrack: &Backtrack)
        requires
            backtrack.position <= old(self).chars().len(),
        ensures
            final(self).wf(),
            final(self).chars() == old(self).chars(),
            final(self).pos() == backtrack.position,
    {
        self.position = backtrack.position;
    }
}

/// Whether a result and the position after it are what the lexer's outcome `l` says.
pub open spec fn delivers(l: Lexed, r: Result<Token, AplError>, e: int) -> bool {
    match l {
        Lexed::Token(kind, text, end) => r matches Ok(t) && t.is(kind, text) && e == end,
        Lexed::Failure(err) => r == Err::<Token, AplError>(err),
    }
}

fn is_valid_number_start(c: char) -> (r: bool)
    ensures
        r == is_number_start(c),
{
    ('0' <= c && c <= '9') || c == '.' || c == '¯'
}

fn is_period(char_reader: &CharReader) -> (r: bool)
    requires
        char_reader.wf(),
    ensures
        r == (char_reader.current() == Some('.')),
{
    match char_reader.current_char() {
        Some(c) => c == '.',
        None => false,
    }
}

fn is_number(char_reader: &CharReader) -> (r: bool)
    requires
        char_reader.wf(),
    ensures
        r == (char_reader.current() matches Some(c) && is_digit(c)),
{
    match char_reader.current_char() {
        Some(c) => '0' <= c && c <= '9',
        None => false,
    }
}

fn is_complex(char_reader: &CharReader) -> (r: bool)
    requires
        char_reader.wf(),
    ensures
        r == (char_reader.current() == Some('J')),
{
    match char_reader.current_char() {
        Some(c) => c == 'J',
        None => false,
    }
}

fn is_negative(char_reader: &CharReader) -> (r: bool)
    requires
        char_reader.wf(),
    ensures
        r == (char_reader.current() == Some('¯')),
{
    match char_reader.current_char() {
        Some(c) => c == '¯',
        None => false,
    }
}

/// Scans a numeric literal: the whole run of number characters, which must form
/// a valid number.
fn number_tokenizer(char_reader: &mut CharReader) -> (r: Result<Token, AplError>)
    requires
        old(char_reader).wf(),
        old(char_reader).current() matches Some(c) && is_number_start(c),
    ensures
        final(char_reader).wf(),
        final(char_reader).chars() == old(char_reader).chars(),
        ({
            let s = old(char_reader).chars();
            let q = old(char_reader).pos();
            let e = number_end(s, q + 1);
            if valid_number(s.subrange(q, e)) {
                &&& r matches Ok(t) && t.is(TokenKind::Number, s.subrange(q, e))
                &&& final(char_reader).pos() == e
            } else {
                r == Err::<Token, AplError>(AplError::InvalidNumber)
            }
        }),
{
    let ghost s = char_reader.chars();
    let ghost q = char_reader.pos();
    let mut period_encountered = false;
    let mut complex_encountered = false;
    let mut allowed_negative = false;
    let mut token: Vec<char> = Vec::new();
    let ghost mut k: int = 0;
    let ghost mut d: int = 0;
    if is_period(char_reader) {
        period_encountered = true;
    }
    let first = char_reader.current_char().unwrap();
    token.push(first);
    proof {
        lemma_real_literal_push(Seq::empty(), first);
        assert(Seq::<char>::empty().push(first) =~= token@);
        assert(token@ =~= s.subrange(q, q + 1));
    }
    char_reader.read_and_stash_char();
    loop
        invariant
            char_reader.wf(),
            char_reader.chars() == s,
            s == old(char_reader).chars(),
            q == old(char_reader).pos(),
            0 <= q < char_reader.pos() <= s.len(),
            token@ == s.subrange(q, char_reader.pos()),
            number_end(s, q + 1) == number_end(s, char_reader.pos()),
            complex_encountered ==> {
                &&& 0 < k < token@.len()
                &&& token@[k] == 'J'
                &&& forall|i: int| 0 <= i < token@.len() && i != k ==> token@[i] != 'J'
                &&& real_literal(token@.subrange(0, k))
                &&& real_literal(token@.subrange(k + 1, token@.len() as int))
            },
            !complex_encountered ==> {
                &&& forall|i: int| 0 <= i < token@.len() ==> token@[i] != 'J'
                &&& real_literal(token@)
            },
            period_encountered ==> {
                &&& (if complex_encountered { k + 1 } else { 0 }) <= d < token@.len()
                &&& token@[d] == '.'
            },
            !period_encountered ==> forall|i: int|
                (if complex_encountered { k + 1 } else { 0 }) <= i < token@.len() ==> token@[i]
                    != '.',
            allowed_negative == (token@.last() == 'J'),
        decreases s.len() - char_reader.pos(),
    {
        let ghost pos = char_reader.pos();
        let ghost t0 = token@;
        let ghost start: int = if complex_encountered { k + 1 } else { 0 };
        if is_negative(char_reader) {
            if allowed_negative {
                allowed_negative = false;
                token.push('¯');
                proof {
                    assert(t0[k] == 'J');
                    assert(k == t0.len() - 1);
                    lemma_real_literal_push(t0.subrange(k + 1, t0.len() as int), '¯');
                    assert(token@.subrange(k + 1, token@.len() as int) =~= t0.subrange(
                        k + 1,
                        t0.len() as int,
                    ).push('¯'));
                    assert(token@.subrange(0, k) =~= t0.subrange(0, k));
                }
            } else {
                proof {
                    let t1 = t0.push('¯');
                    assert(!real_literal(t1)) by {
                        assert(t1[t0.len() as int] == '¯');
                    }
                    assert forall|j: int|
                        0 <= j < t1.len() && #[trigger] t1[j] == 'J' implies !real_literal(
                        t1.subrange(j + 1, t1.len() as int),
                    ) by {
                        let w = t1.subrange(j + 1, t1.len() as int);
                        assert(w[t0.len() - j - 1] == '¯');
                        assert(t0[t0.len() - 1] == t0.last());
                    }
                    assert(t1 =~= s.subrange(q, pos + 1));
                    self::lemma_invalid_run(s, q, pos, t1);
                }
                return Err(AplError::InvalidNumber);
            }
        } else if is_complex(char_reader) {
            if complex_encountered {
                proof {
                    let t1 = t0.push('J');
                    assert(!real_literal(t1)) by {
                        assert(t1[k] == 'J');
                    }
                    assert forall|j: int|
                        0 <= j < t1.len() && #[trigger] t1[j] == 'J' implies !(real_literal(
                        t1.subrange(0, j),
                    ) && real_literal(t1.subrange(j + 1, t1.len() as int))) by {
                        if j == k {
                            assert(t1.subrange(j + 1, t1.len() as int)[t0.len() - k - 1] == 'J');
                        } else {
                            assert(t1.subrange(0, j)[k] == 'J');
                        }
                    }
                    assert(t1 =~= s.subrange(q, pos + 1));
                    self::lemma_invalid_run(s, q, pos, t1);
                }
                return Err(AplError::InvalidNumber);
            } else {
                proof {
                    k = t0.len() as int;
                }
                complex_encountered = true;
                period_encountered = false;
                allowed_negative = true;
                token.push('J');
                proof {
                    assert(token@.subrange(0, k) =~= t0);
                    assert(token@.subrange(k + 1, token@.len() as int) =~= Seq::<char>::empty());
                }
            }
        } else if is_period(char_reader) {
            allowed_negative = false;
            if period_encountered {
                proof {
                    let t1 = t0.push('.');
                    assert(t1[d] == '.' && t1[t0.len() as int] == '.');
                    if complex_encountered {
                        assert(t1[k] == 'J');
                        assert forall|j: int|
                            0 <= j < t1.len() && #[trigger] t1[j] == 'J' implies !(real_literal(
                            t1.subrange(0, j),
                        ) && real_literal(t1.subrange(j + 1, t1.len() as int))) by {
                            assert(j == k);
                            let w = t1.subrange(k + 1, t1.len() as int);
                            assert(w[d - k - 1] == '.' && w[t0.len() - k - 1] == '.');
                        }
                    } else {
                        assert forall|j: int| 0 <= j < t1.len() implies #[trigger] t1[j] != 'J' by {
                            if j < t0.len() {
                                assert(t1[j] == t0[j]);
                            }
                        }
                    }
                    assert(t1 =~= s.subrange(q, pos + 1));
                    self::lemma_invalid_run(s, q, pos, t1);
                }
                return Err(AplError::InvalidNumber);
            } else {
                proof {
                    d = t0.len() as int;
                }
                period_encountered = true;
                token.push('.');
                proof {
                    let comp = t0.subrange(start, t0.len() as int);
                    lemma_real_literal_push(comp, '.');
                    assert(token@.subrange(start, token@.len() as int) =~= comp.push('.'));
                    if complex_encountered {
                        assert(token@.subrange(0, k) =~= t0.subrange(0, k));
                    } else {
                        assert(comp =~= t0);
                    }
                }
            }
        } else if is_number(char_reader) {
            allowed_negative = false;
            let c = char_reader.current_char().unwrap();
            token.push(c);
            proof {
                let comp = t0.subrange(start, t0.len() as int);
                lemma_real_literal_push(comp, c);
                assert(token@.subrange(start, token@.len() as int) =~= comp.push(c));
                if complex_encountered {
                    assert(token@.subrange(0, k) =~= t0.subrange(0, k));
                } else {
                    assert(comp =~= t0);
                }
            }
        } else {
            proof {
                assert(number_end(s, pos) == pos);
            }
            let last = token[token.len() - 1];
            if last == '.' || last == 'J' || last == '¯' {
                return Err(AplError::InvalidNumber);
            }
            proof {
                if complex_encountered {
                    assert(t0[k] == 'J');
                }
            }
            return Ok(Token::Number(token_data(&token)));
        }
        proof {
            assert(token@ =~= s.subrange(q, pos + 1));
        }
        char_reader.read_and_stash_char();
    }
}

/// A run of number characters that begins with a piece that no number begins with
/// is no number.
proof fn lemma_invalid_run(s: Seq<char>, q: int, pos: int, t1: Seq<char>)
    requires
        0 <= q < pos < s.len(),
        is_number_char(s[pos]),
        number_end(s, q + 1) == number_end(s, pos),
        t1 == s.subrange(q, pos + 1),
        !number_body(t1),
    ensures
        !valid_number(s.subrange(q, number_end(s, q + 1))),
{
    let e = number_end(s, q + 1);
    lemma_number_end_bounds(s, pos + 1);
    assert(e == number_end(s, pos + 1));
    let run = s.subrange(q, e);
    assert(run.subrange(0, pos + 1 - q) =~= t1);
    if number_body(run) {
        lemma_number_body_prefix(run, pos + 1 - q);
    }
}

fn current_is(char_reader: &CharReader, c: char) -> (r: bool)
    requires
        char_reader.wf(),
    ensures
        r == (char_reader.current() == Some(c)),
{
    match char_reader.current_char() {
        Some(ch) => ch == c,
        None => false,
    }
}

fn is_valid_newline_start(c: char) -> (r: bool)
    ensures
        r == is_newline_char(c),
{
    c == '\n' || c == '\r'
}

/// Scans a line break: `\r\n`, `\r` or `\n`.
fn newline_tokenizer(char_reader: &mut CharReader) -> (r: Result<Token, AplError>)
    requires
        old(char_reader).wf(),
        old(char_reader).current() matches Some(c) && is_newline_char(c),
    ensures
        final(char_reader).wf(),
        final(char_reader).chars() == old(char_reader).chars(),
        delivers(
            lex_from(old(char_reader).chars(), old(char_reader).pos()),
            r,
            final(char_reader).pos(),
        ),
{
    let ghost s = char_reader.chars();
    let ghost q = char_reader.pos();
    let first = char_reader.current_char().unwrap();
    char_reader.read_and_stash_char();
    if first == '\r' {
        if current_is(char_reader, '\n') {
            char_reader.read_and_stash_char();
            let text = vec!['\r', '\n'];
            proof {
                assert(text@ =~= s.subrange(q, q + 2));
            }
            Ok(Token::Newline(token_data(&text)))
        } else {
            let text = vec!['\r'];
            proof {
                assert(text@ =~= seq![first]);
            }
            Ok(Token::Newline(token_data(&text)))
        }
    } else {
        let text = vec!['\n'];
        proof {
            assert(text@ =~= seq![first]);
        }
        Ok(Token::Newline(token_data(&text)))
    }
}

fn is_valid_string_start(c: char) -> (r: bool)
    ensures
        r == is_quote(c),
{
    c == '\'' || c == '"'
}

/// Scans a string literal up to and including its closing quote; a doubled quote
/// inside it stands for one quote.
fn string_tokenizer(char_reader: &mut CharReader) -> (r: Result<Token, AplError>)
    requires
        old(char_reader).wf(),
        old(char_reader).current() matches Some(c) && is_quote(c),
    ensures
        final(char_reader).wf(),
        final(char_reader).chars() == old(char_reader).chars(),
        delivers(
            lex_from(old(char_reader).chars(), old(char_reader).pos()),
            r,
            final(char_reader).pos(),
        ),
{
    let ghost s = char_reader.chars();
    let ghost q = char_reader.pos();
    let mut token: Vec<char> = Vec::new();
    let opening_character = char_reader.current_char().unwrap();
    char_reader.read_and_stash_char();
    proof {
        assert(token@ + Seq::<char>::empty() =~= Seq::<char>::empty());
        match string_scan(s, q + 1, opening_character) {
            Some((t, e)) => {
                assert(token@ + t =~= t);
            },
            None => {},
        }
    }
    loop
        invariant
            char_reader.wf(),
            char_reader.chars() == s,
            s == old(char_reader).chars(),
            q == old(char_reader).pos(),
            0 <= q < s.len(),
            s[q] == opening_character,
            is_quote(opening_character),
            q < char_reader.pos() <= s.len(),
            string_scan(s, q + 1, opening_character) == match string_scan(
                s,
                char_reader.pos(),
                opening_character,
            ) {
                Some((t, e)) => Some((token@ + t, e)),
                None => None,
            },
        decreases s.len() - char_reader.pos(),
    {
        let ghost pos = char_reader.pos();
        let ghost t0 = token@;
        match char_reader.current_char() {
            Some(c) => {
                if c == opening_character {
                    // Look ahead: a second quote is a quote inside the string.
                    char_reader.read_and_stash_char();
                    if current_is(char_reader, opening_character) {
                        token.push(opening_character);
                        proof {
                            match string_scan(s, pos + 2, opening_character) {
                                Some((t, e)) => {
                                    assert(t0 + (seq![opening_character] + t) =~= token@ + t);
                                },
                                None => {},
                            }
                        }
                    } else {
                        // The closing quote stays consumed.
                        proof {
                            assert(t0 + Seq::<char>::empty() =~= t0);
                        }
                        return Ok(Token::String(token_data(&token)));
                    }
                } else {
                    token.push(c);
                    proof {
                        match string_scan(s, pos + 1, opening_character) {
                            Some((t, e)) => {
                                assert(t0 + (seq![c] + t) =~= token@ + t);
                            },
                            None => {},
                        }
                    }
                }
            },
            None => {
                return Err(AplError::UnterminatedString);
            },
        }
        char_reader.read_and_stash_char();
    }
}

fn is_valid_variable_start(c: char) -> (r: bool)
    ensures
        r == is_variable_char(c),
{
    c == '∆' || c == '⍙' || ('A' <= c && c <= 'z')
}

/// Scans a name: the whole run of identifier characters.
fn variable_tokenizer(char_reader: &mut CharReader) -> (r: Result<Token, AplError>)
    requires
        old(char_reader).wf(),
        old(char_reader).current() matches Some(c) && is_variable_char(c),
    ensures
        final(char_reader).wf(),
        final(char_reader).chars() == old(char_reader).chars(),
        ({
            let s = old(char_reader).chars();
            let q = old(char_reader).pos();
            let e = variable_end(s, q + 1);
            &&& r matches Ok(t) && t.is(TokenKind::Variable, s.subrange(q, e))
            &&& final(char_reader).pos() == e
        }),
{
    let ghost s = char_reader.chars();
    let ghost q = char_reader.pos();
    let mut token: Vec<char> = Vec::new();
    while char_reader.position < char_reader.source.len() && is_valid_variable_start(
        char_reader.source[char_reader.position],
    )
        invariant
            char_reader.wf(),
            char_reader.chars() == s,
            q == old(char_reader).pos(),
            0 <= q < s.len(),
            is_variable_char(s[q]),
            q <= char_reader.pos() <= s.len(),
            token@ == s.subrange(q, char_reader.pos()),
            q < char_reader.pos() ==> variable_end(s, q + 1) == variable_end(s, char_reader.pos()),
        decreases s.len() - char_reader.pos(),
    {
        let ch = char_reader.source[char_reader.position];
        token.push(ch);
        char_reader.read_and_stash_char();
        proof {
            assert(token@ =~= s.subrange(q, char_reader.pos()));
        }
    }
    Ok(Token::Variable(token_data(&token)))
}

fn is_dot(c: char) -> (r: bool)
    ensures
        r == (c == '.'),
{
    c == '.'
}

/// Scans a period: the start of a number where a digit follows, else a primitive.
fn dot_tokenizer(char_reader: &mut CharReader) -> (r: Result<Token, AplError>)
    requires
        old(char_reader).wf(),
        old(char_reader).current() == Some('.'),
    ensures
        final(char_reader).wf(),
        final(char_reader).chars() == old(char_reader).chars(),
        delivers(
            lex_from(old(char_reader).chars(), old(char_reader).pos()),
            r,
            final(char_reader).pos(),
        ),
{
    let backtrack = char_reader.create_backtrack();
    char_reader.read_and_stash_char();
    if is_number(char_reader) {
        char_reader.backtrack(&backtrack);
        number_tokenizer(char_reader)
    } else {
        let text = vec!['.'];
        proof {
            assert(text@ =~= seq!['.']);
        }
        Ok(Token::Primitive(token_data(&text)))
    }
}

fn is_valid_primitive_start(c: char) -> (r: bool)
    ensures
        r == is_primitive_glyph(c),
{
    c == '+' || c == '−' || c == '×' || c == '÷' || c == '⌈' || c == '⌊' || c == '∣' || c == '|'
        || c == '⍳' || c == '?' || c == '⋆' || c == '*' || c == '⍟' || c == '○' || c == '!'
        || c == '⌹' || c == '<' || c == '≤' || c == '=' || c == '≥' || c == '>' || c == '≠'
        || c == '≡' || c == '≢' || c == '∊' || c == '⍷' || c == '∪' || c == '∩' || c == '~'
        || c == '∨' || c == '∧' || c == '⍱' || c == '⍲' || c == '⍴' || c == ',' || c == '⍪'
        || c == '⌽' || c == '⊖' || c == '⍉' || c == '↑' || c == '↓' || c == '⊂' || c == '⊃'
        || c == '⌷' || c == '⍋' || c == '⍒' || c == '⊤' || c == '⊥' || c == '⍺' || c == '⍕'
        || c == '⍎' || c == '⊣' || c == '⊢' || c == '▯' || c == '⍞' || c == '/' || c == '\\'
        || c == '⍀' || c == '⌿' || c == '∘' || c == '¨' || c == '[' || c == ']' || c == '⍬'
        || c == '⋄' || c == '∇' || c == '⍫' || c == '(' || c == ')' || c == '←' || c == '{'
        || c == '}' || c == '⍵' || c == '-'
}

/// Scans a primitive glyph; `∘.` is the one primitive of two characters.
fn primitive_tokenizer(char_reader: &mut CharReader) -> (r: Result<Token, AplError>)
    requires
        old(char_reader).wf(),
        old(char_reader).current() matches Some(c) && is_primitive_glyph(c),
    ensures
        final(char_reader).wf(),
        final(char_reader).chars() == old(char_reader).chars(),
        delivers(
            lex_from(old(char_reader).chars(), old(char_reader).pos()),
            r,
            final(char_reader).pos(),
        ),
{
    let ghost s = char_reader.chars();
    let ghost q = char_reader.pos();
    let opening_character = char_reader.current_char().unwrap();
    if opening_character == '∘' {
        let backtrack = char_reader.create_backtrack();
        char_reader.read_and_stash_char();
        if is_period(char_reader) {
            char_reader.read_and_stash_char();
            let text = vec!['∘', '.'];
            proof {
                assert(text@ =~= s.subrange(q, q + 2));
            }
            Ok(Token::Primitive(token_data(&text)))
        } else {
            char_reader.backtrack(&backtrack);
            char_reader.read_and_stash_char();
            let text = vec!['∘'];
            proof {
                assert(text@ =~= seq![opening_character]);
            }
            Ok(Token::Primitive(token_data(&text)))
        }
    } else {
        char_reader.read_and_stash_char();
        let text = vec![opening_character];
        proof {
            assert(text@ =~= seq![opening_character]);
        }
        Ok(Token::Primitive(token_data(&text)))
    }
}

/// Splits source text into tokens, one at a time.
pub struct Tokenizer {
    char_reader: CharReader,
}

impl Tokenizer {
    /// The characters of the source text.
    pub closed spec fn chars(&self) -> Seq<char> {
        self.char_reader.chars()
    }

    /// How far the text has been read.
    pub closed spec fn pos(&self) -> int {
        self.char_reader.pos()
    }

    pub closed spec fn wf(&self) -> bool {
        self.char_reader.wf()
    }

    /// A tokenizer at the start of the text.
    pub fn new(input_string: String) -> (r: Tokenizer)
        ensures
            r.wf(),
            r.chars() == input_string@,
            r.pos() == 0,
    {
        let char_reader = CharReader::new(input_string);
        Tokenizer { char_reader }
    }

    /// Reads the next token: skips spaces and a comment, then scans the token
    /// that the first character selects. At the end of the text it returns
    /// `EndOfFile`, as often as it is called.
    pub fn read_next_token(&mut self) -> (r: Result<Token, AplError>)
        requires
            old(self).wf(),
        ensures
            final(self).wf(),
            final(self).chars() == old(self).chars(),
            0 <= final(self).pos() <= final(self).chars().len(),
            delivers(lex(old(self).chars(), old(self).pos()), r, final(self).pos()),
    {
        let ghost s = self.chars();
        let ghost p = self.pos();
        self.char_reader.wind_past_whitespace();
        self.char_reader.wind_past_comments();
        proof {
            assert(self.pos() == blank_end(s, p));
        }
        match self.char_reader.current_char() {
            Some(first_char) => {
                if is_valid_newline_start(first_char) {
                    return newline_tokenizer(&mut self.char_reader);
                }
                if is_dot(first_char) {
                    return dot_tokenizer(&mut self.char_reader);
                }
                if is_valid_number_start(first_char) {
                    return number_tokenizer(&mut self.char_reader);
                }
                if is_valid_string_start(first_char) {
                    return string_tokenizer(&mut self.char_reader);
                }
                if is_valid_primitive_start(first_char) {
                    return primitive_tokenizer(&mut self.char_reader);
                }
                if is_valid_variable_start(first_char) {
                    return variable_tokenizer(&mut self.char_reader);
                }
                Err(AplError::UnknownCharacter(first_char))
            },
            None => Ok(Token::EndOfFile),
        }
    }
}

/// The kind and text of each token.
pub open spec fn token_views(ts: Seq<Token>) -> Seq<TokenView> {
    ts.map_values(|t: Token| (t.kind(), t.text()))
}

/// Splits the whole text into tokens, up to its end; the end-of-file token is
/// not included. Fails with the first lexical error.
pub fn tokenize(input_string: String) -> (r: Result<Vec<Token>, AplError>)
    ensures
        match lex_all(input_string@, 0) {
            Ok(v) => r matches Ok(ts) && token_views(ts@) == v,
            Err(e) => r == Err::<Vec<Token>, AplError>(e),
        },
        r is Ok && has_no_quotes(input_string@) ==> joined_texts(token_views(r->Ok_0@)) == stripped(
            input_string@,
            0,
            false,
        ),
{
    let ghost s = input_string@;
    let mut tokenizer = Tokenizer::new(input_string);
    let mut tokens: Vec<Token> = Vec::new();
    proof {
        match lex_all(s, 0) {
            Ok(rest) => {
                assert(token_views(tokens@) + rest =~= rest);
            },
            Err(_) => {},
        }
    }
    loop
        invariant
            tokenizer.wf(),
            tokenizer.chars() == s,
            s == input_string@,
            0 <= tokenizer.pos() <= s.len(),
            lex_all(s, 0) == match lex_all(s, tokenizer.pos()) {
                Ok(rest) => Ok(token_views(tokens@) + rest),
                Err(e) => Err(e),
            },
        decreases s.len() - tokenizer.pos(),
    {
        let ghost p = tokenizer.pos();
        let ghost before = tokens@;
        proof {
            lemma_lex_progress(s, p);
        }
        match tokenizer.read_next_token() {
            Ok(token) => {
                match token {
                    Token::EndOfFile => {
                        proof {
                            assert(token_views(tokens@) + Seq::<TokenView>::empty() =~= token_views(
                                tokens@,
                            ));
                            if has_no_quotes(s) {
                                lemma_tokens_rejoin_to_source(s, 0);
                            }
                        }
                        return Ok(tokens);
                    },
                    _ => {},
                }
                let ghost view = (token.kind(), token.text());
                tokens.push(token);
                proof {
                    assert(token_views(tokens@) =~= token_views(before).push(view));
                    match lex_all(s, tokenizer.pos()) {
                        Ok(rest) => {
                            assert(token_views(before) + (seq![view] + rest) =~= token_views(
                                tokens@,
                            ) + rest);
                        },
                        Err(_) => {},
                    }
                }
            },
            Err(e) => {
                return Err(e);
            },
        }
    }
}

} // verus!
