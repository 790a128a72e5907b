use vstd::prelude::*;
use crate::error::AplError;

verus! {

/// The classes of lexical tokens.
#[derive(Clone, Copy, Debug, PartialEq, Eq, Structural)]
pub enum TokenKind {
    Number,
    Newline,
    String,
    Primitive,
    Variable,
    EndOfFile,
}

/// What the lexer makes of the text at one position: a token of some kind with
/// its text and the position after it, or a failure.
pub enum Lexed {
    Token(TokenKind, Seq<char>, int),
    Failure(AplError),
}

pub open spec fn is_digit(c: char) -> bool {
    '0' <= c && c <= '9'
}

pub open spec fn is_number_char(c: char) -> bool {
    is_digit(c) || c == '.' || c == 'J' || c == '¯'
}

pub open spec fn is_number_start(c: char) -> bool {
    is_digit(c) || c == '.' || c == '¯'
}

pub open spec fn is_newline_char(c: char) -> bool {
    c == '\n' || c == '\r'
}

pub open spec fn is_quote(c: char) -> bool {
    c == '\'' || c == '"'
}

pub open spec fn is_variable_char(c: char) -> bool {
    c == '∆' || c == '⍙' || ('A' <= c && c <= 'z')
}

/// The glyphs that begin a primitive token.
pub open spec fn is_primitive_glyph(c: char) -> bool {
    c == '+' || c == '−' || c == '×' || c == '÷' || c == '⌈' || c == '⌊' || c == '∣'
        || c == '|' || c == '⍳' || c == '?' || c == '⋆' || c == '*' || c == '⍟' || c == '○'
        || c == '!' || c == '⌹' || c == '<' || c == '≤' || c == '=' || c == '≥' || c == '>'
        || c == '≠' || c == '≡' || c == '≢' || c == '∊' || c == '⍷' || c == '∪' || c == '∩'
        || c == '~' || c == '∨' || c == '∧' || c == '⍱' || c == '⍲' || c == '⍴' || c == ','
        || c == '⍪' || c == '⌽' || c == '⊖' || c == '⍉' || c == '↑' || c == '↓' || c == '⊂'
        || c == '⊃' || c == '⌷' || c == '⍋' || c == '⍒' || c == '⊤' || c == '⊥' || c == '⍺'
        || c == '⍕' || c == '⍎' || c == '⊣' || c == '⊢' || c == '▯' || c == '⍞' || c == '/'
        || c == '\\' || c == '⍀' || c == '⌿' || c == '∘' || c == '¨' || c == '[' || c == ']'
        || c == '⍬' || c == '⋄' || c == '∇' || c == '⍫' || c == '(' || c == ')' || c == '←'
        || c == '{' || c == '}' || c == '⍵' || c == '-'
}

/// The first position at or after `p` that is not a space.
pub open spec fn spaces_end(s: Seq<char>, p: int) -> int
    decreases s.len() - p,
{
    if 0 <= p < s.len() && s[p] == ' ' {
        spaces_end(s, p + 1)
    } else {
        p
    }
}

/// The first position at or after `p` that holds a line break, or the end.
pub open spec fn comment_end(s: Seq<char>, p: int) -> int
    decreases s.len() - p,
{
    if 0 <= p < s.len() && !is_newline_char(s[p]) {
        comment_end(s, p + 1)
    } else {
        p
    }
}

/// Where the next token begins: past a run of spaces and then past one comment.
pub open spec fn blank_end(s: Seq<char>, p: int) -> int {
    let q = spaces_end(s, p);
    if 0 <= q < s.len() && s[q] == '⍝' {
        comment_end(s, q)
    } else {
        q
    }
}

/// The end of the run of number characters that starts at `p`.
pub open spec fn number_end(s: Seq<char>, p: int) -> int
    decreases s.len() - p,
{
    if 0 <= p < s.len() && is_number_char(s[p]) {
        number_end(s, p + 1)
    } else {
        p
    }
}

/// The end of the run of identifier characters that starts at `p`.
pub open spec fn variable_end(s: Seq<char>, p: int) -> int
    decreases s.len() - p,
{
    if 0 <= p < s.len() && is_variable_char(s[p]) {
        variable_end(s, p + 1)
    } else {
        p
    }
}

/// One real component of a number: digits and at most one period, with a high
/// minus allowed only in front.
pub open spec fn real_literal(x: Seq<char>) -> bool {
    &&& forall|i: int|
        0 <= i < x.len() ==> is_digit(#[trigger] x[i]) || x[i] == '.' || (x[i] == '¯' && i == 0)
    &&& forall|i: int, j: int|
        0 <= i < j < x.len() && #[trigger] x[i] == '.' ==> #[trigger] x[j] != '.'
}

/// A real component, or two of them joined by `J`.
pub open spec fn number_body(t: Seq<char>) -> bool {
    ||| real_literal(t)
    ||| exists|k: int|
        0 <= k < t.len() && #[trigger] t[k] == 'J' && real_literal(t.subrange(0, k))
            && real_literal(t.subrange(k + 1, t.len() as int))
}

pub proof fn lemma_number_end_bounds(s: Seq<char>, p: int)
    requires
        0 <= p <= s.len(),
    ensures
        p <= number_end(s, p) <= s.len(),
        forall|i: int| p <= i < number_end(s, p) ==> is_number_char(#[trigger] s[i]),
        number_end(s, p) < s.len() ==> !is_number_char(s[number_end(s, p)]),
    decreases s.len() - p,
{
    if p < s.len() && is_number_char(s[p]) {
        lemma_number_end_bounds(s, p + 1);
    }
}

pub proof fn lemma_variable_end_bounds(s: Seq<char>, p: int)
    requires
        0 <= p <= s.len(),
    ensures
        p <= variable_end(s, p) <= s.len(),
        forall|i: int| p <= i < variable_end(s, p) ==> is_variable_char(#[trigger] s[i]),
    decreases s.len() - p,
{
    if p < s.len() && is_variable_char(s[p]) {
        lemma_variable_end_bounds(s, p + 1);
    }
}

pub proof fn lemma_real_literal_prefix(x: Seq<char>, m: int)
    requires
        real_literal(x),
        0 <= m <= x.len(),
    ensures
        real_literal(x.subrange(0, m)),
{
    let y = x.subrange(0, m);
    assert forall|i: int| 0 <= i < y.len() implies is_digit(#[trigger] y[i]) || y[i] == '.' || (
    y[i] == '¯' && i == 0) by {
        assert(y[i] == x[i]);
    }
    assert forall|i: int, j: int| 0 <= i < j < y.len() && #[trigger] y[i] == '.' implies #[trigger] y[j]
        != '.' by {
        assert(y[i] == x[i] && y[j] == x[j]);
    }
}

/// Appending a digit keeps a real component; so does a period where it has none,
/// and a high minus in front.
pub proof fn lemma_real_literal_push(x: Seq<char>, c: char)
    requires
        real_literal(x),
        is_digit(c) || (c == '.' && forall|i: int| 0 <= i < x.len() ==> x[i] != '.') || (c == '¯'
            && x.len() == 0),
    ensures
        real_literal(x.push(c)),
{
    let y = x.push(c);
    assert forall|i: int| 0 <= i < y.len() implies is_digit(#[trigger] y[i]) || y[i] == '.' || (
    y[i] == '¯' && i == 0) by {
        if i < x.len() {
            assert(y[i] == x[i]);
        }
    }
    assert forall|i: int, j: int| 0 <= i < j < y.len() && #[trigger] y[i] == '.' implies #[trigger] y[j]
        != '.' by {
        assert(y[i] == x[i]);
        if j < x.len() {
            assert(y[j] == x[j]);
        }
    }
}

pub proof fn lemma_number_body_prefix(t: Seq<char>, m: int)
    requires
        number_body(t),
        0 <= m <= t.len(),
    ensures
        number_body(t.subrange(0, m)),
{
    let u = t.subrange(0, m);
    if real_literal(t) {
        lemma_real_literal_prefix(t, m);
    } else {
        let k = choose|k: int|
            0 <= k < t.len() && #[trigger] t[k] == 'J' && real_literal(t.subrange(0, k))
                && real_literal(t.subrange(k + 1, t.len() as int));
        if k < m {
            assert(u[k] == 'J');
            assert(u.subrange(0, k) =~= t.subrange(0, k));
            let w = t.subrange(k + 1, t.len() as int);
            lemma_real_literal_prefix(w, m - k - 1);
            assert(u.subrange(k + 1, m) =~= w.subrange(0, m - k - 1));
        } else {
            lemma_real_literal_prefix(t.subrange(0, k), m);
            assert(u =~= t.subrange(0, k).subrange(0, m));
        }
    }
}

/// The numeric literals: a number body that does not end on `.`, `J` or `¯`.
pub open spec fn valid_number(t: Seq<char>) -> bool {
    &&& t.len() > 0
    &&& t.last() != '.' && t.last() != 'J' && t.last() != '¯'
    &&& number_body(t)
}

/// The contents of a string literal whose opening quote stands before `p`:
/// a doubled quote stands for one quote, a single one closes the literal.
/// Gives the contents and the position after the closing quote.
pub open spec fn string_scan(s: Seq<char>, p: int, quote: char) -> Option<(Seq<char>, int)>
    decreases s.len() - p,
{
    if p < 0 || p >= s.len() {
        None
    } else if s[p] == quote {
        if p + 1 < s.len() && s[p + 1] == quote {
            match string_scan(s, p + 2, quote) {
                Some((t, e)) => Some((seq![quote] + t, e)),
                None => None,
            }
        } else {
            Some((Seq::empty(), p + 1))
        }
    } else {
        match string_scan(s, p + 1, quote) {
            Some((t, e)) => Some((seq![s[p]] + t, e)),
            None => None,
        }
    }
}

/// The token that starts at position `p` of `s`, once blanks and a comment are skipped.
pub open spec fn lex(s: Seq<char>, p: int) -> Lexed {
    lex_from(s, blank_end(s, p))
}

/// The token that starts exactly at position `q` of `s`.
pub open spec fn lex_from(s: Seq<char>, q: int) -> Lexed {
    if q < 0 || q >= s.len() {
        Lexed::Token(TokenKind::EndOfFile, Seq::empty(), q)
    } else {
        let c = s[q];
        if is_newline_char(c) {
            if c == '\r' && q + 1 < s.len() && s[q + 1] == '\n' {
                Lexed::Token(TokenKind::Newline, s.subrange(q, q + 2), q + 2)
            } else {
                Lexed::Token(TokenKind::Newline, seq![c], q + 1)
            }
        } else if c == '.' && !(q + 1 < s.len() && is_digit(s[q + 1])) {
            Lexed::Token(TokenKind::Primitive, seq![c], q + 1)
        } else if is_number_start(c) {
            let e = number_end(s, q + 1);
            if valid_number(s.subrange(q, e)) {
                Lexed::Token(TokenKind::Number, s.subrange(q, e), e)
            } else {
                Lexed::Failure(AplError::InvalidNumber)
            }
        } else if is_quote(c) {
            match string_scan(s, q + 1, c) {
                Some((t, e)) => Lexed::Token(TokenKind::String, t, e),
                None => Lexed::Failure(AplError::UnterminatedString),
            }
        } else if is_primitive_glyph(c) {
            if c == '∘' && q + 1 < s.len() && s[q + 1] == '.' {
                Lexed::Token(TokenKind::Primitive, s.subrange(q, q + 2), q + 2)
            } else {
                Lexed::Token(TokenKind::Primitive, seq![c], q + 1)
            }
        } else if is_variable_char(c) {
            let e = variable_end(s, q + 1);
            Lexed::Token(TokenKind::Variable, s.subrange(q, e), e)
        } else {
            Lexed::Failure(AplError::UnknownCharacter(c))
        }
    }
}

/// The text from `p` on without spaces and comments; `in_comment` says whether
/// position `p` lies inside a comment.
pub open spec fn stripped(s: Seq<char>, p: int, in_comment: bool) -> Seq<char>
    decreases s.len() - p,
{
    if p < 0 || p >= s.len() {
        Seq::empty()
    } else if in_comment {
        if is_newline_char(s[p]) {
            seq![s[p]] + stripped(s, p + 1, false)
        } else {
            stripped(s, p + 1, true)
        }
    } else if s[p] == ' ' {
        stripped(s, p + 1, false)
    } else if s[p] == '⍝' {
        stripped(s, p + 1, true)
    } else {
        seq![s[p]] + stripped(s, p + 1, false)
    }
}

/// A token as the specification sees it: its kind and its text.
pub type TokenView = (TokenKind, Seq<char>);

/// All tokens from position `p` to the end of the text, without the final
/// end-of-file token; or the first failure.
pub open spec fn lex_all(s: Seq<char>, p: int) -> Result<Seq<TokenView>, AplError>
    decreases s.len() - p,
    via lex_all_decreases
{
    if p < 0 || p > s.len() {
        Ok(Seq::empty())
    } else {
        match lex(s, p) {
            Lexed::Failure(err) => Err(err),
            Lexed::Token(kind, text, e) => {
                if kind == TokenKind::EndOfFile {
                    Ok(Seq::empty())
                } else {
                    match lex_all(s, e) {
                        Ok(rest) => Ok(seq![(kind, text)] + rest),
                        Err(err) => Err(err),
                    }
                }
            },
        }
    }
}

#[via_fn]
proof fn lex_all_decreases(s: Seq<char>, p: int) {
    if 0 <= p <= s.len() {
        lemma_lex_progress(s, p);
    }
}

/// The texts of the tokens, one after the other.
pub open spec fn joined_texts(ts: Seq<TokenView>) -> Seq<char>
    decreases ts.len(),
{
    if ts.len() == 0 {
        Seq::empty()
    } else {
        ts[0].1 + joined_texts(ts.drop_first())
    }
}

pub open spec fn has_no_quotes(s: Seq<char>) -> bool {
    forall|i: int| 0 <= i < s.len() ==> !is_quote(#[trigger] s[i])
}

pub proof fn lemma_spaces_end(s: Seq<char>, p: int)
    requires
        0 <= p <= s.len(),
    ensures
        p <= spaces_end(s, p) <= s.len(),
        stripped(s, p, false) == stripped(s, spaces_end(s, p), false),
        spaces_end(s, p) < s.len() ==> s[spaces_end(s, p)] != ' ',
    decreases s.len() - p,
{
    if p < s.len() && s[p] == ' ' {
        lemma_spaces_end(s, p + 1);
    }
}

pub proof fn lemma_comment_end(s: Seq<char>, p: int)
    requires
        0 <= p <= s.len(),
    ensures
        p <= comment_end(s, p) <= s.len(),
        stripped(s, p, true) == stripped(s, comment_end(s, p), false),
    decreases s.len() - p,
{
    if p < s.len() && !is_newline_char(s[p]) {
        lemma_comment_end(s, p + 1);
    }
}

pub proof fn lemma_blank_end(s: Seq<char>, p: int)
    requires
        0 <= p <= s.len(),
    ensures
        p <= blank_end(s, p) <= s.len(),
        stripped(s, p, false) == stripped(s, blank_end(s, p), false),
{
    lemma_spaces_end(s, p);
    let q = spaces_end(s, p);
    if q < s.len() && s[q] == '⍝' {
        lemma_comment_end(s, q);
        assert(stripped(s, q, true) == stripped(s, q + 1, true));
    }
}

/// Text without spaces or comment marks is kept as it is.
pub proof fn lemma_plain_run(s: Seq<char>, a: int, b: int)
    requires
        0 <= a <= b <= s.len(),
        forall|i: int| a <= i < b ==> s[i] != ' ' && s[i] != '⍝',
    ensures
        stripped(s, a, false) == s.subrange(a, b) + stripped(s, b, false),
    decreases b - a,
{
    if a < b {
        lemma_plain_run(s, a + 1, b);
        assert(s.subrange(a, b) =~= seq![s[a]] + s.subrange(a + 1, b));
    } else {
        assert(s.subrange(a, b) =~= Seq::<char>::empty());
    }
}

pub proof fn lemma_string_scan_bounds(s: Seq<char>, p: int, quote: char)
    requires
        0 <= p,
    ensures
        string_scan(s, p, quote) matches Some((t, e)) ==> p < e <= s.len(),
    decreases s.len() - p,
{
    if 0 <= p < s.len() {
        if s[p] == quote {
            if p + 1 < s.len() && s[p + 1] == quote {
                lemma_string_scan_bounds(s, p + 2, quote);
            }
        } else {
            lemma_string_scan_bounds(s, p + 1, quote);
        }
    }
}

/// Each token but the last ends further on than it starts, and none ends past the text.
pub proof fn lemma_lex_progress(s: Seq<char>, p: int)
    requires
        0 <= p <= s.len(),
    ensures
        lex(s, p) matches Lexed::Token(kind, text, e) ==> {
            &&& p <= e <= s.len()
            &&& kind != TokenKind::EndOfFile ==> p < e
            &&& kind == TokenKind::EndOfFile ==> e == s.len()
        },
{
    lemma_blank_end(s, p);
    let q = blank_end(s, p);
    if q < s.len() {
        lemma_number_end_bounds(s, q + 1);
        lemma_variable_end_bounds(s, q + 1);
        lemma_string_scan_bounds(s, q + 1, s[q]);
    }
}

/// Each token other than a string literal is the stripped text it was read from.
pub proof fn lemma_lex_strips(s: Seq<char>, p: int)
    requires
        0 <= p <= s.len(),
    ensures
        lex(s, p) matches Lexed::Token(kind, text, e) ==> (kind != TokenKind::String ==> stripped(
            s,
            p,
            false,
        ) == text + stripped(s, e, false)),
{
    lemma_blank_end(s, p);
    let q = blank_end(s, p);
    if q < s.len() {
        let c = s[q];
        lemma_number_end_bounds(s, q + 1);
        lemma_variable_end_bounds(s, q + 1);
        if is_newline_char(c) || is_primitive_glyph(c) {
            if q + 1 < s.len() && ((c == '\r' && s[q + 1] == '\n') || (c == '∘' && s[q + 1] == '.')) {
                lemma_plain_run(s, q, q + 2);
            }
            lemma_plain_run(s, q, q + 1);
            assert(s.subrange(q, q + 1) =~= seq![c]);
        } else if c == '.' {
            lemma_plain_run(s, q, q + 1);
            assert(s.subrange(q, q + 1) =~= seq![c]);
            lemma_plain_run(s, q, number_end(s, q + 1));
        } else if is_number_start(c) {
            lemma_plain_run(s, q, number_end(s, q + 1));
        } else if is_variable_char(c) {
            lemma_plain_run(s, q, variable_end(s, q + 1));
        }
    } else {
        assert(stripped(s, q, false) == Seq::<char>::empty());
    }
    match lex(s, p) {
        Lexed::Token(kind, text, e) => {
            if kind == TokenKind::EndOfFile {
                assert(text + stripped(s, e, false) =~= stripped(s, e, false));
            }
        },
        _ => {},
    }
}

/// Joining the texts of all tokens gives back the text without its spaces and
/// comments, wherever the text holds no string literal.
pub proof fn lemma_tokens_rejoin_to_source(s: Seq<char>, p: int)
    requires
        0 <= p <= s.len(),
        has_no_quotes(s),
        lex_all(s, p) is Ok,
    ensures
        joined_texts(lex_all(s, p)->Ok_0) == stripped(s, p, false),
    decreases s.len() - p,
{
    lemma_lex_progress(s, p);
    lemma_lex_strips(s, p);
    lemma_blank_end(s, p);
    let q = blank_end(s, p);
    if q < s.len() {
        assert(!is_quote(s[q]));
    }
    match lex(s, p) {
        Lexed::Token(kind, text, e) => {
            if kind == TokenKind::EndOfFile {
                assert(joined_texts(Seq::<TokenView>::empty()) == Seq::<char>::empty());
            } else {
                lemma_tokens_rejoin_to_source(s, e);
                let rest = lex_all(s, e)->Ok_0;
                let all = seq![(kind, text)] + rest;
                assert(all.drop_first() =~= rest);
            }
        },
        _ => {},
    }
}

} // verus!
