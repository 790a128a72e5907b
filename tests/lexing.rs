use rust_apl::error::AplError;
use rust_apl::tokenizer::{tokenize, Token, Tokenizer};

fn texts(tokens: &[Token]) -> Vec<String> {
    tokens
        .iter()
        .map(|t| match t {
            Token::Number(d) | Token::Newline(d) | Token::String(d) | Token::Primitive(d) | Token::Variable(d) => {
                d.string.clone()
            }
            Token::EndOfFile => String::new(),
        })
        .collect()
}

fn kinds(tokens: &[Token]) -> Vec<&'static str> {
    tokens
        .iter()
        .map(|t| match t {
            Token::Number(_) => "number",
            Token::Newline(_) => "newline",
            Token::String(_) => "string",
            Token::Primitive(_) => "primitive",
            Token::Variable(_) => "variable",
            Token::EndOfFile => "end",
        })
        .collect()
}

#[test]
fn token_texts_rejoin_to_the_source_without_blanks_and_comments() {
    let source = "1 2+3 ⍝ a note\n¯1.5J2×abc ∘.x\r\n";
    let tokens = tokenize(source.to_string()).unwrap();
    assert_eq!(texts(&tokens).concat(), "12+3\n¯1.5J2×abc∘.x\r\n");
}

#[test]
fn tokens_are_classified() {
    let tokens = tokenize("12 .5 ab + . ⍬\n".to_string()).unwrap();
    assert_eq!(kinds(&tokens), vec!["number", "number", "variable", "primitive", "primitive", "primitive", "newline"]);
    assert_eq!(texts(&tokens), vec!["12", ".5", "ab", "+", ".", "⍬", "\n"]);
}

#[test]
fn numbers_follow_the_literal_syntax() {
    let tokens = tokenize("¯3 4.25 3J4 ¯1J¯2.5 5.J3".to_string()).unwrap();
    assert_eq!(texts(&tokens), vec!["¯3", "4.25", "3J4", "¯1J¯2.5", "5.J3"]);
    for bad in ["1.2.3", "1J2J3", "1¯2", "¯¯1", "3.", "3J", "¯"] {
        assert_eq!(tokenize(bad.to_string()).err(), Some(AplError::InvalidNumber), "{}", bad);
    }
}

#[test]
fn strings_keep_doubled_quotes_as_one() {
    let tokens = tokenize("'it''s' \"a\"".to_string()).unwrap();
    assert_eq!(kinds(&tokens), vec!["string", "string"]);
    assert_eq!(texts(&tokens), vec!["it's", "a"]);
}

#[test]
fn an_unclosed_string_is_an_error() {
    assert_eq!(tokenize("'abc".to_string()).err(), Some(AplError::UnterminatedString));
}

#[test]
fn an_unknown_character_is_an_error() {
    assert_eq!(tokenize("1 § 2".to_string()).err(), Some(AplError::UnknownCharacter('§')));
}

#[test]
fn line_breaks_are_tokens_of_their_own() {
    let tokens = tokenize("\r\r\n\n".to_string()).unwrap();
    assert_eq!(texts(&tokens), vec!["\r", "\r\n", "\n"]);
}

#[test]
fn the_end_of_the_text_repeats() {
    let mut tokenizer = Tokenizer::new("7".to_string());
    assert!(matches!(tokenizer.read_next_token(), Ok(Token::Number(_))));
    assert!(matches!(tokenizer.read_next_token(), Ok(Token::EndOfFile)));
    assert!(matches!(tokenizer.read_next_token(), Ok(Token::EndOfFile)));
}
