use rust_apl::error::AplError;
use rust_apl::nodes::{node_to_string, Node};
use rust_apl::parser::Parser;

fn parse(text: &str) -> Result<Box<Node>, AplError> {
    Parser::new(text.to_string()).parse_next_statement()
}

#[test]
fn the_rightmost_application_binds_first() {
    let node = parse("1+2×3").unwrap();
    match *node {
        Node::Addition(_, left, right) => {
            assert!(matches!(*left, Node::Array(ref t) if t.len() == 1));
            assert!(matches!(*right, Node::Multiplication(..)));
        }
        other => panic!("unexpected tree {:?}", other),
    }
}

#[test]
fn a_run_of_numbers_is_one_array() {
    let node = parse("1 2 3").unwrap();
    assert!(matches!(*node, Node::Array(ref t) if t.len() == 3));
}

#[test]
fn a_monadic_glyph_applies_to_the_whole_rest() {
    let node = parse("-1+2").unwrap();
    match *node {
        Node::Negate(_, operand) => assert!(matches!(*operand, Node::Addition(..))),
        other => panic!("unexpected tree {:?}", other),
    }
}

#[test]
fn glyph_aliases_select_the_same_primitive() {
    assert!(matches!(*parse("1−2").unwrap(), Node::Subtraction(..)));
    assert!(matches!(*parse("1-2").unwrap(), Node::Subtraction(..)));
    assert!(matches!(*parse("*1").unwrap(), Node::Exponential(..)));
    assert!(matches!(*parse("∣1").unwrap(), Node::Magnitude(..)));
}

#[test]
fn names_and_zilde_are_leaves() {
    assert!(matches!(*parse("abc").unwrap(), Node::Variable(_)));
    assert!(matches!(*parse("⍬").unwrap(), Node::Zilde(_)));
}

#[test]
fn missing_operands_and_unknown_operators_are_errors() {
    assert_eq!(parse("").err(), Some(AplError::EndOfInput));
    assert_eq!(parse("2×").err(), Some(AplError::UnexpectedEndOfSource));
    assert_eq!(parse("1<2").err(), Some(AplError::UnknownOperator));
    assert_eq!(parse("(2)").err(), Some(AplError::NotImplemented));
}

#[test]
fn a_tree_can_be_shown() {
    let text = node_to_string(&parse("1+2").unwrap());
    assert!(text.contains("Addition"));
}
