use minicobol::entities::{PointState, Token, VariableType};
use minicobol::scanner::tokenizer;
use minicobol::utility::s_hash;

#[test]
fn interning_is_deterministic() {
    assert_eq!(s_hash("data"), s_hash("data"));
    assert_ne!(s_hash("data"), s_hash("procedure"));
}

#[test]
fn words_and_punctuation() {
    let (pts, syms, delta) = tokenizer("set x to y;".to_string(), 7);
    let raws: Vec<&str> = pts.iter().map(|p| p.meta_data.raw.as_str()).collect();
    assert_eq!(raws, vec!["set", "x", "to", "y", ";"]);
    assert!(pts.iter().all(|p| p.meta_data.line == 7));
    assert_eq!(pts[1].state, PointState::Token(s_hash("x")));
    assert_eq!(pts[4].state, PointState::Token(s_hash(";")));
    assert_eq!(syms.len(), 4);
    assert!(matches!(syms[0].1, Token::Und));
    assert_eq!(delta, 0);
}

#[test]
fn punctuation_is_keyed_by_itself() {
    let (pts, syms, _) = tokenizer("|=".to_string(), 1);
    assert_eq!(pts[0].state, PointState::Token(s_hash("|")));
    assert_eq!(pts[1].state, PointState::Token(s_hash("=")));
    assert_eq!(pts[0].meta_data.raw, "|");
    assert!(syms.is_empty());
}

#[test]
fn character_literal() {
    let (pts, syms, _) = tokenizer("'a'".to_string(), 1);
    assert_eq!(pts.len(), 1);
    assert_eq!(pts[0].state, PointState::Token(s_hash("'a'")));
    assert!(matches!(syms[0].1, Token::Lit(VariableType::Character('a'))));
}

#[test]
fn bad_character_literal() {
    let (pts, syms, _) = tokenizer("'ab' x".to_string(), 1);
    assert_eq!(pts[0].state, PointState::Error("Wrong literal character type".to_string()));
    assert_eq!(pts[0].meta_data.raw, "'ab");
    assert_eq!(pts[1].meta_data.raw, "x");
    assert_eq!(syms.len(), 1);
}

#[test]
fn integer_and_float_literals() {
    let (pts, syms, _) = tokenizer("42 3.5 7.2.1".to_string(), 1);
    let raws: Vec<&str> = pts.iter().map(|p| p.meta_data.raw.as_str()).collect();
    assert_eq!(raws, vec!["42", "3.5", "7.21"]);
    assert!(matches!(syms[0].1, Token::Lit(VariableType::Integer(42))));
    match &syms[1].1 {
        Token::Lit(VariableType::Float(t)) => assert_eq!(t, "3.5"),
        other => panic!("{:?}", other),
    }
}

#[test]
fn largest_integer_and_overflow() {
    let (pts, syms, _) = tokenizer("2147483647 2147483648".to_string(), 1);
    assert!(matches!(syms[0].1, Token::Lit(VariableType::Integer(2147483647))));
    assert_eq!(syms.len(), 1);
    assert_eq!(pts[1].state, PointState::Error("Could no parse the integer type".to_string()));
}

#[test]
fn comment_opening_stops_the_line() {
    let (pts, _, delta) = tokenizer("a /* b */ c".to_string(), 1);
    let raws: Vec<&str> = pts.iter().map(|p| p.meta_data.raw.as_str()).collect();
    assert_eq!(raws, vec!["a"]);
    assert_eq!(delta, 1);
}

#[test]
fn comment_closing_drops_what_came_before() {
    let (pts, syms, delta) = tokenizer("a b */ c ;".to_string(), 1);
    let raws: Vec<&str> = pts.iter().map(|p| p.meta_data.raw.as_str()).collect();
    assert_eq!(raws, vec!["c", ";"]);
    assert_eq!(syms.len(), 1);
    assert_eq!(delta, -1);
}

#[test]
fn empty_line() {
    let (pts, syms, delta) = tokenizer(String::new(), 3);
    assert!(pts.is_empty());
    assert!(syms.is_empty());
    assert_eq!(delta, 0);
}
