use minicobol::entities::{FPoint, Kind, PointState, Token};
use minicobol::grammar::{keyword_table, precedence_table};
use minicobol::merge::merge_lines;
use minicobol::parser::parser;
use minicobol::scanner::tokenizer;
use minicobol::utility::s_hash;
use std::collections::BTreeMap;

fn front_end(lines: &[&str]) -> (Vec<FPoint>, bool, BTreeMap<i16, Token>) {
    let mut table = keyword_table();
    let mut scans = Vec::new();
    for (i, line) in lines.iter().enumerate() {
        scans.push(tokenizer(line.to_string(), (i + 1) as u32));
    }
    let points = merge_lines(scans, &mut table);
    let prec = precedence_table();
    let (out, unclosed) = parser(points, &mut table, &prec);
    (out, unclosed, table)
}

fn errors(out: &[FPoint]) -> Vec<String> {
    out.iter()
        .filter_map(|p| match &p.state {
            PointState::Error(e) => Some(e.clone()),
            _ => None,
        })
        .collect()
}

#[test]
fn set_statement_program_is_clean() {
    let (out, unclosed, table) = front_end(&[
        "program P ; data division ; x : integer ; end ; procedure division ; set x to 5 ; end ;",
    ]);
    assert!(errors(&out).is_empty(), "{:?}", out);
    assert!(!unclosed);
    assert!(matches!(table.get(&s_hash("x")), Some(Token::Var(Kind::Integer))));
    let merged: Vec<&FPoint> = out
        .iter()
        .filter(|p| p.state == PointState::ParsedToken(s_hash("=")))
        .collect();
    assert_eq!(merged.len(), 1);
    assert_eq!(merged[0].meta_data.raw, "set x to ");
    assert!(out.iter().any(|p| p.state == PointState::ParsedToken(s_hash("x")) && p.meta_data.raw == "x"));
    assert!(out.iter().any(|p| p.state == PointState::ParsedToken(s_hash("5")) && p.meta_data.raw == "5"));
}

#[test]
fn duplicate_name_in_one_clause() {
    let (out, unclosed, _) = front_end(&["program P ; data division ; x , x : integer ; end ;"]);
    assert_eq!(errors(&out), vec!["cannot redefine variables".to_string()]);
    assert!(!unclosed);
    let e = out.iter().find(|p| matches!(p.state, PointState::Error(_))).unwrap();
    assert_eq!(e.meta_data.raw, "x , x : integer ; ");
}

#[test]
fn comment_across_lines_hides_its_content() {
    let (out, unclosed, table) = front_end(&["/* start", "end */ program P ;"]);
    assert!(errors(&out).is_empty());
    assert!(!unclosed);
    assert_eq!(out.len(), 1);
    assert_eq!(out[0].state, PointState::ParsedToken(s_hash("program")));
    assert_eq!(out[0].meta_data.raw, "program P ; ");
    assert_eq!(out[0].meta_data.line, 2);
    assert!(!table.contains_key(&s_hash("start")));
    assert!(matches!(table.get(&s_hash("P")), Some(Token::Pred)));
}

#[test]
fn too_short_input_has_no_program() {
    let (out, unclosed, _) = front_end(&["program P"]);
    assert_eq!(out.len(), 1);
    assert_eq!(out[0].state, PointState::Error("no program found".to_string()));
    assert_eq!(out[0].meta_data.raw, "no program found ");
    assert_eq!(out[0].meta_data.line, 1);
    assert!(!unclosed);
}

#[test]
fn empty_input_has_no_program() {
    let (out, unclosed, _) = front_end(&[]);
    assert_eq!(errors(&out), vec!["no program found".to_string()]);
    assert!(!unclosed);
}

#[test]
fn wrong_header_is_bad_input() {
    let (out, unclosed, _) = front_end(&["module P ; data division ;"]);
    assert_eq!(out.len(), 1);
    assert_eq!(out[0].state, PointState::Error("bad input".to_string()));
    assert_eq!(out[0].meta_data.raw, "module P P ");
    assert!(!unclosed);
}

#[test]
fn redeclaring_a_declared_variable() {
    let (out, _, table) = front_end(&[
        "program P ; data division ; x : float ; end ; data division ; x : char ; end ;",
    ]);
    assert_eq!(errors(&out), vec!["cannot redefine variables".to_string()]);
    assert!(matches!(table.get(&s_hash("x")), Some(Token::Var(Kind::Float))));
}

#[test]
fn declaring_a_predefined_name() {
    let (out, _, table) = front_end(&["program P ; data division ; P : integer ; end ;"]);
    assert_eq!(errors(&out), vec!["cannot use predefined or literal expressions".to_string()]);
    assert!(matches!(table.get(&s_hash("P")), Some(Token::Pred)));
}

#[test]
fn declaring_a_keyword() {
    let (out, _, _) = front_end(&["program P ; data division ; to : integer ; end ;"]);
    assert_eq!(errors(&out), vec!["cannot use predefined or literal expressions".to_string()]);
}

#[test]
fn failed_clause_leaves_table_unchanged() {
    let (out, _, table) = front_end(&["program P ; data division ; y , P : integer ; end ;"]);
    assert_eq!(errors(&out).len(), 1);
    assert!(matches!(table.get(&s_hash("y")), Some(Token::Und)));
}

#[test]
fn unknown_type_keyword() {
    let (out, _, _) = front_end(&["program P ; data division ; x : string ; end ;"]);
    assert_eq!(errors(&out), vec!["type must be: integer or float or char".to_string()]);
}

#[test]
fn malformed_declaration() {
    let (out, _, _) = front_end(&["program P ; data division ; x integer ; end ;"]);
    assert_eq!(errors(&out), vec!["expected: <var> ,... : <type>;".to_string()]);
}

#[test]
fn set_with_mismatched_kind() {
    let (out, _, _) = front_end(&[
        "program P ; data division ; x : integer ; end ; procedure division ; set x to 'a' ; end ;",
    ]);
    assert_eq!(errors(&out), vec!["wrong type of variable or literal".to_string()]);
}

#[test]
fn set_with_mismatched_variable() {
    let (out, _, _) = front_end(&[
        "program P ; data division ; x : integer ; c : char ; end ; procedure division ; set x to c ; end ;",
    ]);
    assert_eq!(errors(&out), vec!["wrong type of variable or literal".to_string()]);
}

#[test]
fn expression_keeps_source_order() {
    let (out, unclosed, _) = front_end(&[
        "program P ; data division ; x : integer ; end ; procedure division ; set x to 1 + 2 * 3 ; end ;",
    ]);
    assert!(errors(&out).is_empty(), "{:?}", out);
    assert!(!unclosed);
    let at = out
        .iter()
        .position(|p| p.state == PointState::ParsedToken(s_hash("=")))
        .unwrap();
    let raws: Vec<&str> = out[at + 1..at + 6].iter().map(|p| p.meta_data.raw.as_str()).collect();
    assert_eq!(raws, vec!["1", "+", "2", "*", "3"]);
}

#[test]
fn set_of_undeclared_variable() {
    let (out, _, _) = front_end(&[
        "program P ; procedure division ; set y to 5 ; end ;",
    ]);
    assert_eq!(errors(&out), vec!["expected: set <var> to".to_string()]);
}

#[test]
fn get_and_put_declared_variables() {
    let (out, unclosed, _) = front_end(&[
        "program P ; data division ; a , b : integer ; end ; procedure division ; get a , b ; put a ; end ;",
    ]);
    assert!(errors(&out).is_empty(), "{:?}", out);
    assert!(!unclosed);
    assert!(out.iter().any(|p| p.state == PointState::ParsedToken(s_hash("get"))));
    assert!(out.iter().any(|p| p.state == PointState::ParsedToken(s_hash("put"))));
}

#[test]
fn get_of_undefined_variable() {
    let (out, _, _) = front_end(&["program P ; procedure division ; get z ; end ;"]);
    assert_eq!(errors(&out), vec!["cannot use undefined variables".to_string()]);
}

#[test]
fn put_of_literal() {
    let (out, _, _) = front_end(&["program P ; procedure division ; put 5 ; end ;"]);
    assert_eq!(errors(&out), vec!["cannot use predefined or literal expressions".to_string()]);
}

#[test]
fn unclosed_division_is_reported() {
    let (out, unclosed, _) = front_end(&["program P ; procedure division ;"]);
    assert!(errors(&out).is_empty());
    assert!(unclosed);
}

#[test]
fn data_header_without_division() {
    let (out, _, _) = front_end(&["program P ; data x ; end ;"]);
    assert_eq!(errors(&out)[0], "expected: data division;".to_string());
}

#[test]
fn counted_repeat_loop() {
    let (out, unclosed, _) = front_end(&[
        "program P ; data division ; x : integer ; end ; procedure division ;",
        "repeat { set x to 1 ; } 3 times ; end ;",
    ]);
    assert!(errors(&out).is_empty(), "{:?}", out);
    assert!(!unclosed);
    assert!(out.iter().any(|p| p.state == PointState::ParsedToken(s_hash("times"))));
}

#[test]
fn repeat_without_brace() {
    let (out, _, _) = front_end(&["program P ; procedure division ; repeat x ; end ;"]);
    assert_eq!(errors(&out)[0], "expected: repeat {".to_string());
}

#[test]
fn conditional_execute_loop() {
    let (out, unclosed, _) = front_end(&[
        "program P ; data division ; x : integer ; end ; procedure division ;",
        "execute { } either x LT 5 ; end ;",
    ]);
    assert!(out.iter().any(|p| p.state == PointState::ParsedToken(s_hash("either"))));
    assert!(out.iter().any(|p| p.state == PointState::ParsedToken(s_hash("LT"))));
    let _ = unclosed;
}

#[test]
fn bad_relational_operator() {
    let (out, _, _) = front_end(&[
        "program P ; data division ; x : integer ; end ; procedure division ;",
        "execute { } either x ; 5 ; end ; end ;",
    ]);
    assert!(errors(&out).contains(&"expected: LT or LE or GT or GE or NE or EQ".to_string()));
}

#[test]
fn end_without_semicolon() {
    let (out, _, _) = front_end(&["program P ; data division ; end x"]);
    assert_eq!(errors(&out)[0], "expected: end;".to_string());
}

#[test]
fn end_as_last_point() {
    let (out, unclosed, _) = front_end(&["program P ; data division ; end"]);
    assert_eq!(errors(&out), vec!["bad input".to_string()]);
    assert!(unclosed);
}

#[test]
fn procedure_header_without_division() {
    let (out, _, _) = front_end(&["program P ; procedure x ; end ;"]);
    assert_eq!(errors(&out)[0], "expected: procedure division;".to_string());
}

#[test]
fn execute_without_brace() {
    let (out, _, _) = front_end(&["program P ; procedure division ; execute x ; end ;"]);
    assert_eq!(errors(&out)[0], "expected: execute {".to_string());
}

#[test]
fn set_closed_by_another_keyword() {
    let (out, _, _) = front_end(&[
        "program P ; data division ; x : integer ; end ; procedure division ; set x to 5 to ; end ;",
    ]);
    assert_eq!(errors(&out), vec!["expected: ;".to_string()]);
}

#[test]
fn get_without_separator() {
    let (out, _, _) = front_end(&[
        "program P ; data division ; a , b : integer ; end ; procedure division ; get a b ; end ;",
    ]);
    assert_eq!(errors(&out), vec!["expected: get <var> ,... ;".to_string()]);
    let e = out.iter().find(|p| matches!(p.state, PointState::Error(_))).unwrap();
    assert_eq!(e.meta_data.raw, "get a b ");
}

#[test]
fn condition_too_short() {
    let (out, _, _) = front_end(&[
        "program P ; data division ; x : integer ; end ; procedure division ;",
        "execute { } either x LT",
    ]);
    assert!(errors(&out).contains(&"bad input;".to_string()));
}

#[test]
fn undeclared_operand_in_expression() {
    let (out, _, _) = front_end(&[
        "program P ; data division ; x : integer ; end ; procedure division ; set x to y ; end ;",
    ]);
    assert_eq!(errors(&out), vec!["bad input".to_string()]);
}
