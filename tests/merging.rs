use minicobol::entities::Token;
use minicobol::grammar::keyword_table;
use minicobol::merge::merge_lines;
use minicobol::scanner::tokenizer;
use minicobol::utility::s_hash;

#[test]
fn lines_inside_a_comment_are_dropped() {
    let lines = ["a ;", "/* open", "hidden words", "still */ b", "c"];
    let scans: Vec<_> = lines
        .iter()
        .enumerate()
        .map(|(i, l)| tokenizer(l.to_string(), (i + 1) as u32))
        .collect();
    let mut table = keyword_table();
    let out = merge_lines(scans, &mut table);
    let raws: Vec<&str> = out.iter().map(|p| p.meta_data.raw.as_str()).collect();
    assert_eq!(raws, vec!["a", ";", "b", "c"]);
    assert!(!table.contains_key(&s_hash("hidden")));
    assert!(!table.contains_key(&s_hash("still")));
    assert!(table.contains_key(&s_hash("b")));
}

#[test]
fn keywords_keep_their_role() {
    let scans = vec![tokenizer("data x".to_string(), 1)];
    let mut table = keyword_table();
    merge_lines(scans, &mut table);
    assert!(matches!(table.get(&s_hash("data")), Some(Token::Pred)));
    assert!(matches!(table.get(&s_hash("x")), Some(Token::Und)));
}
