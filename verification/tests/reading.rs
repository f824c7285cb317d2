use conlang::ast::Value;
use conlang::parser::line_matches;
use conlang::reader::{repl, ConlangReader, ReaderError};

#[test]
fn reader_round_trip() {
    let mut r = ConlangReader::new(vec![String::from("asdf."), String::from("123.")]);
    match r.parse_next() {
        Ok(v) => assert!(v == Value::make_word("asdf")),
        Err(_) => panic!("expected a value from the first line"),
    }
    match r.parse_next() {
        Ok(v) => assert!(matches!(v, Value::Number(_))),
        Err(_) => panic!("expected a value from the second line"),
    }
    match r.parse_next() {
        Err(ReaderError::Eof) => (),
        _ => panic!("expected end of input"),
    }
}

#[test]
fn reader_reports_leftover_text() {
    let mut r = ConlangReader::new(vec![String::from("asdf. extra")]);
    match r.parse_next() {
        Err(ReaderError::TooMuchInput { line }) => assert_eq!(line, " extra"),
        _ => panic!("expected leftover input"),
    }
}

#[test]
fn reader_ends_with_eof() {
    let mut r = ConlangReader::new(Vec::new());
    match r.parse_next() {
        Err(ReaderError::Eof) => (),
        _ => panic!("expected end of input"),
    }
}

#[test]
fn repl_collects_values_until_the_first_report() {
    let mut r = ConlangReader::new(vec![
        String::from("1."),
        String::from("x:2."),
        String::from("3,"),
        String::from("4."),
    ]);
    let vs = repl(&mut r);
    assert_eq!(vs.len(), 2);
    assert!(matches!(&vs[0], Value::Number(_)));
    assert!(matches!(&vs[1], Value::Number(_)));
}

#[test]
fn lines_the_grammar_does_not_match() {
    assert!(!line_matches(""));
    assert!(!line_matches("   "));
    assert!(!line_matches(". x"));
    assert!(line_matches("asdf"));
    assert!(line_matches("x:1"));
    assert!(line_matches(",1,2"));
}
