use conlang::ast::{IdGen, NumberLit, Value};
use conlang::parser::{number, parse_value, word};

/// Turns digit text into an integer, one digit at a time.
fn str_to_int(s: &str) -> u32 {
    let mut n: u32 = 0;
    for c in s.chars() {
        n *= 10;
        n += c.to_digit(10).unwrap();
    }
    n
}

/// The floating-point magnitude a parsed number literal denotes: the
/// whole-part digits accumulated left to right, the fractional digits
/// divided by ten to the number of fractional digits, the total multiplied
/// by ten to the exponent, negated for a negative sign.
fn lit_to_f64(lit: &NumberLit) -> f64 {
    let mut n = f64::from(str_to_int(&lit.whole));
    if let Some(frac) = &lit.frac {
        let numerator = f64::from(str_to_int(frac));
        let denominator = (10.0f64).powi(frac.chars().count() as i32);
        n += numerator / denominator;
    }
    if let Some(exp) = &lit.exp {
        n *= (10.0f64).powi(str_to_int(exp) as i32);
    }
    if lit.negative {
        n *= -1.0;
    }
    n
}

#[test]
fn parse_number() {
    let (lit, j) = number("123 ", 0).unwrap();
    assert!(lit_to_f64(&lit) == 123.0);
    assert_eq!(&"123 "[j..], " ");
    let (lit, j) = number("123.4 ", 0).unwrap();
    assert!(lit_to_f64(&lit) == 123.4);
    assert_eq!(&"123.4 "[j..], " ");
    let (lit, j) = number("123e4 ", 0).unwrap();
    assert!(lit_to_f64(&lit) == 123.0e4);
    assert_eq!(&"123e4 "[j..], " ");
}

#[test]
fn parse_word() {
    let (v, j) = word("asdf ", 0).unwrap();
    assert!(v == Value::make_word("asdf"));
    assert_eq!(&"asdf "[j..], " ");
    let (v, j) = word("foo_bar_baz ", 0).unwrap();
    assert!(v == Value::make_word("foo_bar_baz"));
    assert_eq!(&"foo_bar_baz "[j..], " ");
}

#[test]
fn number_keeps_the_digit_run() {
    let (lit, j) = number("0042 ", 0).unwrap();
    assert_eq!(lit.whole, "0042");
    assert!(!lit.negative);
    assert!(lit.frac.is_none());
    assert!(lit.exp.is_none());
    assert_eq!(j, 4);
    assert!(lit_to_f64(&lit) == 42.0);
}

#[test]
fn negative_number() {
    let (lit, j) = number("-5 ", 0).unwrap();
    assert!(lit_to_f64(&lit) == -5.0);
    assert_eq!(&"-5 "[j..], " ");
}

#[test]
fn number_needs_a_digit_run() {
    assert!(number("abc ", 0).is_none());
    assert!(number("+x ", 0).is_none());
    assert!(number(" 1 ", 0).is_none());
}

#[test]
fn word_stops_before_each_terminator() {
    for t in ['.', ':', ',', ' ', '\t', '\n', ')', ']', '}', '"', '\''] {
        let input = format!("ab{}cd", t);
        let (v, j) = word(&input, 0).unwrap();
        assert!(v == Value::make_word("ab"));
        assert_eq!(j, 2);
    }
}

#[test]
fn word_must_be_non_empty() {
    assert!(word(": x", 0).is_none());
    assert!(word("", 0).is_none());
}

#[test]
fn complement_zero_parts_is_the_head() {
    let mut ids = IdGen::new();
    let (v, j) = parse_value("x:1", 0, &mut ids).unwrap();
    assert_eq!(j, 3);
    match v {
        Value::Number(lit) => assert!(lit_to_f64(&lit) == 1.0),
        _ => panic!("expected the bare head value, not a pair"),
    }
}

#[test]
fn complement_one_part_is_a_pair() {
    let mut ids = IdGen::new();
    let (v, j) = parse_value("x:1.5x:2.5", 0, &mut ids).unwrap();
    assert_eq!(j, 10);
    match v {
        Value::Complement(_, p) => match (&p.head, &p.tail) {
            (Value::Number(h), Value::Number(t)) => {
                assert!(lit_to_f64(h) == 1.5);
                assert!(lit_to_f64(t) == 2.5);
            },
            _ => panic!("expected number head and number tail"),
        },
        _ => panic!("expected a pair"),
    }
}

#[test]
fn complement_many_parts_tail_is_one_sequence() {
    let mut ids = IdGen::new();
    let (v, j) = parse_value("x:1.5x:2.5x:3.5", 0, &mut ids).unwrap();
    assert_eq!(j, 15);
    match v {
        Value::Complement(_, p) => {
            match &p.head {
                Value::Number(h) => assert!(lit_to_f64(h) == 1.5),
                _ => panic!("expected a number head"),
            }
            match &p.tail {
                Value::Sequence(items) => {
                    assert_eq!(items.len(), 2);
                    match (&items[0], &items[1]) {
                        (Value::Number(a), Value::Number(b)) => {
                            assert!(lit_to_f64(a) == 2.5);
                            assert!(lit_to_f64(b) == 3.5);
                        },
                        _ => panic!("expected number parts"),
                    }
                },
                _ => panic!("expected a sequence tail, not nested pairs"),
            }
        },
        _ => panic!("expected a pair"),
    }
}

#[test]
fn sequence_with_one_consistent_delimiter() {
    let mut ids = IdGen::new();
    let (v, j) = parse_value(",1,2,3 ", 0, &mut ids).unwrap();
    assert_eq!(j, 6);
    match v {
        Value::Sequence(items) => {
            assert_eq!(items.len(), 3);
            for (k, want) in [1.0, 2.0, 3.0].iter().enumerate() {
                match &items[k] {
                    Value::Number(lit) => assert!(lit_to_f64(lit) == *want),
                    _ => panic!("expected a number element"),
                }
            }
        },
        _ => panic!("expected a sequence"),
    }
}

#[test]
fn sequence_ends_at_a_different_delimiter() {
    let mut ids = IdGen::new();
    let (v, j) = parse_value(",1,2;3 ", 0, &mut ids).unwrap();
    assert_eq!(j, 4);
    match v {
        Value::Sequence(items) => assert_eq!(items.len(), 2),
        _ => panic!("expected a sequence"),
    }
}

#[test]
fn sequence_discards_whitespace_after_its_delimiter() {
    let mut ids = IdGen::new();
    let (v, j) = parse_value(", 1, 2 ", 0, &mut ids).unwrap();
    assert_eq!(j, 6);
    match v {
        Value::Sequence(items) => assert_eq!(items.len(), 2),
        _ => panic!("expected a sequence"),
    }
}

#[test]
fn bare_list_without_leading_delimiter_is_no_sequence() {
    let mut ids = IdGen::new();
    let (v, j) = parse_value("1,2,3", 0, &mut ids).unwrap();
    assert_eq!(j, 1);
    assert!(matches!(v, Value::Number(_)));
}
