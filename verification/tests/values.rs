use conlang::ast::{IdGen, NumberLit, Value};

fn number_one() -> Value {
    Value::Number(
        NumberLit { negative: false, whole: String::from("1"), frac: None, exp: None },
    )
}

#[test]
fn sequences_are_never_equal() {
    let a = Value::make_sequence(vec![number_one()]);
    let b = Value::make_sequence(vec![number_one()]);
    assert!(!(a == b));
    assert!(!(a == a));
}

#[test]
fn complements_compare_by_identity_only() {
    let mut ids = IdGen::new();
    let c1 = Value::make_complement(
        Value::make_word("head"),
        vec![Value::make_word("tail")],
        &mut ids,
    );
    let c2 = Value::make_complement(
        Value::make_word("head"),
        vec![Value::make_word("tail")],
        &mut ids,
    );
    assert!(!(c1 == c2));
    assert!(c1 == c1);
    assert!(c2 == c2);
}

#[test]
fn words_and_numbers_compare_structurally() {
    assert!(Value::make_word("foo") == Value::make_word("foo"));
    assert!(!(Value::make_word("foo") == Value::make_word("bar")));
    assert!(number_one() == number_one());
    let minus_one = Value::Number(
        NumberLit { negative: true, whole: String::from("1"), frac: None, exp: None },
    );
    assert!(!(number_one() == minus_one));
}

#[test]
fn nil_is_not_equal_to_nil() {
    assert!(!(Value::Nil == Value::Nil));
}

#[test]
fn make_complement_with_empty_tail_returns_the_head() {
    let mut ids = IdGen::new();
    let r = Value::make_complement(Value::make_word("head"), Vec::new(), &mut ids);
    assert!(r == Value::make_word("head"));
    assert!(matches!(r, Value::Word(_)));
}

#[test]
fn make_complement_with_two_parts_flattens_them() {
    let mut ids = IdGen::new();
    let r = Value::make_complement(
        Value::make_word("head"),
        vec![Value::make_word("a"), Value::make_word("b")],
        &mut ids,
    );
    match r {
        Value::Complement(_, p) => match &p.tail {
            Value::Sequence(items) => assert_eq!(items.len(), 2),
            _ => panic!("expected a sequence tail"),
        },
        _ => panic!("expected a pair"),
    }
}
