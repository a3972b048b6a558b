use lua_interpreter::ast::{BinaryOperator, Expr, Stmt};
use lua_interpreter::number::Number;
use lua_interpreter::value::{Builtin, Coercion, Function, Outcome, Rendering, Value};
use std::rc::Rc;

fn num(n: f64) -> Value {
    Value::Number(Number { bits: n.to_bits() })
}

fn text(s: &str) -> Value {
    Value::String(s.to_string())
}

fn table(pairs: Vec<(Value, Value)>) -> Value {
    Value::Table(Rc::new(pairs))
}

fn function(parameters: &[&str], body: Vec<Stmt>) -> Value {
    Value::Function(Function::UserDefined {
        parameters: parameters.iter().map(|p| p.to_string()).collect(),
        body,
        closure: Vec::new(),
    })
}

fn native(builtin: Builtin) -> Value {
    Value::Function(Function::Native(builtin))
}

fn one_of_each() -> Vec<Value> {
    vec![
        Value::Nil,
        Value::Boolean(true),
        Value::Boolean(false),
        num(0.0),
        num(1.0),
        text(""),
        text("1"),
        table(Vec::new()),
        function(&[], Vec::new()),
        native(Builtin::Print),
    ]
}

fn done(outcome: Outcome) -> Value {
    match outcome {
        Outcome::Done(value) => value,
        other => panic!("{:?}", other),
    }
}

#[test]
fn only_nil_and_false_are_false() {
    assert!(!Value::Nil.is_truthy());
    assert!(!Value::Boolean(false).is_truthy());
    assert!(Value::Boolean(true).is_truthy());
    assert!(num(0.0).is_truthy());
    assert!(num(f64::NAN).is_truthy());
    assert!(text("").is_truthy());
    assert!(text("false").is_truthy());
    assert!(table(Vec::new()).is_truthy());
    assert!(function(&[], Vec::new()).is_truthy());
    assert!(native(Builtin::Type).is_truthy());
}

#[test]
fn not_inverts_truthiness() {
    assert_eq!(Value::Nil.not(), Value::Boolean(true));
    assert_eq!(Value::Boolean(false).not(), Value::Boolean(true));
    assert_eq!(Value::Boolean(true).not(), Value::Boolean(false));
    assert_eq!(num(0.0).not(), Value::Boolean(false));
    assert_eq!(text("").not(), Value::Boolean(false));
}

#[test]
fn values_of_the_same_type_and_content_are_equal() {
    assert_eq!(Value::Nil.equal(&Value::Nil), Value::Boolean(true));
    assert_eq!(Value::Boolean(true).equal(&Value::Boolean(true)), Value::Boolean(true));
    assert_eq!(Value::Boolean(true).equal(&Value::Boolean(false)), Value::Boolean(false));
    assert_eq!(num(1.5).equal(&num(1.5)), Value::Boolean(true));
    assert_eq!(num(1.5).equal(&num(2.5)), Value::Boolean(false));
    assert_eq!(text("a").equal(&text("a")), Value::Boolean(true));
    assert_eq!(text("a").equal(&text("b")), Value::Boolean(false));
    assert_eq!(num(0.0).equal(&num(-0.0)), Value::Boolean(true));
    assert_eq!(num(f64::NAN).equal(&num(f64::NAN)), Value::Boolean(false));
}

#[test]
fn values_of_different_types_are_never_equal() {
    assert_eq!(num(1.0).equal(&text("1")), Value::Boolean(false));
    assert_eq!(text("1").equal(&num(1.0)), Value::Boolean(false));
    assert_eq!(num(1.0).equal(&Value::Boolean(true)), Value::Boolean(false));
    assert_eq!(num(0.0).equal(&Value::Nil), Value::Boolean(false));
    assert_eq!(Value::Boolean(false).equal(&Value::Nil), Value::Boolean(false));
    assert_eq!(text("nil").equal(&Value::Nil), Value::Boolean(false));
    assert_eq!(text("").equal(&Value::Boolean(false)), Value::Boolean(false));
    let values = one_of_each();
    for (i, a) in values.iter().enumerate() {
        for (j, b) in values.iter().enumerate() {
            if i != j {
                assert_eq!(a.equal(b), Value::Boolean(false), "{:?} {:?}", a, b);
                assert_eq!(a.not_equal(b), Value::Boolean(true), "{:?} {:?}", a, b);
            }
        }
    }
}

#[test]
fn functions_are_never_equal() {
    let body = vec![Stmt::Return(Some(vec![Expr::Identifier("x".to_string())]))];
    let f = function(&["x"], body.clone());
    let g = function(&["x"], body);
    assert_eq!(f.equal(&g), Value::Boolean(false));
    assert_eq!(f.not_equal(&g), Value::Boolean(true));
    assert_eq!(f.equal(&f), Value::Boolean(false));
    assert_eq!(f.equal(&f.clone()), Value::Boolean(false));
    assert_eq!(native(Builtin::Print).equal(&native(Builtin::Print)), Value::Boolean(false));
    assert!(f != g);
    assert!(!(f == g));
}

#[test]
fn tables_are_never_equal() {
    let t = table(vec![(num(1.0), num(5.0))]);
    assert_eq!(t.equal(&t), Value::Boolean(false));
    assert_eq!(t.equal(&t.clone()), Value::Boolean(false));
    assert_eq!(Value::new_table().equal(&Value::new_table()), Value::Boolean(false));
    assert_eq!(Value::new_table().not_equal(&Value::new_table()), Value::Boolean(true));
}

#[test]
fn the_operator_on_values_is_their_equality() {
    assert!(Value::Nil == Value::Nil);
    assert!(num(2.0) == num(2.0));
    assert!(num(2.0) != text("2"));
    assert!(text("x") == text("x"));
    assert!(Value::new_table() != Value::new_table());
}

#[test]
fn a_new_table_is_empty() {
    match Value::new_table() {
        Value::Table(pairs) => assert!(pairs.is_empty()),
        other => panic!("{:?}", other),
    }
    assert_eq!(Value::new_table().length(), num(0.0));
}

#[test]
fn length_of_a_string_counts_bytes() {
    assert_eq!(text("").length(), num(0.0));
    assert_eq!(text("abc").length(), num(3.0));
    assert_eq!(text("a b\n").length(), num(4.0));
    assert_eq!(text("é").length(), num(2.0));
    assert_eq!(text("日本").length(), num(6.0));
}

#[test]
fn length_of_a_table_counts_its_pairs() {
    assert_eq!(table(vec![(num(1.0), num(5.0))]).length(), num(1.0));
    assert_eq!(table(vec![(num(10.0), num(5.0))]).length(), num(1.0));
    assert_eq!(table(vec![(num(1.0), num(5.0)), (num(100.0), Value::Nil)]).length(), num(2.0));
    assert_eq!(
        table(vec![(text("a"), num(1.0)), (text("b"), num(2.0)), (num(7.0), num(3.0))]).length(),
        num(3.0)
    );
}

#[test]
fn nothing_else_has_a_length() {
    assert_eq!(Value::Nil.length(), Value::Nil);
    assert_eq!(Value::Boolean(true).length(), Value::Nil);
    assert_eq!(num(12.0).length(), Value::Nil);
    assert_eq!(function(&[], Vec::new()).length(), Value::Nil);
}

#[test]
fn numeric_values() {
    assert!(matches!(num(2.5).to_number(), Coercion::Number(n) if n.bits == 2.5f64.to_bits()));
    assert!(matches!(Value::Boolean(true).to_number(), Coercion::Number(n) if n.bits == 1.0f64.to_bits()));
    assert!(matches!(Value::Boolean(false).to_number(), Coercion::Number(n) if n.bits == 0.0f64.to_bits()));
    assert!(matches!(text("12").to_number(), Coercion::Text(t) if t == "12"));
    assert!(matches!(text("abc").to_number(), Coercion::Text(t) if t == "abc"));
    assert!(matches!(Value::Nil.to_number(), Coercion::Absent));
    assert!(matches!(Value::new_table().to_number(), Coercion::Absent));
    assert!(matches!(function(&[], Vec::new()).to_number(), Coercion::Absent));
}

#[test]
fn texts_of_values() {
    assert!(matches!(Value::Nil.to_string(), Rendering::Text(t) if t == "nil"));
    assert!(matches!(Value::Boolean(true).to_string(), Rendering::Text(t) if t == "true"));
    assert!(matches!(Value::Boolean(false).to_string(), Rendering::Text(t) if t == "false"));
    assert!(matches!(text("a b").to_string(), Rendering::Text(t) if t == "a b"));
    assert!(matches!(Value::new_table().to_string(), Rendering::Text(t) if t == "table"));
    assert!(matches!(function(&[], Vec::new()).to_string(), Rendering::Text(t) if t == "function"));
    assert!(matches!(native(Builtin::Print).to_string(), Rendering::Text(t) if t == "function"));
    assert!(matches!(num(1.5).to_string(), Rendering::Number(n) if n.bits == 1.5f64.to_bits()));
}

#[test]
fn arithmetic_on_two_numbers_is_asked_of_the_host() {
    let a = num(6.0);
    let b = num(4.0);
    let cases = [
        (a.add(&b), BinaryOperator::Add),
        (a.subtract(&b), BinaryOperator::Subtract),
        (a.multiply(&b), BinaryOperator::Multiply),
        (a.divide(&b), BinaryOperator::Divide),
        (a.modulo(&b), BinaryOperator::Modulo),
        (a.power(&b), BinaryOperator::Power),
    ];
    for (outcome, expected) in cases {
        match outcome {
            Outcome::Arithmetic { operator, left, right } => {
                assert_eq!(operator, expected);
                assert_eq!(left.bits, 6.0f64.to_bits());
                assert_eq!(right.bits, 4.0f64.to_bits());
            }
            other => panic!("{:?}", other),
        }
    }
}

#[test]
fn booleans_count_as_one_and_zero_in_arithmetic() {
    match Value::Boolean(true).add(&Value::Boolean(false)) {
        Outcome::Arithmetic { left, right, .. } => {
            assert_eq!(left.bits, 1.0f64.to_bits());
            assert_eq!(right.bits, 0.0f64.to_bits());
        }
        other => panic!("{:?}", other),
    }
}

#[test]
fn arithmetic_without_a_numeric_value_is_nil() {
    assert_eq!(done(Value::Nil.add(&num(1.0))), Value::Nil);
    assert_eq!(done(num(1.0).add(&Value::Nil)), Value::Nil);
    assert_eq!(done(num(1.0).subtract(&Value::new_table())), Value::Nil);
    assert_eq!(done(function(&[], Vec::new()).multiply(&num(2.0))), Value::Nil);
    assert_eq!(done(Value::Nil.divide(&Value::Nil)), Value::Nil);
    assert_eq!(done(Value::Nil.modulo(&num(2.0))), Value::Nil);
    assert_eq!(done(num(2.0).power(&Value::Nil)), Value::Nil);
}

#[test]
fn a_string_operand_has_to_be_read_first_the_left_one_before_the_right() {
    assert!(matches!(text("10").add(&num(1.0)), Outcome::Parse { operand: 0, text } if text == "10"));
    assert!(matches!(num(1.0).add(&text("10")), Outcome::Parse { operand: 1, text } if text == "10"));
    assert!(matches!(text("a").add(&text("b")), Outcome::Parse { operand: 0, text } if text == "a"));
    assert!(matches!(Value::Nil.add(&text("b")), Outcome::Parse { operand: 1, text } if text == "b"));
    assert!(matches!(text("a").add(&Value::Nil), Outcome::Parse { operand: 0, text } if text == "a"));
    assert!(matches!(text("3").less_than(&num(4.0)), Outcome::Parse { operand: 0, text } if text == "3"));
    assert!(matches!(num(3.0).greater_equal(&text("4")), Outcome::Parse { operand: 1, text } if text == "4"));
    assert!(matches!(text("5").negate(), Outcome::Parse { operand: 0, text } if text == "5"));
}

#[test]
fn comparisons_of_numbers() {
    assert_eq!(done(num(1.0).less_than(&num(2.0))), Value::Boolean(true));
    assert_eq!(done(num(2.0).less_than(&num(2.0))), Value::Boolean(false));
    assert_eq!(done(num(3.0).less_than(&num(2.0))), Value::Boolean(false));
    assert_eq!(done(num(1.0).less_equal(&num(2.0))), Value::Boolean(true));
    assert_eq!(done(num(2.0).less_equal(&num(2.0))), Value::Boolean(true));
    assert_eq!(done(num(3.0).less_equal(&num(2.0))), Value::Boolean(false));
    assert_eq!(done(num(1.0).greater_than(&num(2.0))), Value::Boolean(false));
    assert_eq!(done(num(2.0).greater_than(&num(2.0))), Value::Boolean(false));
    assert_eq!(done(num(3.0).greater_than(&num(2.0))), Value::Boolean(true));
    assert_eq!(done(num(1.0).greater_equal(&num(2.0))), Value::Boolean(false));
    assert_eq!(done(num(2.0).greater_equal(&num(2.0))), Value::Boolean(true));
    assert_eq!(done(num(3.0).greater_equal(&num(2.0))), Value::Boolean(true));
    assert_eq!(done(num(-1.0).less_than(&num(0.5))), Value::Boolean(true));
    assert_eq!(done(num(f64::NAN).less_equal(&num(f64::NAN))), Value::Boolean(false));
    assert_eq!(done(Value::Boolean(false).less_than(&Value::Boolean(true))), Value::Boolean(true));
}

#[test]
fn comparisons_without_a_numeric_value_are_false() {
    assert_eq!(done(Value::Nil.less_than(&num(1.0))), Value::Boolean(false));
    assert_eq!(done(num(1.0).less_equal(&Value::Nil)), Value::Boolean(false));
    assert_eq!(done(Value::new_table().greater_than(&num(1.0))), Value::Boolean(false));
    assert_eq!(done(Value::Nil.greater_equal(&Value::Nil)), Value::Boolean(false));
}

#[test]
fn negation() {
    assert_eq!(done(num(2.5).negate()), num(-2.5));
    assert_eq!(done(num(-2.5).negate()), num(2.5));
    assert_eq!(done(Value::Boolean(true).negate()), num(-1.0));
    assert_eq!(done(Value::Nil.negate()), Value::Nil);
    assert_eq!(done(Value::new_table().negate()), Value::Nil);
}

#[test]
fn concatenation_joins_the_texts() {
    assert_eq!(done(text("a").concat(&text("b"))), text("ab"));
    assert_eq!(done(text("").concat(&text(""))), text(""));
    assert_eq!(done(text("x").concat(&Value::Nil)), text("xnil"));
    assert_eq!(done(Value::Boolean(true).concat(&Value::Boolean(false))), text("truefalse"));
    assert_eq!(done(Value::new_table().concat(&function(&[], Vec::new()))), text("tablefunction"));
}

#[test]
fn a_number_operand_of_a_concatenation_has_to_be_written_first() {
    assert!(matches!(num(1.0).concat(&text("a")), Outcome::Format { operand: 0, number } if number.bits == 1.0f64.to_bits()));
    assert!(matches!(text("a").concat(&num(2.0)), Outcome::Format { operand: 1, number } if number.bits == 2.0f64.to_bits()));
    assert!(matches!(num(1.0).concat(&num(2.0)), Outcome::Format { operand: 0, number } if number.bits == 1.0f64.to_bits()));
}

#[test]
fn a_copy_of_a_value_has_the_same_content() {
    assert_eq!(Value::Nil.clone(), Value::Nil);
    assert_eq!(num(3.0).clone(), num(3.0));
    assert_eq!(text("abc").clone(), text("abc"));
    let t = table(vec![(text("k"), num(1.0))]);
    match (&t, &t.clone()) {
        (Value::Table(a), Value::Table(b)) => assert!(Rc::ptr_eq(a, b)),
        other => panic!("{:?}", other),
    }
    let f = function(&["a", "b"], vec![Stmt::Break]);
    match f.clone() {
        Value::Function(Function::UserDefined { parameters, body, closure }) => {
            assert_eq!(parameters, vec!["a".to_string(), "b".to_string()]);
            assert!(matches!(body[..], [Stmt::Break]));
            assert!(closure.is_empty());
        }
        other => panic!("{:?}", other),
    }
}
