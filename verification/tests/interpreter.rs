use json::number::Number;
use json::object::Object;
use json::JsonValue;
use json_e::context::Context;
use json_e::error::Error;
use json_e::interpreter::{create_interpreter, FloatOp, Interpreter, Step};
use json_e::interpreter::element_at;
use json_e::tokenizer::{next_token, Kind, Scan};
use json_e::value::{Num, Value};
use std::collections::HashMap;

fn to_number(n: &Num) -> Number {
    if n.nan {
        json::number::NAN
    } else {
        Number::from_parts(n.positive, n.mantissa, n.exponent)
    }
}

fn from_number(n: Number) -> Num {
    let (positive, mantissa, exponent) = n.as_parts();
    Num { nan: n.is_nan(), positive, mantissa, exponent }
}

fn compute(op: &FloatOp) -> Num {
    let n = match op {
        FloatOp::Literal(text) => Number::from(text.parse::<f64>().unwrap()),
        FloatOp::Add(a, b) => Number::from(f64::from(to_number(a)) + f64::from(to_number(b))),
        FloatOp::Mul(a, b) => Number::from(f64::from(to_number(a)) * f64::from(to_number(b))),
        FloatOp::Pow(a, b) => Number::from(f64::from(to_number(a)).powf(f64::from(to_number(b)))),
    };
    from_number(n)
}

fn to_json(v: &Value) -> JsonValue {
    match v {
        Value::Null => JsonValue::Null,
        Value::Boolean(b) => JsonValue::Boolean(*b),
        Value::Number(n) => JsonValue::Number(to_number(n)),
        Value::Short(s) => JsonValue::from(s.as_str()),
        Value::Str(s) => JsonValue::String(s.clone()),
        Value::Array(items) => JsonValue::Array(items.iter().map(to_json).collect()),
        Value::Object(entries) => {
            let mut o = Object::new();
            for (k, v) in entries {
                o.insert(k, to_json(v));
            }
            JsonValue::Object(o)
        }
    }
}

fn from_json(v: &JsonValue) -> Value {
    match v {
        JsonValue::Null => Value::Null,
        JsonValue::Boolean(b) => Value::Boolean(*b),
        JsonValue::Number(n) => Value::Number(from_number(*n)),
        JsonValue::Short(s) => Value::Short(s.as_str().to_string()),
        JsonValue::String(s) => Value::Str(s.clone()),
        JsonValue::Array(items) => Value::Array(items.iter().map(from_json).collect()),
        JsonValue::Object(o) => {
            Value::Object(o.iter().map(|(k, v)| (k.to_string(), from_json(v))).collect())
        }
    }
}

/// Evaluates `source`, performing the floating-point computations that the
/// interpreter asks for.
fn eval(interpreter: &Interpreter, source: &str, context: HashMap<String, JsonValue>) -> Result<JsonValue, Error> {
    let mut ctx = Context::new();
    for (k, v) in context.iter() {
        ctx.insert(k.clone(), from_json(v));
    }
    let mut answers: Vec<Num> = Vec::new();
    loop {
        match interpreter.parse(source, &ctx, &answers) {
            Step::Finished(r) => return r.map(|v| to_json(&v)),
            Step::Compute(op) => answers.push(compute(&op)),
            Step::Abort => unreachable!(),
        }
    }
}

/// Runs `source` to its final step, returning it with the results supplied.
fn final_step(source: &str, ctx: &Context) -> (Step, Vec<Num>) {
    let interpreter = create_interpreter().unwrap();
    let mut answers: Vec<Num> = Vec::new();
    loop {
        match interpreter.parse(source, ctx, &answers) {
            Step::Compute(op) => answers.push(compute(&op)),
            other => return (other, answers),
        }
    }
}

fn ev(source: &str) -> Result<JsonValue, Error> {
    eval(&create_interpreter().unwrap(), source, HashMap::new())
}

fn interp_err(msg: &str) -> Option<Error> {
    Some(Error::InterpreterError(msg.to_string()))
}

fn syntax_err(msg: &str) -> Option<Error> {
    Some(Error::SyntaxError(msg.to_string()))
}

#[test]
fn parse_number_expression() {
    let interpreter = create_interpreter().unwrap();
    assert_eq!(eval(&interpreter, "23.67", HashMap::new()).unwrap(), 23.67);
}

#[test]
fn parse_boolean_negation() {
    let interpreter = create_interpreter().unwrap();
    assert_eq!(eval(&interpreter, "!true", HashMap::new()).unwrap(), false);
}

#[test]
fn parse_minus_expression_negative_number() {
    let interpreter = create_interpreter().unwrap();
    assert_eq!(eval(&interpreter, "-7", HashMap::new()).unwrap(), -7);
}

#[test]
fn parse_minus_expression_double_negative() {
    let interpreter = create_interpreter().unwrap();
    assert_eq!(eval(&interpreter, "--7", HashMap::new()).unwrap(), 7);
}

#[test]
fn parse_minus_expression_plus() {
    let interpreter = create_interpreter().unwrap();
    assert_eq!(eval(&interpreter, "-+10", HashMap::new()).unwrap(), -10);
}

#[test]
fn parse_minus_expression_zero() {
    let interpreter = create_interpreter().unwrap();
    assert_eq!(eval(&interpreter, "-0", HashMap::new()).unwrap(), 0);
}

#[test]
fn parse_plus_expression_positive_number() {
    let interpreter = create_interpreter().unwrap();
    assert_eq!(eval(&interpreter, "+5", HashMap::new()).unwrap(), 5);
}

#[test]
fn parse_plus_expression_zero() {
    let interpreter = create_interpreter().unwrap();
    assert_eq!(eval(&interpreter, "+0", HashMap::new()).unwrap(), 0);
}

#[test]
fn parse_plus_expression_minus() {
    let interpreter = create_interpreter().unwrap();
    assert_eq!(eval(&interpreter, "+-10", HashMap::new()).unwrap(), -10);
}

#[test]
fn parse_boolean_true() {
    let interpreter = create_interpreter().unwrap();
    assert_eq!(eval(&interpreter, "true", HashMap::new()).unwrap(), true);
}

#[test]
fn parse_boolean_false() {
    let interpreter = create_interpreter().unwrap();
    assert_eq!(eval(&interpreter, "false", HashMap::new()).unwrap(), false);
}

#[test]
fn parse_identifier_positive() {
    let interpreter = create_interpreter().unwrap();
    let mut context = HashMap::new();
    context.insert("x".to_string(), JsonValue::Number(10.into()));
    assert_eq!(eval(&interpreter, "x", context).unwrap(), 10);
}

#[test]
fn parse_identifier_negative_non_existing_variable() {
    let interpreter = create_interpreter().unwrap();
    let mut context = HashMap::new();
    context.insert("x".to_string(), JsonValue::Number(10.into()));
    assert_eq!(
        eval(&interpreter, "y", context).err(),
        Some(Error::InterpreterError("unknown context value y".to_string()))
    );
}

#[test]
fn parse_array_positive() {
    let interpreter = create_interpreter().unwrap();
    assert_eq!(
        eval(&interpreter, "[1, 2]", HashMap::new()).unwrap(),
        JsonValue::Array(vec![1.into(), 2.into()]),
    );
}

#[test]
fn parse_array_empty() {
    let interpreter = create_interpreter().unwrap();
    assert_eq!(eval(&interpreter, "[]", HashMap::new()).unwrap(), JsonValue::Array(vec![]));
}

#[test]
fn parse_parens_negative() {
    let interpreter = create_interpreter().unwrap();
    assert_eq!(
        eval(&interpreter, "(true]", HashMap::new()).err(),
        Some(Error::SyntaxError("Unexpected token error".to_string())),
    );
}

#[test]
fn parse_parens() {
    let interpreter = create_interpreter().unwrap();
    assert_eq!(eval(&interpreter, "2*(3+4)", HashMap::new()).unwrap(), JsonValue::Number(14.into()));
}

#[test]
fn parse_curly_braces() {
    let interpreter = create_interpreter().unwrap();
    let mut obj = HashMap::new();
    obj.insert("a".to_string(), JsonValue::Number(10.into()));
    assert_eq!(eval(&interpreter, "{a: 10}", HashMap::new()).unwrap(), JsonValue::from(obj));
}

#[test]
fn parse_curly_braces_negative_semicolon() {
    let interpreter = create_interpreter().unwrap();
    assert_eq!(
        eval(&interpreter, "{b: 20; a: 10}", HashMap::new()).err(),
        Some(Error::SyntaxError("unexpected EOF for {b: 20; a: 10} at ; a: 10}".to_string())),
    );
}

#[test]
fn parse_curly_braces_two_keys() {
    let interpreter = create_interpreter().unwrap();
    let mut obj = HashMap::new();
    obj.insert("a".to_string(), JsonValue::Number(10.into()));
    obj.insert("b".to_string(), JsonValue::Number(20.into()));
    assert_eq!(eval(&interpreter, "{b: 20, a: 10}", HashMap::new()).unwrap(), JsonValue::from(obj));
}

#[test]
fn parse_curly_braces_empty() {
    let interpreter = create_interpreter().unwrap();
    assert_eq!(eval(&interpreter, "{}", HashMap::new()).unwrap(), JsonValue::Object(Object::new()));
}

#[test]
fn parse_curly_braces_string() {
    let interpreter = create_interpreter().unwrap();
    let mut obj = HashMap::new();
    obj.insert("abc def".to_string(), JsonValue::Number(10.into()));
    assert_eq!(eval(&interpreter, "{\"abc def\": 10}", HashMap::new()).unwrap(), JsonValue::from(obj));
}

#[test]
fn parse_string() {
    let interpreter = create_interpreter().unwrap();
    assert_eq!(
        eval(&interpreter, "\"banana\"", HashMap::new()).unwrap(),
        JsonValue::String("banana".to_string()),
    );
}

#[test]
fn parse_string_empty() {
    let interpreter = create_interpreter().unwrap();
    assert_eq!(eval(&interpreter, "\"\"", HashMap::new()).unwrap(), JsonValue::String("".to_string()));
}

#[test]
fn parse_string_addition() {
    let interpreter = create_interpreter().unwrap();
    assert_eq!(
        eval(&interpreter, "\"banana\" + \"chocolate\"", HashMap::new()).unwrap(),
        JsonValue::String("bananachocolate".to_string()),
    );
}

#[test]
fn parse_exponentiation() {
    let interpreter = create_interpreter().unwrap();
    assert_eq!(eval(&interpreter, "2**3", HashMap::new()).unwrap(), JsonValue::Number(8.into()));
}

#[test]
fn parse_exponentiation_zero_base() {
    let interpreter = create_interpreter().unwrap();
    assert_eq!(eval(&interpreter, "2**0", HashMap::new()).unwrap(), JsonValue::Number(1.into()));
}

#[test]
fn parse_array_of_integers() {
    let interpreter = create_interpreter().unwrap();
    assert_eq!(eval(&interpreter, "[1,2][1]", HashMap::new()).unwrap(), JsonValue::Number(2.into()));
}

#[test]
fn parse_array_negative_index() {
    let interpreter = create_interpreter().unwrap();
    assert_eq!(eval(&interpreter, "[1,2][-1]", HashMap::new()).unwrap(), JsonValue::Number(2.into()));
}

#[test]
fn parse_array_noninteger_index() {
    let interpreter = create_interpreter().unwrap();
    assert_eq!(
        eval(&interpreter, "[1,2][0.7]", HashMap::new()).err(),
        Some(Error::InterpreterError("should only use integers to access arrays or strings".to_string()))
    );
}

#[test]
fn parse_array_string_index() {
    let interpreter = create_interpreter().unwrap();
    assert_eq!(
        eval(&interpreter, "[1,2]['foo']", HashMap::new()).err(),
        Some(Error::InterpreterError("left part of slice operator is not a number".to_string()))
    );
}

#[test]
fn parse_array_positive_index_overflow() {
    let interpreter = create_interpreter().unwrap();
    assert_eq!(
        eval(&interpreter, "[1,2][9]", HashMap::new()).err(),
        Some(Error::InterpreterError("index out of bounds".to_string()))
    );
}

#[test]
fn parse_array_negative_index_overflow() {
    let interpreter = create_interpreter().unwrap();
    assert_eq!(
        eval(&interpreter, "[1,2][-9]", HashMap::new()).err(),
        Some(Error::InterpreterError("index out of bounds".to_string()))
    );
}

#[test]
fn extra_results_are_ignored() {
    let ctx = Context::new();
    let (step, mut answers) = final_step("2*(3+4)", &ctx);
    assert!(matches!(step, Step::Finished(Ok(_))));
    answers.push(Num::from_u64(99));
    answers.push(Num::from_u64(7));
    let interpreter = create_interpreter().unwrap();
    match interpreter.parse("2*(3+4)", &ctx, &answers) {
        Step::Finished(Ok(v)) => assert_eq!(to_json(&v), 14),
        _ => panic!("expected a value"),
    }
}

#[test]
fn requests_are_bounded_by_length() {
    let ctx = Context::new();
    let (_, answers) = final_step("2*(3+4)", &ctx);
    // three literals, one addition, one multiplication
    assert_eq!(answers.len(), 5);
    assert!(answers.len() <= "2*(3+4)".chars().count());
}

#[test]
fn first_request_is_the_literal() {
    let interpreter = create_interpreter().unwrap();
    match interpreter.parse(" 12.5 ", &Context::new(), &Vec::new()) {
        Step::Compute(FloatOp::Literal(text)) => assert_eq!(text, "12.5"),
        _ => panic!("expected a request for the literal"),
    }
}

#[test]
fn addition_request_carries_operands() {
    let interpreter = create_interpreter().unwrap();
    let answers = vec![Num::from_u64(1), Num::from_u64(2)];
    match interpreter.parse("1 + 2", &Context::new(), &answers) {
        Step::Compute(FloatOp::Add(a, b)) => {
            assert_eq!(a.mantissa, 1);
            assert_eq!(b.mantissa, 2);
        }
        _ => panic!("expected a request for the sum"),
    }
}

#[test]
fn double_negation_of_number() {
    let n = Num { nan: false, positive: false, mantissa: 25, exponent: -1 };
    let m = n.negate().negate();
    assert_eq!((m.nan, m.positive, m.mantissa, m.exponent), (false, false, 25, -1));
    assert!(n.negate().positive);
    assert_eq!(ev("---2.5").unwrap(), -2.5);
}

#[test]
fn negative_index_counts_from_end() {
    assert_eq!(ev("[1,2,3][-1]").unwrap(), ev("[1,2,3][2]").unwrap());
    assert_eq!(ev("[1,2,3][-3]").unwrap(), 1);
    assert_eq!(ev("[1,2,3][-4]").err(), interp_err("index out of bounds"));
    assert_eq!(ev("[1,2,3][3]").err(), interp_err("index out of bounds"));
}

#[test]
fn element_at_directly() {
    let items = vec![Value::Boolean(true), Value::Null];
    assert_eq!(to_json(&element_at(&items, -2).unwrap()), true);
    assert_eq!(to_json(&element_at(&items, 1).unwrap()), JsonValue::Null);
    assert_eq!(element_at(&items, 2).err(), interp_err("index out of bounds"));
    assert_eq!(element_at(&items, i64::MIN).err(), interp_err("index out of bounds"));
}

#[test]
fn later_object_key_replaces_earlier() {
    let mut obj = HashMap::new();
    obj.insert("a".to_string(), JsonValue::Number(3.into()));
    obj.insert("b".to_string(), JsonValue::Number(2.into()));
    assert_eq!(ev("{a: 1, b: 2, 'a': 3}").unwrap(), JsonValue::from(obj));
}

#[test]
fn context_insert_replaces() {
    let mut ctx = Context::new();
    ctx.insert("x".to_string(), Value::Boolean(true));
    ctx.insert("y".to_string(), Value::Null);
    ctx.insert("x".to_string(), Value::Boolean(false));
    assert_eq!(to_json(&ctx.get("x").unwrap()), false);
    assert_eq!(to_json(&ctx.get("y").unwrap()), JsonValue::Null);
    assert!(ctx.get("z").is_none());
}

#[test]
fn trailing_input_is_not_read() {
    assert_eq!(ev("1 2").unwrap(), 1);
    assert_eq!(ev("3-1").unwrap(), 3);
    assert_eq!(ev("([1,2][1])").err(), syntax_err("Unexpected token error"));
}

#[test]
fn unmatched_text_is_an_error() {
    assert_eq!(ev("@").err(), syntax_err("unexpected EOF for @ at @"));
    assert_eq!(ev("1 = 2").err(), syntax_err("unexpected EOF for 1 = 2 at = 2"));
    assert_eq!(ev("'abc").err(), syntax_err("unexpected EOF for 'abc at 'abc"));
    assert_eq!(ev("1 & 2").err(), syntax_err("unexpected EOF for 1 & 2 at & 2"));
}

#[test]
fn missing_operand_is_an_error() {
    assert_eq!(ev("").err(), syntax_err("Unexpected token error"));
    assert_eq!(ev(")").err(), syntax_err("Unexpected token error"));
    assert_eq!(ev("1 +").err(), syntax_err("Unexpected token error"));
    assert_eq!(ev("[1,]").err(), syntax_err("Unexpected token error"));
    assert_eq!(ev("{true: 1}").err(), syntax_err("Unexpected token error"));
    assert_eq!(ev("in").err(), syntax_err("Unexpected token error"));
}

#[test]
fn operator_type_errors() {
    assert_eq!(ev("-'a'").err(), interp_err("This operator expects a number"));
    assert_eq!(ev("+true").err(), interp_err("This operator expects a number"));
    assert_eq!(ev("1 + 'a'").err(), interp_err("infix: +', 'number/string + number/string"));
    assert_eq!(ev("2 * 'a'").err(), interp_err("infix: *', 'number + number"));
    assert_eq!(ev("2 ** null").err(), interp_err("infix: **', 'number + number"));
}

#[test]
fn short_strings_do_not_add() {
    let interpreter = create_interpreter().unwrap();
    let mut context = HashMap::new();
    context.insert("x".to_string(), JsonValue::from("ab"));
    assert_eq!(
        eval(&interpreter, "x + 'c'", context.clone()).err(),
        interp_err("infix: +', 'number/string + number/string")
    );
    assert_eq!(eval(&interpreter, "!x", context).unwrap(), false);
    assert_eq!(ev("'ab' + 'c'").unwrap(), "abc");
}

#[test]
fn negation_of_values() {
    assert_eq!(ev("!0").unwrap(), true);
    assert_eq!(ev("!0.0").unwrap(), true);
    assert_eq!(ev("!1").unwrap(), false);
    assert_eq!(ev("!''").unwrap(), true);
    assert_eq!(ev("!'a'").unwrap(), false);
    assert_eq!(ev("![]").unwrap(), true);
    assert_eq!(ev("![0]").unwrap(), false);
    assert_eq!(ev("!{}").unwrap(), true);
    assert_eq!(ev("!null").unwrap(), true);
    assert_eq!(ev("!!true").unwrap(), true);
}

#[test]
fn operator_precedence() {
    assert_eq!(ev("2+3*4").unwrap(), 14);
    assert_eq!(ev("2*3+4").unwrap(), 10);
    assert_eq!(ev("2**3**2").unwrap(), 512);
    assert_eq!(ev("-2**2").unwrap(), 4);
    assert_eq!(ev("(1+2)*3").unwrap(), 9);
    assert_eq!(ev("1.5 + 1.25").unwrap(), 2.75);
}

#[test]
fn identifiers_and_keywords() {
    let interpreter = create_interpreter().unwrap();
    let mut context = HashMap::new();
    context.insert("trueish".to_string(), JsonValue::Array(vec![10.into(), 20.into()]));
    assert_eq!(eval(&interpreter, "trueish[1]", context.clone()).unwrap(), 20);
    assert_eq!(eval(&interpreter, "null", context).unwrap(), JsonValue::Null);
    assert_eq!(ev("nullx").err(), interp_err("unknown context value nullx"));
}

#[test]
fn nested_indexing() {
    // an index leaves its closing bracket unread, so a second index is not
    // applied: what follows the first is not read
    assert_eq!(ev("[[1,2],[3]][0][1]").unwrap(), JsonValue::Array(vec![1.into(), 2.into()]));
    assert_eq!(ev("[10,20,30][2]").unwrap(), 30);
}

#[test]
fn interval_and_other_indexing_abort() {
    let ctx = Context::new();
    assert!(matches!(final_step("[1,2][1:2]", &ctx).0, Step::Abort));
    assert!(matches!(final_step("[1,2][:]", &ctx).0, Step::Abort));
    assert!(matches!(final_step("'abc'[0]", &ctx).0, Step::Abort));
    assert_eq!(ev("[1,2][:'a']").err(), interp_err("right part of slice operator is not a number"));
    assert_eq!(ev("[1,2][:0.5]").err(), interp_err("cannot perform interval access with non-integers"));
    assert_eq!(ev("5['a']").err(), interp_err("left part of slice operator is not a number"));
}

#[test]
fn string_value_of_token() {
    assert_eq!(to_json(&json_e::interpreter::parse_string("'x y'").unwrap()), "x y");
    assert_eq!(to_json(&json_e::interpreter::parse_string("\"\"").unwrap()), "");
}

#[test]
fn scanner_finds_tokens() {
    let chars: Vec<char> = "  **x".chars().collect();
    match next_token(&chars, 0) {
        Scan::Found(t) => {
            assert!(t.kind == Kind::Power);
            assert_eq!((t.start, t.end), (2, 4));
        }
        _ => panic!("expected a token"),
    }
    let chars: Vec<char> = "in inx 1.5.2".chars().collect();
    match next_token(&chars, 0) {
        Scan::Found(t) => assert!(t.kind == Kind::In),
        _ => panic!("expected a token"),
    }
    match next_token(&chars, 2) {
        Scan::Found(t) => assert!(t.kind == Kind::Identifier && t.end == 6),
        _ => panic!("expected a token"),
    }
    match next_token(&chars, 6) {
        Scan::Found(t) => assert!(t.kind == Kind::Number && t.start == 7 && t.end == 10),
        _ => panic!("expected a token"),
    }
    assert!(matches!(next_token(&chars, 12), Scan::End));
    let chars: Vec<char> = " #".chars().collect();
    assert!(matches!(next_token(&chars, 0), Scan::Unmatched(1)));
}

#[test]
fn zero_test_that_overflows_aborts() {
    let mut ctx = Context::new();
    let tiny = Num { nan: false, positive: true, mantissa: 1, exponent: i16::MIN };
    ctx.insert("x".to_string(), Value::Number(tiny));
    assert!(matches!(final_step("!x", &ctx).0, Step::Abort));
    assert!(!tiny.is_zero());
    let mut ctx = Context::new();
    ctx.insert("x".to_string(), Value::Number(Num { nan: false, positive: false, mantissa: 1, exponent: i16::MIN }));
    assert!(matches!(final_step("!x", &ctx).0, Step::Finished(Ok(Value::Boolean(false)))));
}

#[test]
fn zero_test_of_numbers() {
    assert!(Num::from_u64(0).is_zero());
    assert!(!Num::from_u64(3).is_zero());
    assert!(!Num { nan: true, positive: true, mantissa: 0, exponent: 0 }.is_zero());
    assert!(!Num { nan: false, positive: true, mantissa: 5, exponent: 2 }.is_zero());
}

#[test]
fn malformed_lists_and_objects() {
    assert_eq!(ev("[1 2]").err(), syntax_err("Unexpected token error"));
    assert_eq!(ev("[1, 2").err(), syntax_err("Unexpected token error"));
    assert_eq!(ev("[1, y]").err(), interp_err("unknown context value y"));
    assert_eq!(ev("{1: 2}").err(), syntax_err("Unexpected token error"));
    assert_eq!(ev("{a: 1,}").err(), syntax_err("Unexpected token error"));
    assert_eq!(ev("{a 10}").err(), syntax_err("Unexpected token error"));
    assert_eq!(ev("{a: 1 b: 2}").err(), syntax_err("Unexpected token error"));
    assert_eq!(ev("{a: y}").err(), interp_err("unknown context value y"));
    assert_eq!(ev("[1,2,3]").unwrap(), JsonValue::Array(vec![1.into(), 2.into(), 3.into()]));
}

#[test]
fn string_value_of_any_bracketed_text() {
    assert_eq!(to_json(&json_e::interpreter::parse_string("(a)").unwrap()), "a");
}

#[test]
fn negation_of_scaled_number() {
    let interpreter = create_interpreter().unwrap();
    let mut context = HashMap::new();
    context.insert("x".to_string(), JsonValue::Number(Number::from_parts(true, 1, 2)));
    assert_eq!(eval(&interpreter, "!x", context).unwrap(), false);
}
