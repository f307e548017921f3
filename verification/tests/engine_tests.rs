use jmespath::ast::Ast;
use jmespath::functions::RuntimeError;
use jmespath::interpreter::TreeInterpreter;
use jmespath::parser::parse;
use jmespath::trusted::json_decode_checked;
use jmespath::value::{value_eq, Value};
use jmespath::functions::{validate_arity, validate_min_arity, ArgumentType, register_core_functions, Functions};
use jmespath::interpreter::Builtin;

fn search(expr: &str, json: &str) -> Value {
    let ast = parse(expr).unwrap();
    let input = json_decode_checked(json).unwrap();
    let intr = TreeInterpreter::new();
    intr.interpret(&input, &ast, 1000).unwrap()
}

fn search_err(expr: &str, json: &str) -> RuntimeError {
    let ast = parse(expr).unwrap();
    let input = json_decode_checked(json).unwrap();
    let intr = TreeInterpreter::new();
    intr.interpret(&input, &ast, 1000).unwrap_err()
}

fn same_as_json(v: &Value, json: &str) -> bool {
    let expected = json_decode_checked(json).unwrap();
    value_eq(v, &expected)
}

#[test]
fn nested_field_chain() {
    let r = search("foo.bar.baz", "{\"foo\":{\"bar\":{\"baz\":true}}}");
    assert_eq!(r, Value::Bool(true));
}

#[test]
fn or_chain_takes_first_truthy() {
    let r = search("bar || baz || bam || foo", "{\"foo\":true}");
    assert_eq!(r, Value::Bool(true));
}

#[test]
fn projection_filters_missing_keys() {
    let r = search("a[*].b", "{\"a\":[{\"b\":1},{\"b\":2},{\"c\":3}]}");
    assert!(same_as_json(&r, "[1,2]"));
}

#[test]
fn length_of_string_and_array() {
    let r = search("length(`\"abc\"`)", "{}");
    assert!(same_as_json(&r, "3"));
    let r2 = search("length(`[1,2,3]`)", "{}");
    assert!(same_as_json(&r2, "3"));
}

#[test]
fn sort_by_orders_by_key() {
    let r = search(
        "sort_by(people, &age)",
        "{\"people\":[{\"age\":3},{\"age\":1},{\"age\":2}]}",
    );
    assert!(same_as_json(&r, "[{\"age\":1},{\"age\":2},{\"age\":3}]"));
}

#[test]
fn eval_equality_and_inequality_disagree() {
    let eq = search("`1` == `1.0`", "{}");
    let ne = search("`1` != `1.0`", "{}");
    assert_eq!(eq, Value::Bool(true));
    assert_eq!(ne, Value::Bool(false));
    let eq2 = search("`1` == `2`", "{}");
    let ne2 = search("`1` != `2`", "{}");
    assert_eq!(eq2, Value::Bool(false));
    assert_eq!(ne2, Value::Bool(true));
}

#[test]
fn ordering_comparators() {
    assert_eq!(search("`1` < `2`", "{}"), Value::Bool(true));
    assert_eq!(search("`2` <= `2`", "{}"), Value::Bool(true));
    assert_eq!(search("`3` > `2.5`", "{}"), Value::Bool(true));
    assert_eq!(search("`1` >= `2`", "{}"), Value::Bool(false));
    assert_eq!(search("`1` < `\"a\"`", "{}"), Value::Null);
}

#[test]
fn projection_on_non_array_is_null() {
    assert_eq!(search("a[*].b", "{\"a\":3}"), Value::Null);
}

#[test]
fn index_and_slice() {
    assert!(same_as_json(&search("a[1]", "{\"a\":[10,20,30]}"), "20"));
    assert!(same_as_json(&search("a[-1]", "{\"a\":[10,20,30]}"), "30"));
    assert_eq!(search("a[9]", "{\"a\":[10,20,30]}"), Value::Null);
    assert!(same_as_json(&search("a[0:2]", "{\"a\":[10,20,30]}"), "[10,20]"));
    assert!(same_as_json(&search("a[::-1]", "{\"a\":[1,2,3]}"), "[3,2,1]"));
    assert!(same_as_json(&search("a[0::-1]", "{\"a\":[1,2,3]}"), "[1]"));
}

#[test]
fn flatten_one_level() {
    assert!(same_as_json(&search("a[]", "{\"a\":[[1,2],3,[4]]}"), "[1,2,3,4]"));
}

#[test]
fn object_values_projection() {
    assert!(same_as_json(&search("a.*.b", "{\"a\":{\"x\":{\"b\":1},\"y\":{\"b\":2}}}"), "[1,2]"));
}

#[test]
fn multilist_and_multihash() {
    assert!(same_as_json(&search("[foo, bar]", "{\"foo\":1,\"bar\":2}"), "[1,2]"));
    assert!(same_as_json(&search("{b: bar, a: foo}", "{\"foo\":1,\"bar\":2}"), "{\"a\":1,\"b\":2}"));
}

#[test]
fn filter_projection() {
    assert!(same_as_json(
        &search("a[?b == `2`]", "{\"a\":[{\"b\":1},{\"b\":2}]}"),
        "[{\"b\":2}]"
    ));
}

#[test]
fn not_negates_truthiness() {
    assert_eq!(search("!foo", "{\"foo\":true}"), Value::Bool(false));
    assert_eq!(search("!bar", "{\"foo\":true}"), Value::Bool(true));
}

#[test]
fn pipe_rebinds_current() {
    assert!(same_as_json(&search("a | b", "{\"a\":{\"b\":7}}"), "7"));
}

#[test]
fn abs_ceil_floor() {
    assert!(same_as_json(&search("abs(`-3`)", "{}"), "3"));
    assert!(same_as_json(&search("abs(`-1.5`)", "{}"), "1.5"));
    assert!(same_as_json(&search("ceil(`1.2`)", "{}"), "2.0"));
    assert!(same_as_json(&search("floor(`1.8`)", "{}"), "1.0"));
}

#[test]
fn avg_and_sum() {
    assert!(same_as_json(&search("avg(`[1,2]`)", "{}"), "1.5"));
    assert!(same_as_json(&search("sum(`[1,2,3]`)", "{}"), "6.0"));
    assert!(same_as_json(&search("sum(`[]`)", "{}"), "0.0"));
    assert_eq!(search("avg(`[]`)", "{}"), Value::Null);
}

#[test]
fn contains_strings_and_arrays() {
    assert_eq!(search("contains(`\"foobar\"`, `\"oba\"`)", "{}"), Value::Bool(true));
    assert_eq!(search("contains(`\"foobar\"`, `\"xyz\"`)", "{}"), Value::Bool(false));
    assert_eq!(search("contains(`[1,2,3]`, `2`)", "{}"), Value::Bool(true));
    assert_eq!(search("contains(`[1,2,3]`, `9`)", "{}"), Value::Bool(false));
}

#[test]
fn starts_and_ends_with() {
    assert_eq!(search("starts_with(`\"foobar\"`, `\"foo\"`)", "{}"), Value::Bool(true));
    assert_eq!(search("ends_with(`\"foobar\"`, `\"bar\"`)", "{}"), Value::Bool(true));
    assert_eq!(search("ends_with(`\"foobar\"`, `\"foo\"`)", "{}"), Value::Bool(false));
}

#[test]
fn join_keys_values_merge() {
    assert!(same_as_json(&search("join(`\", \"`, `[\"a\",\"b\"]`)", "{}"), "\"a, b\""));
    assert!(same_as_json(&search("keys(`{\"b\":1,\"a\":2}`)", "{}"), "[\"a\",\"b\"]"));
    assert!(same_as_json(&search("values(`{\"b\":1,\"a\":2}`)", "{}"), "[2,1]"));
    assert!(same_as_json(
        &search("merge(`{\"a\":1,\"b\":2}`, `{\"b\":3}`)", "{}"),
        "{\"a\":1,\"b\":3}"
    ));
}

#[test]
fn sort_min_max_reverse() {
    assert!(same_as_json(&search("sort(`[3,1,2]`)", "{}"), "[1,2,3]"));
    assert!(same_as_json(&search("sort(`[\"b\",\"a\"]`)", "{}"), "[\"a\",\"b\"]"));
    assert!(same_as_json(&search("min(`[3,1,2]`)", "{}"), "1"));
    assert!(same_as_json(&search("max(`[3,1,2]`)", "{}"), "3"));
    assert!(same_as_json(&search("reverse(`[1,2,3]`)", "{}"), "[3,2,1]"));
    assert!(same_as_json(&search("reverse(`\"abc\"`)", "{}"), "\"cba\""));
}

#[test]
fn map_min_by_max_by() {
    assert!(same_as_json(&search("map(&a, `[{\"a\":1},{\"a\":2}]`)", "{}"), "[1,2]"));
    assert!(same_as_json(
        &search("min_by(people, &age)", "{\"people\":[{\"age\":3},{\"age\":1}]}"),
        "{\"age\":1}"
    ));
    assert!(same_as_json(
        &search("max_by(people, &age)", "{\"people\":[{\"age\":3},{\"age\":1}]}"),
        "{\"age\":3}"
    ));
}

#[test]
fn conversions_and_type() {
    assert!(same_as_json(&search("to_array(`1`)", "{}"), "[1]"));
    assert!(same_as_json(&search("to_number(`\"2.5\"`)", "{}"), "2.5"));
    assert_eq!(search("to_number(`\"nope\"`)", "{}"), Value::Null);
    assert_eq!(search("to_string(`{\"a\":1}`)", "{}"), Value::Str("{\"a\":1}".to_string()));
    assert_eq!(search("type(`1`)", "{}"), Value::Str("number".to_string()));
    assert_eq!(search("type(`\"x\"`)", "{}"), Value::Str("string".to_string()));
    assert!(same_as_json(&search("not_null(`null`, `2`)", "{}"), "2"));
    assert_eq!(search("not_null(`null`)", "{}"), Value::Null);
}

#[test]
fn runtime_error_variants() {
    match search_err("nope(@)", "{}") {
        RuntimeError::UnknownFunction { name } => assert_eq!(name, "nope"),
        other => panic!("unexpected error: {:?}", other),
    }
    match search_err("length()", "{}") {
        RuntimeError::NotEnoughArguments { expected, actual } => {
            assert_eq!(expected, 1);
            assert_eq!(actual, 0);
        }
        other => panic!("unexpected error: {:?}", other),
    }
    match search_err("length(`1`, `2`)", "{}") {
        RuntimeError::TooManyArguments { expected, actual } => {
            assert_eq!(expected, 1);
            assert_eq!(actual, 2);
        }
        other => panic!("unexpected error: {:?}", other),
    }
    match search_err("abs(`\"a\"`)", "{}") {
        RuntimeError::InvalidType { expected, actual, position, .. } => {
            assert_eq!(expected, "number");
            assert_eq!(actual, "string");
            assert_eq!(position, 0);
        }
        other => panic!("unexpected error: {:?}", other),
    }
    match search_err("sort_by(a, &b)", "{\"a\":[{\"b\":true}]}") {
        RuntimeError::InvalidReturnType { expected, actual, .. } => {
            assert_eq!(expected, "expression->string|expression->number");
            assert_eq!(actual, "boolean");
        }
        other => panic!("unexpected error: {:?}", other),
    }
}

#[test]
fn invalid_slice_at_runtime() {
    let ast = Ast::Slice(None, None, 0);
    let input = json_decode_checked("[1,2,3]").unwrap();
    let intr = TreeInterpreter::new();
    assert_eq!(intr.interpret(&input, &ast, 10).unwrap_err(), RuntimeError::InvalidSlice);
}

#[test]
fn parse_rejects_bad_input() {
    assert!(parse("foo.").is_err());
    assert!(parse("[0::0]").is_err());
    assert!(parse("=").is_err());
    let err = parse("foo bar").unwrap_err();
    assert_eq!(err.offset, 4);
}

#[test]
fn whitespace_does_not_change_the_tree() {
    let a = parse("foo.bar || baz").unwrap();
    let b = parse("  foo .  bar||baz ").unwrap();
    assert_eq!(a, b);
}

#[test]
fn validation_helpers() {
    assert!(validate_arity(2, 2).is_ok());
    assert!(validate_arity(2, 1).is_err());
    assert!(validate_min_arity(1, 3).is_ok());
    assert!(validate_min_arity(2, 1).is_err());
    let t = ArgumentType::OneOf(vec![ArgumentType::Str, ArgumentType::Number]);
    assert!(t.is_valid(&Value::I64(1)));
    assert!(!t.is_valid(&Value::Bool(true)));
    assert_eq!(t.to_type_string(), "string|number");
    let h = ArgumentType::HomogeneousArray(vec![ArgumentType::Number]);
    assert!(h.is_valid(&json_decode_checked("[1,2]").unwrap()));
    assert!(!h.is_valid(&json_decode_checked("[1,\"a\"]").unwrap()));
    assert_eq!(h.to_type_string(), "array[number]");
    let strs = ArgumentType::types_to_strings(&vec![ArgumentType::Any, ArgumentType::Expref]);
    assert_eq!(strs, vec!["any".to_string(), "expref".to_string()]);
}

#[test]
fn or_short_circuit_skips_right_side() {
    // The right side would fail with an unknown function if it were
    // evaluated; a truthy left side must make the whole `or` its value.
    let r = search("foo || nope(@)", "{\"foo\":7}");
    assert!(same_as_json(&r, "7"));
    let e = search_err("bar || nope(@)", "{\"foo\":7}");
    assert!(matches!(e, RuntimeError::UnknownFunction { .. }));
}

#[test]
fn registry_rebinds_names() {
    let mut f = Functions::new();
    f.insert("abs".to_string(), Builtin::Avg);
    f.insert("extra".to_string(), Builtin::Sum);
    register_core_functions(&mut f);
    assert_eq!(f.lookup(&"abs".to_string()), Some(Builtin::Abs));
    assert_eq!(f.lookup(&"extra".to_string()), Some(Builtin::Sum));
    assert_eq!(f.lookup(&"gone".to_string()), None);
    f.insert("abs".to_string(), Builtin::Ceil);
    assert_eq!(f.lookup(&"abs".to_string()), Some(Builtin::Ceil));
}

#[test]
fn long_exponents_are_screened() {
    // Nineteen or more exponent digits would overflow the outside number
    // parser; the crate turns them into an error token or a null instead
    // of reaching it.
    let mut lexer = jmespath::lexer::tokenize("`1e99999999999999999999`");
    match lexer.next() {
        Some((0, jmespath::lexer::Token::Error { msg, .. })) => {
            assert_eq!(msg, "Unable to parse literal JSON: exponent too long");
        }
        other => panic!("unexpected token: {:?}", other),
    }
    let r = search("to_number(`\"1e99999999999999999999\"`)", "{}");
    assert_eq!(r, Value::Null);
    // An exponent a binary64 can carry still decodes.
    assert!(same_as_json(&search("`1e300` > `1e299`", "{}"), "true"));
    assert!(json_decode_checked("1e99999999999999999999").is_err());
}
