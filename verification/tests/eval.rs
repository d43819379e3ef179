use monkey_interpreter::ast::{Ast, Expr, Operator, Stmt};
use monkey_interpreter::eval::env::{lookup_in, Environment};
use monkey_interpreter::eval::object::Object;
use monkey_interpreter::eval::{Runtime, DEFAULT_CALL_DEPTH};
use monkey_interpreter::parse::{ParseError, Parser};

fn test(src: &str) -> Object {
    let mut parser = Parser::new(src);
    let program = parser.parse();
    let mut env = Runtime::new();
    env.evaluate(program)
}

fn error(message: &str) -> Object {
    Object::Error(String::from(message))
}

#[test]
fn test_get() {
    let mut env = Environment::new();
    env.set("five".to_string(), Object::Integer(5));

    let scopes = Vec::new();
    let five = env.get("five", &scopes);
    let six = env.get("six", &scopes);

    assert_eq!(five, Some(Object::Integer(5)));
    assert_eq!(six, None);
}

#[test]
fn test_check_parent() {
    let mut env = Environment::new();
    env.set("five".to_string(), Object::Integer(5));

    let mut child_env = Environment::child_of(0);
    child_env.set("six".to_string(), Object::Integer(6));

    let mut grandchild_env = Environment::child_of(1);
    grandchild_env.set("seven".to_string(), Object::Integer(7));

    let scopes = vec![env, child_env];

    let five_from_parent = grandchild_env.get("five", &scopes);
    let six_from_child = grandchild_env.get("six", &scopes);
    let seven_from_grandchild = grandchild_env.get("seven", &scopes);

    assert_eq!(five_from_parent, Some(Object::Integer(5)));
    assert_eq!(six_from_child, Some(Object::Integer(6)));
    assert_eq!(seven_from_grandchild, Some(Object::Integer(7)));
}

#[test]
fn test_eval_int_expression() {
    let input_and_expected = vec![
        ("5", Object::Integer(5)),
        ("10", Object::Integer(10)),
        ("42069", Object::Integer(42069)),
        ("-5", Object::Integer(-5)),
        ("-10", Object::Integer(-10)),
        ("5 + 5 + 5 + 5 - 10", Object::Integer(10)),
        ("2 * 2 * 2 * 2 * 2", Object::Integer(32)),
        ("-50 + 100 + -50", Object::Integer(0)),
        ("5 * 2 + 10", Object::Integer(20)),
        ("5 + 2 * 10", Object::Integer(25)),
        ("20 + 2 * -10", Object::Integer(0)),
        ("50 / 2 * 2 + 10", Object::Integer(60)),
        ("2 * (5 + 10)", Object::Integer(30)),
        ("3 * 3 * 3 + 10", Object::Integer(37)),
        ("3 * (3 * 3) + 10", Object::Integer(37)),
        ("(5 + 10 * 2 + 15 / 3) * 2 + -10", Object::Integer(50)),
    ];
    input_and_expected
        .into_iter()
        .for_each(|(i, e)| assert_eq!(test(i), e))
}

#[test]
fn test_eval_bool_expression() {
    let input_and_expected = vec![
        ("true", Object::Boolean(true)),
        ("false", Object::Boolean(false)),
        ("1 < 2", Object::Boolean(true)),
        ("1 > 2", Object::Boolean(false)),
        ("1 < 1", Object::Boolean(false)),
        ("1 > 1", Object::Boolean(false)),
        ("1 == 1", Object::Boolean(true)),
        ("1 != 1", Object::Boolean(false)),
        ("1 == 2", Object::Boolean(false)),
        ("1 != 2", Object::Boolean(true)),
        ("true == true", Object::Boolean(true)),
        ("false == false", Object::Boolean(true)),
        ("true == false", Object::Boolean(false)),
        ("true != false", Object::Boolean(true)),
        ("false != true", Object::Boolean(true)),
        ("(1 < 2) == true", Object::Boolean(true)),
        ("(1 < 2) == false", Object::Boolean(false)),
        ("(1 > 2) == true", Object::Boolean(false)),
        ("(1 > 2) == false", Object::Boolean(true)),
    ];
    input_and_expected
        .into_iter()
        .for_each(|(i, e)| assert_eq!(test(i), e))
}

#[test]
fn test_eval_prefix_expression() {
    let input_and_expected = vec![
        ("!true", Object::Boolean(false)),
        ("!false", Object::Boolean(true)),
        ("!!false", Object::Boolean(false)),
        ("!!true", Object::Boolean(true)),
        ("!5", Object::Boolean(false)),
        ("!!5", Object::Boolean(true)),
    ];
    input_and_expected
        .into_iter()
        .for_each(|(i, e)| assert_eq!(test(i), e))
}

#[test]
fn test_eval_if_expression() {
    let input_and_expected = vec![
        ("if (true) { 10 }", Object::Integer(10)),
        ("if (false) { 10 }", Object::Null),
        ("if (1) { 10 }", Object::Integer(10)),
        ("if (1 < 2) { 10 }", Object::Integer(10)),
        ("if (1 > 2) { 10 }", Object::Null),
        ("if (1 > 2) { 10 } else { 20 }", Object::Integer(20)),
        ("if (1 < 2) { 10 } else { 20 }", Object::Integer(10)),
    ];
    input_and_expected
        .into_iter()
        .for_each(|(i, e)| assert_eq!(test(i), e))
}

#[test]
fn test_eval_return_stmt() {
    let input_and_expected = vec![
        ("return 10;", Object::Integer(10)),
        ("return 10; 9;", Object::Integer(10)),
        ("return 2 * 5; 9;", Object::Integer(10)),
        ("9; return 2 * 5; 9;", Object::Integer(10)),
        (
            r#"
                if (10 > 1) {
                    if (10 > 1) {
                        return 10;
                    }
                    return 1; 
                }
                "#,
            Object::Integer(10),
        ),
    ];
    input_and_expected
        .into_iter()
        .for_each(|(i, e)| assert_eq!(test(i), e))
}

#[test]
fn test_eval_errors() {
    let input_and_expected = vec![
        ("5 + true;", Object::Error("Cannot add 5 to true".into())),
        ("5 + true; 5;", Object::Error("Cannot add 5 to true".into())),
        (
            "-true",
            Object::Error("No such negative value of true".into()),
        ),
        (
            "true + false;",
            Object::Error("Cannot add true to false".into()),
        ),
        (
            "5; true + false; 5",
            Object::Error("Cannot add true to false".into()),
        ),
        (
            "if (10 > 1) { true + false; }",
            Object::Error("Cannot add true to false".into()),
        ),
        (
            r#" 
                if (10 > 1) {
                    if (10 > 1) {
                        return true + false;
                    }
                    return 1; 
                }
                "#,
            Object::Error("Cannot add true to false".into()),
        ),
        (
            "foobar",
            Object::Error("Identifier not found: foobar".into()),
        ),
    ];
    input_and_expected
        .into_iter()
        .for_each(|(i, e)| assert_eq!(test(i), e))
}

#[test]
fn test_eval_let_stmts() {
    let input_and_expected = vec![
        ("let a = 5; a;", Object::Integer(5)),
        ("let a = 5 * 5; a;", Object::Integer(25)),
        ("let a = 5; let b = a; b;", Object::Integer(5)),
        (
            "let a = 5; let b = a; let c = a + b + 5; c;",
            Object::Integer(15),
        ),
    ];
    input_and_expected
        .into_iter()
        .for_each(|(i, e)| assert_eq!(test(i), e))
}

#[test]
fn test_eval_func_def() {
    let input = "fn(x) { x + 2; };";

    let expected_params = vec![String::from("x")];
    let expected_body = Ast::from(vec![Stmt::Expression(Expr::Infix(
        Box::new(Expr::Ident("x".into())),
        Operator::Plus,
        Box::new(Expr::IntLiteral(2)),
    ))]);

    let obj = test(input);
    match obj {
        Object::Func { params, body, env } => {
            assert_eq!(params, expected_params);
            assert_eq!(body, expected_body);
            assert_eq!(env, 0);
        }
        _ => assert!(false),
    }
}

#[test]
fn test_eval_func_call() {
    let input_and_expected = vec![
        (
            "let identity = fn(x) { x; }; identity(5);",
            Object::Integer(5),
        ),
        (
            "let identity = fn(x) { return x; }; identity(5);",
            Object::Integer(5),
        ),
        (
            "let double = fn(x) { x * 2; }; double(5);",
            Object::Integer(10),
        ),
        (
            "let add = fn(x, y) { x + y; }; add(5, 5);",
            Object::Integer(10),
        ),
        (
            "let add = fn(x, y) { x + y; }; add(5 + 5, add(5, 5));",
            Object::Integer(20),
        ),
        ("fn(x) { x; }(5)", Object::Integer(5)),
    ];
    input_and_expected
        .into_iter()
        .for_each(|(i, e)| assert_eq!(test(i), e))
}

#[test]
fn closures_keep_the_scope_they_were_defined_in() {
    assert_eq!(
        test("let newAdder = fn(x) { fn(y) { x + y }; }; let addTwo = newAdder(2); addTwo(3);"),
        Object::Integer(5)
    );
    // Two closures from one maker do not share their arguments.
    assert_eq!(
        test(
            "let newAdder = fn(x) { fn(y) { x + y } };
             let addTwo = newAdder(2);
             let addTen = newAdder(10);
             addTwo(1) * 100 + addTen(1)"
        ),
        Object::Integer(311)
    );
    // A parameter shadows an outer binding of the same name, which stays.
    assert_eq!(
        test("let x = 1; let f = fn(x) { x * 10 }; f(5) + x"),
        Object::Integer(51)
    );
}

#[test]
fn a_function_sees_what_its_scope_binds_later() {
    assert_eq!(
        test(
            "let fact = fn(n) { if (n < 2) { 1 } else { n * fact(n - 1) } };
             fact(10)"
        ),
        Object::Integer(3628800)
    );
    assert_eq!(
        test("let f = fn() { late }; let late = 7; f()"),
        Object::Integer(7)
    );
}

#[test]
fn a_let_inside_a_call_does_not_reach_the_caller() {
    assert_eq!(
        test("let x = 1; let f = fn() { let x = 2; x }; f() * 10 + x"),
        Object::Integer(21)
    );
    assert_eq!(
        test("let f = fn() { let hidden = 2; hidden }; f(); hidden"),
        error("Identifier not found: hidden")
    );
}

#[test]
fn functions_are_values() {
    assert_eq!(
        test(
            "let twice = fn(f, x) { f(f(x)) };
             let inc = fn(n) { n + 1 };
             twice(inc, 5)"
        ),
        Object::Integer(7)
    );
    assert_eq!(test("fn(x) { fn(y) { x - y } }(10)(3)"), Object::Integer(7));
}

#[test]
fn an_error_ends_the_program_whatever_follows() {
    let failing = "let a = 1; a + true;";
    let first = test(failing);
    assert_eq!(first, error("Cannot add 1 to true"));
    for rest in ["5;", "let b = 2; b", "return 3;", "undefined", "fn(x) { x }(1)"] {
        let mut longer = String::from(failing);
        longer.push_str(rest);
        assert_eq!(test(&longer), first);
    }
}

#[test]
fn an_unbound_identifier_is_an_error_value() {
    assert_eq!(test("foobar"), error("Identifier not found: foobar"));
    assert_eq!(test("let a = 1; b"), error("Identifier not found: b"));
    assert_eq!(test("1 + missing"), error("Identifier not found: missing"));
    assert_eq!(test("missing(1)"), error("Identifier not found: missing"));
}

#[test]
fn errors_pass_through_operators_conditions_and_calls() {
    assert_eq!(test("-(true + 1)"), error("Cannot add true to 1"));
    assert_eq!(test("!(true + 1)"), error("Cannot add true to 1"));
    assert_eq!(test("(true + 1) + 2"), error("Cannot add true to 1"));
    assert_eq!(test("2 + (true + 1)"), error("Cannot add true to 1"));
    assert_eq!(test("(1 - true) + (true + 1)"), error("Cannot subtract 1 from true"));
    assert_eq!(test("if (true + 1) { 1 }"), error("Cannot add true to 1"));
    assert_eq!(test("let a = true + 1; 5"), error("Cannot add true to 1"));
    assert_eq!(test("return true + 1; 5"), error("Cannot add true to 1"));
    assert_eq!(
        test("let f = fn(x) { x }; f(true + 1)"),
        error("Cannot add true to 1")
    );
    assert_eq!(
        test("let f = fn(x) { x * true; 5 }; f(2) + 1"),
        error("Cannot multiply 2 and true")
    );
}

#[test]
fn a_sentinel_is_not_bound_by_let() {
    let mut runtime = Runtime::new();
    let mut parser = Parser::new("let a = if (true) { return 5 }; 7");
    assert_eq!(runtime.evaluate(parser.parse()), Object::Integer(5));
    let mut parser = Parser::new("a");
    assert_eq!(
        runtime.evaluate(parser.parse()),
        error("Identifier not found: a")
    );
}

#[test]
fn a_sentinel_among_the_arguments_ends_the_call() {
    assert_eq!(
        test("let f = fn(x, y) { 100 }; f(1, if (true) { return 2 }); 9"),
        Object::Integer(2)
    );
    // As an operand, a return value is a value like any other.
    assert_eq!(
        test("let f = fn(x, y) { 100 }; f(1, if (true) { return 2 }) + 1"),
        error("Cannot add 2 to 1")
    );
}

#[test]
fn type_errors_name_the_operation_and_show_the_operands() {
    assert_eq!(test("1 - true"), error("Cannot subtract 1 from true"));
    assert_eq!(test("true * 2"), error("Cannot multiply true and 2"));
    assert_eq!(test("true / 2"), error("Cannot divide true and 2"));
    assert_eq!(test("1 < true"), error("Cannot compare 1 < true"));
    assert_eq!(test("true > false"), error("Cannot compare true > false"));
    assert_eq!(test("1 == true"), error("Cannot compare 1 == true"));
    assert_eq!(test("true != 1"), error("Cannot compare true != 1"));
    assert_eq!(
        test("fn(x) { x } == 1"),
        error("Cannot compare fn(x) { x } == 1")
    );
    assert_eq!(
        test("if (false) { 1 } + 1"),
        error("Cannot add null to 1")
    );
    assert_eq!(test("-fn() { 1 }"), error("No such negative value of fn() { 1 }"));
}

#[test]
fn only_functions_can_be_called() {
    assert_eq!(test("5(1)"), error("5 is not callable"));
    assert_eq!(test("true()"), error("true is not callable"));
    assert_eq!(test("let a = 3; a(1, 2)"), error("3 is not callable"));
    assert_eq!(test("if (false) { 1 }(2)"), error("null is not callable"));
    // The arguments of a call that cannot happen are not evaluated.
    assert_eq!(test("5(missing)"), error("5 is not callable"));
}

#[test]
fn division_rounds_towards_zero_and_refuses_zero() {
    assert_eq!(test("7 / 2"), Object::Integer(3));
    assert_eq!(test("-7 / 2"), Object::Integer(-3));
    assert_eq!(test("7 / -2"), Object::Integer(-3));
    assert_eq!(test("-7 / -2"), Object::Integer(3));
    assert_eq!(test("0 / 5"), Object::Integer(0));
    assert_eq!(test("5 / 0"), error("Cannot divide 5 and 0"));
    assert_eq!(test("0 / 0"), error("Cannot divide 0 and 0"));
    assert_eq!(test("1 / 0; 5"), error("Cannot divide 1 and 0"));
}

#[test]
fn arithmetic_wraps_around() {
    assert_eq!(
        test("9223372036854775807 + 1"),
        Object::Integer(i64::MIN)
    );
    assert_eq!(
        test("-9223372036854775807 - 2"),
        Object::Integer(i64::MAX)
    );
    assert_eq!(
        test("9223372036854775807 * 2"),
        Object::Integer(-2)
    );
    assert_eq!(
        test("let least = -9223372036854775807 - 1; -least"),
        Object::Integer(i64::MIN)
    );
    assert_eq!(
        test("let least = -9223372036854775807 - 1; least / -1"),
        Object::Integer(i64::MIN)
    );
    assert_eq!(
        test("let least = -9223372036854775807 - 1; least / 1"),
        Object::Integer(i64::MIN)
    );
}

#[test]
fn only_null_and_false_are_falsy() {
    assert!(!Object::Null.is_truthy());
    assert!(!Object::Boolean(false).is_truthy());
    assert!(Object::Boolean(true).is_truthy());
    assert!(Object::Integer(0).is_truthy());
    assert!(Object::Integer(-1).is_truthy());
    assert!(error("x").is_truthy());
    assert!(Object::ReturnValue(Box::new(Object::Null)).is_truthy());
    assert_eq!(test("if (0) { 1 } else { 2 }"), Object::Integer(1));
    assert_eq!(test("!0"), Object::Boolean(false));
    assert_eq!(test("!if (false) { 1 }"), Object::Boolean(true));
    assert_eq!(test("if (fn() { 1 }) { 1 } else { 2 }"), Object::Integer(1));
}

#[test]
fn blocks_have_the_value_of_their_last_statement() {
    assert_eq!(test(""), Object::Null);
    assert_eq!(test("if (true) { }"), Object::Null);
    assert_eq!(test("fn() { }()"), Object::Null);
    assert_eq!(test("1; 2; 3"), Object::Integer(3));
    assert_eq!(test("let a = 4"), Object::Integer(4));
    assert_eq!(test("if (true) { 1; 2 }"), Object::Integer(2));
}

#[test]
fn a_return_leaves_the_function_not_the_caller() {
    assert_eq!(
        test("let f = fn() { if (true) { return 1; } 2 }; f() + 10"),
        Object::Integer(11)
    );
    assert_eq!(
        test("let f = fn() { return 1; 2 }; f(); 3"),
        Object::Integer(3)
    );
}

#[test]
fn arguments_are_bound_as_far_as_both_lists_reach() {
    assert_eq!(test("fn(x, y) { x }(1, 2, 3)"), Object::Integer(1));
    assert_eq!(
        test("fn(x, y) { y }(1)"),
        error("Identifier not found: y")
    );
    assert_eq!(test("fn(x, x) { x }(1, 2)"), Object::Integer(2));
}

#[test]
fn arguments_are_evaluated_in_the_scope_of_the_caller() {
    assert_eq!(
        test("let x = 5; let f = fn(x) { x + 1 }; let g = fn(x) { f(x * 2) }; g(x)"),
        Object::Integer(11)
    );
}

#[test]
fn the_number_of_nested_calls_can_be_bounded() {
    let source = "let down = fn(n) { if (n < 1) { 0 } else { down(n - 1) } }; down(DEPTH)";
    let run = |limit: usize, depth: usize| {
        let text = source.replace("DEPTH", &depth.to_string());
        let mut parser = Parser::new(&text);
        let program = parser.parse();
        assert!(parser.errors.is_empty());
        Runtime::with_call_depth(limit).evaluate(program)
    };
    // `down(n)` has n + 1 calls under way when it reaches the bottom.
    assert_eq!(run(10, 9), Object::Integer(0));
    assert_eq!(run(10, 10), error("Too many nested calls"));
    assert_eq!(run(0, 0), error("Too many nested calls"));
    assert_eq!(run(1, 0), Object::Integer(0));
}

#[test]
fn a_new_runtime_has_no_bound_that_a_program_meets() {
    assert_eq!(DEFAULT_CALL_DEPTH, usize::MAX);
    let source = "let down = fn(n) { if (n < 1) { 0 } else { 1 + down(n - 1) } }; down(300)";
    assert_eq!(Runtime::new().interpret(source), Ok(Object::Integer(300)));
}

#[test]
fn a_return_value_is_never_seen_outside() {
    assert_eq!(test("return if (true) { return 1; }"), Object::Integer(1));
    assert_eq!(
        test("return if (true) { return if (true) { return 2; } }"),
        Object::Integer(2)
    );
    assert_eq!(
        test("let f = fn() { return if (true) { return 3; } }; f()"),
        Object::Integer(3)
    );
    assert_eq!(
        test("let f = fn() { return if (true) { return 4; } }; f() + 1"),
        Object::Integer(5)
    );
    assert_eq!(
        Object::ReturnValue(Box::new(Object::ReturnValue(Box::new(Object::Integer(5)))))
            .unwrap_return(),
        Object::Integer(5)
    );
    assert_eq!(test("return true + 1"), error("Cannot add true to 1"));
}

#[test]
fn a_runtime_keeps_its_root_scope_between_programs() {
    let mut runtime = Runtime::new();
    let mut run = |source: &str| {
        let mut parser = Parser::new(source);
        let program = parser.parse();
        assert!(parser.errors.is_empty());
        runtime.evaluate(program)
    };
    assert_eq!(run("let a = 2;"), Object::Integer(2));
    assert_eq!(run("let square = fn(x) { x * x };").to_string(), "fn(x) { (x * x) }");
    assert_eq!(run("square(a) + 1"), Object::Integer(5));
    assert_eq!(run("let a = 3; square(a)"), Object::Integer(9));
    assert_eq!(run("b"), error("Identifier not found: b"));
}

#[test]
fn operators_that_no_parser_builds_are_errors() {
    let mut runtime = Runtime::new();
    let odd_prefix = Ast::from(vec![Stmt::Expression(Expr::Prefix(
        Operator::Plus,
        Box::new(Expr::IntLiteral(1)),
    ))]);
    assert_eq!(
        runtime.evaluate(odd_prefix),
        error("Unsupported operator as prefix: +")
    );
    let odd_infix = Ast::from(vec![Stmt::Expression(Expr::Infix(
        Box::new(Expr::Ident(String::from("missing"))),
        Operator::Bang,
        Box::new(Expr::IntLiteral(1)),
    ))]);
    assert_eq!(
        runtime.evaluate(odd_infix),
        error("Unsupported operator as infix: !")
    );
}

#[test]
fn values_render() {
    assert_eq!(Object::Integer(-42).to_string(), "-42");
    assert_eq!(Object::Boolean(true).to_string(), "true");
    assert_eq!(Object::Null.to_string(), "null");
    assert_eq!(error("boom").to_string(), "boom");
    assert_eq!(
        Object::ReturnValue(Box::new(Object::Integer(7))).to_string(),
        "7"
    );
    assert_eq!(
        test("fn(a, b) { let c = a; c + b }").to_string(),
        "fn(a, b) { let c = a;, (c + b) }"
    );
}

#[test]
fn primitive_operators_on_objects() {
    let five = Object::Integer(5);
    let two = Object::Integer(2);
    assert_eq!(five.add(&two), Object::Integer(7));
    assert_eq!(five.sub(&two), Object::Integer(3));
    assert_eq!(five.mul(&two), Object::Integer(10));
    assert_eq!(five.div(&two), Object::Integer(2));
    assert_eq!(five.neg(), Object::Integer(-5));
    assert_eq!(five.not(), Object::Boolean(false));
    assert_eq!(five.less_than(&two), Object::Boolean(false));
    assert_eq!(five.greater_than(&two), Object::Boolean(true));
    assert_eq!(five.equals(&two), Object::Boolean(false));
    assert_eq!(five.not_equals(&two), Object::Boolean(true));
    assert_eq!(five.infix(Operator::Minus, &two), Object::Integer(3));
    assert_eq!(five.prefix(Operator::Minus), Object::Integer(-5));
    assert_eq!(
        Object::ReturnValue(Box::new(Object::Integer(1))).add(&two),
        error("Cannot add 1 to 2")
    );
    assert_eq!(Object::ReturnValue(Box::new(two.clone())).unwrap_return(), two);
    assert_eq!(five.clone().unwrap_return(), five);
    assert!(error("x").is_sentinel());
    assert!(!Object::Null.is_sentinel());
}

#[test]
fn scopes_shadow_and_chain() {
    let mut root = Environment::new();
    root.set(String::from("a"), Object::Integer(1));
    root.set(String::from("b"), Object::Integer(2));
    root.set(String::from("a"), Object::Integer(3));
    let child = Environment::child_of(0).with(
        &vec![String::from("b"), String::from("c"), String::from("d")],
        &vec![Object::Integer(20), Object::Integer(30)],
    );
    let scopes = vec![root, child];
    assert_eq!(lookup_in(&scopes, 0, "a"), Some(Object::Integer(3)));
    assert_eq!(lookup_in(&scopes, 1, "a"), Some(Object::Integer(3)));
    assert_eq!(lookup_in(&scopes, 1, "b"), Some(Object::Integer(20)));
    assert_eq!(lookup_in(&scopes, 0, "b"), Some(Object::Integer(2)));
    assert_eq!(lookup_in(&scopes, 1, "c"), Some(Object::Integer(30)));
    assert_eq!(lookup_in(&scopes, 0, "c"), None);
    assert_eq!(lookup_in(&scopes, 1, "d"), None);
    assert_eq!(lookup_in(&scopes, 2, "a"), None);
    // A link that does not point backwards is not followed.
    let looped = vec![Environment::child_of(0), Environment::child_of(5)];
    assert_eq!(lookup_in(&looped, 0, "a"), None);
    assert_eq!(lookup_in(&looped, 1, "a"), None);
}

#[test]
fn the_scope_of_a_call_is_dropped_unless_a_function_was_defined_in_it() {
    let mut runtime = Runtime::new();
    let mut run = |source: &str| {
        let value = runtime.interpret(source).unwrap();
        (value, runtime.scope_count())
    };
    assert_eq!(run("let a = 1;"), (Object::Integer(1), 1));
    assert_eq!(
        run("let fact = fn(n) { if (n < 2) { 1 } else { n * fact(n - 1) } }; fact(10)"),
        (Object::Integer(3628800), 1)
    );
    // The scope of `newAdder(2)` lives on in `addTwo`.
    assert_eq!(
        run("let newAdder = fn(x) { fn(y) { x + y } }; let addTwo = newAdder(2); addTwo(3)"),
        (Object::Integer(5), 2)
    );
    assert_eq!(run("addTwo(4) + addTwo(5)"), (Object::Integer(13), 2));
    assert_eq!(run("newAdder(1)(1)"), (Object::Integer(2), 3));
    assert_eq!(run("addTwo(40)"), (Object::Integer(42), 3));
}

#[test]
fn a_source_with_syntax_errors_is_not_run() {
    let mut runtime = Runtime::new();
    assert_eq!(runtime.interpret("let a = 5; a * 2"), Ok(Object::Integer(10)));
    assert_eq!(
        runtime.interpret("let a = 6; let = 7;"),
        Err(vec![ParseError::ExpectedIdentifier])
    );
    // The `let a = 6` before the broken statement did not happen.
    assert_eq!(runtime.interpret("a"), Ok(Object::Integer(5)));
    assert_eq!(runtime.interpret(""), Ok(Object::Null));
}
