use monkey_interpreter::ast::{Args, Ast, Expr, Operator, Stmt};
use monkey_interpreter::parse::{parse_source, ParseError, Parser, Precedence};
use monkey_interpreter::token::Token;

fn test(src: &str) -> (Ast, Vec<ParseError>) {
    let mut parser = Parser::new(src);
    (parser.parse(), parser.errors)
}

fn ident(name: &str) -> Expr {
    Expr::Ident(String::from(name))
}

fn infix(left: Expr, operator: Operator, right: Expr) -> Expr {
    Expr::Infix(Box::new(left), operator, Box::new(right))
}

fn prefix(operator: Operator, right: Expr) -> Expr {
    Expr::Prefix(operator, Box::new(right))
}

fn rendered(program: &Ast) -> String {
    program
        .0
        .iter()
        .map(|s| s.to_string())
        .collect::<Vec<_>>()
        .join("")
}

const PRECEDENCE_TABLE: [(&str, &str); 21] = [
    ("-a * b", "((-a) * b)"),
    ("!-a", "(!(-a))"),
    ("a + b + c", "((a + b) + c)"),
    ("a + b - c", "((a + b) - c)"),
    ("a * b * c", "((a * b) * c)"),
    ("a * b / c", "((a * b) / c)"),
    ("a + b / c", "(a + (b / c))"),
    ("a + b * c + d / e - f", "(((a + (b * c)) + (d / e)) - f)"),
    ("3 + 4; -5 * 5", "(3 + 4)((-5) * 5)"),
    ("5 > 4 == 3 < 4", "((5 > 4) == (3 < 4))"),
    ("5 < 4 != 3 > 4", "((5 < 4) != (3 > 4))"),
    (
        "3 + 4 * 5 == 3 * 1 + 4 * 5",
        "((3 + (4 * 5)) == ((3 * 1) + (4 * 5)))",
    ),
    ("true", "true"),
    ("false", "false"),
    ("3 > 5 == false", "((3 > 5) == false)"),
    ("3 < 5 == true", "((3 < 5) == true)"),
    ("1 + (2 + 3) + 4", "((1 + (2 + 3)) + 4)"),
    ("(5 + 5) * 2", "((5 + 5) * 2)"),
    ("2 / (5 + 5)", "(2 / (5 + 5))"),
    ("-(5 + 5)", "(-(5 + 5))"),
    ("!(true == true)", "(!(true == true))"),
];

#[test]
fn test_test_parse_let_statements() {
    let (program, errors) = test(
        r#"
            let x = 5;
            let y = 10;
            let foobar = 838383;
        "#,
    );

    assert!(errors.is_empty());

    let expected_statements = vec![
        Stmt::Let {
            ident: String::from("x"),
            val: Expr::IntLiteral(5),
        },
        Stmt::Let {
            ident: String::from("y"),
            val: Expr::IntLiteral(10),
        },
        Stmt::Let {
            ident: String::from("foobar"),
            val: Expr::IntLiteral(838383),
        },
    ];

    assert_eq!(expected_statements.len(), program.0.len());

    expected_statements
        .into_iter()
        .enumerate()
        .for_each(|(i, s)| assert_eq!(s, program.0[i]));
}

#[test]
fn test_test_parse_return_statement() {
    let (program, errors) = test(
        r#"
            return 5;
            return 10;
            return 993322;
        "#,
    );

    assert!(errors.is_empty());

    let expected_statements = vec![
        Stmt::Return(Expr::IntLiteral(5)),
        Stmt::Return(Expr::IntLiteral(10)),
        Stmt::Return(Expr::IntLiteral(993322)),
    ];

    assert_eq!(expected_statements.len(), program.0.len());

    expected_statements
        .into_iter()
        .enumerate()
        .for_each(|(i, s)| assert_eq!(s, program.0[i]));
}

#[test]
fn test_test_let_statement_syntax_errors() {
    let (_, errors) = test(
        r#"
            let = 5;
            let y y 10;
        "#,
    );

    let expected_errors = vec![
        ParseError::ExpectedIdentifier,
        ParseError::UnexpectedToken {
            expected: Token::Assign,
            received: Token::Ident(String::from("y")),
        },
    ];

    expected_errors
        .into_iter()
        .for_each(|e| assert!(errors.contains(&e)));
}

#[test]
fn test_test_parse_identifier_expression() {
    let (program, errors) = test("foobar;");

    assert!(errors.is_empty());
    assert_eq!(program.0.len(), 1);

    let expected_statement = Stmt::Expression(Expr::Ident(String::from("foobar")));
    assert_eq!(expected_statement, program.0[0]);
}

#[test]
fn test_test_parse_int_literal_expression() {
    let (program, errors) = test("5;");

    assert!(errors.is_empty());
    assert_eq!(program.0.len(), 1);

    let expected_statement = Stmt::Expression(Expr::IntLiteral(5));
    assert_eq!(expected_statement, program.0[0]);
}

#[test]
fn test_test_parse_boolean_literal_expression() {
    let (program, errors) = test(
        r#"
            true;
            false;
        "#,
    );

    assert!(errors.is_empty());

    let expected_statements = vec![
        Stmt::Expression(Expr::BooleanLiteral(true)),
        Stmt::Expression(Expr::BooleanLiteral(false)),
    ];

    assert_eq!(expected_statements.len(), program.0.len());

    expected_statements
        .into_iter()
        .enumerate()
        .for_each(|(i, s)| assert_eq!(s, program.0[i]));
}

#[test]
fn test_test_parse_prefix_expression() {
    let (program, errors) = test(
        r#"
            !5;
            -15;
            !true;
            !false;
        "#,
    );

    assert!(errors.is_empty());

    let expected_statements = vec![
        Stmt::Expression(Expr::Prefix(Operator::Bang, Box::new(Expr::IntLiteral(5)))),
        Stmt::Expression(Expr::Prefix(
            Operator::Minus,
            Box::new(Expr::IntLiteral(15)),
        )),
        Stmt::Expression(Expr::Prefix(
            Operator::Bang,
            Box::new(Expr::BooleanLiteral(true)),
        )),
        Stmt::Expression(Expr::Prefix(
            Operator::Bang,
            Box::new(Expr::BooleanLiteral(false)),
        )),
    ];

    assert_eq!(expected_statements.len(), program.0.len());

    expected_statements
        .into_iter()
        .enumerate()
        .for_each(|(i, s)| assert_eq!(s, program.0[i]));
}

#[test]
fn test_test_parse_infix_expression() {
    let (program, errors) = test(
        r#"
            5 + 5;
            5 - 5;
            5 * 5;
            5 / 5;
            5 > 5;
            5 < 5;
            5 == 5;
            5 != 5;
            true == true;
            true != false;
            false == false;
       "#,
    );

    assert!(errors.is_empty());

    let expected_statements = vec![
        Stmt::Expression(Expr::Infix(
            Box::new(Expr::IntLiteral(5)),
            Operator::Plus,
            Box::new(Expr::IntLiteral(5)),
        )),
        Stmt::Expression(Expr::Infix(
            Box::new(Expr::IntLiteral(5)),
            Operator::Minus,
            Box::new(Expr::IntLiteral(5)),
        )),
        Stmt::Expression(Expr::Infix(
            Box::new(Expr::IntLiteral(5)),
            Operator::Multiplication,
            Box::new(Expr::IntLiteral(5)),
        )),
        Stmt::Expression(Expr::Infix(
            Box::new(Expr::IntLiteral(5)),
            Operator::Division,
            Box::new(Expr::IntLiteral(5)),
        )),
        Stmt::Expression(Expr::Infix(
            Box::new(Expr::IntLiteral(5)),
            Operator::GreaterThan,
            Box::new(Expr::IntLiteral(5)),
        )),
        Stmt::Expression(Expr::Infix(
            Box::new(Expr::IntLiteral(5)),
            Operator::LessThan,
            Box::new(Expr::IntLiteral(5)),
        )),
        Stmt::Expression(Expr::Infix(
            Box::new(Expr::IntLiteral(5)),
            Operator::Equals,
            Box::new(Expr::IntLiteral(5)),
        )),
        Stmt::Expression(Expr::Infix(
            Box::new(Expr::IntLiteral(5)),
            Operator::NotEquals,
            Box::new(Expr::IntLiteral(5)),
        )),
        Stmt::Expression(Expr::Infix(
            Box::new(Expr::BooleanLiteral(true)),
            Operator::Equals,
            Box::new(Expr::BooleanLiteral(true)),
        )),
        Stmt::Expression(Expr::Infix(
            Box::new(Expr::BooleanLiteral(true)),
            Operator::NotEquals,
            Box::new(Expr::BooleanLiteral(false)),
        )),
        Stmt::Expression(Expr::Infix(
            Box::new(Expr::BooleanLiteral(false)),
            Operator::Equals,
            Box::new(Expr::BooleanLiteral(false)),
        )),
    ];

    assert_eq!(expected_statements.len(), program.0.len());

    expected_statements
        .into_iter()
        .enumerate()
        .for_each(|(i, s)| assert_eq!(s, program.0[i]));
}

#[test]
fn test_test_operator_precedence_parsing() {
    let expressions_and_expectations = vec![
        ("-a * b", "((-a) * b)"),
        ("!-a", "(!(-a))"),
        ("a + b + c", "((a + b) + c)"),
        ("a + b - c", "((a + b) - c)"),
        ("a * b * c", "((a * b) * c)"),
        ("a * b / c", "((a * b) / c)"),
        ("a + b / c", "(a + (b / c))"),
        ("a + b * c + d / e - f", "(((a + (b * c)) + (d / e)) - f)"),
        ("3 + 4; -5 * 5", "(3 + 4)((-5) * 5)"),
        ("5 > 4 == 3 < 4", "((5 > 4) == (3 < 4))"),
        ("5 < 4 != 3 > 4", "((5 < 4) != (3 > 4))"),
        (
            "3 + 4 * 5 == 3 * 1 + 4 * 5",
            "((3 + (4 * 5)) == ((3 * 1) + (4 * 5)))",
        ),
        ("true", "true"),
        ("false", "false"),
        ("3 > 5 == false", "((3 > 5) == false)"),
        ("3 < 5 == true", "((3 < 5) == true)"),
        ("1 + (2 + 3) + 4", "((1 + (2 + 3)) + 4)"),
        ("(5 + 5) * 2", "((5 + 5) * 2)"),
        ("2 / (5 + 5)", "(2 / (5 + 5))"),
        ("-(5 + 5)", "(-(5 + 5))"),
        ("!(true == true)", "(!(true == true))"),
    ];

    for (expr, expect) in expressions_and_expectations {
        let (program, _errors) = test(expr);
        let ast_string = program
            .0
            .iter()
            .map(|s| s.to_string())
            .collect::<Vec<_>>()
            .join("");

        assert_eq!(ast_string, expect);
    }
}

#[test]
fn test_test_if_expression() {
    let (program, errors) = test(
        r#"
            if (x < y) { x }
            if (x < y) { x } else { y }
        "#,
    );

    assert!(errors.is_empty());

    let expected_statements = vec![
        Stmt::Expression(Expr::If {
            check: Box::new(Expr::Infix(
                Box::new(Expr::Ident(String::from("x"))),
                Operator::LessThan,
                Box::new(Expr::Ident(String::from("y"))),
            )),
            block: Ast::from(vec![Stmt::Expression(Expr::Ident(String::from("x")))]),
            alt: None,
        }),
        Stmt::Expression(Expr::If {
            check: Box::new(Expr::Infix(
                Box::new(Expr::Ident(String::from("x"))),
                Operator::LessThan,
                Box::new(Expr::Ident(String::from("y"))),
            )),
            block: Ast::from(vec![Stmt::Expression(Expr::Ident(String::from("x")))]),
            alt: Some(Ast::from(vec![Stmt::Expression(Expr::Ident(
                String::from("y"),
            ))])),
        }),
    ];

    assert_eq!(expected_statements.len(), program.0.len());

    expected_statements
        .into_iter()
        .enumerate()
        .for_each(|(i, s)| assert_eq!(s, program.0[i]));
}

#[test]
fn test_parse_function_literal() {
    let (program, errors) = test(
        r#"
            fn(x, y) { x + y; }
            fn() { x + y; }
            fn(x) { x + y; }
        "#,
    );

    assert!(errors.is_empty());

    let expected_statements = vec![
        Stmt::Expression(Expr::FuncLiteral {
            params: vec![String::from("x"), String::from("y")],
            body: Ast::from(vec![Stmt::Expression(Expr::Infix(
                Box::new(Expr::Ident(String::from("x"))),
                Operator::Plus,
                Box::new(Expr::Ident(String::from("y"))),
            ))]),
        }),
        Stmt::Expression(Expr::FuncLiteral {
            params: vec![],
            body: Ast::from(vec![Stmt::Expression(Expr::Infix(
                Box::new(Expr::Ident(String::from("x"))),
                Operator::Plus,
                Box::new(Expr::Ident(String::from("y"))),
            ))]),
        }),
        Stmt::Expression(Expr::FuncLiteral {
            params: vec![String::from("x")],
            body: Ast::from(vec![Stmt::Expression(Expr::Infix(
                Box::new(Expr::Ident(String::from("x"))),
                Operator::Plus,
                Box::new(Expr::Ident(String::from("y"))),
            ))]),
        }),
    ];

    assert_eq!(expected_statements.len(), program.0.len());

    expected_statements
        .into_iter()
        .enumerate()
        .for_each(|(i, s)| assert_eq!(s, program.0[i]));
}

#[test]
fn test_parse_call_expression() {
    let (program, errors) = test(
        r#"
        add(1, 2 * 3, 4 + 5);
    "#,
    );

    assert!(errors.is_empty());

    let expected_statements = vec![Stmt::Expression(Expr::Call {
        func: Box::new(Expr::Ident(String::from("add"))),
        args: Args::from(vec![
            Expr::IntLiteral(1),
            Expr::Infix(
                Box::new(Expr::IntLiteral(2)),
                Operator::Multiplication,
                Box::new(Expr::IntLiteral(3)),
            ),
            Expr::Infix(
                Box::new(Expr::IntLiteral(4)),
                Operator::Plus,
                Box::new(Expr::IntLiteral(5)),
            ),
        ]),
    })];

    assert_eq!(expected_statements.len(), program.0.len());

    expected_statements
        .into_iter()
        .enumerate()
        .for_each(|(i, s)| assert_eq!(s, program.0[i]));
}

#[test]
fn parse_test_parse_let_statements() {
    let test_input = r#"
            let x = 5;
            let y = 10;
            let foobar = 838383;
        "#;
    let mut parser = Parser::new(test_input);
    let program = parser.parse();

    assert_eq!(program.0.len(), 3);

    let expected_indents = vec![String::from("x"), String::from("y"), String::from("foobar")];

    for (i, statement) in program.0.into_iter().enumerate() {
        match statement {
            Stmt::Let { ident, .. } => {
                assert_eq!(expected_indents[i], ident)
            }
            _ => assert!(false),
        };
    }
}

#[test]
fn parse_test_parse_return_statement() {
    let test_input = r#"
            return 5;
            return 10;
            return 993322;
        "#;
    let mut parser = Parser::new(test_input);
    let program = parser.parse();

    assert_eq!(program.0.len(), 3);

    for statement in program.0 {
        match statement {
            Stmt::Return(_) => {}
            _ => assert!(false),
        }
    }
}

#[test]
fn parse_test_let_statement_syntax_errors() {
    let test_input = r#"
            let = 5;
            let y y 10;
        "#;
    let mut parser = Parser::new(test_input);
    let _program = parser.parse();

    // A `let` without a name is an error of its own kind, not an unexpected
    // token measured against a made-up identifier.
    let made_up_name = ParseError::UnexpectedToken {
        expected: Token::Ident(String::from("/* Variable Name */")),
        received: Token::Assign,
    };
    assert!(!parser.errors.contains(&made_up_name));

    let expected_errors = vec![
        ParseError::ExpectedIdentifier,
        ParseError::UnexpectedToken {
            expected: Token::Assign,
            received: Token::Ident(String::from("y")),
        },
    ];

    for e in expected_errors {
        assert!(parser.errors.contains(&e));
    }
}

#[test]
fn parse_test_parse_identifier_expression() {
    let test_input = "foobar;";
    let mut parser = Parser::new(test_input);
    let program = parser.parse();

    assert_eq!(parser.errors.len(), 0);
    assert_eq!(program.0.len(), 1);

    let expected_statement = Stmt::Expression(Expr::Ident(String::from("foobar")));
    assert_eq!(expected_statement, program.0[0]);
}

#[test]
fn parse_test_parse_int_literal_expression() {
    let test_input = "5;";
    let mut parser = Parser::new(test_input);
    let program = parser.parse();

    assert_eq!(parser.errors.len(), 0);
    assert_eq!(program.0.len(), 1);

    let expected_statement = Stmt::Expression(Expr::IntLiteral(5));
    assert_eq!(expected_statement, program.0[0]);
}

#[test]
fn parse_test_parse_boolean_literal_expression() {
    let test_input = r#"
            true;
            false;
        "#;
    let mut parser = Parser::new(test_input);
    let program = parser.parse();

    let expected_statements = vec![
        Stmt::Expression(Expr::BooleanLiteral(true)),
        Stmt::Expression(Expr::BooleanLiteral(false)),
    ];

    expected_statements
        .into_iter()
        .enumerate()
        .for_each(|(i, s)| assert_eq!(s, program.0[i]));
}

#[test]
fn parse_test_parse_prefix_expression() {
    let test_input = r#"
            !5;
            -15;
            !true;
            !false;
        "#;
    let mut parser = Parser::new(test_input);
    let program = parser.parse();

    assert_eq!(parser.errors.len(), 0);
    let expected_statements = vec![
        Stmt::Expression(Expr::Prefix(Operator::Bang, Box::new(Expr::IntLiteral(5)))),
        Stmt::Expression(Expr::Prefix(
            Operator::Minus,
            Box::new(Expr::IntLiteral(15)),
        )),
        Stmt::Expression(Expr::Prefix(
            Operator::Bang,
            Box::new(Expr::BooleanLiteral(true)),
        )),
        Stmt::Expression(Expr::Prefix(
            Operator::Bang,
            Box::new(Expr::BooleanLiteral(false)),
        )),
    ];

    expected_statements
        .into_iter()
        .enumerate()
        .for_each(|(i, s)| assert_eq!(s, program.0[i]));
}

#[test]
fn parse_test_parse_infix_expression() {
    let test_input = r#"
            5 + 5;
            5 - 5;
            5 * 5;
            5 / 5;
            5 > 5;
            5 < 5;
            5 == 5;
            5 != 5;
            true == true;
            true != false;
            false == false;
       "#;
    let mut parser = Parser::new(test_input);
    let program = parser.parse();

    assert_eq!(parser.errors.len(), 0);

    let expected_statements = vec![
        Stmt::Expression(Expr::Infix(
            Box::new(Expr::IntLiteral(5)),
            Operator::Plus,
            Box::new(Expr::IntLiteral(5)),
        )),
        Stmt::Expression(Expr::Infix(
            Box::new(Expr::IntLiteral(5)),
            Operator::Minus,
            Box::new(Expr::IntLiteral(5)),
        )),
        Stmt::Expression(Expr::Infix(
            Box::new(Expr::IntLiteral(5)),
            Operator::Multiplication,
            Box::new(Expr::IntLiteral(5)),
        )),
        Stmt::Expression(Expr::Infix(
            Box::new(Expr::IntLiteral(5)),
            Operator::Division,
            Box::new(Expr::IntLiteral(5)),
        )),
        Stmt::Expression(Expr::Infix(
            Box::new(Expr::IntLiteral(5)),
            Operator::GreaterThan,
            Box::new(Expr::IntLiteral(5)),
        )),
        Stmt::Expression(Expr::Infix(
            Box::new(Expr::IntLiteral(5)),
            Operator::LessThan,
            Box::new(Expr::IntLiteral(5)),
        )),
        Stmt::Expression(Expr::Infix(
            Box::new(Expr::IntLiteral(5)),
            Operator::Equals,
            Box::new(Expr::IntLiteral(5)),
        )),
        Stmt::Expression(Expr::Infix(
            Box::new(Expr::IntLiteral(5)),
            Operator::NotEquals,
            Box::new(Expr::IntLiteral(5)),
        )),
        Stmt::Expression(Expr::Infix(
            Box::new(Expr::BooleanLiteral(true)),
            Operator::Equals,
            Box::new(Expr::BooleanLiteral(true)),
        )),
        Stmt::Expression(Expr::Infix(
            Box::new(Expr::BooleanLiteral(true)),
            Operator::NotEquals,
            Box::new(Expr::BooleanLiteral(false)),
        )),
        Stmt::Expression(Expr::Infix(
            Box::new(Expr::BooleanLiteral(false)),
            Operator::Equals,
            Box::new(Expr::BooleanLiteral(false)),
        )),
    ];

    expected_statements
        .into_iter()
        .enumerate()
        .for_each(|(i, s)| assert_eq!(s, program.0[i]));
}

#[test]
fn parse_test_operator_precedence_parsing() {
    let expressions_and_expectations = vec![
        ("-a * b", "((-a) * b)"),
        ("!-a", "(!(-a))"),
        ("a + b + c", "((a + b) + c)"),
        ("a + b - c", "((a + b) - c)"),
        ("a * b * c", "((a * b) * c)"),
        ("a * b / c", "((a * b) / c)"),
        ("a + b / c", "(a + (b / c))"),
        ("a + b * c + d / e - f", "(((a + (b * c)) + (d / e)) - f)"),
        ("3 + 4; -5 * 5", "(3 + 4)((-5) * 5)"),
        ("5 > 4 == 3 < 4", "((5 > 4) == (3 < 4))"),
        ("5 < 4 != 3 > 4", "((5 < 4) != (3 > 4))"),
        (
            "3 + 4 * 5 == 3 * 1 + 4 * 5",
            "((3 + (4 * 5)) == ((3 * 1) + (4 * 5)))",
        ),
        ("true", "true"),
        ("false", "false"),
        ("3 > 5 == false", "((3 > 5) == false)"),
        ("3 < 5 == true", "((3 < 5) == true)"),
        ("1 + (2 + 3) + 4", "((1 + (2 + 3)) + 4)"),
        ("(5 + 5) * 2", "((5 + 5) * 2)"),
        ("2 / (5 + 5)", "(2 / (5 + 5))"),
        ("-(5 + 5)", "(-(5 + 5))"),
        ("!(true == true)", "(!(true == true))"),
    ];

    for (expr, expect) in expressions_and_expectations {
        let mut parser = Parser::new(expr);
        let program = parser.parse();
        let ast_string = program
            .0
            .into_iter()
            .map(|s| s.to_string())
            .collect::<Vec<_>>()
            .join("");

        assert_eq!(ast_string, expect);
    }
}

#[test]
fn parse_test_if_expression() {
    let test_input = r#"
            if (x < y) { x }
            if (x < y) { x } else { y }
        "#;
    let mut parser = Parser::new(test_input);
    let program = parser.parse();

    let expected_statements = vec![
        Stmt::Expression(Expr::If {
            check: Box::new(Expr::Infix(
                Box::new(Expr::Ident(String::from("x"))),
                Operator::LessThan,
                Box::new(Expr::Ident(String::from("y"))),
            )),
            block: Ast::from(vec![Stmt::Expression(Expr::Ident(String::from("x")))]),
            alt: None,
        }),
        Stmt::Expression(Expr::If {
            check: Box::new(Expr::Infix(
                Box::new(Expr::Ident(String::from("x"))),
                Operator::LessThan,
                Box::new(Expr::Ident(String::from("y"))),
            )),
            block: Ast::from(vec![Stmt::Expression(Expr::Ident(String::from("x")))]),
            alt: Some(Ast::from(vec![Stmt::Expression(Expr::Ident(
                String::from("y"),
            ))])),
        }),
    ];

    expected_statements
        .into_iter()
        .enumerate()
        .for_each(|(i, s)| assert_eq!(s, program.0[i]));
}

#[test]
fn parser_test_parse_let_statements() {
    let test_input = r#"
            let x = 5;
            let y = 10;
            let foobar = 838383;
        "#;
    let mut parser = Parser::new(test_input);
    let program = parser.parse();

    assert_eq!(program.0.len(), 3);

    let expected_indents = vec![String::from("x"), String::from("y"), String::from("foobar")];

    for (i, statement) in program.0.into_iter().enumerate() {
        match statement {
            Stmt::Let { ident, .. } => assert_eq!(expected_indents[i], ident),
            _ => assert!(false),
        }
    }
}

#[test]
fn parser_test_let_statement_syntax_errors() {
    let test_input = r#"
            let = 5;
            let y y 10;
        "#;
    let mut parser = Parser::new(test_input);
    let program = parser.parse();

    assert_eq!(program.0.len(), 0);

    // A `let` without a name is an error of its own kind, not an unexpected
    // token measured against a made-up identifier.
    let made_up_name = ParseError::UnexpectedToken {
        expected: Token::Ident(String::from("/* Variable Name */")),
        received: Token::Assign,
    };
    assert!(!parser.errors().contains(&made_up_name));

    let expected_errors = vec![
        ParseError::ExpectedIdentifier,
        ParseError::UnexpectedToken {
            expected: Token::Assign,
            received: Token::Ident(String::from("y")),
        },
    ];
    assert_eq!(parser.errors.len(), expected_errors.len());
    for (i, error) in parser.errors.into_iter().enumerate() {
        assert_eq!(expected_errors[i], error);
    }
}

#[test]
fn precedence_table_round_trips() {
    for (source, expected) in PRECEDENCE_TABLE {
        let (program, errors) = parse_source(source);
        assert!(errors.is_empty(), "{source}");
        assert_eq!(rendered(&program), expected);
    }
}

#[test]
fn broken_statements_are_skipped_and_parsing_goes_on() {
    let (program, errors) = test("let = 5; let y y 10; let z = 7;");
    assert_eq!(
        errors,
        vec![
            ParseError::ExpectedIdentifier,
            ParseError::UnexpectedToken {
                expected: Token::Assign,
                received: Token::Ident(String::from("y")),
            },
        ]
    );
    assert_eq!(
        program,
        Ast::from(vec![Stmt::Let {
            ident: String::from("z"),
            val: Expr::IntLiteral(7)
        }])
    );
}

#[test]
fn one_error_for_each_statement_that_failed() {
    // What is left of a failed statement is skipped up to the next `;`.
    assert_eq!(test("let = 5;").1, vec![ParseError::ExpectedIdentifier]);
    assert_eq!(test("let = 5").1, vec![ParseError::ExpectedIdentifier]);
    assert_eq!(
        test("1 + ; 2 + ; 3 + ;").1,
        vec![
            ParseError::ExpectedExpression,
            ParseError::ExpectedExpression,
            ParseError::ExpectedExpression,
        ]
    );
    let (program, errors) = test("1; ) ( 2 3; 4; let 5; 6");
    assert_eq!(
        errors,
        vec![ParseError::ExpectedExpression, ParseError::ExpectedIdentifier]
    );
    assert_eq!(
        program,
        Ast::from(vec![
            Stmt::Expression(Expr::IntLiteral(1)),
            Stmt::Expression(Expr::IntLiteral(4)),
            Stmt::Expression(Expr::IntLiteral(6)),
        ])
    );
    // A statement that failed on its `;` is skipped no further.
    let (program, errors) = test("let x = ; 2");
    assert_eq!(errors, vec![ParseError::ExpectedExpression]);
    assert_eq!(program, Ast::from(vec![Stmt::Expression(Expr::IntLiteral(2))]));
    // Without a `;` the rest of the source is part of the failed statement.
    let (program, errors) = test("let = 5 let y = 1");
    assert_eq!(errors, vec![ParseError::ExpectedIdentifier]);
    assert_eq!(program, Ast::from(vec![]));
    let mut parser = Parser::new("let = 1; let y y 2;");
    parser.parse();
    assert_eq!(parser.errors().len(), 2);
}

#[test]
fn every_error_kind_has_an_input() {
    assert_eq!(
        test("(1 + 2").1,
        vec![ParseError::UnexpectedToken {
            expected: Token::CloseParen,
            received: Token::Eof,
        }]
    );
    assert_eq!(test("let 5 = 1").1[0], ParseError::ExpectedIdentifier);
    assert_eq!(test(")").1, vec![ParseError::ExpectedExpression]);
    assert_eq!(test("1 +").1, vec![ParseError::ExpectedExpression]);
    assert_eq!(test("#").1, vec![ParseError::ExpectedExpression]);
    assert_eq!(
        test("9223372036854775808").1,
        vec![ParseError::ParseIntError]
    );
    assert_eq!(
        Operator::try_from(&Token::Comma),
        Err(ParseError::ExpectedOperator)
    );
    assert_eq!(
        Operator::try_from(&Token::Asterisk),
        Ok(Operator::Multiplication)
    );
}

#[test]
fn integer_literals_up_to_the_largest() {
    assert_eq!(
        test("9223372036854775807").0,
        Ast::from(vec![Stmt::Expression(Expr::IntLiteral(i64::MAX))])
    );
    assert_eq!(
        test("007").0,
        Ast::from(vec![Stmt::Expression(Expr::IntLiteral(7))])
    );
    assert_eq!(
        test("-9223372036854775807").0,
        Ast::from(vec![Stmt::Expression(prefix(
            Operator::Minus,
            Expr::IntLiteral(i64::MAX)
        ))])
    );
}

#[test]
fn empty_and_blank_sources_are_empty_programs() {
    assert_eq!(test(""), (Ast::from(vec![]), vec![]));
    assert_eq!(test("  \n\t "), (Ast::from(vec![]), vec![]));
    assert_eq!(test(";").1, vec![ParseError::ExpectedExpression]);
}

#[test]
fn semicolons_are_optional() {
    assert_eq!(test("let a = 1 let b = 2").0, test("let a = 1; let b = 2;").0);
    assert_eq!(test("return 1 return 2").0.0.len(), 2);
}

#[test]
fn calls_chain_and_bind_tightest() {
    let (program, errors) = test("a + f(b)(c) * d");
    assert!(errors.is_empty());
    assert_eq!(rendered(&program), "(a + (f(b)(c) * d))");
    let (program, errors) = test("-f(1, 2 + 3)");
    assert!(errors.is_empty());
    assert_eq!(rendered(&program), "(-f(1, (2 + 3)))");
    let (program, errors) = test("f()");
    assert!(errors.is_empty());
    assert_eq!(
        program,
        Ast::from(vec![Stmt::Expression(Expr::Call {
            func: Box::new(ident("f")),
            args: Args::from(vec![]),
        })])
    );
}

#[test]
fn parameters_are_identifiers_only() {
    assert_eq!(
        test("fn(x + y) { x }").1[0],
        ParseError::UnexpectedToken {
            expected: Token::CloseParen,
            received: Token::Plus,
        }
    );
    assert_eq!(test("fn(x, 1) { x }").1[0], ParseError::ExpectedIdentifier);
    assert_eq!(test("fn(1) { x }").1[0], ParseError::ExpectedIdentifier);
}

#[test]
fn errors_inside_blocks_are_recorded_and_the_block_goes_on() {
    let (program, errors) = test("if (a) { let = 1; b } else { ) c; d }");
    assert_eq!(
        errors,
        vec![ParseError::ExpectedIdentifier, ParseError::ExpectedExpression]
    );
    assert_eq!(
        program,
        Ast::from(vec![Stmt::Expression(Expr::If {
            check: Box::new(ident("a")),
            block: Ast::from(vec![Stmt::Expression(ident("b"))]),
            alt: Some(Ast::from(vec![Stmt::Expression(ident("d"))])),
        })])
    );
    // Skipping a failed statement stops at the `}` of its block.
    let (program, errors) = test("if (a) { ) c } 7");
    assert_eq!(errors, vec![ParseError::ExpectedExpression]);
    assert_eq!(
        program,
        Ast::from(vec![
            Stmt::Expression(Expr::If {
                check: Box::new(ident("a")),
                block: Ast::from(vec![]),
                alt: None,
            }),
            Stmt::Expression(Expr::IntLiteral(7)),
        ])
    );
}

#[test]
fn a_stray_brace_does_not_end_the_program() {
    let (program, errors) = test("1; } 2; 3");
    assert_eq!(errors, vec![ParseError::ExpectedExpression]);
    assert_eq!(
        program,
        Ast::from(vec![
            Stmt::Expression(Expr::IntLiteral(1)),
            Stmt::Expression(Expr::IntLiteral(3)),
        ])
    );
}

#[test]
fn an_open_block_ends_with_the_input() {
    let (program, errors) = test("if (a) { b");
    assert!(errors.is_empty());
    assert_eq!(
        program,
        Ast::from(vec![Stmt::Expression(Expr::If {
            check: Box::new(ident("a")),
            block: Ast::from(vec![Stmt::Expression(ident("b"))]),
            alt: None,
        })])
    );
}

#[test]
fn statements_and_blocks_render() {
    let (program, _) = test("let x = 1 + 2; return x; if (x) { x; 1 } else { 2 } fn(a, b) { a }");
    assert_eq!(program.0[0].to_string(), "let x = (1 + 2);");
    assert_eq!(program.0[1].to_string(), "return x;");
    assert_eq!(program.0[2].to_string(), "if x x, 1 else 2");
    assert_eq!(program.0[3].to_string(), "fn(a, b) { a }");
    assert_eq!(
        program.to_string(),
        "let x = (1 + 2);, return x;, if x x, 1 else 2, fn(a, b) { a }"
    );
    assert_eq!(Operator::NotEquals.to_string(), "!=");
    assert_eq!(
        infix(Expr::IntLiteral(-3), Operator::Division, Expr::BooleanLiteral(false)).to_string(),
        "(-3 / false)"
    );
    assert_eq!(Expr::IntLiteral(i64::MIN).to_string(), "-9223372036854775808");
    assert_eq!(Expr::IntLiteral(0).to_string(), "0");
}

#[test]
fn precedence_levels_are_ordered() {
    let order = [
        Precedence::Lowest,
        Precedence::Equality,
        Precedence::LessGreater,
        Precedence::AddSub,
        Precedence::MultDiv,
        Precedence::Prefix,
        Precedence::Call,
    ];
    for pair in order.windows(2) {
        assert!(pair[0].level() < pair[1].level());
    }
    assert_eq!(Precedence::from(&Token::OpenParen), Precedence::Call);
    assert_eq!(Precedence::from(&Token::Semicolon), Precedence::Lowest);
}

#[test]
fn a_parser_can_be_asked_again_after_the_end() {
    let mut parser = Parser::new("1");
    assert_eq!(parser.parse().0.len(), 1);
    assert_eq!(parser.parse().0.len(), 0);
    assert!(parser.errors.is_empty());
}
