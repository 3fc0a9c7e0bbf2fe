use inv_syntax::ast::{
    BinaryOperation, BinaryOperator, Expression, Item, Operation, Program, Statement,
    UnaryOperation,
};
use inv_syntax::lexer::Lexer;
use inv_syntax::parser::{binary_operator, parse_source, Expected, ParseError, Parser};
use inv_syntax::span::Span;
use inv_syntax::token::TokenKind;

fn parse(input: &str) -> Result<Program, ParseError> {
    parse_source(input).expect("every integer literal of the input is representable")
}

fn at(start: usize, end: usize) -> Span {
    Span { start, end }
}

fn integer(value: i64, start: usize, end: usize) -> Expression {
    Expression::Integer { value, span: at(start, end) }
}

fn boolean(value: bool, start: usize, end: usize) -> Expression {
    Expression::Boolean { value, span: at(start, end) }
}

fn reference(name: &str, start: usize, end: usize) -> Expression {
    Expression::Reference { name: name.to_string(), span: at(start, end) }
}

fn binary(operator: BinaryOperator, lhs: Expression, rhs: Expression) -> Expression {
    let span = lhs.span().merge(&rhs.span());
    Expression::binary(operator, lhs, rhs, span)
}

/// The statements of the body of the only function of `input`.
fn body(input: &str) -> Vec<Statement> {
    let program = parse(input).expect("the input is a program");
    assert_eq!(program.items().len(), 1);
    match &program.items()[0] {
        Item::Function { body: Statement::Block { .. }, .. } => {}
        other => panic!("no function with a block: {:?}", other),
    }
    let mut items = program;
    match take_items(&mut items).pop() {
        Some(Item::Function { body: Statement::Block { body, .. }, .. }) => body,
        other => panic!("no function with a block: {:?}", other),
    }
}

fn take_items(program: &mut Program) -> Vec<Item> {
    std::mem::replace(program, Program::new(Vec::new())).into_items()
}

/// The expression `text`, read as the only statement `text;` of a function.
/// Its spans are offsets into `text`.
fn expression(text: &str) -> Expression {
    let source = format!("{};}}", text);
    let padded = format!("fn f(){{{}", source);
    let mut statements = body(&padded);
    assert_eq!(statements.len(), 1);
    match statements.pop() {
        Some(Statement::Expression { expression, span }) => {
            assert_eq!(span, at(expression.span().start, 7 + text.len() + 1));
            shift(expression, 7)
        }
        other => panic!("no expression statement: {:?}", other),
    }
}

fn back(span: Span, by: usize) -> Span {
    at(span.start - by, span.end - by)
}

fn shift(expression: Expression, by: usize) -> Expression {
    match expression {
        Expression::Integer { value, span } => Expression::Integer { value, span: back(span, by) },
        Expression::Boolean { value, span } => Expression::Boolean { value, span: back(span, by) },
        Expression::Reference { name, span } => Expression::Reference { name, span: back(span, by) },
        Expression::Assignment { assign_to, value, span } => Expression::Assignment {
            assign_to,
            value: Box::new(shift(*value, by)),
            span: back(span, by),
        },
        Expression::Call { name, arguments, span } => Expression::Call {
            name,
            arguments: arguments.into_iter().map(|argument| shift(argument, by)).collect(),
            span: back(span, by),
        },
        Expression::Operation { operation, span } => {
            let span = back(span, by);
            match operation {
                Operation::Unary(UnaryOperation::Not(operand)) => {
                    Expression::not(shift(*operand, by), span)
                }
                Operation::Binary(operation) => {
                    let (operator, lhs, rhs) = parts(operation);
                    Expression::binary(operator, shift(lhs, by), shift(rhs, by), span)
                }
            }
        }
    }
}

fn parts(operation: BinaryOperation) -> (BinaryOperator, Expression, Expression) {
    match operation {
        BinaryOperation::Add { lhs, rhs } => (BinaryOperator::Add, *lhs, *rhs),
        BinaryOperation::Sub { lhs, rhs } => (BinaryOperator::Sub, *lhs, *rhs),
        BinaryOperation::Mul { lhs, rhs } => (BinaryOperator::Mul, *lhs, *rhs),
        BinaryOperation::Div { lhs, rhs } => (BinaryOperator::Div, *lhs, *rhs),
        BinaryOperation::Equal { lhs, rhs } => (BinaryOperator::Equal, *lhs, *rhs),
        BinaryOperation::NotEqual { lhs, rhs } => (BinaryOperator::NotEqual, *lhs, *rhs),
        BinaryOperation::Less { lhs, rhs } => (BinaryOperator::Less, *lhs, *rhs),
        BinaryOperation::LessEqual { lhs, rhs } => (BinaryOperator::LessEqual, *lhs, *rhs),
        BinaryOperation::Greater { lhs, rhs } => (BinaryOperator::Greater, *lhs, *rhs),
        BinaryOperation::GreaterEqual { lhs, rhs } => (BinaryOperator::GreaterEqual, *lhs, *rhs),
        BinaryOperation::And { lhs, rhs } => (BinaryOperator::And, *lhs, *rhs),
        BinaryOperation::Or { lhs, rhs } => (BinaryOperator::Or, *lhs, *rhs),
    }
}

fn unexpected(expected: Expected, found: TokenKind, start: usize, end: usize) -> ParseError {
    ParseError::UnexpectedToken { expected, found, span: at(start, end) }
}

fn error(input: &str) -> ParseError {
    match parse(input) {
        Ok(program) => panic!("a program: {:?}", program),
        Err(error) => error,
    }
}

/// Checks that the span of every node is well formed and lies in `outer`.
fn check_expression(expression: &Expression, outer: Span) {
    let span = expression.span();
    assert!(span.start <= span.end, "{:?}", expression);
    assert!(outer.start <= span.start && span.end <= outer.end, "{:?} in {:?}", expression, outer);
    match expression {
        Expression::Integer { .. } | Expression::Boolean { .. } | Expression::Reference { .. } => {}
        Expression::Assignment { value, .. } => check_expression(value, span),
        Expression::Call { arguments, .. } => {
            for argument in arguments {
                check_expression(argument, span);
            }
        }
        Expression::Operation { operation: Operation::Unary(UnaryOperation::Not(operand)), .. } => {
            check_expression(operand, span)
        }
        Expression::Operation { operation: Operation::Binary(operation), .. } => match operation {
            BinaryOperation::Add { lhs, rhs }
            | BinaryOperation::Sub { lhs, rhs }
            | BinaryOperation::Mul { lhs, rhs }
            | BinaryOperation::Div { lhs, rhs }
            | BinaryOperation::Equal { lhs, rhs }
            | BinaryOperation::NotEqual { lhs, rhs }
            | BinaryOperation::Less { lhs, rhs }
            | BinaryOperation::LessEqual { lhs, rhs }
            | BinaryOperation::Greater { lhs, rhs }
            | BinaryOperation::GreaterEqual { lhs, rhs }
            | BinaryOperation::And { lhs, rhs }
            | BinaryOperation::Or { lhs, rhs } => {
                check_expression(lhs, span);
                check_expression(rhs, span);
            }
        },
    }
}

fn check_statement(statement: &Statement, outer: Span) {
    let span = statement.span();
    assert!(span.start <= span.end, "{:?}", statement);
    assert!(outer.start <= span.start && span.end <= outer.end, "{:?} in {:?}", statement, outer);
    match statement {
        Statement::Block { body, .. } => {
            for statement in body {
                check_statement(statement, span);
            }
        }
        Statement::Binding { value, .. } => check_expression(value, span),
        Statement::Expression { expression, .. } => check_expression(expression, span),
        Statement::Return { value, .. } => check_expression(value, span),
        Statement::Branch { condition, then_branch, otherwise, .. } => {
            check_expression(condition, span);
            check_statement(then_branch, span);
            if let Some(otherwise) = otherwise {
                check_statement(otherwise, span);
            }
        }
        Statement::While { condition, body, .. } => {
            check_expression(condition, span);
            check_statement(body, span);
        }
    }
}

#[test]
fn empty_input_is_the_empty_program() {
    assert_eq!(parse(""), Ok(Program::new(vec![])));
    assert_eq!(parse(" \n\t "), Ok(Program::new(vec![])));
}

#[test]
fn multiplication_binds_tighter_than_addition() {
    assert_eq!(
        expression("1 + 2 * 3"),
        binary(
            BinaryOperator::Add,
            integer(1, 0, 1),
            binary(BinaryOperator::Mul, integer(2, 4, 5), integer(3, 8, 9)),
        )
    );
    assert_eq!(
        expression("1 * 2 + 3"),
        binary(
            BinaryOperator::Add,
            binary(BinaryOperator::Mul, integer(1, 0, 1), integer(2, 4, 5)),
            integer(3, 8, 9),
        )
    );
}

#[test]
fn and_binds_tighter_than_or() {
    assert_eq!(
        expression("true || false && false"),
        binary(
            BinaryOperator::Or,
            boolean(true, 0, 4),
            binary(BinaryOperator::And, boolean(false, 8, 13), boolean(false, 17, 22)),
        )
    );
}

#[test]
fn addition_node_is_an_add_operation() {
    match expression("1 + 2 * 3") {
        Expression::Operation {
            operation: Operation::Binary(BinaryOperation::Add { lhs, rhs }),
            span,
        } => {
            assert_eq!(span, at(0, 9));
            assert_eq!(*lhs, integer(1, 0, 1));
            match *rhs {
                Expression::Operation {
                    operation: Operation::Binary(BinaryOperation::Mul { lhs, rhs }),
                    span,
                } => {
                    assert_eq!(span, at(4, 9));
                    assert_eq!(*lhs, integer(2, 4, 5));
                    assert_eq!(*rhs, integer(3, 8, 9));
                }
                other => panic!("no multiplication: {:?}", other),
            }
        }
        other => panic!("no addition: {:?}", other),
    }
}

#[test]
fn subtraction_groups_to_the_left() {
    assert_eq!(
        expression("1 - 2 - 3"),
        binary(
            BinaryOperator::Sub,
            binary(BinaryOperator::Sub, integer(1, 0, 1), integer(2, 4, 5)),
            integer(3, 8, 9),
        )
    );
}

#[test]
fn every_level_groups_to_the_left() {
    assert_eq!(
        expression("a / b * c"),
        binary(
            BinaryOperator::Mul,
            binary(BinaryOperator::Div, reference("a", 0, 1), reference("b", 4, 5)),
            reference("c", 8, 9),
        )
    );
    assert_eq!(
        expression("a < b >= c"),
        binary(
            BinaryOperator::GreaterEqual,
            binary(BinaryOperator::Less, reference("a", 0, 1), reference("b", 4, 5)),
            reference("c", 9, 10),
        )
    );
    assert_eq!(
        expression("a == b != c"),
        binary(
            BinaryOperator::NotEqual,
            binary(BinaryOperator::Equal, reference("a", 0, 1), reference("b", 5, 6)),
            reference("c", 10, 11),
        )
    );
    assert_eq!(
        expression("a || b || c"),
        binary(
            BinaryOperator::Or,
            binary(BinaryOperator::Or, reference("a", 0, 1), reference("b", 5, 6)),
            reference("c", 10, 11),
        )
    );
}

#[test]
fn six_levels_of_precedence() {
    // a || (b && (c == (d < (e + (f * g)))))
    assert_eq!(
        expression("a || b && c == d < e + f * g"),
        binary(
            BinaryOperator::Or,
            reference("a", 0, 1),
            binary(
                BinaryOperator::And,
                reference("b", 5, 6),
                binary(
                    BinaryOperator::Equal,
                    reference("c", 10, 11),
                    binary(
                        BinaryOperator::Less,
                        reference("d", 15, 16),
                        binary(
                            BinaryOperator::Add,
                            reference("e", 19, 20),
                            binary(BinaryOperator::Mul, reference("f", 23, 24), reference("g", 27, 28)),
                        ),
                    ),
                ),
            ),
        )
    );
    // (((((a * b) + c) < d) == e) && f) || g
    assert_eq!(
        expression("a * b + c < d == e && f || g"),
        binary(
            BinaryOperator::Or,
            binary(
                BinaryOperator::And,
                binary(
                    BinaryOperator::Equal,
                    binary(
                        BinaryOperator::Less,
                        binary(
                            BinaryOperator::Add,
                            binary(BinaryOperator::Mul, reference("a", 0, 1), reference("b", 4, 5)),
                            reference("c", 8, 9),
                        ),
                        reference("d", 12, 13),
                    ),
                    reference("e", 17, 18),
                ),
                reference("f", 22, 23),
            ),
            reference("g", 27, 28),
        )
    );
}

#[test]
fn operators_and_their_levels() {
    assert_eq!(binary_operator(TokenKind::OrOr), Some((BinaryOperator::Or, 0)));
    assert_eq!(binary_operator(TokenKind::AndAnd), Some((BinaryOperator::And, 1)));
    assert_eq!(binary_operator(TokenKind::EqualEqual), Some((BinaryOperator::Equal, 2)));
    assert_eq!(binary_operator(TokenKind::BangEqual), Some((BinaryOperator::NotEqual, 2)));
    assert_eq!(binary_operator(TokenKind::Less), Some((BinaryOperator::Less, 3)));
    assert_eq!(binary_operator(TokenKind::LessEqual), Some((BinaryOperator::LessEqual, 3)));
    assert_eq!(binary_operator(TokenKind::Greater), Some((BinaryOperator::Greater, 3)));
    assert_eq!(binary_operator(TokenKind::GreaterEqual), Some((BinaryOperator::GreaterEqual, 3)));
    assert_eq!(binary_operator(TokenKind::Plus), Some((BinaryOperator::Add, 4)));
    assert_eq!(binary_operator(TokenKind::Minus), Some((BinaryOperator::Sub, 4)));
    assert_eq!(binary_operator(TokenKind::Asterisk), Some((BinaryOperator::Mul, 5)));
    assert_eq!(binary_operator(TokenKind::Slash), Some((BinaryOperator::Div, 5)));
    assert_eq!(binary_operator(TokenKind::Bang), None);
    assert_eq!(binary_operator(TokenKind::Equal), None);
    assert_eq!(binary_operator(TokenKind::Identifier), None);
}

#[test]
fn not_binds_tighter_than_any_binary_operator() {
    assert_eq!(
        expression("!a * b"),
        binary(
            BinaryOperator::Mul,
            Expression::not(reference("a", 1, 2), at(0, 2)),
            reference("b", 5, 6),
        )
    );
    assert_eq!(
        expression("!!a"),
        Expression::not(Expression::not(reference("a", 2, 3), at(1, 3)), at(0, 3))
    );
    assert_eq!(
        expression("a && !b"),
        binary(
            BinaryOperator::And,
            reference("a", 0, 1),
            Expression::not(reference("b", 6, 7), at(5, 7)),
        )
    );
}

#[test]
fn parentheses_group_and_widen_the_span() {
    assert_eq!(
        expression("(1 + 2) * 3"),
        binary(
            BinaryOperator::Mul,
            Expression::binary(BinaryOperator::Add, integer(1, 1, 2), integer(2, 5, 6), at(0, 7)),
            integer(3, 10, 11),
        )
    );
    assert_eq!(expression("( x )"), reference("x", 0, 5));
    assert_eq!(expression("((7))"), integer(7, 0, 5));
}

#[test]
fn literals_and_references() {
    assert_eq!(expression("0"), integer(0, 0, 1));
    assert_eq!(expression("9223372036854775807"), integer(i64::MAX, 0, 19));
    assert_eq!(expression("true"), boolean(true, 0, 4));
    assert_eq!(expression("false"), boolean(false, 0, 5));
    assert_eq!(expression("truth"), reference("truth", 0, 5));
}

#[test]
fn assignment_groups_to_the_right() {
    assert_eq!(
        expression("a = b = 1"),
        Expression::Assignment {
            assign_to: "a".to_string(),
            value: Box::new(Expression::Assignment {
                assign_to: "b".to_string(),
                value: Box::new(integer(1, 8, 9)),
                span: at(4, 9),
            }),
            span: at(0, 9),
        }
    );
}

#[test]
fn assignment_binds_loosest() {
    assert_eq!(
        expression("a = b || c"),
        Expression::Assignment {
            assign_to: "a".to_string(),
            value: Box::new(binary(BinaryOperator::Or, reference("b", 4, 5), reference("c", 9, 10))),
            span: at(0, 10),
        }
    );
}

#[test]
fn assignment_needs_a_name_on_its_left() {
    assert_eq!(
        error("fn f() { 1 = 2; }"),
        unexpected(Expected::Token(TokenKind::Semicolon), TokenKind::Equal, 11, 12)
    );
    assert_eq!(
        error("fn f() { a + b = 2; }"),
        unexpected(Expected::Token(TokenKind::Semicolon), TokenKind::Equal, 15, 16)
    );
    assert_eq!(
        error("fn f() { f() = 2; }"),
        unexpected(Expected::Token(TokenKind::Semicolon), TokenKind::Equal, 13, 14)
    );
    assert_eq!(
        error("fn f() { (a) = 2; }"),
        unexpected(Expected::Token(TokenKind::Semicolon), TokenKind::Equal, 13, 14)
    );
    assert_eq!(
        error("fn f() { !a = 2; }"),
        unexpected(Expected::Token(TokenKind::Semicolon), TokenKind::Equal, 12, 13)
    );
}

#[test]
fn assignment_in_parentheses_is_an_operand() {
    assert_eq!(
        expression("1 + (a = 2)"),
        binary(
            BinaryOperator::Add,
            integer(1, 0, 1),
            Expression::Assignment {
                assign_to: "a".to_string(),
                value: Box::new(integer(2, 9, 10)),
                span: at(4, 11),
            },
        )
    );
}

#[test]
fn calls() {
    assert_eq!(
        expression("f()"),
        Expression::Call { name: "f".to_string(), arguments: vec![], span: at(0, 3) }
    );
    assert_eq!(
        expression("f(1)"),
        Expression::Call { name: "f".to_string(), arguments: vec![integer(1, 2, 3)], span: at(0, 4) }
    );
    assert_eq!(
        expression("f(1, g(x), a + b)"),
        Expression::Call {
            name: "f".to_string(),
            arguments: vec![
                integer(1, 2, 3),
                Expression::Call {
                    name: "g".to_string(),
                    arguments: vec![reference("x", 7, 8)],
                    span: at(5, 9),
                },
                binary(BinaryOperator::Add, reference("a", 11, 12), reference("b", 15, 16)),
            ],
            span: at(0, 17),
        }
    );
}

#[test]
fn call_is_a_name_and_the_next_token_a_parenthesis() {
    assert_eq!(
        expression("f (1)"),
        Expression::Call { name: "f".to_string(), arguments: vec![integer(1, 3, 4)], span: at(0, 5) }
    );
    assert_eq!(
        error("fn f() { 1(2); }"),
        unexpected(Expected::Token(TokenKind::Semicolon), TokenKind::LParen, 10, 11)
    );
}

#[test]
fn no_trailing_comma_in_arguments() {
    assert_eq!(
        error("fn f() { g(a,); }"),
        unexpected(Expected::Expression, TokenKind::RParen, 13, 14)
    );
    assert_eq!(
        error("fn f() { g(a b); }"),
        unexpected(Expected::Token(TokenKind::RParen), TokenKind::Identifier, 13, 14)
    );
    assert_eq!(
        error("fn f() { g(,); }"),
        unexpected(Expected::Expression, TokenKind::Comma, 11, 12)
    );
}

#[test]
fn function_with_two_parameters() {
    let program = parse("fn add(a, b) { return a + b; }").expect("a program");
    assert_eq!(
        program,
        Program::new(vec![Item::Function {
            name: "add".to_string(),
            arguments: vec!["a".to_string(), "b".to_string()],
            body: Statement::Block {
                body: vec![Statement::Return {
                    value: binary(BinaryOperator::Add, reference("a", 22, 23), reference("b", 26, 27)),
                    span: at(15, 28),
                }],
                span: at(13, 30),
            },
            span: at(0, 30),
        }])
    );
    match &program.items()[0] {
        Item::Function { name, arguments, body: Statement::Block { body, .. }, .. } => {
            assert_eq!(name, "add");
            assert_eq!(arguments, &["a", "b"]);
            assert_eq!(body.len(), 1);
            match &body[0] {
                Statement::Return {
                    value:
                        Expression::Operation {
                            operation: Operation::Binary(BinaryOperation::Add { lhs, rhs }),
                            ..
                        },
                    ..
                } => {
                    assert_eq!(**lhs, reference("a", 22, 23));
                    assert_eq!(**rhs, reference("b", 26, 27));
                }
                other => panic!("no return of a sum: {:?}", other),
            }
        }
        other => panic!("no function with a block: {:?}", other),
    }
}

#[test]
fn missing_function_name() {
    assert_eq!(
        parse("fn (a) { }"),
        Err(ParseError::UnexpectedToken {
            expected: Expected::Token(TokenKind::Identifier),
            found: TokenKind::LParen,
            span: Span { start: 3, end: 4 },
        })
    );
}

#[test]
fn function_with_empty_body() {
    assert_eq!(
        parse("fn f() { }"),
        Ok(Program::new(vec![Item::Function {
            name: "f".to_string(),
            arguments: vec![],
            body: Statement::Block { body: vec![], span: at(7, 10) },
            span: at(0, 10),
        }]))
    );
    assert_eq!(body("fn f() {}"), vec![]);
}

#[test]
fn several_functions_in_order() {
    let program = parse("fn a() {} fn b(x) {} fn c(x, y, z) {}").expect("a program");
    let names: Vec<(String, usize, Span)> = program
        .items()
        .iter()
        .map(|item| match item {
            Item::Function { name, arguments, .. } => (name.clone(), arguments.len(), item.span()),
        })
        .collect();
    assert_eq!(
        names,
        vec![
            ("a".to_string(), 0, at(0, 9)),
            ("b".to_string(), 1, at(10, 20)),
            ("c".to_string(), 3, at(21, 37)),
        ]
    );
}

#[test]
fn parameters_may_repeat() {
    match &parse("fn f(a, a) {}").expect("a program").items()[0] {
        Item::Function { arguments, .. } => assert_eq!(arguments, &["a", "a"]),
    }
}

#[test]
fn malformed_parameter_lists() {
    assert_eq!(
        error("fn f(a,) {}"),
        unexpected(Expected::Token(TokenKind::Identifier), TokenKind::RParen, 7, 8)
    );
    assert_eq!(
        error("fn f(a b) {}"),
        unexpected(Expected::Token(TokenKind::RParen), TokenKind::Identifier, 7, 8)
    );
    assert_eq!(
        error("fn f(1) {}"),
        unexpected(Expected::Token(TokenKind::Identifier), TokenKind::Int, 5, 6)
    );
    assert_eq!(
        error("fn f {}"),
        unexpected(Expected::Token(TokenKind::LParen), TokenKind::LBrace, 5, 6)
    );
    assert_eq!(
        error("fn f() return"),
        unexpected(Expected::Token(TokenKind::LBrace), TokenKind::Return, 7, 13)
    );
}

#[test]
fn items_start_with_fn() {
    assert_eq!(error("let x = 1;"), unexpected(Expected::Item, TokenKind::Let, 0, 3));
    assert_eq!(error("fn f() {} }"), unexpected(Expected::Item, TokenKind::RBrace, 10, 11));
    assert_eq!(error("#"), unexpected(Expected::Item, TokenKind::UnexpectedCharacter, 0, 1));
}

#[test]
fn premature_end_of_input() {
    assert_eq!(
        error("fn"),
        ParseError::UnexpectedEnd { expected: Expected::Token(TokenKind::Identifier) }
    );
    assert_eq!(
        error("fn f"),
        ParseError::UnexpectedEnd { expected: Expected::Token(TokenKind::LParen) }
    );
    assert_eq!(
        error("fn f("),
        ParseError::UnexpectedEnd { expected: Expected::Token(TokenKind::Identifier) }
    );
    assert_eq!(
        error("fn f(a"),
        ParseError::UnexpectedEnd { expected: Expected::Token(TokenKind::RParen) }
    );
    assert_eq!(
        error("fn f()"),
        ParseError::UnexpectedEnd { expected: Expected::Token(TokenKind::LBrace) }
    );
    assert_eq!(
        error("fn f() {"),
        ParseError::UnexpectedEnd { expected: Expected::Token(TokenKind::RBrace) }
    );
    assert_eq!(
        error("fn f() { return"),
        ParseError::UnexpectedEnd { expected: Expected::Expression }
    );
    assert_eq!(
        error("fn f() { return 1"),
        ParseError::UnexpectedEnd { expected: Expected::Token(TokenKind::Semicolon) }
    );
    assert_eq!(
        error("fn f() { g(1"),
        ParseError::UnexpectedEnd { expected: Expected::Token(TokenKind::RParen) }
    );
    assert_eq!(
        error("fn f() { let x = 1; "),
        ParseError::UnexpectedEnd { expected: Expected::Token(TokenKind::RBrace) }
    );
}

#[test]
fn binding_statement() {
    assert_eq!(
        body("fn f() { let x = 1 + 2; }"),
        vec![Statement::Binding {
            bind_to: "x".to_string(),
            value: binary(BinaryOperator::Add, integer(1, 17, 18), integer(2, 21, 22)),
            span: at(9, 23),
        }]
    );
    assert_eq!(
        error("fn f() { let 1 = 2; }"),
        unexpected(Expected::Token(TokenKind::Identifier), TokenKind::Int, 13, 14)
    );
    assert_eq!(
        error("fn f() { let x 2; }"),
        unexpected(Expected::Token(TokenKind::Equal), TokenKind::Int, 15, 16)
    );
    assert_eq!(
        error("fn f() { let x == 2; }"),
        unexpected(Expected::Token(TokenKind::Equal), TokenKind::EqualEqual, 15, 17)
    );
    assert_eq!(
        error("fn f() { let x = 2 }"),
        unexpected(Expected::Token(TokenKind::Semicolon), TokenKind::RBrace, 19, 20)
    );
}

#[test]
fn return_statement() {
    assert_eq!(
        body("fn f() { return x; }"),
        vec![Statement::Return { value: reference("x", 16, 17), span: at(9, 18) }]
    );
    assert_eq!(
        error("fn f() { return; }"),
        unexpected(Expected::Expression, TokenKind::Semicolon, 15, 16)
    );
}

#[test]
fn expression_statement() {
    assert_eq!(
        body("fn f() { g(1); x = 2; }"),
        vec![
            Statement::Expression {
                expression: Expression::Call {
                    name: "g".to_string(),
                    arguments: vec![integer(1, 11, 12)],
                    span: at(9, 13),
                },
                span: at(9, 14),
            },
            Statement::Expression {
                expression: Expression::Assignment {
                    assign_to: "x".to_string(),
                    value: Box::new(integer(2, 19, 20)),
                    span: at(15, 20),
                },
                span: at(15, 21),
            },
        ]
    );
    assert_eq!(
        error("fn f() { ; }"),
        unexpected(Expected::Expression, TokenKind::Semicolon, 9, 10)
    );
    assert_eq!(
        error("fn f() { ) }"),
        unexpected(Expected::Expression, TokenKind::RParen, 9, 10)
    );
    assert_eq!(
        error("fn f() { else {} }"),
        unexpected(Expected::Expression, TokenKind::Else, 9, 13)
    );
    assert_eq!(
        error("fn f() { a & b; }"),
        unexpected(Expected::Token(TokenKind::Semicolon), TokenKind::UnexpectedCharacter, 11, 12)
    );
}

#[test]
fn nested_blocks() {
    assert_eq!(
        body("fn f() { { } { { x; } } }"),
        vec![
            Statement::Block { body: vec![], span: at(9, 12) },
            Statement::Block {
                body: vec![Statement::Block {
                    body: vec![Statement::Expression {
                        expression: reference("x", 17, 18),
                        span: at(17, 19),
                    }],
                    span: at(15, 21),
                }],
                span: at(13, 23),
            },
        ]
    );
}

#[test]
fn branch_without_else() {
    assert_eq!(
        body("fn f() { if a < b { return a; } }"),
        vec![Statement::Branch {
            condition: binary(BinaryOperator::Less, reference("a", 12, 13), reference("b", 16, 17)),
            then_branch: Box::new(Statement::Block {
                body: vec![Statement::Return { value: reference("a", 27, 28), span: at(20, 29) }],
                span: at(18, 31),
            }),
            otherwise: None,
            span: at(9, 31),
        }]
    );
}

#[test]
fn branch_with_else() {
    assert_eq!(
        body("fn f() { if a { } else { } }"),
        vec![Statement::Branch {
            condition: reference("a", 12, 13),
            then_branch: Box::new(Statement::Block { body: vec![], span: at(14, 17) }),
            otherwise: Some(Box::new(Statement::Block { body: vec![], span: at(23, 26) })),
            span: at(9, 26),
        }]
    );
}

#[test]
fn else_if_chain_nests_branches() {
    assert_eq!(
        body("fn f() { if a {} else if b {} else {} }"),
        vec![Statement::Branch {
            condition: reference("a", 12, 13),
            then_branch: Box::new(Statement::Block { body: vec![], span: at(14, 16) }),
            otherwise: Some(Box::new(Statement::Branch {
                condition: reference("b", 25, 26),
                then_branch: Box::new(Statement::Block { body: vec![], span: at(27, 29) }),
                otherwise: Some(Box::new(Statement::Block { body: vec![], span: at(35, 37) })),
                span: at(22, 37),
            })),
            span: at(9, 37),
        }]
    );
}

#[test]
fn branches_need_blocks() {
    assert_eq!(
        error("fn f() { if a return a; }"),
        unexpected(Expected::Token(TokenKind::LBrace), TokenKind::Return, 14, 20)
    );
    assert_eq!(
        error("fn f() { if a {} else return a; }"),
        unexpected(Expected::Token(TokenKind::LBrace), TokenKind::Return, 22, 28)
    );
    assert_eq!(
        error("fn f() { if { } }"),
        unexpected(Expected::Expression, TokenKind::LBrace, 12, 13)
    );
}

#[test]
fn while_statement() {
    assert_eq!(
        body("fn f() { while i != 0 { i = i - 1; } }"),
        vec![Statement::While {
            condition: binary(BinaryOperator::NotEqual, reference("i", 15, 16), integer(0, 20, 21)),
            body: Box::new(Statement::Block {
                body: vec![Statement::Expression {
                    expression: Expression::Assignment {
                        assign_to: "i".to_string(),
                        value: Box::new(binary(
                            BinaryOperator::Sub,
                            reference("i", 28, 29),
                            integer(1, 32, 33),
                        )),
                        span: at(24, 33),
                    },
                    span: at(24, 34),
                }],
                span: at(22, 36),
            }),
            span: at(9, 36),
        }]
    );
    assert_eq!(
        error("fn f() { while true i; }"),
        unexpected(Expected::Token(TokenKind::LBrace), TokenKind::Identifier, 20, 21)
    );
}

#[test]
fn parsing_stops_at_the_first_error() {
    assert_eq!(
        error("fn f() { let = ; let = ; }"),
        unexpected(Expected::Token(TokenKind::Identifier), TokenKind::Equal, 13, 14)
    );
    assert_eq!(
        error("fn f() { (1 + ; }"),
        unexpected(Expected::Expression, TokenKind::Semicolon, 14, 15)
    );
    assert_eq!(
        error("fn f() { (1 + 2; }"),
        unexpected(Expected::Token(TokenKind::RParen), TokenKind::Semicolon, 15, 16)
    );
}

#[test]
fn integer_literal_out_of_range_is_no_input() {
    assert_eq!(parse_source("fn f() { return 9223372036854775808; }"), None);
    assert_eq!(parse_source("fn ( 9223372036854775808"), None);
    assert!(parse_source("fn f() { return 9223372036854775807; }").is_some());
}

#[test]
fn spans_of_children_lie_in_the_span_of_their_parent() {
    let source = "fn gcd(a, b) {\n  while b != 0 {\n    let t = b;\n    b = a - (a / b) * b;\n    a = t;\n  }\n  \
                  if a < 0 || !(a == a) { return 0 - a; } else if a == 0 { { } } else { f(a, g(1, (2))); }\n  \
                  return a;\n}\nfn é(汉) { return 汉 * (汉 + 1); }";
    let program = parse(source).expect("a program");
    assert_eq!(program.items().len(), 2);
    let whole = at(0, source.len());
    let mut end = 0;
    for item in program.items() {
        let span = item.span();
        assert!(end <= span.start && span.start <= span.end && span.end <= whole.end);
        end = span.end;
        match item {
            Item::Function { body, .. } => check_statement(body, span),
        }
    }
}

#[test]
fn parser_over_a_lexer() {
    let lexer = Lexer::new("fn f() { }");
    let mut parser = Parser::new(lexer);
    assert_eq!(
        parser.parse(),
        Ok(Program::new(vec![Item::Function {
            name: "f".to_string(),
            arguments: vec![],
            body: Statement::Block { body: vec![], span: at(7, 10) },
            span: at(0, 10),
        }]))
    );
    assert_eq!(parser.parse(), Ok(Program::new(vec![])));
}

#[test]
fn span_of_a_statement() {
    let statements = body("fn f() { let x = 1; return x; { } x; if x { } while x { } }");
    let spans: Vec<Span> = statements.iter().map(|statement| statement.span()).collect();
    assert_eq!(
        spans,
        vec![at(9, 19), at(20, 29), at(30, 33), at(34, 36), at(37, 45), at(46, 57)]
    );
}

#[test]
fn with_span_keeps_the_expression() {
    assert_eq!(integer(1, 0, 1).with_span(at(3, 9)), integer(1, 3, 9));
    assert_eq!(
        binary(BinaryOperator::Add, integer(1, 1, 2), integer(2, 5, 6)).with_span(at(0, 7)),
        Expression::binary(BinaryOperator::Add, integer(1, 1, 2), integer(2, 5, 6), at(0, 7))
    );
    assert_eq!(
        Expression::Call { name: "f".to_string(), arguments: vec![], span: at(1, 4) }
            .with_span(at(0, 5))
            .span(),
        at(0, 5)
    );
}
