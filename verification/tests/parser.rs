use lc_syntax::error::{Diagnostic, ErrorType};
use lc_syntax::grammar::Builder;
use lc_syntax::parser::{unexpected_message, Node, Parser};
use lc_syntax::scanner::{Scanner, Token};

fn parser(source: &str) -> Parser {
    let mut scanner = Scanner::new(source.to_string(), 0);
    assert_eq!(scanner.scan(), Ok(()));
    Parser::new(scanner.tokens, source.to_string())
}

fn parse(source: &str) -> Vec<Node> {
    let mut parser = parser(source);
    assert_eq!(parser.parse(), Ok(()));
    assert_eq!(parser.warnings, 0);
    parser.ast
}

fn fails(source: &str) -> Diagnostic {
    let mut parser = parser(source);
    let outcome = parser.parse();
    assert_eq!(parser.ast, vec![]);
    match outcome {
        Err(diagnostic) => {
            assert_eq!(diagnostic.severity, ErrorType::Fatal);
            assert_eq!(diagnostic.column, 0);
            diagnostic
        }
        Ok(()) => panic!("parsed: {:?}", source),
    }
}

fn fatal(message: &str, line: usize) -> Diagnostic {
    Diagnostic { message: message.to_string(), line, column: 0, severity: ErrorType::Fatal }
}

fn number(n: i64) -> Node {
    Node::Number(n)
}

fn name(text: &str) -> Node {
    Node::Identifier(text.to_string())
}

fn binary(left: Node, operation: Token, right: Node) -> Node {
    Node::Binary { left: Box::new(left), right: Box::new(right), operation }
}

fn unary(operation: char, left: Node) -> Node {
    Node::Unary { left: Box::new(left), operation }
}

fn call(name: &str, arguments: Vec<Node>) -> Node {
    Node::FunctionCall { name: name.to_string(), arguments }
}

fn assignment(name: &str, value: Node, mutable: bool, public: bool) -> Node {
    Node::VariableAssignment { name: name.to_string(), value: Box::new(value), mutable, public }
}

fn expression(source: &str) -> Result<Node, Diagnostic> {
    parser(source).expression()
}

#[test]
fn parses_a_declaration() {
    assert_eq!(
        parse("let x = 1 + 2"),
        vec![assignment("x", binary(number(1), Token::OpAdd, number(2)), false, false)]
    );
}

#[test]
fn parses_a_mutable_declaration() {
    assert_eq!(parse("let mut x = 1"), vec![assignment("x", number(1), true, false)]);
}

#[test]
fn parses_a_public_declaration() {
    assert_eq!(parse("pub let x = 1"), vec![assignment("x", number(1), false, true)]);
    assert_eq!(parse("pub let mut x = y"), vec![assignment("x", name("y"), true, true)]);
}

#[test]
fn pub_needs_let() {
    assert_eq!(fails("pub x = 1"), fatal("SyntaxError: Expected `let` after `pub`", 0));
    assert_eq!(fails("pub"), fatal("SyntaxError: Expected `let` after `pub`", 0));
    assert_eq!(fails("pub fn"), fatal("SyntaxError: Expected `let` after `pub`", 0));
}

#[test]
fn pub_does_not_go_with_destructuring() {
    assert_eq!(
        fails("pub let { a } = c"),
        fatal("SyntaxError: Expected identifier after `pub let`", 0)
    );
}

#[test]
fn parses_a_destructuring_declaration_with_a_warning() {
    let mut parser = parser("let mut { a, mut b } = c");
    assert_eq!(parser.parse(), Ok(()));
    assert_eq!(
        parser.ast,
        vec![Node::VariableDestructureAssignment {
            properties: vec![("a".to_string(), true), ("b".to_string(), true)],
            value: Box::new(name("c")),
            mutable: true,
        }]
    );
    assert_eq!(parser.warnings, 1);
    assert_eq!(
        parser.reports,
        vec![Diagnostic {
            message:
                "Warning: All destructured properties are mutable. `mut` before `b` is unnecessary."
                    .to_string(),
            line: 0,
            column: 0,
            severity: ErrorType::Warning,
        }]
    );
}

#[test]
fn parses_destructuring_without_warning() {
    let mut parser = parser("let { a, mut b, c } = d");
    assert_eq!(parser.parse(), Ok(()));
    assert_eq!(
        parser.ast,
        vec![Node::VariableDestructureAssignment {
            properties: vec![
                ("a".to_string(), false),
                ("b".to_string(), true),
                ("c".to_string(), false)
            ],
            value: Box::new(name("d")),
            mutable: false,
        }]
    );
    assert_eq!(parser.warnings, 0);
    assert_eq!(parser.reports, vec![]);
}

#[test]
fn every_redundant_mut_is_warned_of() {
    let mut parser = parser("let mut { mut a\n mut b } = c");
    assert_eq!(parser.parse(), Ok(()));
    assert_eq!(parser.warnings, 2);
    assert_eq!(parser.reports.len(), 2);
    assert_eq!(parser.reports[0].line, 0);
    assert_eq!(
        parser.reports[1],
        Diagnostic {
            message:
                "Warning: All destructured properties are mutable. `mut` before `b` is unnecessary."
                    .to_string(),
            line: 1,
            column: 0,
            severity: ErrorType::Warning,
        }
    );
}

fn destructured(properties: Vec<(&str, bool)>, source: &str, mutable: bool) -> Node {
    Node::VariableDestructureAssignment {
        properties: properties.into_iter().map(|(n, m)| (n.to_string(), m)).collect(),
        value: Box::new(name(source)),
        mutable,
    }
}

#[test]
fn properties_need_no_comma() {
    assert_eq!(
        parse("let { a b } = c"),
        vec![destructured(vec![("a", false), ("b", false)], "c", false)]
    );
    assert_eq!(
        parse("let { a mut b c } = d"),
        vec![destructured(vec![("a", false), ("b", true), ("c", false)], "d", false)]
    );
    assert_eq!(parse("let mut { a } = c"), vec![destructured(vec![("a", true)], "c", true)]);
}

#[test]
fn one_token_may_separate_properties() {
    assert_eq!(
        parse("let { a, b } = c"),
        vec![destructured(vec![("a", false), ("b", false)], "c", false)]
    );
    assert_eq!(
        parse("let { a ; b } = c"),
        vec![destructured(vec![("a", false), ("b", false)], "c", false)]
    );
    assert_eq!(
        parse("let { a fn b } = c"),
        vec![destructured(vec![("a", false), ("b", false)], "c", false)]
    );
    assert_eq!(fails("let { a,, b } = c"), fatal("Expected identifier or `mut`.", 0));
    assert_eq!(fails("let { a, } = c"), fatal("Expected identifier or `mut`.", 0));
}

#[test]
fn destructuring_errors() {
    assert_eq!(fails("let { } = c"), fatal("Expected identifier or `mut`.", 0));
    assert_eq!(fails("let { 1 } = c"), fatal("Expected identifier or `mut`.", 0));
    assert_eq!(fails("let { fn } = c"), fatal("Expected identifier or `mut`.", 0));
    assert_eq!(fails("let { mut } = c"), fatal("Expected identifier after `mut`.", 0));
    assert_eq!(fails("let { mut mut a } = c"), fatal("Expected identifier after `mut`.", 0));
    assert_eq!(fails("let { a"), fatal("Expected identifier or `mut`.", 0));
    assert_eq!(fails("let { a,"), fatal("Expected identifier or `mut`.", 0));
    assert_eq!(fails("let { a }"), fatal("Expected assignment operator", 0));
    assert_eq!(fails("let { a } c"), fatal("Expected assignment operator", 0));
    assert_eq!(
        fails("let { a } ="),
        fatal("SyntaxError: Destructured variable right hand side must be a single identifier", 0)
    );
    assert_eq!(
        fails("let { a } = 1"),
        fatal("SyntaxError: Destructured variable right hand side must be a single identifier", 0)
    );
}

#[test]
fn warnings_before_a_failure_are_kept() {
    let mut parser = parser("let mut { mut a } = 1");
    let outcome = parser.parse();
    assert_eq!(
        outcome,
        Err(fatal(
            "SyntaxError: Destructured variable right hand side must be a single identifier",
            0
        ))
    );
    assert_eq!(parser.warnings, 1);
    assert_eq!(parser.reports.len(), 1);
    assert_eq!(parser.ast, vec![]);
}

#[test]
fn statement_after_destructuring() {
    assert_eq!(
        parse("let { a } = c\n1"),
        vec![
            Node::VariableDestructureAssignment {
                properties: vec![("a".to_string(), false)],
                value: Box::new(name("c")),
                mutable: false,
            },
            number(1)
        ]
    );
}

#[test]
fn declaration_errors() {
    assert_eq!(fails("let"), fatal("SyntaxError: Expected identifier or `{` after `let`", 0));
    assert_eq!(fails("let mut"), fatal("SyntaxError: Expected identifier or `{` after `let`", 0));
    assert_eq!(fails("let 1 = 2"), fatal("SyntaxError: Expected identifier or `{` after `let`", 0));
    assert_eq!(fails("let x"), fatal("Expected assignment operator", 0));
    assert_eq!(fails("let x 1"), fatal("Expected assignment operator", 0));
    assert_eq!(
        fails("let x ="),
        fatal("SyntaxError: Unexpected token [4] `End`. Expected value.", 0)
    );
}

#[test]
fn parses_a_call() {
    assert_eq!(expression("foo(1, 2)"), Ok(call("foo", vec![number(1), number(2)])));
    assert_eq!(
        parse("let y = foo(1, 2)"),
        vec![assignment("y", call("foo", vec![number(1), number(2)]), false, false)]
    );
}

#[test]
fn a_name_does_not_begin_a_statement() {
    assert_eq!(
        fails("foo(1, 2)"),
        fatal("SyntaxError: Unexpected token [1] `Identifier(\"foo\")`.", 0)
    );
    assert_eq!(fails("x"), fatal("SyntaxError: Unexpected token [1] `Identifier(\"x\")`.", 0));
}

#[test]
fn calls() {
    assert_eq!(expression("f()"), Ok(call("f", vec![])));
    assert_eq!(expression("f(x)"), Ok(call("f", vec![name("x")])));
    assert_eq!(expression("f(1,)"), Ok(call("f", vec![number(1)])));
    assert_eq!(expression("f(,,1,,2,)"), Ok(call("f", vec![number(1), number(2)])));
    assert_eq!(expression("f(1 2)"), Ok(call("f", vec![number(1), number(2)])));
    assert_eq!(
        expression("f(g(1), 2 + 3)"),
        Ok(call(
            "f",
            vec![call("g", vec![number(1)]), binary(number(2), Token::OpAdd, number(3))]
        ))
    );
    assert_eq!(
        expression("f(1) + 2"),
        Ok(binary(call("f", vec![number(1)]), Token::OpAdd, number(2)))
    );
    assert_eq!(
        expression("f(1"),
        Err(fatal("SyntaxError: Unexpected token [4] `End`. Expected value.", 0))
    );
    assert_eq!(
        expression("f(]"),
        Err(fatal("SyntaxError: Unexpected token [4] `SquareRight`. Expected value.", 0))
    );
}

#[test]
fn input_ending_in_an_expression_is_fatal() {
    let mut parser = parser("let x = 1 +");
    assert_eq!(
        parser.parse(),
        Err(fatal("SyntaxError: Unexpected token [4] `End`. Expected value.", 0))
    );
    assert_eq!(parser.ast, vec![]);
    assert_eq!(parser.warnings, 0);
}

#[test]
fn a_failure_appends_nothing() {
    let mut parser = parser("1\n2\nlet x = 1 +");
    assert_eq!(
        parser.parse(),
        Err(fatal("SyntaxError: Unexpected token [4] `End`. Expected value.", 2))
    );
    assert_eq!(parser.ast, vec![]);

    let mut parser = Parser::new(vec![Token::NumberLiteral(1), Token::OpAdd], String::new());
    parser.ast.push(number(7));
    assert!(parser.parse().is_err());
    assert_eq!(parser.ast, vec![number(7)]);
}

#[test]
fn parsing_appends_to_the_statements() {
    let mut parser = Parser::new(vec![Token::NumberLiteral(1)], String::new());
    parser.ast.push(number(7));
    assert_eq!(parser.parse(), Ok(()));
    assert_eq!(parser.ast, vec![number(7), number(1)]);
}

#[test]
fn multiplicative_operators_bind_loosest() {
    assert_eq!(
        parse("1 + 2 * 3"),
        vec![binary(binary(number(1), Token::OpAdd, number(2)), Token::OpMul, number(3))]
    );
    assert_eq!(
        parse("1 * 2 + 3"),
        vec![binary(number(1), Token::OpMul, binary(number(2), Token::OpAdd, number(3)))]
    );
    assert_eq!(
        parse("1 - 2 / 3 - 4"),
        vec![binary(
            binary(number(1), Token::OpSub, number(2)),
            Token::OpDiv,
            binary(number(3), Token::OpSub, number(4))
        )]
    );
}

#[test]
fn operators_associate_to_the_left() {
    assert_eq!(
        parse("1 - 2 + 3"),
        vec![binary(binary(number(1), Token::OpSub, number(2)), Token::OpAdd, number(3))]
    );
    assert_eq!(
        parse("8 / 4 % 3 * 2"),
        vec![binary(
            binary(binary(number(8), Token::OpDiv, number(4)), Token::OpMod, number(3)),
            Token::OpMul,
            number(2)
        )]
    );
}

#[test]
fn the_operator_token_is_kept() {
    for (text, token) in [
        ("+", Token::OpAdd),
        ("-", Token::OpSub),
        ("*", Token::OpMul),
        ("/", Token::OpDiv),
        ("%", Token::OpMod),
    ] {
        assert_eq!(
            parse(&format!("1 {} 2", text)),
            vec![binary(number(1), token, number(2))]
        );
    }
}

#[test]
fn other_operators_end_an_expression() {
    assert_eq!(
        fails("1 < 2"),
        fatal("SyntaxError: Unexpected token [1] `OpLess`.", 0)
    );
}

#[test]
fn brackets_group() {
    assert_eq!(parse("(1)"), vec![number(1)]);
    assert_eq!(
        parse("(1 * 2) + 3"),
        vec![binary(binary(number(1), Token::OpMul, number(2)), Token::OpAdd, number(3))]
    );
    assert_eq!(
        parse("1 + (2 * 3)"),
        vec![binary(number(1), Token::OpAdd, binary(number(2), Token::OpMul, number(3)))]
    );
    assert_eq!(parse("((x))"), vec![name("x")]);
    assert_eq!(fails("(1"), fatal("SyntaxError: Expected ')' after expression.", 0));
    assert_eq!(fails("(1 2)"), fatal("SyntaxError: Expected ')' after expression.", 0));
    assert_eq!(
        fails("()"),
        fatal("SyntaxError: Unexpected token [4] `ParenRight`. Expected value.", 0)
    );
}

#[test]
fn prefix_operators() {
    assert_eq!(parse("-1"), vec![unary('-', number(1))]);
    assert_eq!(parse("!x"), vec![unary('!', name("x"))]);
    assert_eq!(parse("!-x"), vec![unary('!', unary('-', name("x")))]);
    assert_eq!(parse("--1"), vec![unary('-', unary('-', number(1)))]);
    assert_eq!(parse("!\"s\""), vec![unary('!', Node::String("s".to_string()))]);
    assert_eq!(
        parse("-1 + -2"),
        vec![binary(unary('-', number(1)), Token::OpAdd, unary('-', number(2)))]
    );
    assert_eq!(parse("-f(1)"), vec![unary('-', call("f", vec![number(1)]))]);
}

#[test]
fn a_prefix_needs_a_value_after_it() {
    assert_eq!(
        fails("!(1)"),
        fatal("SyntaxError: Unexpected token [2] `ParenLeft`. Expected value", 0)
    );
    assert_eq!(
        fails("-(1)"),
        fatal("SyntaxError: Unexpected token [3] `ParenLeft`. Expected value", 0)
    );
    assert_eq!(fails("!"), fatal("SyntaxError: Unexpected token [2] `End`. Expected value", 0));
    assert_eq!(fails("-"), fatal("SyntaxError: Unexpected token [3] `End`. Expected value", 0));
    assert_eq!(
        fails("- let"),
        fatal("SyntaxError: Unexpected token [3] `Keyword(\"let\")`. Expected value", 0)
    );
}

#[test]
fn literals() {
    assert_eq!(parse("42"), vec![number(42)]);
    assert_eq!(parse("\"a\\\"b\""), vec![Node::String("a\"b".to_string())]);
    let mut parser = Parser::new(vec![Token::BooleanLiteral(true)], String::new());
    assert_eq!(parser.parse(), Ok(()));
    assert_eq!(parser.ast, vec![Node::Boolean(true)]);
}

#[test]
fn built_in_functions_are_no_values() {
    let mut parser = Parser::new(vec![Token::BuiltinFn("print".to_string())], String::new());
    assert_eq!(
        parser.parse(),
        Err(fatal("SyntaxError: Unexpected token [4] `BuiltinFn(\"print\")`. Expected value.", 0))
    );
}

#[test]
fn statements_are_separated_by_newlines() {
    assert_eq!(parse(""), vec![]);
    assert_eq!(parse("1\n2"), vec![number(1), number(2)]);
    assert_eq!(parse("\n\n1\n\n\n2"), vec![number(1), number(2)]);
    assert_eq!(
        parse("let a = 1\nlet mut b = a + 2"),
        vec![
            assignment("a", number(1), false, false),
            assignment("b", binary(name("a"), Token::OpAdd, number(2)), true, false)
        ]
    );
}

#[test]
fn a_newline_at_the_end_is_fatal() {
    assert_eq!(fails("1\n"), fatal("SyntaxError: Unexpected token [1] `End`.", 1));
    assert_eq!(fails("\n"), fatal("SyntaxError: Unexpected token [1] `End`.", 1));
}

#[test]
fn statements_without_newline_between() {
    assert_eq!(parse("1 2"), vec![number(1), number(2)]);
}

#[test]
fn unexpected_tokens_at_a_statement() {
    assert_eq!(fails(")"), fatal("SyntaxError: Unexpected token [1] `ParenRight`.", 0));
    assert_eq!(fails("fn"), fatal("SyntaxError: Unexpected token [1] `Keyword(\"fn\")`.", 0));
    assert_eq!(fails("mut x"), fatal("SyntaxError: Unexpected token [1] `Keyword(\"mut\")`.", 0));
    assert_eq!(
        fails("import a"),
        fatal("SyntaxError: Unexpected token [1] `Keyword(\"import\")`.", 0)
    );
    assert_eq!(fails("1 +\n2"), fatal("SyntaxError: Unexpected token [4] `OpNewline`. Expected value.", 0));
}

#[test]
fn diagnostics_carry_the_line() {
    assert_eq!(
        fails("\n\nlet x = "),
        fatal("SyntaxError: Unexpected token [4] `End`. Expected value.", 2)
    );
    assert_eq!(fails("1\n2\n)"), fatal("SyntaxError: Unexpected token [1] `ParenRight`.", 2));
    assert_eq!(fails("let x = 1\nlet y"), fatal("Expected assignment operator", 1));
    assert_eq!(
        fails("let x = (1\n)"),
        fatal("SyntaxError: Expected ')' after expression.", 0)
    );
}

#[test]
fn an_end_token_ends_the_program() {
    let mut parser = Parser::new(
        vec![Token::NumberLiteral(1), Token::End, Token::ParenRight],
        String::new(),
    );
    assert_eq!(parser.parse(), Ok(()));
    assert_eq!(parser.ast, vec![number(1)]);
    assert_eq!(parser.current, 1);
}

#[test]
fn cursor_and_line() {
    let mut parser = parser("a\n\nb");
    assert_eq!(parser.current, 0);
    assert_eq!(parser.current_line, 0);
    assert_eq!(parser.get_current(), name_token("a"));
    assert!(!parser.is_at_end());
    assert_eq!(parser.advance(), Token::OpNewline);
    assert_eq!(parser.current_line, 0);
    assert_eq!(parser.advance(), Token::OpNewline);
    assert_eq!(parser.current_line, 1);
    assert_eq!(parser.advance(), name_token("b"));
    assert_eq!(parser.current_line, 2);
    assert!(parser.current_is(&name_token("b")));
    assert!(!parser.current_is(&name_token("c")));
    assert!(parser.current_in(&vec![Token::OpAdd, name_token("b")]));
    assert!(!parser.current_in(&vec![Token::OpAdd, Token::OpSub]));
    assert!(!parser.current_in(&vec![]));
    assert_eq!(parser.advance(), Token::End);
    assert_eq!(parser.current, 4);
    assert!(parser.is_at_end());
    assert!(parser.current_is(&Token::End));
    assert_eq!(parser.advance(), Token::End);
    assert_eq!(parser.current, 5);
    assert_eq!(parser.advance(), Token::End);
    assert_eq!(parser.current, 6);
    assert_eq!(parser.current_line, 2);
    assert_eq!(parser.get_current(), Token::End);
    assert!(parser.is_at_end());
    assert_eq!(parser.error("late"), fatal("late", 2));
    assert_eq!(parser.parse(), Ok(()));
    assert_eq!(parser.current, 6);
}

#[test]
fn the_line_rises_when_a_newline_is_left() {
    let mut parser = parser("\n1\n");
    assert_eq!(parser.current_line, 0);
    assert_eq!(parser.advance(), Token::NumberLiteral(1));
    assert_eq!(parser.current_line, 1);
    assert_eq!(parser.advance(), Token::OpNewline);
    assert_eq!(parser.current_line, 1);
    assert_eq!(parser.advance(), Token::End);
    assert_eq!(parser.current_line, 2);
    assert_eq!(parser.current, 3);
}

#[test]
fn reading_past_the_last_token() {
    let mut p = parser("let");
    p.advance();
    assert_eq!(
        p.variable_init(false),
        Err(fatal("SyntaxError: Expected identifier or `{` after `let`", 0))
    );
    assert_eq!(p.current, 2);
    let mut p = parser("-");
    p.advance();
    assert_eq!(
        p.prefixed('-'),
        Err(fatal("SyntaxError: Unexpected token [3] `End`. Expected value", 0))
    );
    assert_eq!(p.current, 2);
    let mut p = parser("1");
    assert_eq!(
        p.binary_expression(Builder::Unary, &vec![Token::End]),
        Err(fatal("SyntaxError: Unexpected token [4] `End`. Expected value.", 0))
    );
    assert_eq!(p.current, 2);
    let mut p = parser("x");
    assert_eq!(p.expect(Token::End, "no"), Ok(()));
    assert_eq!(p.expect(Token::End, "no"), Ok(()));
    assert_eq!(p.current, 2);
    assert_eq!(p.value(), Err(fatal("SyntaxError: Unexpected token [4] `End`. Expected value.", 0)));
    assert_eq!(p.current, 2);
}

fn name_token(text: &str) -> Token {
    Token::Identifier(text.to_string())
}

#[test]
fn expect_moves_and_compares() {
    let mut parser = parser("x = 1");
    assert_eq!(parser.expect(Token::OpAssign, "no"), Ok(()));
    assert_eq!(parser.current, 1);
    assert_eq!(parser.expect(Token::OpAssign, "Expected assignment operator"), Err(fatal("Expected assignment operator", 0)));
    assert_eq!(parser.current, 2);
}

#[test]
fn error_and_warn() {
    let mut parser = parser("a\nb");
    parser.advance();
    parser.advance();
    assert_eq!(parser.error("bad"), fatal("bad", 1));
    parser.warn("hm");
    assert_eq!(parser.warnings, 1);
    assert_eq!(
        parser.reports,
        vec![Diagnostic {
            message: "hm".to_string(),
            line: 1,
            column: 0,
            severity: ErrorType::Warning
        }]
    );
}

#[test]
fn levels_of_the_grammar() {
    assert_eq!(parser("1 + 2 * 3").value(), Ok(number(1)));
    assert_eq!(
        parser("1 + 2 * 3").additive_expression(),
        Ok(binary(number(1), Token::OpAdd, number(2)))
    );
    assert_eq!(
        parser("1 + 2 * 3").multiplicative_expression(),
        Ok(binary(binary(number(1), Token::OpAdd, number(2)), Token::OpMul, number(3)))
    );
    assert_eq!(parser("1 + 2 * 3").from_builder(Builder::Unary), Ok(number(1)));
    assert_eq!(
        parser("1 + 2 * 3").from_builder(Builder::Additive),
        Ok(binary(number(1), Token::OpAdd, number(2)))
    );
    assert_eq!(
        parser("1 < 2 < 3").binary_expression(Builder::Unary, &vec![Token::OpLess]),
        Ok(binary(binary(number(1), Token::OpLess, number(2)), Token::OpLess, number(3)))
    );
    let mut p = parser("1 + 2 )");
    assert_eq!(p.expression(), Ok(binary(number(1), Token::OpAdd, number(2))));
    assert_eq!(p.current, 3);
    let mut p = parser("- 5");
    assert_eq!(p.prefixed('-'), Ok(unary('-', number(5))));
    let mut p = parser("1, 2)");
    assert_eq!(p.arguments(), Ok(vec![number(1), number(2)]));
    assert_eq!(p.current, 4);
    let mut p = parser("a, mut b } = c");
    assert_eq!(p.properties(false), Ok(vec![("a".to_string(), false), ("b".to_string(), true)]));
    assert_eq!(p.current, 4);
    assert_eq!(p.warnings, 0);
    let mut p = parser("let x = 1");
    assert_eq!(p.variable_init(true), Ok(assignment("x", number(1), false, true)));
    let mut p = parser("\nlet x = 1");
    assert_eq!(p.statement(), Ok(assignment("x", number(1), false, false)));
    assert_eq!(p.current, 5);
}

#[test]
fn message_about_an_unexpected_token() {
    assert_eq!(
        unexpected_message("<", &Token::StringLiteral("a\"b\n".to_string()), ">"),
        "<StringLiteral(\"a\\\"b\\n\")>"
    );
    assert_eq!(unexpected_message("", &Token::NumberLiteral(-3), ""), "NumberLiteral(-3)");
}

#[test]
fn reports_against_the_source() {
    colored::control::set_override(false);
    let mut parser = parser("let a = 1\nlet b = \nlet c = 3");
    let outcome = parser.parse();
    let diagnostic = match outcome {
        Err(diagnostic) => diagnostic,
        Ok(()) => panic!("parsed"),
    };
    assert_eq!(
        diagnostic,
        fatal("SyntaxError: Unexpected token [4] `OpNewline`. Expected value.", 1)
    );
    assert_eq!(
        parser.describe(&diagnostic),
        Some(vec![
            "0 | let a = 1".to_string(),
            "1 | let b = ".to_string(),
            "  | ^ SyntaxError: Unexpected token [4] `OpNewline`. Expected value.".to_string(),
            "2 | let c = 3".to_string(),
        ])
    );
    assert_eq!(parser.describe(&fatal("m", 3)), None);
    colored::control::unset_override();
}

#[test]
fn nodes_are_copied_in_depth() {
    let nodes = vec![
        Node::Float(0x4009_21FB_5444_2D18),
        Node::Boolean(false),
        call("f", vec![binary(number(1), Token::OpAdd, unary('-', name("x")))]),
        assignment("x", Node::String("s".to_string()), true, true),
        Node::VariableDestructureAssignment {
            properties: vec![("a".to_string(), true)],
            value: Box::new(name("c")),
            mutable: false,
        },
        Node::ImportStatement { names: vec!["a".to_string(), "b".to_string()], module: "m".to_string() },
    ];
    for node in nodes {
        assert_eq!(node.duplicate(), node);
        assert_eq!(node.clone(), node);
    }
}
