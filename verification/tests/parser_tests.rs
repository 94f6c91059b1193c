use meanslang::ast::BinaryOperator;
use meanslang::ast::Expression;
use meanslang::ast::Program;
use meanslang::ast::UnaryOperator;
use meanslang::ast::Value;
use meanslang::lexer::MeansLexer;
use meanslang::parser::MeansParser;
use meanslang::parser::ParserError;
use meanslang::tokens::Token;
use meanslang::tokens::TokenTag;

fn parse_source(src: &str) -> Result<Program, Vec<ParserError>> {
    let lexer = MeansLexer::create();
    let (tokens, diags) = lexer.tokenise(src);
    assert_eq!(diags.len(), 0);
    let mut parser = MeansParser::new(tokens);
    parser.parse()
}

fn as_assignment(p: &Program, i: usize) -> (&String, &Expression) {
    match &p.statements[i] {
        meanslang::ast::Statement::Assignment { id, expr } => (id, expr),
    }
}

fn expect_integer(e: &Expression) -> i32 {
    match e {
        Expression::EVal(Value::Integer(n)) => *n,
        _ => panic!("expected an integer literal"),
    }
}

#[test]
fn parse_single_assignment() {
    let p = parse_source("x = 3;").expect("should parse");
    assert_eq!(p.statements.len(), 1);
    let (id, expr) = as_assignment(&p, 0);
    assert_eq!(id, "x");
    assert_eq!(expect_integer(expr), 3);
}

#[test]
fn parse_right_associative_chain() {
    // The expression rule is right-recursive and applies no precedence:
    // "1 + 2 * 3" parses as 1 + (2 * 3).
    let p = parse_source("x = 1 + 2 * 3;").expect("should parse");
    let (_, expr) = as_assignment(&p, 0);
    match expr {
        Expression::BinaryOp { op: BinaryOperator::Addition, left, right } => {
            assert_eq!(expect_integer(left), 1);
            match &**right {
                Expression::BinaryOp { op: BinaryOperator::Multiplication, left, right } => {
                    assert_eq!(expect_integer(left), 2);
                    assert_eq!(expect_integer(right), 3);
                },
                _ => panic!("expected a multiplication on the right"),
            }
        },
        _ => panic!("expected an addition at the top"),
    }
}

#[test]
fn parse_right_associativity_pinned() {
    // Pinned semantics: "1 - 2 - 3" is 1 - (2 - 3), not (1 - 2) - 3.
    let p = parse_source("x = 1 - 2 - 3;").expect("should parse");
    let (_, expr) = as_assignment(&p, 0);
    match expr {
        Expression::BinaryOp { op: BinaryOperator::Subtraction, left, right } => {
            assert_eq!(expect_integer(left), 1);
            match &**right {
                Expression::BinaryOp { op: BinaryOperator::Subtraction, left, right } => {
                    assert_eq!(expect_integer(left), 2);
                    assert_eq!(expect_integer(right), 3);
                },
                _ => panic!("expected a subtraction on the right"),
            }
        },
        _ => panic!("expected a subtraction at the top"),
    }
}

#[test]
fn parse_malformed_value_single_error() {
    // "x = ;" yields exactly one error: an unexpected token where a
    // value-starting token was required.
    let errs = parse_source("x = ;").expect_err("should fail");
    assert_eq!(errs.len(), 1);
    match &errs[0] {
        ParserError::UnexpectedToken { expected, found } => {
            assert_eq!(expected, "Number");
            assert_eq!(found.tag, TokenTag::SemiColon);
        },
        _ => panic!("expected an unexpected-token error"),
    }
}

#[test]
fn parse_continues_past_error() {
    // The malformed first statement contributes exactly one error and
    // recovery resumes at the following statement, which parses cleanly.
    let errs = parse_source("x = ; y = 2;").expect_err("should fail");
    assert_eq!(errs.len(), 1);
}

#[test]
fn parse_statement_after_recovery() {
    let lexer = MeansLexer::create();
    let (tokens, _) = lexer.tokenise("x = ; y = 2;");
    let mut parser = MeansParser::new(tokens);
    assert!(parser.statement().is_err());
    assert!(parser.pop_until(TokenTag::SemiColon).is_ok());
    let st = parser.statement().expect("second statement should parse");
    match st {
        meanslang::ast::Statement::Assignment { id, expr } => {
            assert_eq!(id, "y");
            assert_eq!(expect_integer(&expr), 2);
        },
    }
    assert!(parser.eof());
}

#[test]
fn parse_unexpected_end_of_input() {
    let errs = parse_source("x =").expect_err("should fail");
    // the expression fails at the end of input, and recovery finds no
    // semicolon to resynchronise on, which is reported too
    assert_eq!(errs.len(), 2);
    assert!(matches!(errs[0], ParserError::UnexpectedEndOfInput));
    assert!(matches!(errs[1], ParserError::UnexpectedEndOfInput));
}

#[test]
fn parse_parenthesised_expression() {
    let p = parse_source("x = 3 + (4 * 5);").expect("should parse");
    let (_, expr) = as_assignment(&p, 0);
    match expr {
        Expression::BinaryOp { op: BinaryOperator::Addition, left, right } => {
            assert_eq!(expect_integer(left), 3);
            match &**right {
                Expression::BinaryOp { op: BinaryOperator::Multiplication, .. } => {},
                _ => panic!("expected a multiplication inside the parentheses"),
            }
        },
        _ => panic!("expected an addition at the top"),
    }
}

#[test]
fn parse_parenthesised_group_ends_expression() {
    // The grammar's parenthesis rule returns at the closing parenthesis
    // without looking for a following operator, so a trailing "* 3" is a
    // syntax error at statement level.
    let errs = parse_source("x = (1 + 2) * 3;").expect_err("should fail");
    assert_eq!(errs.len(), 1);
    match &errs[0] {
        ParserError::UnexpectedToken { expected, found } => {
            assert_eq!(expected, "SemiColon");
            assert_eq!(found.text, "*");
        },
        _ => panic!("expected an unexpected-token error"),
    }
}

#[test]
fn parse_unary_negation() {
    let p = parse_source("x = -5;").expect("should parse");
    let (_, expr) = as_assignment(&p, 0);
    match expr {
        Expression::UnaryOp { op: UnaryOperator::Negation, expr } => {
            assert_eq!(expect_integer(expr), 5);
        },
        _ => panic!("expected a unary negation"),
    }
}

#[test]
fn parse_integer_beyond_range_is_error() {
    let errs = parse_source("x = 2147483648;").expect_err("should fail");
    assert_eq!(errs.len(), 1);
    match &errs[0] {
        ParserError::UnexpectedToken { expected, found } => {
            assert_eq!(expected, "Number");
            assert_eq!(found.text, "2147483648");
        },
        _ => panic!("expected an unexpected-token error"),
    }
}

#[test]
fn parse_float_literal() {
    let p = parse_source("x = 2.5;").expect("should parse");
    let (_, expr) = as_assignment(&p, 0);
    match expr {
        Expression::EVal(Value::Float(bits)) => assert_eq!(*bits, 2.5f32.to_bits()),
        _ => panic!("expected a float literal"),
    }
}

#[test]
fn parse_variable_reference() {
    let p = parse_source("x = 1; y = x;").expect("should parse");
    assert_eq!(p.statements.len(), 2);
    let (_, expr) = as_assignment(&p, 1);
    match expr {
        Expression::EVal(Value::Variable(name)) => assert_eq!(name, "x"),
        _ => panic!("expected a variable reference"),
    }
}

#[test]
fn binary_operator_from_str_rejects_unknown() {
    let tok = Token { tag: TokenTag::Operator, text: "&".to_owned(), line: 1, column: 1 };
    let err = BinaryOperator::from_str(&tok).expect_err("should fail");
    match err {
        ParserError::UnexpectedToken { expected, found } => {
            assert_eq!(expected, "+, -, *, / or %");
            assert_eq!(found.text, "&");
        },
        _ => panic!("expected an unexpected-token error"),
    }
}

#[test]
fn binary_operator_from_str_accepts_all_five() {
    for (text, op) in [
        ("+", BinaryOperator::Addition),
        ("-", BinaryOperator::Subtraction),
        ("*", BinaryOperator::Multiplication),
        ("/", BinaryOperator::Division),
        ("%", BinaryOperator::Modulo),
    ] {
        let tok = Token { tag: TokenTag::Operator, text: text.to_owned(), line: 1, column: 1 };
        assert_eq!(BinaryOperator::from_str(&tok).expect("should map"), op);
    }
}

#[test]
fn unary_operator_from_str_only_negation() {
    let minus = Token { tag: TokenTag::Operator, text: "-".to_owned(), line: 1, column: 1 };
    assert_eq!(UnaryOperator::from_str(&minus).expect("should map"), UnaryOperator::Negation);
    let plus = Token { tag: TokenTag::Operator, text: "+".to_owned(), line: 1, column: 1 };
    let err = UnaryOperator::from_str(&plus).expect_err("should fail");
    match err {
        ParserError::UnexpectedToken { expected, .. } => assert_eq!(expected, "-"),
        _ => panic!("expected an unexpected-token error"),
    }
}
