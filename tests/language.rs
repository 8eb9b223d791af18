use raglang::ast::{BinOp, Expr, Stmt};
use raglang::interpreter::{Interpreter, RuntimeError};
use raglang::lexer::{tokenize, Lexer};
use raglang::parser::{ParseError, Parser};
use raglang::token::Token;
use raglang::{run_source, SourceError};

fn outputs(src: &str) -> Vec<i64> {
    let (out, err) = run_source(src);
    assert!(err.is_none(), "unexpected error: {:?}", err);
    out
}

fn parse(src: &str) -> Result<Vec<Stmt>, ParseError> {
    let mut parser = Parser::new(tokenize(src));
    parser.parse_program()
}

#[test]
fn precedence_mul_before_add() {
    assert_eq!(outputs("print 2 + 3 * 4;"), vec![14]);
}

#[test]
fn precedence_parentheses() {
    assert_eq!(outputs("print (2 + 3) * 4;"), vec![20]);
}

#[test]
fn comparison_truthiness() {
    assert_eq!(outputs("print 5 > 3;"), vec![1]);
    assert_eq!(outputs("print 5 < 3;"), vec![0]);
    assert_eq!(outputs("print 3 == 3; print 3 != 3; print 3 <= 3; print 4 >= 5;"), vec![1, 0, 1, 0]);
}

#[test]
fn rebinding_flat_scope() {
    let src = "
        let x = 10;
        let y = x;
        if x > y { print x; } else { print y; }
        print 0;
    ";
    assert_eq!(outputs(src), vec![10, 0]);
}

#[test]
fn while_loop_counts_down() {
    assert_eq!(outputs("let x = 3; while x { print x; let x = x - 1; }"), vec![3, 2, 1]);
}

#[test]
fn nested_if() {
    let src = "
        let x = 2;
        if x > 0 {
            print x;
            if x == 2 { print 100; } else { print 200; }
            let x = x - 1;
        } else {
            print 0;
        }
        print x;
    ";
    assert_eq!(outputs(src), vec![2, 100, 1]);
}

#[test]
fn if_inside_loop() {
    let src = "
        let x = 10;
        while x > 0 {
            if x >= 5 { print x; } else { print 0; }
            let x = x - 1;
        }
    ";
    assert_eq!(outputs(src), vec![10, 9, 8, 7, 6, 5, 0, 0, 0, 0]);
}

#[test]
fn block_binding_is_global() {
    assert_eq!(outputs("if 1 { let y = 7; } print y;"), vec![7]);
}

#[test]
fn unbound_identifier_is_fatal() {
    let (out, err) = run_source("print z;");
    assert!(out.is_empty());
    match err {
        Some(SourceError::Runtime(RuntimeError::UndefinedVariable { name })) => assert_eq!(name, "z"),
        other => panic!("unexpected result: {:?}", other),
    }
}

#[test]
fn division_by_zero_is_fatal() {
    let (out, err) = run_source("print 1 / 0;");
    assert!(out.is_empty());
    assert!(matches!(err, Some(SourceError::Runtime(RuntimeError::DivisionByZero))));
}

#[test]
fn output_before_fault_is_kept() {
    let (out, err) = run_source("print 1; print 2 / (1 - 1); print 3;");
    assert_eq!(out, vec![1]);
    assert!(matches!(err, Some(SourceError::Runtime(RuntimeError::DivisionByZero))));
}

#[test]
fn overflow_is_fatal() {
    let (_, err) = run_source("print 9223372036854775807 + 1;");
    assert!(matches!(err, Some(SourceError::Runtime(RuntimeError::Overflow))));
    let (_, err) = run_source("print 4294967296 * 4294967296;");
    assert!(matches!(err, Some(SourceError::Runtime(RuntimeError::Overflow))));
    let (_, err) = run_source("print (0 - 9223372036854775807 - 1) / (0 - 1);");
    assert!(matches!(err, Some(SourceError::Runtime(RuntimeError::Overflow))));
}

#[test]
fn division_rounds_toward_zero() {
    assert_eq!(outputs("print (0 - 7) / 2; print 7 / (0 - 2); print 7 / 2;"), vec![-3, -3, 3]);
}

#[test]
fn missing_equals_is_parse_error() {
    let (out, err) = run_source("let x 5;");
    assert!(out.is_empty());
    match err {
        Some(SourceError::Parse(ParseError::Expected { expected, found })) => {
            assert_eq!(expected, Token::Equals);
            assert_eq!(found, Token::Number(5));
        },
        other => panic!("unexpected result: {:?}", other),
    }
}

#[test]
fn parse_error_stops_before_running() {
    let (out, err) = run_source("print 1; print 2");
    assert!(out.is_empty());
    match err {
        Some(SourceError::Parse(ParseError::Expected { expected, found })) => {
            assert_eq!(expected, Token::Semicolon);
            assert_eq!(found, Token::EOF);
        },
        other => panic!("unexpected result: {:?}", other),
    }
}

#[test]
fn same_source_same_outcome() {
    let src = "let a = 4; while a { print a * a; let a = a - 1; } print b;";
    let (out1, err1) = run_source(src);
    let (out2, err2) = run_source(src);
    assert_eq!(out1, out2);
    assert_eq!(out1, vec![16, 9, 4, 1]);
    assert_eq!(format!("{:?}", err1), format!("{:?}", err2));
}

#[test]
fn lexer_reaches_end_and_stays() {
    let mut lexer = Lexer::new("  x  ");
    assert_eq!(lexer.next_token(), Token::Identifier("x".to_string()));
    for _ in 0..5 {
        assert_eq!(lexer.next_token(), Token::EOF);
    }
    let mut empty = Lexer::new("");
    assert_eq!(empty.next_token(), Token::EOF);
    assert_eq!(empty.next_token(), Token::EOF);
}

#[test]
fn lexer_operators() {
    let toks = tokenize("= == ! != < <= > >= + - * / ( ) { } ; @");
    assert_eq!(
        toks,
        vec![
            Token::Equals, Token::Eq, Token::Illegal('!'), Token::NotEq, Token::Less, Token::LessEq,
            Token::Greater, Token::GreaterEq, Token::Plus, Token::Minus, Token::Star, Token::Slash,
            Token::LParen, Token::RParen, Token::LBrace, Token::RBrace, Token::Semicolon,
            Token::Illegal('@'), Token::EOF,
        ]
    );
}

#[test]
fn lexer_adjacent_operators() {
    assert_eq!(tokenize("a<=b"), vec![
        Token::Identifier("a".to_string()), Token::LessEq, Token::Identifier("b".to_string()), Token::EOF,
    ]);
    assert_eq!(tokenize("==="), vec![Token::Eq, Token::Equals, Token::EOF]);
}

#[test]
fn lexer_keywords_and_identifiers() {
    let toks = tokenize("let print if else while lets _x9 While");
    assert_eq!(
        toks,
        vec![
            Token::Let, Token::Print, Token::If, Token::Else, Token::While,
            Token::Identifier("lets".to_string()), Token::Identifier("_x9".to_string()),
            Token::Identifier("While".to_string()), Token::EOF,
        ]
    );
}

#[test]
fn lexer_numbers() {
    assert_eq!(tokenize("007 42x"), vec![
        Token::Number(7), Token::Number(42), Token::Identifier("x".to_string()), Token::EOF,
    ]);
    assert_eq!(tokenize("9223372036854775807"), vec![Token::Number(i64::MAX), Token::EOF]);
    assert_eq!(tokenize("9223372036854775808 1"), vec![Token::Illegal('9'), Token::Number(1), Token::EOF]);
}

#[test]
fn lexer_unicode_whitespace_and_illegal() {
    assert_eq!(tokenize("\t1\u{a0}\u{3000}2\n"), vec![Token::Number(1), Token::Number(2), Token::EOF]);
    assert_eq!(tokenize("é"), vec![Token::Illegal('é'), Token::EOF]);
}

#[test]
fn comparison_chains_fold_left() {
    let prog = parse("print 1 < 2 < 3;").unwrap();
    match &prog[0] {
        Stmt::Print { expr: Expr::BinaryOp { left, op: BinOp::Lt, right } } => {
            assert!(matches!(**right, Expr::Number(3)));
            assert!(matches!(**left, Expr::BinaryOp { op: BinOp::Lt, .. }));
        },
        other => panic!("unexpected statement: {:?}", other),
    }
    assert_eq!(outputs("print 3 < 2 < 1;"), vec![1]);
}

#[test]
fn subtraction_is_left_associative() {
    assert_eq!(outputs("print 10 - 3 - 2; print 24 / 4 / 2;"), vec![5, 3]);
}

#[test]
fn parse_if_without_else() {
    let prog = parse("if 1 { print 2; }").unwrap();
    assert_eq!(prog.len(), 1);
    match &prog[0] {
        Stmt::If { then_branch, else_branch, .. } => {
            assert_eq!(then_branch.len(), 1);
            assert!(else_branch.is_empty());
        },
        other => panic!("unexpected statement: {:?}", other),
    }
}

#[test]
fn parse_stmt_none_at_end() {
    let mut parser = Parser::new(tokenize("   "));
    assert!(matches!(parser.parse_stmt(), Ok(None)));
    let mut parser = Parser::new(Vec::new());
    assert!(matches!(parser.parse_stmt(), Ok(None)));
}

#[test]
fn parse_errors() {
    assert!(matches!(parse("let 5 = 1;"), Err(ParseError::ExpectedIdentifier { found: Token::Number(5) })));
    assert!(matches!(parse("5;"), Err(ParseError::UnexpectedInStatement { found: Token::Number(5) })));
    assert!(matches!(parse("print ;"), Err(ParseError::UnexpectedInExpression { found: Token::Semicolon })));
    assert!(matches!(parse("print (1;"), Err(ParseError::Expected { expected: Token::RParen, found: Token::Semicolon })));
    assert!(matches!(parse("if 1 { print 1;"), Err(ParseError::Expected { expected: Token::RBrace, found: Token::EOF })));
    assert!(matches!(parse("while 1 print 1;"), Err(ParseError::Expected { expected: Token::LBrace, found: Token::Print })));
    assert!(matches!(parse("print !;"), Err(ParseError::UnexpectedInExpression { found: Token::Illegal('!') })));
}

#[test]
fn interpreter_exec_statements() {
    let mut interp = Interpreter::new();
    let prog = parse("let a = 6; let b = a * 7;").unwrap();
    assert!(interp.exec_program(prog).is_ok());
    let mut rest = parse("print b; print a - b;").unwrap();
    let second = rest.pop().unwrap();
    let first = rest.pop().unwrap();
    assert!(interp.exec(first).is_ok());
    assert!(interp.exec(second).is_ok());
    assert_eq!(interp.output(), &vec![42, -36]);
}

#[test]
fn interpreter_starts_empty() {
    let mut interp = Interpreter::new();
    assert!(interp.output().is_empty());
    let prog = parse("print q;").unwrap();
    assert!(matches!(interp.exec_program(prog), Err(RuntimeError::UndefinedVariable { .. })));
    assert!(interp.output().is_empty());
}

#[test]
fn token_duplicate_keeps_value() {
    let t = Token::Identifier("abc".to_string());
    assert_eq!(t.duplicate(), t);
    assert_ne!(Token::Number(1), Token::Number(2));
    assert_ne!(Token::Let, Token::Print);
}
