use xjtu_codegen::ast::{Expr, Stmt};
use xjtu_codegen::codegen::{CodeGenerator, Quadruple};
use xjtu_codegen::errors::CompilationError;
use xjtu_codegen::lexer::Lexer;
use xjtu_codegen::parser::Parser;
use xjtu_codegen::text::parse_i32;

fn compile(source: &str) -> (CodeGenerator, Result<(), Vec<CompilationError>>) {
    let tokens = Lexer::new(source).to_tokens().expect("lexing failed");
    let mut parser = Parser::new(&tokens);
    let ast = parser.parse().expect("parsing failed");
    let mut codegen = CodeGenerator::new();
    let result = codegen.generate(&ast);
    (codegen, result)
}

fn quad_fields(q: &Quadruple) -> (&str, &str, &str, &str) {
    (q.op.as_str(), q.arg1.as_str(), q.arg2.as_str(), q.result.as_str())
}

#[test]
fn end_to_end_if_statement() {
    let source = "int main ( ) { int x = 1 ; if ( x > 0 ) { x = x + 1 ; } return x ; }";
    let (codegen, result) = compile(source);
    assert!(result.is_ok());
    let quads: Vec<(&str, &str, &str, &str)> =
        codegen.quadruples.iter().map(quad_fields).collect();
    assert_eq!(
        quads,
        vec![
            ("=", "1", "", "x"),
            ("j>", "x", "0", "4"),
            ("j", "", "", "6"),
            ("+", "x", "1", "t1"),
            ("=", "t1", "", "x"),
            ("return", "x", "", ""),
        ]
    );
}

#[test]
fn end_to_end_undeclared_assignment() {
    let source = "int main ( ) { y = 3 ; }";
    let (codegen, result) = compile(source);
    let errors = result.err().expect("expected failure");
    match &errors[0] {
        CompilationError::UndeclaredVariable { name, .. } => assert_eq!(name, "y"),
        _ => panic!("Expected UndeclaredVariable error"),
    }
    assert!(codegen.quadruples.is_empty());
}

#[test]
fn end_to_end_duplicate_declaration() {
    let source = "int main ( ) { int x ; int x ; }";
    let (_codegen, result) = compile(source);
    let errors = result.err().expect("expected failure");
    match &errors[0] {
        CompilationError::DuplicateDeclaration { name, .. } => assert_eq!(name, "x"),
        _ => panic!("Expected DuplicateDeclaration error"),
    }
}

#[test]
fn end_to_end_if_else() {
    let source =
        "int main ( ) { int x = 0 ; if ( x > 1 ) { x = 1 ; } else { x = 2 ; } return x ; }";
    let (codegen, result) = compile(source);
    assert!(result.is_ok());
    let quads: Vec<(&str, &str, &str, &str)> =
        codegen.quadruples.iter().map(quad_fields).collect();
    assert_eq!(
        quads,
        vec![
            ("=", "0", "", "x"),
            ("j>", "x", "1", "4"),
            ("j", "", "", "6"),
            ("=", "1", "", "x"),
            ("j", "", "", "7"),
            ("=", "2", "", "x"),
            ("return", "x", "", ""),
        ]
    );
}

#[test]
fn end_to_end_while_loop() {
    let source = "int main ( ) { int a = 10 ; while ( a > 0 ) { a = a - 1 ; } return a ; }";
    let (codegen, result) = compile(source);
    assert!(result.is_ok());
    let quads: Vec<(&str, &str, &str, &str)> =
        codegen.quadruples.iter().map(quad_fields).collect();
    assert_eq!(
        quads,
        vec![
            ("=", "10", "", "a"),
            ("j>", "a", "0", "6"),
            ("-", "a", "1", "t1"),
            ("=", "t1", "", "a"),
            ("j", "", "", "2"),
            ("return", "a", "", ""),
        ]
    );
}

#[test]
fn non_comparison_condition_tests_against_zero() {
    let source = "int main ( ) { int x = 1 ; while ( x ) { x = 0 ; } return x ; }";
    let (codegen, result) = compile(source);
    assert!(result.is_ok());
    let quads: Vec<(&str, &str, &str, &str)> =
        codegen.quadruples.iter().map(quad_fields).collect();
    assert_eq!(
        quads,
        vec![
            ("=", "1", "", "x"),
            ("jz", "x", "0", "5"),
            ("=", "0", "", "x"),
            ("j", "", "", "2"),
            ("return", "x", "", ""),
        ]
    );
}

#[test]
fn shadowing_in_nested_scope_succeeds() {
    let source = "int main ( ) { int x = 1 ; if ( x > 0 ) { int x = 2 ; } return x ; }";
    let (codegen, result) = compile(source);
    assert!(result.is_ok());
    let quads: Vec<(&str, &str, &str, &str)> =
        codegen.quadruples.iter().map(quad_fields).collect();
    assert_eq!(
        quads,
        vec![
            ("=", "1", "", "x"),
            ("j>", "x", "0", "4"),
            ("j", "", "", "5"),
            ("=", "2", "", "x"),
            ("return", "x", "", ""),
        ]
    );
}

#[test]
fn precedence_builds_left_associative_tree() {
    // x + y * 2 - 5 parses as (x + (y * 2)) - 5 and generates inner
    // operations first.
    let source = "int main ( ) { int x = 1 ; int y = 2 ; x = x + y * 2 - 5 ; return x ; }";
    let (codegen, result) = compile(source);
    assert!(result.is_ok());
    let quads: Vec<(&str, &str, &str, &str)> =
        codegen.quadruples.iter().map(quad_fields).collect();
    assert_eq!(
        quads,
        vec![
            ("=", "1", "", "x"),
            ("=", "2", "", "y"),
            ("*", "y", "2", "t1"),
            ("+", "x", "t1", "t2"),
            ("-", "t2", "5", "t3"),
            ("=", "t3", "", "x"),
            ("return", "x", "", ""),
        ]
    );
}

#[test]
fn parenthesized_expressions_override_precedence() {
    let source = "int main ( ) { int x = 1 ; x = ( x + 1 ) * 2 ; return x ; }";
    let (codegen, result) = compile(source);
    assert!(result.is_ok());
    let quads: Vec<(&str, &str, &str, &str)> =
        codegen.quadruples.iter().map(quad_fields).collect();
    assert_eq!(
        quads,
        vec![
            ("=", "1", "", "x"),
            ("+", "x", "1", "t1"),
            ("*", "t1", "2", "t2"),
            ("=", "t2", "", "x"),
            ("return", "x", "", ""),
        ]
    );
}

#[test]
fn parser_reports_first_error_and_stops() {
    let tokens = Lexer::new("").to_tokens().unwrap();
    let mut parser = Parser::new(&tokens);
    assert_eq!(parser.parse().err(), Some("Expected return type (int)"));

    let tokens = Lexer::new("int ( ) { }").to_tokens().unwrap();
    let mut parser = Parser::new(&tokens);
    assert_eq!(parser.parse().err(), Some("Expected function name"));

    let tokens = Lexer::new("int main ( ) { int ; }").to_tokens().unwrap();
    let mut parser = Parser::new(&tokens);
    assert_eq!(parser.parse().err(), Some("Expected identifier after int"));

    let tokens = Lexer::new("int main ( ) { return ; }").to_tokens().unwrap();
    let mut parser = Parser::new(&tokens);
    assert_eq!(parser.parse().err(), Some("Expected expression"));

    let tokens = Lexer::new("int main ( ) { , }").to_tokens().unwrap();
    let mut parser = Parser::new(&tokens);
    assert_eq!(parser.parse().err(), Some("Invalid statement"));
}

#[test]
fn parser_is_deterministic_on_the_same_tokens() {
    let tokens = Lexer::new("int main ( ) { return 1 + 2 ; }").to_tokens().unwrap();
    let first = Parser::new(&tokens).parse().expect("parse failed");
    let second = Parser::new(&tokens).parse().expect("parse failed");
    assert_eq!(first.name, second.name);
    assert_eq!(first.block.stmts.len(), second.block.stmts.len());
    match (&first.block.stmts[0], &second.block.stmts[0]) {
        (Stmt::ReturnStmt(Expr::BinaryExpr { op: op1, .. }),
            Stmt::ReturnStmt(Expr::BinaryExpr { op: op2, .. })) => {
            assert_eq!(op1, "+");
            assert_eq!(op2, "+");
        },
        _ => panic!("expected a binary return expression"),
    }
}

#[test]
fn integer_literal_bounds() {
    assert_eq!(parse_i32("2147483647"), Some(i32::MAX));
    assert_eq!(parse_i32("2147483648"), None);
    assert_eq!(parse_i32("-2147483648"), Some(i32::MIN));
    assert_eq!(parse_i32("-2147483649"), None);
    assert_eq!(parse_i32("+17"), Some(17));
    assert_eq!(parse_i32("007"), Some(7));
    assert_eq!(parse_i32(""), None);
    assert_eq!(parse_i32("-"), None);
    assert_eq!(parse_i32("12a"), None);

    let tokens = Lexer::new("int main ( ) { return 2147483648 ; }").to_tokens().unwrap();
    let mut parser = Parser::new(&tokens);
    assert_eq!(parser.parse().err(), Some("Invalid integer"));
}

#[test]
fn successful_generation_leaves_a_populated_symbol_record() {
    let source = "int main ( ) { int x = 1 ; if ( x > 0 ) { int y = 2 ; } return x ; }";
    let (codegen, result) = compile(source);
    assert!(result.is_ok());
    let names: Vec<&str> =
        codegen.symbol_table.declared.iter().map(|s| s.name.as_str()).collect();
    assert_eq!(names, vec!["x", "y"]);
    assert_eq!(codegen.symbol_table.declared[0].scope_level, 2);
    assert_eq!(codegen.symbol_table.declared[1].scope_level, 3);
}

#[test]
fn generator_state_resets_between_compilations() {
    let tokens = Lexer::new("int main ( ) { int x = 1 ; return x ; }").to_tokens().unwrap();
    let ast = Parser::new(&tokens).parse().unwrap();
    let mut codegen = CodeGenerator::new();
    assert!(codegen.generate(&ast).is_ok());
    let first_len = codegen.quadruples.len();
    assert!(codegen.generate(&ast).is_ok());
    assert_eq!(codegen.quadruples.len(), first_len);
}

#[test]
fn jump_targets_stay_within_the_program() {
    let source = "int main ( ) { int i = 0 ; while ( 3 > i ) { if ( i > 1 ) { i = i + 2 ; } else { i = i + 1 ; } } return i ; }";
    let (codegen, result) = compile(source);
    assert!(result.is_ok());
    let len = codegen.quadruples.len();
    for q in &codegen.quadruples {
        if q.op.starts_with('j') {
            let target: usize = q.result.parse().expect("jump target is numeric");
            assert!(1 <= target && target <= len + 1);
        }
    }
}
