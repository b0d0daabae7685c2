use xjtu_codegen::ast::{Block, Expr, Function, FunctionType, IdentType, Stmt};
use xjtu_codegen::codegen::{CodeGenerator, Quadruple};
use xjtu_codegen::errors::{CompilationError, Location};
use xjtu_codegen::symbol_table::{DataType, SymbolTable, SymbolType};

fn create_test_ast() -> Function {
    let block = Block {
        stmts: vec![
            Stmt::DeclareStmt {
                ident_type: IdentType::Int,
                ident: "x".to_string(),
                rval: Some(Expr::Number(5)),
            },
            Stmt::AssignmentStmt {
                lval: "x".to_string(),
                rval: Expr::BinaryExpr {
                    op: "+".to_string(),
                    lhs: Box::new(Expr::Var("x".to_string())),
                    rhs: Box::new(Expr::Number(1)),
                },
            },
            Stmt::ReturnStmt(Expr::Var("x".to_string())),
        ],
    };
    Function { return_type: FunctionType::Int, name: "main".to_string(), block }
}

fn quad_fields(q: &Quadruple) -> (&str, &str, &str, &str) {
    (q.op.as_str(), q.arg1.as_str(), q.arg2.as_str(), q.result.as_str())
}

#[test]
fn test_codegen_basic() {
    let ast = create_test_ast();
    let mut codegen = CodeGenerator::new();
    let result = codegen.generate(&ast);
    assert!(result.is_ok(), "Code generation failed: {:?}", result.err());
    assert!(!codegen.quadruples.is_empty(), "No quadruples generated");
}

#[test]
fn test_undeclared_variable() {
    let block = Block {
        stmts: vec![Stmt::AssignmentStmt { lval: "y".to_string(), rval: Expr::Number(3) }],
    };
    let ast = Function { return_type: FunctionType::Int, name: "main".to_string(), block };
    let mut codegen = CodeGenerator::new();
    let result = codegen.generate(&ast);
    assert!(result.is_err());
    let errors = result.err().unwrap();
    assert!(!errors.is_empty());
    match &errors[0] {
        CompilationError::UndeclaredVariable { name, .. } => {
            assert_eq!(name, "y");
        },
        _ => panic!("Expected UndeclaredVariable error"),
    }
}

#[test]
fn test_duplicate_declaration() {
    let block = Block {
        stmts: vec![
            Stmt::DeclareStmt { ident_type: IdentType::Int, ident: "x".to_string(), rval: None },
            Stmt::DeclareStmt { ident_type: IdentType::Int, ident: "x".to_string(), rval: None },
        ],
    };
    let ast = Function { return_type: FunctionType::Int, name: "main".to_string(), block };
    let mut codegen = CodeGenerator::new();
    let result = codegen.generate(&ast);
    assert!(result.is_err());
    let errors = result.err().unwrap();
    match &errors[0] {
        CompilationError::DuplicateDeclaration { name, .. } => {
            assert_eq!(name, "x");
        },
        _ => panic!("Expected DuplicateDeclaration error"),
    }
}

#[test]
fn assignment_to_undeclared_name_emits_nothing() {
    let block = Block {
        stmts: vec![Stmt::AssignmentStmt { lval: "y".to_string(), rval: Expr::Number(3) }],
    };
    let ast = Function { return_type: FunctionType::Int, name: "main".to_string(), block };
    let mut codegen = CodeGenerator::new();
    let result = codegen.generate(&ast);
    assert!(result.is_err());
    assert!(codegen.quadruples.is_empty());
}

#[test]
fn undeclared_operand_substitutes_zero_and_continues() {
    // `x = y + 1` with only `x` declared: the undeclared `y` is reported,
    // literal 0 stands in for it, and code generation continues.
    let block = Block {
        stmts: vec![
            Stmt::DeclareStmt { ident_type: IdentType::Int, ident: "x".to_string(), rval: None },
            Stmt::AssignmentStmt {
                lval: "x".to_string(),
                rval: Expr::BinaryExpr {
                    op: "+".to_string(),
                    lhs: Box::new(Expr::Var("y".to_string())),
                    rhs: Box::new(Expr::Number(1)),
                },
            },
        ],
    };
    let ast = Function { return_type: FunctionType::Int, name: "main".to_string(), block };
    let mut codegen = CodeGenerator::new();
    let result = codegen.generate(&ast);
    assert!(result.is_err());
    let errors = result.err().unwrap();
    assert_eq!(errors.len(), 1);
    match &errors[0] {
        CompilationError::UndeclaredVariable { name, .. } => assert_eq!(name, "y"),
        _ => panic!("Expected UndeclaredVariable error"),
    }
    assert_eq!(codegen.quadruples.len(), 2);
    assert_eq!(quad_fields(&codegen.quadruples[0]), ("+", "0", "1", "t1"));
    assert_eq!(quad_fields(&codegen.quadruples[1]), ("=", "t1", "", "x"));
}

#[test]
fn duplicate_declaration_still_evaluates_initializer() {
    // `int x ; int x = y ;`: the duplicate is recorded and no second
    // symbol is added, but the initializer is still evaluated, so the
    // undeclared `y` inside it is also collected, and the assignment is
    // emitted with the substitute literal 0.
    let block = Block {
        stmts: vec![
            Stmt::DeclareStmt { ident_type: IdentType::Int, ident: "x".to_string(), rval: None },
            Stmt::DeclareStmt {
                ident_type: IdentType::Int,
                ident: "x".to_string(),
                rval: Some(Expr::Var("y".to_string())),
            },
        ],
    };
    let ast = Function { return_type: FunctionType::Int, name: "main".to_string(), block };
    let mut codegen = CodeGenerator::new();
    let errors = codegen.generate(&ast).err().expect("expected failure");
    assert_eq!(errors.len(), 2);
    match &errors[0] {
        CompilationError::DuplicateDeclaration { name, .. } => assert_eq!(name, "x"),
        _ => panic!("Expected DuplicateDeclaration error"),
    }
    match &errors[1] {
        CompilationError::UndeclaredVariable { name, .. } => assert_eq!(name, "y"),
        _ => panic!("Expected UndeclaredVariable error"),
    }
    assert_eq!(codegen.quadruples.len(), 1);
    assert_eq!(quad_fields(&codegen.quadruples[0]), ("=", "0", "", "x"));
    assert_eq!(codegen.symbol_table.declared.len(), 1);
}

#[test]
fn errors_are_collected_not_short_circuited() {
    let block = Block {
        stmts: vec![
            Stmt::AssignmentStmt { lval: "a".to_string(), rval: Expr::Number(1) },
            Stmt::AssignmentStmt { lval: "b".to_string(), rval: Expr::Number(2) },
        ],
    };
    let ast = Function { return_type: FunctionType::Int, name: "main".to_string(), block };
    let mut codegen = CodeGenerator::new();
    let errors = codegen.generate(&ast).err().unwrap();
    assert_eq!(errors.len(), 2);
}

#[test]
fn symbol_table_rejects_duplicate_at_same_level() {
    let mut table = SymbolTable::new();
    table.enter_scope();
    assert!(table.add_symbol("x".to_string(), SymbolType::Variable, DataType::Int).is_ok());
    let second = table.add_symbol("x".to_string(), SymbolType::Variable, DataType::Int);
    match second {
        Err(CompilationError::DuplicateDeclaration { name, .. }) => assert_eq!(name, "x"),
        _ => panic!("Expected DuplicateDeclaration error"),
    }
}

#[test]
fn symbol_table_shadowing_and_scope_exit() {
    let mut table = SymbolTable::new();
    table.enter_scope();
    assert!(table.add_symbol("x".to_string(), SymbolType::Variable, DataType::Int).is_ok());
    table.enter_scope();
    // The same name at a deeper level is a fresh declaration, not a clash.
    assert!(table.add_symbol("x".to_string(), SymbolType::Variable, DataType::Int).is_ok());
    let inner = table.lookup("x").unwrap();
    assert_eq!(inner.scope_level, 2);
    table.exit_scope();
    // The inner symbol is unreachable again; the outer one is found.
    let outer = table.lookup("x").unwrap();
    assert_eq!(outer.scope_level, 1);
    table.exit_scope();
    assert!(table.lookup("x").is_none());
    // The durable record still lists both declarations, inner last.
    assert_eq!(table.declared.len(), 2);
    assert_eq!(table.declared[0].scope_level, 1);
    assert_eq!(table.declared[1].scope_level, 2);
}

#[test]
fn symbol_table_exit_without_scope_is_noop() {
    let mut table = SymbolTable::new();
    table.exit_scope();
    assert!(table.lookup("x").is_none());
}

#[test]
fn error_messages_render_name_and_location() {
    let plain = CompilationError::UndeclaredVariable { name: "y".to_string(), location: None };
    assert_eq!(plain.message(), "Undeclared variable 'y'");

    let placed = CompilationError::DuplicateDeclaration {
        name: "x".to_string(),
        location: Some(Location::new(3, 14)),
    };
    assert_eq!(placed.message(), "Duplicate declaration of variable 'x' at line 3, column 14");

    let mismatch = CompilationError::TypeMismatch {
        expected: "int".to_string(),
        found: "void".to_string(),
        location: None,
    };
    assert_eq!(mismatch.message(), "Type mismatch: expected int, found void");

    let generic = CompilationError::GenericSemanticError {
        message: "oops".to_string(),
        location: None,
    };
    assert_eq!(generic.message(), "Semantic error: oops");
}

#[test]
fn quadruple_new_copies_fields() {
    let q = Quadruple::new("j>", "x", "0", "4");
    assert_eq!(quad_fields(&q), ("j>", "x", "0", "4"));
}
