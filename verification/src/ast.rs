//! The abstract syntax tree: passive data definitions produced by the
//! parser and consumed by the code generator, with their mathematical
//! models.

use vstd::prelude::*;

verus! {

/// The return type of a function; the language has a single `int` type.
#[derive(Debug, Clone, Copy)]
pub enum FunctionType {
    Int,
}

/// The declared type of an identifier; the language has a single `int` type.
#[derive(Debug, Clone, Copy)]
pub enum IdentType {
    Int,
}

/// An expression: an integer literal, a variable reference, or a binary
/// operation over two subexpressions.
#[derive(Debug)]
pub enum Expr {
    Number(i32),
    Var(String),
    BinaryExpr { op: String, lhs: Box<Expr>, rhs: Box<Expr> },
}

/// A statement.
#[derive(Debug)]
pub enum Stmt {
    ReturnStmt(Expr),
    IfStmt { cond: Expr, if_block: Block, else_stmt: Option<Block> },
    WhileStmt { cond: Expr, block: Block },
    AssignmentStmt { lval: String, rval: Expr },
    DeclareStmt { ident_type: IdentType, ident: String, rval: Option<Expr> },
}

/// An ordered sequence of statements between braces.
#[derive(Debug)]
pub struct Block {
    pub stmts: Vec<Stmt>,
}

/// A function: its return type, its name and its body.
#[derive(Debug)]
pub struct Function {
    pub return_type: FunctionType,
    pub name: String,
    pub block: Block,
}

// ---------------------------------------------------------------------------
// Mathematical models
// ---------------------------------------------------------------------------

/// The mathematical value of an expression.
pub enum ExprModel {
    Number(int),
    Var(Seq<char>),
    BinaryExpr { op: Seq<char>, lhs: Box<ExprModel>, rhs: Box<ExprModel> },
}

/// The mathematical value of a statement.
pub enum StmtModel {
    ReturnStmt(ExprModel),
    IfStmt { cond: ExprModel, if_block: BlockModel, else_stmt: Option<BlockModel> },
    WhileStmt { cond: ExprModel, block: BlockModel },
    AssignmentStmt { lval: Seq<char>, rval: ExprModel },
    DeclareStmt { ident_type: IdentType, ident: Seq<char>, rval: Option<ExprModel> },
}

/// The mathematical value of a block.
pub struct BlockModel {
    pub stmts: Seq<StmtModel>,
}

/// The mathematical value of a function.
pub struct FunctionModel {
    pub return_type: FunctionType,
    pub name: Seq<char>,
    pub block: BlockModel,
}

pub open spec fn sp_expr_model(e: Expr) -> ExprModel
    decreases e,
{
    match e {
        Expr::Number(n) => ExprModel::Number(n as int),
        Expr::Var(s) => ExprModel::Var(s@),
        Expr::BinaryExpr { op, lhs, rhs } => ExprModel::BinaryExpr {
            op: op@,
            lhs: Box::new(sp_expr_model(*lhs)),
            rhs: Box::new(sp_expr_model(*rhs)),
        },
    }
}

pub open spec fn sp_stmt_model(s: Stmt) -> StmtModel
    decreases s, 0int,
{
    match s {
        Stmt::ReturnStmt(e) => StmtModel::ReturnStmt(sp_expr_model(e)),
        Stmt::IfStmt { cond, if_block, else_stmt } => StmtModel::IfStmt {
            cond: sp_expr_model(cond),
            if_block: sp_block_model(if_block),
            else_stmt: match else_stmt {
                Some(b) => Some(sp_block_model(b)),
                None => None,
            },
        },
        Stmt::WhileStmt { cond, block } => StmtModel::WhileStmt {
            cond: sp_expr_model(cond),
            block: sp_block_model(block),
        },
        Stmt::AssignmentStmt { lval, rval } => StmtModel::AssignmentStmt {
            lval: lval@,
            rval: sp_expr_model(rval),
        },
        Stmt::DeclareStmt { ident_type, ident, rval } => StmtModel::DeclareStmt {
            ident_type,
            ident: ident@,
            rval: match rval {
                Some(e) => Some(sp_expr_model(e)),
                None => None,
            },
        },
    }
}

pub open spec fn sp_stmts_model(ss: Seq<Stmt>, i: int) -> Seq<StmtModel>
    decreases ss, ss.len() - i,
{
    if i < 0 || i >= ss.len() {
        Seq::empty()
    } else {
        seq![sp_stmt_model(ss[i])] + sp_stmts_model(ss, i + 1)
    }
}

pub open spec fn sp_block_model(b: Block) -> BlockModel
    decreases b, 1int,
{
    proof {
        assert(decreases_to!(b => b.stmts));
        assert(decreases_to!(b.stmts => b.stmts@));
    }
    BlockModel { stmts: sp_stmts_model(b.stmts@, 0) }
}

pub open spec fn sp_function_model(f: Function) -> FunctionModel {
    FunctionModel { return_type: f.return_type, name: f.name@, block: sp_block_model(f.block) }
}

impl View for Expr {
    type V = ExprModel;

    open spec fn view(&self) -> ExprModel {
        sp_expr_model(*self)
    }
}

impl View for Stmt {
    type V = StmtModel;

    open spec fn view(&self) -> StmtModel {
        sp_stmt_model(*self)
    }
}

impl View for Block {
    type V = BlockModel;

    open spec fn view(&self) -> BlockModel {
        sp_block_model(*self)
    }
}

impl View for Function {
    type V = FunctionModel;

    open spec fn view(&self) -> FunctionModel {
        sp_function_model(*self)
    }
}

/// The statement models of a block are its statements' models, in order.
pub proof fn lemma_stmts_model_index(ss: Seq<Stmt>, i: int)
    requires
        0 <= i,
    ensures
        sp_stmts_model(ss, i).len() == if i <= ss.len() {
            ss.len() - i
        } else {
            0
        },
        forall|j: int|
            i <= j < ss.len() ==> sp_stmts_model(ss, i)[j - i] == sp_stmt_model(ss[j]),
    decreases ss.len() - i,
{
    if i < ss.len() {
        lemma_stmts_model_index(ss, i + 1);
    }
}

/// Appending a statement to a block's statements appends its model.
pub proof fn lemma_stmts_model_push(ss: Seq<Stmt>, s: Stmt)
    ensures
        sp_stmts_model(ss.push(s), 0) == sp_stmts_model(ss, 0).push(sp_stmt_model(s)),
{
    lemma_stmts_model_index(ss, 0);
    lemma_stmts_model_index(ss.push(s), 0);
    assert forall|j: int|
        0 <= j < ss.len() + 1 implies sp_stmts_model(ss.push(s), 0)[j] == sp_stmts_model(
        ss,
        0,
    ).push(sp_stmt_model(s))[j] by {
        if j < ss.len() {
            assert(ss.push(s)[j] == ss[j]);
        } else {
            assert(ss.push(s)[j] == s);
        }
    }
    assert(sp_stmts_model(ss.push(s), 0) =~= sp_stmts_model(ss, 0).push(sp_stmt_model(s)));
}

// ---------------------------------------------------------------------------
// Well-formed operators
// ---------------------------------------------------------------------------

/// Whether an operator lexeme is one the parser can produce.
pub open spec fn sp_op_wf(op: Seq<char>) -> bool {
    op == seq!['>'] || op == seq!['+'] || op == seq!['-'] || op == seq!['*']
}

/// Whether every binary operator in an expression is one the parser can
/// produce.
pub open spec fn sp_expr_wf(e: ExprModel) -> bool
    decreases e,
{
    match e {
        ExprModel::Number(_) => true,
        ExprModel::Var(_) => true,
        ExprModel::BinaryExpr { op, lhs, rhs } => sp_op_wf(op) && sp_expr_wf(*lhs) && sp_expr_wf(
            *rhs,
        ),
    }
}

/// Whether every binary operator in a statement is one the parser can
/// produce.
pub open spec fn sp_stmt_wf(s: StmtModel) -> bool
    decreases s, 0int,
{
    match s {
        StmtModel::ReturnStmt(e) => sp_expr_wf(e),
        StmtModel::IfStmt { cond, if_block, else_stmt } => sp_expr_wf(cond) && sp_block_wf(
            if_block,
        ) && match else_stmt {
            Some(b) => sp_block_wf(b),
            None => true,
        },
        StmtModel::WhileStmt { cond, block } => sp_expr_wf(cond) && sp_block_wf(block),
        StmtModel::AssignmentStmt { lval: _, rval } => sp_expr_wf(rval),
        StmtModel::DeclareStmt { ident_type: _, ident: _, rval } => match rval {
            Some(e) => sp_expr_wf(e),
            None => true,
        },
    }
}

/// Whether every binary operator in a block is one the parser can produce.
pub open spec fn sp_block_wf(b: BlockModel) -> bool
    decreases b, 1int,
{
    proof {
        assert(decreases_to!(b => b.stmts));
    }
    forall|i: int| 0 <= i < b.stmts.len() ==> sp_stmt_wf(#[trigger] b.stmts[i])
}

/// Whether every binary operator in a function is one the parser can
/// produce.
pub open spec fn sp_function_wf(f: FunctionModel) -> bool {
    sp_block_wf(f.block)
}

impl Function {
    /// A function value from its parts.
    pub fn new(return_type: FunctionType, name: String, block: Block) -> (f: Function)
        ensures
            f == (Function { return_type, name, block }),
    {
        Function { return_type, name, block }
    }
}

impl Block {
    /// A block value from its statements.
    pub fn new(stmts: Vec<Stmt>) -> (b: Block)
        ensures
            b == (Block { stmts }),
    {
        Block { stmts }
    }
}

} // verus!
