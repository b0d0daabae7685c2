//! The parser: recursive descent over the token sequence with a single
//! read cursor and one token of lookahead, no backtracking. It builds one
//! function's syntax tree or fails on the first malformed construct with
//! a descriptive message — there is no error recovery.
//!
//! Every parsing function is specified against a mathematical parser over
//! the token models. The same token sequence therefore always yields the
//! same tree or the same error: parsing is deterministic by contract.

use vstd::prelude::*;
use crate::ast::{
    sp_expr_wf, sp_function_wf, sp_stmt_wf, Block, BlockModel, Expr, ExprModel, Function,
    FunctionModel, FunctionType, IdentType, Stmt, StmtModel,
};
use crate::lexer::sp_views;
use crate::text::{parse_i32, sp_parse_i32, str_eq};
use crate::token::{Keyword, Token, TokenModel};

verus! {

/// A position clamped into a range; the mathematical parser only ever
/// applies it to positions already inside the range, where it is the
/// identity.
pub open spec fn sp_clamp(lo: int, hi: int, x: int) -> int {
    if x > hi {
        hi
    } else if x < lo {
        if lo > hi {
            hi
        } else {
            lo
        }
    } else {
        x
    }
}

// ---------------------------------------------------------------------------
// The expression grammar, lowest precedence first: relational (`>`),
// additive (`+`, `-`), multiplicative (`*`), primary. Each level parses
// its left operand at the next level and then folds operators at its own
// level to the left.
// ---------------------------------------------------------------------------

pub open spec fn sp_parse_primary(t: Seq<TokenModel>, i: int) -> Result<(ExprModel, int), Seq<
    char,
>>
    decreases t.len() - i, 0int,
    when 0 <= i <= t.len()
{
    if i >= t.len() {
        Err("Expected expression"@)
    } else {
        match t[i] {
            TokenModel::Int(s) => match sp_parse_i32(s) {
                Some(v) => Ok((ExprModel::Number(v), i + 1)),
                None => Err("Invalid integer"@),
            },
            TokenModel::Ident(s) => Ok((ExprModel::Var(s), i + 1)),
            TokenModel::LParam => match sp_parse_expr(t, i + 1) {
                Err(m) => Err(m),
                Ok((e, j)) => {
                    let j2 = sp_clamp(i + 2, t.len() as int, j);
                    if j2 < t.len() && t[j2] is RParam {
                        Ok((e, j2 + 1))
                    } else {
                        Err("Unexpected token"@)
                    }
                },
            },
            _ => Err("Expected expression"@),
        }
    }
}

pub open spec fn sp_parse_mult_rest(t: Seq<TokenModel>, i: int, acc: ExprModel) -> Result<
    (ExprModel, int),
    Seq<char>,
>
    decreases t.len() - i, 1int,
    when 0 <= i <= t.len()
{
    if i < t.len() && t[i] is Times {
        match sp_parse_primary(t, i + 1) {
            Err(m) => Err(m),
            Ok((r, j)) => sp_parse_mult_rest(
                t,
                sp_clamp(i + 2, t.len() as int, j),
                ExprModel::BinaryExpr { op: "*"@, lhs: Box::new(acc), rhs: Box::new(r) },
            ),
        }
    } else {
        Ok((acc, i))
    }
}

pub open spec fn sp_parse_multiplicative(t: Seq<TokenModel>, i: int) -> Result<
    (ExprModel, int),
    Seq<char>,
>
    decreases t.len() - i, 2int,
    when 0 <= i <= t.len()
{
    match sp_parse_primary(t, i) {
        Err(m) => Err(m),
        Ok((e, j)) => sp_parse_mult_rest(t, sp_clamp(i + 1, t.len() as int, j), e),
    }
}

pub open spec fn sp_parse_add_rest(t: Seq<TokenModel>, i: int, acc: ExprModel) -> Result<
    (ExprModel, int),
    Seq<char>,
>
    decreases t.len() - i, 3int,
    when 0 <= i <= t.len()
{
    if i < t.len() && (t[i] is Plus || t[i] is Minus) {
        let op: Seq<char> = if t[i] is Plus {
            "+"@
        } else {
            "-"@
        };
        match sp_parse_multiplicative(t, i + 1) {
            Err(m) => Err(m),
            Ok((r, j)) => sp_parse_add_rest(
                t,
                sp_clamp(i + 2, t.len() as int, j),
                ExprModel::BinaryExpr { op, lhs: Box::new(acc), rhs: Box::new(r) },
            ),
        }
    } else {
        Ok((acc, i))
    }
}

pub open spec fn sp_parse_additive(t: Seq<TokenModel>, i: int) -> Result<
    (ExprModel, int),
    Seq<char>,
>
    decreases t.len() - i, 4int,
    when 0 <= i <= t.len()
{
    match sp_parse_multiplicative(t, i) {
        Err(m) => Err(m),
        Ok((e, j)) => sp_parse_add_rest(t, sp_clamp(i + 1, t.len() as int, j), e),
    }
}

pub open spec fn sp_parse_rel_rest(t: Seq<TokenModel>, i: int, acc: ExprModel) -> Result<
    (ExprModel, int),
    Seq<char>,
>
    decreases t.len() - i, 5int,
    when 0 <= i <= t.len()
{
    if i < t.len() && t[i] is Gt {
        match sp_parse_additive(t, i + 1) {
            Err(m) => Err(m),
            Ok((r, j)) => sp_parse_rel_rest(
                t,
                sp_clamp(i + 2, t.len() as int, j),
                ExprModel::BinaryExpr { op: ">"@, lhs: Box::new(acc), rhs: Box::new(r) },
            ),
        }
    } else {
        Ok((acc, i))
    }
}

pub open spec fn sp_parse_relation(t: Seq<TokenModel>, i: int) -> Result<
    (ExprModel, int),
    Seq<char>,
>
    decreases t.len() - i, 6int,
    when 0 <= i <= t.len()
{
    match sp_parse_additive(t, i) {
        Err(m) => Err(m),
        Ok((e, j)) => sp_parse_rel_rest(t, sp_clamp(i + 1, t.len() as int, j), e),
    }
}

pub open spec fn sp_parse_expr(t: Seq<TokenModel>, i: int) -> Result<(ExprModel, int), Seq<char>>
    decreases t.len() - i, 7int,
    when 0 <= i <= t.len()
{
    sp_parse_relation(t, i)
}

// ---------------------------------------------------------------------------
// Statements and blocks
// ---------------------------------------------------------------------------

pub open spec fn sp_parse_return(t: Seq<TokenModel>, i: int) -> Result<(StmtModel, int), Seq<char>>
    decreases t.len() - i, 3int,
    when 0 <= i <= t.len()
{
    match sp_parse_expr(t, i + 1) {
        Err(m) => Err(m),
        Ok((e, j)) => {
            let j2 = sp_clamp(i + 2, t.len() as int, j);
            if j2 < t.len() && t[j2] is Semicolon {
                Ok((StmtModel::ReturnStmt(e), j2 + 1))
            } else {
                Err("Unexpected token"@)
            }
        },
    }
}

pub open spec fn sp_parse_declare(t: Seq<TokenModel>, i: int) -> Result<(StmtModel, int), Seq<
    char,
>>
    decreases t.len() - i, 3int,
    when 0 <= i <= t.len()
{
    if i + 1 < t.len() && t[i + 1] is Ident {
        let ident = t[i + 1]->Ident_0;
        if i + 2 < t.len() && t[i + 2] is Assign {
            match sp_parse_expr(t, i + 3) {
                Err(m) => Err(m),
                Ok((e, j)) => {
                    let j2 = sp_clamp(i + 4, t.len() as int, j);
                    if j2 < t.len() && t[j2] is Semicolon {
                        Ok(
                            (
                                StmtModel::DeclareStmt {
                                    ident_type: IdentType::Int,
                                    ident,
                                    rval: Some(e),
                                },
                                j2 + 1,
                            ),
                        )
                    } else {
                        Err("Unexpected token"@)
                    }
                },
            }
        } else {
            if i + 2 < t.len() && t[i + 2] is Semicolon {
                Ok(
                    (
                        StmtModel::DeclareStmt { ident_type: IdentType::Int, ident, rval: None },
                        i + 3,
                    ),
                )
            } else {
                Err("Unexpected token"@)
            }
        }
    } else {
        Err("Expected identifier after int"@)
    }
}

pub open spec fn sp_parse_assign(t: Seq<TokenModel>, i: int) -> Result<(StmtModel, int), Seq<
    char,
>>
    decreases t.len() - i, 3int,
    when 0 <= i <= t.len()
{
    if i < t.len() && t[i] is Ident {
        let lval = t[i]->Ident_0;
        if i + 1 < t.len() && t[i + 1] is Assign {
            match sp_parse_expr(t, i + 2) {
                Err(m) => Err(m),
                Ok((e, j)) => {
                    let j2 = sp_clamp(i + 3, t.len() as int, j);
                    if j2 < t.len() && t[j2] is Semicolon {
                        Ok((StmtModel::AssignmentStmt { lval, rval: e }, j2 + 1))
                    } else {
                        Err("Unexpected token"@)
                    }
                },
            }
        } else {
            Err("Unexpected token"@)
        }
    } else {
        Err("Expected identifier in assignment"@)
    }
}

pub open spec fn sp_parse_if(t: Seq<TokenModel>, i: int) -> Result<(StmtModel, int), Seq<char>>
    decreases t.len() - i, 3int,
    when 0 <= i <= t.len()
{
    if !(i + 1 < t.len() && t[i + 1] is LParam) {
        Err("Unexpected token"@)
    } else {
        match sp_parse_expr(t, i + 2) {
            Err(m) => Err(m),
            Ok((cond, j)) => {
                let j2 = sp_clamp(i + 3, t.len() as int, j);
                if !(j2 < t.len() && t[j2] is RParam) {
                    Err("Unexpected token"@)
                } else {
                    match sp_parse_block(t, j2 + 1) {
                        Err(m) => Err(m),
                        Ok((ifb, k)) => {
                            let k2 = sp_clamp(j2 + 2, t.len() as int, k);
                            if k2 < t.len() && t[k2] == TokenModel::Keywords(Keyword::Else) {
                                match sp_parse_block(t, k2 + 1) {
                                    Err(m) => Err(m),
                                    Ok((elsb, k3)) => Ok(
                                        (
                                            StmtModel::IfStmt {
                                                cond,
                                                if_block: ifb,
                                                else_stmt: Some(elsb),
                                            },
                                            k3,
                                        ),
                                    ),
                                }
                            } else {
                                Ok(
                                    (
                                        StmtModel::IfStmt {
                                            cond,
                                            if_block: ifb,
                                            else_stmt: None,
                                        },
                                        k2,
                                    ),
                                )
                            }
                        },
                    }
                }
            },
        }
    }
}

pub open spec fn sp_parse_while(t: Seq<TokenModel>, i: int) -> Result<(StmtModel, int), Seq<char>>
    decreases t.len() - i, 3int,
    when 0 <= i <= t.len()
{
    if !(i + 1 < t.len() && t[i + 1] is LParam) {
        Err("Unexpected token"@)
    } else {
        match sp_parse_expr(t, i + 2) {
            Err(m) => Err(m),
            Ok((cond, j)) => {
                let j2 = sp_clamp(i + 3, t.len() as int, j);
                if !(j2 < t.len() && t[j2] is RParam) {
                    Err("Unexpected token"@)
                } else {
                    match sp_parse_block(t, j2 + 1) {
                        Err(m) => Err(m),
                        Ok((body, k)) => Ok((StmtModel::WhileStmt { cond, block: body }, k)),
                    }
                }
            },
        }
    }
}

pub open spec fn sp_parse_stmt(t: Seq<TokenModel>, i: int) -> Result<(StmtModel, int), Seq<char>>
    decreases t.len() - i, 4int,
    when 0 <= i <= t.len()
{
    if i >= t.len() {
        Err("Invalid statement"@)
    } else {
        match t[i] {
            TokenModel::Keywords(Keyword::Return) => sp_parse_return(t, i),
            TokenModel::Keywords(Keyword::If) => sp_parse_if(t, i),
            TokenModel::Keywords(Keyword::While) => sp_parse_while(t, i),
            TokenModel::Keywords(Keyword::Int) => sp_parse_declare(t, i),
            TokenModel::Ident(_) => sp_parse_assign(t, i),
            _ => Err("Invalid statement"@),
        }
    }
}

pub open spec fn sp_parse_stmts(t: Seq<TokenModel>, i: int) -> Result<(Seq<StmtModel>, int), Seq<
    char,
>>
    decreases t.len() - i, 6int,
    when 0 <= i <= t.len()
{
    if i >= t.len() {
        Err("Invalid statement"@)
    } else if t[i] is RBrace {
        Ok((Seq::empty(), i + 1))
    } else {
        match sp_parse_stmt(t, i) {
            Err(m) => Err(m),
            Ok((s, j)) => match sp_parse_stmts(t, sp_clamp(i + 1, t.len() as int, j)) {
                Err(m) => Err(m),
                Ok((rest, k)) => Ok((seq![s] + rest, k)),
            },
        }
    }
}

pub open spec fn sp_parse_block(t: Seq<TokenModel>, i: int) -> Result<(BlockModel, int), Seq<
    char,
>>
    decreases t.len() - i, 7int,
    when 0 <= i <= t.len()
{
    if i < t.len() && t[i] is LBrace {
        match sp_parse_stmts(t, i + 1) {
            Err(m) => Err(m),
            Ok((stmts, k)) => Ok((BlockModel { stmts }, k)),
        }
    } else {
        Err("Unexpected token"@)
    }
}

/// The parse of a whole function: `int <name> ( ) { <statements> }`.
pub open spec fn sp_parse_function(t: Seq<TokenModel>, i: int) -> Result<FunctionModel, Seq<char>>
{
    if !(i < t.len() && t[i] == TokenModel::Keywords(Keyword::Int)) {
        Err("Expected return type (int)"@)
    } else if !(i + 1 < t.len() && t[i + 1] is Ident) {
        Err("Expected function name"@)
    } else {
        let name = t[i + 1]->Ident_0;
        if !(i + 2 < t.len() && t[i + 2] is LParam) {
            Err("Unexpected token"@)
        } else if !(i + 3 < t.len() && t[i + 3] is RParam) {
            Err("Unexpected token"@)
        } else {
            match sp_parse_block(t, i + 4) {
                Err(m) => Err(m),
                Ok((block, _)) => Ok(
                    FunctionModel { return_type: FunctionType::Int, name, block },
                ),
            }
        }
    }
}

// ---------------------------------------------------------------------------
// The executable parser
// ---------------------------------------------------------------------------

/// The parser's state: the token sequence and a single read cursor.
pub struct Parser<'a> {
    tokens: &'a [Token],
    pos: usize,
}

fn token_eq(a: &Token, b: &Token) -> (r: bool)
    ensures
        r == (a@ == b@),
{
    match (a, b) {
        (Token::Keywords(k1), Token::Keywords(k2)) => k1 == k2,
        (Token::Ident(s1), Token::Ident(s2)) => str_eq(s1.as_str(), s2.as_str()),
        (Token::Int(s1), Token::Int(s2)) => str_eq(s1.as_str(), s2.as_str()),
        (Token::Plus, Token::Plus) => true,
        (Token::Minus, Token::Minus) => true,
        (Token::Times, Token::Times) => true,
        (Token::LParam, Token::LParam) => true,
        (Token::RParam, Token::RParam) => true,
        (Token::LBrace, Token::LBrace) => true,
        (Token::RBrace, Token::RBrace) => true,
        (Token::Equal, Token::Equal) => true,
        (Token::Gt, Token::Gt) => true,
        (Token::Lt, Token::Lt) => true,
        (Token::Ge, Token::Ge) => true,
        (Token::Le, Token::Le) => true,
        (Token::Ne, Token::Ne) => true,
        (Token::Semicolon, Token::Semicolon) => true,
        (Token::Comma, Token::Comma) => true,
        (Token::Assign, Token::Assign) => true,
        (Token::Invalid(c1), Token::Invalid(c2)) => c1 == c2,
        (Token::EOF, Token::EOF) => true,
        _ => false,
    }
}

impl<'a> Parser<'a> {
    /// The token models of the input.
    pub closed spec fn toks(&self) -> Seq<TokenModel> {
        sp_views(self.tokens@)
    }

    /// The current position of the read cursor.
    pub closed spec fn cursor(&self) -> int {
        self.pos as int
    }

    /// A fresh parser over the token sequence, with the cursor at the
    /// start.
    pub fn new(tokens: &'a [Token]) -> (p: Parser<'a>)
        ensures
            p.toks() == sp_views(tokens@),
            p.cursor() == 0,
    {
        Parser { tokens, pos: 0 }
    }

    fn curr_token(&self) -> (r: Option<&Token>)
        ensures
            match r {
                Some(tok) => self.cursor() < self.toks().len() && tok@ == self.toks()[
                    self.cursor()
                ],
                None => self.cursor() >= self.toks().len(),
            },
    {
        if self.pos < self.tokens.len() {
            let tok = &self.tokens[self.pos];
            proof {
                assert(self.toks()[self.pos as int] == self.tokens@[self.pos as int]@);
            }
            Some(tok)
        } else {
            None
        }
    }

    fn advance(&mut self)
        requires
            old(self).cursor() < old(self).toks().len(),
        ensures
            final(self).toks() == old(self).toks(),
            final(self).cursor() == old(self).cursor() + 1,
    {
        proof {
            assert(self.toks().len() == self.tokens@.len());
            assert(self.tokens.len() == self.tokens@.len());
        }
        self.pos = self.pos + 1;
    }

    fn consume_token(&mut self, expected: Token) -> (r: Result<(), &'static str>)
        requires
            old(self).cursor() <= old(self).toks().len(),
        ensures
            final(self).toks() == old(self).toks(),
            ({
                let t = old(self).toks();
                let i = old(self).cursor();
                if i < t.len() && t[i] == expected@ {
                    r is Ok && final(self).cursor() == i + 1
                } else {
                    r matches Err(m) && m@ == "Unexpected token"@ && final(self).cursor() == i
                }
            }),
    {
        match self.curr_token() {
            Some(token) => {
                if token_eq(token, &expected) {
                    self.advance();
                    Ok(())
                } else {
                    Err("Unexpected token")
                }
            },
            _ => Err("Unexpected token"),
        }
    }

    /// Parse the whole input as one function definition. The result — a
    /// tree or a message — is a function of the token sequence alone, so
    /// parsing the same tokens always yields the same outcome.
    pub fn parse(&mut self) -> (r: Result<Function, &'static str>)
        requires
            old(self).cursor() <= old(self).toks().len(),
        ensures
            final(self).toks() == old(self).toks(),
            match (r, sp_parse_function(old(self).toks(), old(self).cursor())) {
                (Ok(f), Ok(fm)) => f@ == fm && sp_function_wf(f@),
                (Err(m), Err(ms)) => m@ == ms,
                _ => false,
            },
    {
        self.parse_function()
    }

    fn parse_function(&mut self) -> (r: Result<Function, &'static str>)
        requires
            old(self).cursor() <= old(self).toks().len(),
        ensures
            final(self).toks() == old(self).toks(),
            match (r, sp_parse_function(old(self).toks(), old(self).cursor())) {
                (Ok(f), Ok(fm)) => f@ == fm && sp_function_wf(f@),
                (Err(m), Err(ms)) => m@ == ms,
                _ => false,
            },
    {
        let toks = self.tokens;
        let return_type = match self.curr_token() {
            Some(Token::Keywords(Keyword::Int)) => {
                self.advance();
                FunctionType::Int
            },
            _ => {
                return Err("Expected return type (int)");
            },
        };
        let function_name = match self.curr_token() {
            Some(Token::Ident(s)) => {
                let name = s.clone();
                self.advance();
                name
            },
            _ => {
                return Err("Expected function name");
            },
        };
        match self.consume_token(Token::LParam) {
            Ok(_) => (),
            Err(m) => {
                return Err(m);
            },
        }
        match self.consume_token(Token::RParam) {
            Ok(_) => (),
            Err(m) => {
                return Err(m);
            },
        }
        let block = match self.parse_block() {
            Ok(b) => b,
            Err(m) => {
                return Err(m);
            },
        };
        Ok(Function::new(return_type, function_name, block))
    }

    #[verifier::rlimit(60)]
    fn parse_block(&mut self) -> (r: Result<Block, &'static str>)
        requires
            old(self).cursor() <= old(self).toks().len(),
        ensures
            final(self).toks() == old(self).toks(),
            old(self).cursor() <= final(self).cursor() <= final(self).toks().len(),
            match (r, sp_parse_block(old(self).toks(), old(self).cursor())) {
                (Ok(b), Ok(p)) => b@ == p.0 && final(self).cursor() == p.1 && old(self).cursor()
                    < p.1 && crate::ast::sp_block_wf(b@),
                (Err(m), Err(ms)) => m@ == ms,
                _ => false,
            },
        decreases self.toks().len() - self.cursor(), 7int,
    {
        match self.consume_token(Token::LBrace) {
            Ok(_) => (),
            Err(m) => {
                return Err(m);
            },
        }
        let ghost t = self.toks();
        let ghost c1 = self.cursor();
        let mut stmts: Vec<Stmt> = Vec::new();
        loop
            invariant_except_break
                self.toks() == t,
                t == old(self).toks(),
                c1 <= self.cursor() <= t.len(),
                old(self).cursor() + 1 == c1,
                old(self).cursor() < t.len(),
                t[old(self).cursor()] is LBrace,
                forall|j: int|
                    0 <= j < stmts@.len() ==> sp_stmt_wf(
                        #[trigger] crate::ast::sp_stmt_model(stmts@[j]),
                    ),
                ({
                    match sp_parse_stmts(t, self.cursor()) {
                        Err(m) => sp_parse_stmts(t, c1) == Err::<(Seq<StmtModel>, int), Seq<char>>(
                            m,
                        ),
                        Ok(p) => sp_parse_stmts(t, c1) == Ok::<(Seq<StmtModel>, int), Seq<char>>(
                            (crate::ast::sp_stmts_model(stmts@, 0) + p.0, p.1),
                        ),
                    }
                }),
            ensures
                self.toks() == t,
                c1 <= self.cursor() < t.len(),
                t == old(self).toks(),
                old(self).cursor() < t.len(),
                t[old(self).cursor()] is LBrace,
                c1 == old(self).cursor() + 1,
                t[self.cursor()] is RBrace,
                sp_parse_stmts(t, c1) == Ok::<(Seq<StmtModel>, int), Seq<char>>(
                    (crate::ast::sp_stmts_model(stmts@, 0), self.cursor() + 1),
                ),
                forall|j: int|
                    0 <= j < stmts@.len() ==> sp_stmt_wf(
                        #[trigger] crate::ast::sp_stmt_model(stmts@[j]),
                    ),
            decreases t.len() - self.cursor(),
        {
            let at_end = match self.curr_token() {
                Some(tok) => token_eq(tok, &Token::RBrace),
                None => false,
            };
            if at_end {
                proof {
                    crate::ast::lemma_stmts_model_index(stmts@, 0);
                    assert(sp_parse_stmts(t, self.cursor()) == Ok::<
                        (Seq<StmtModel>, int),
                        Seq<char>,
                    >((Seq::empty(), self.cursor() + 1)));
                    assert(crate::ast::sp_stmts_model(stmts@, 0) + Seq::<StmtModel>::empty()
                        =~= crate::ast::sp_stmts_model(stmts@, 0));
                }
                break;
            }
            let ghost cur = self.cursor();
            let stmt = match self.parse_stmt() {
                Ok(s) => s,
                Err(m) => {
                    return Err(m);
                },
            };
            proof {
                crate::ast::lemma_stmts_model_push(stmts@, stmt);
                let p = sp_parse_stmt(t, cur)->Ok_0;
                assert(sp_clamp(cur + 1, t.len() as int, p.1) == p.1);
                assert(crate::ast::sp_stmts_model(stmts@, 0).push(crate::ast::sp_stmt_model(stmt))
                    + sp_parse_stmts(t, self.cursor())->Ok_0.0 =~= crate::ast::sp_stmts_model(
                    stmts@,
                    0,
                ) + (seq![crate::ast::sp_stmt_model(stmt)] + sp_parse_stmts(
                    t,
                    self.cursor(),
                )->Ok_0.0));
            }
            stmts.push(stmt);
        }
        match self.consume_token(Token::RBrace) {
            Ok(_) => (),
            Err(m) => {
                return Err(m);
            },
        }
        let b = Block::new(stmts);
        proof {
            crate::ast::lemma_stmts_model_index(b.stmts@, 0);
            assert(b@.stmts =~= crate::ast::sp_stmts_model(b.stmts@, 0));
            assert forall|i2: int|
                0 <= i2 < b@.stmts.len() implies sp_stmt_wf(#[trigger] b@.stmts[i2]) by {
                assert(b@.stmts[i2] == crate::ast::sp_stmt_model(b.stmts@[i2]));
            }
        }
        Ok(b)
    }

    fn parse_stmt(&mut self) -> (r: Result<Stmt, &'static str>)
        requires
            old(self).cursor() <= old(self).toks().len(),
        ensures
            final(self).toks() == old(self).toks(),
            old(self).cursor() <= final(self).cursor() <= final(self).toks().len(),
            match (r, sp_parse_stmt(old(self).toks(), old(self).cursor())) {
                (Ok(s), Ok(p)) => s@ == p.0 && final(self).cursor() == p.1 && old(self).cursor()
                    < p.1 && sp_stmt_wf(s@),
                (Err(m), Err(ms)) => m@ == ms,
                _ => false,
            },
        decreases self.toks().len() - self.cursor(), 4int,
    {
        match self.curr_token() {
            Some(Token::Keywords(Keyword::Return)) => self.parse_return_stmt(),
            Some(Token::Keywords(Keyword::If)) => self.parse_if_stmt(),
            Some(Token::Keywords(Keyword::While)) => self.parse_while_stmt(),
            Some(Token::Keywords(Keyword::Int)) => self.parse_declare_stmt(),
            Some(Token::Ident(_)) => self.parse_assignment_stmt(),
            _ => Err("Invalid statement"),
        }
    }

    fn parse_return_stmt(&mut self) -> (r: Result<Stmt, &'static str>)
        requires
            old(self).cursor() < old(self).toks().len(),
            old(self).toks()[old(self).cursor()] == TokenModel::Keywords(Keyword::Return),
        ensures
            final(self).toks() == old(self).toks(),
            old(self).cursor() <= final(self).cursor() <= final(self).toks().len(),
            match (r, sp_parse_return(old(self).toks(), old(self).cursor())) {
                (Ok(s), Ok(p)) => s@ == p.0 && final(self).cursor() == p.1 && old(self).cursor()
                    < p.1 && sp_stmt_wf(s@),
                (Err(m), Err(ms)) => m@ == ms,
                _ => false,
            },
        decreases self.toks().len() - self.cursor(), 3int,
    {
        self.advance();
        let expr = match self.parse_expr() {
            Ok(e) => e,
            Err(m) => {
                return Err(m);
            },
        };
        match self.consume_token(Token::Semicolon) {
            Ok(_) => (),
            Err(m) => {
                return Err(m);
            },
        }
        Ok(Stmt::ReturnStmt(expr))
    }

    fn parse_declare_stmt(&mut self) -> (r: Result<Stmt, &'static str>)
        requires
            old(self).cursor() < old(self).toks().len(),
            old(self).toks()[old(self).cursor()] == TokenModel::Keywords(Keyword::Int),
        ensures
            final(self).toks() == old(self).toks(),
            old(self).cursor() <= final(self).cursor() <= final(self).toks().len(),
            match (r, sp_parse_declare(old(self).toks(), old(self).cursor())) {
                (Ok(s), Ok(p)) => s@ == p.0 && final(self).cursor() == p.1 && old(self).cursor()
                    < p.1 && sp_stmt_wf(s@),
                (Err(m), Err(ms)) => m@ == ms,
                _ => false,
            },
        decreases self.toks().len() - self.cursor(), 3int,
    {
        self.advance();
        let ident = match self.curr_token() {
            Some(Token::Ident(s)) => s.clone(),
            _ => {
                return Err("Expected identifier after int");
            },
        };
        self.advance();
        let has_init = match self.curr_token() {
            Some(Token::Assign) => true,
            _ => false,
        };
        let rval = if has_init {
            self.advance();
            let expr = match self.parse_expr() {
                Ok(e) => e,
                Err(m) => {
                    return Err(m);
                },
            };
            Some(expr)
        } else {
            None
        };
        match self.consume_token(Token::Semicolon) {
            Ok(_) => (),
            Err(m) => {
                return Err(m);
            },
        }
        Ok(Stmt::DeclareStmt { ident_type: IdentType::Int, ident, rval })
    }

    fn parse_assignment_stmt(&mut self) -> (r: Result<Stmt, &'static str>)
        requires
            old(self).cursor() < old(self).toks().len(),
            old(self).toks()[old(self).cursor()] is Ident,
        ensures
            final(self).toks() == old(self).toks(),
            old(self).cursor() <= final(self).cursor() <= final(self).toks().len(),
            match (r, sp_parse_assign(old(self).toks(), old(self).cursor())) {
                (Ok(s), Ok(p)) => s@ == p.0 && final(self).cursor() == p.1 && old(self).cursor()
                    < p.1 && sp_stmt_wf(s@),
                (Err(m), Err(ms)) => m@ == ms,
                _ => false,
            },
        decreases self.toks().len() - self.cursor(), 3int,
    {
        let lval = match self.curr_token() {
            Some(Token::Ident(s)) => s.clone(),
            _ => {
                return Err("Expected identifier in assignment");
            },
        };
        self.advance();
        match self.consume_token(Token::Assign) {
            Ok(_) => (),
            Err(m) => {
                return Err(m);
            },
        }
        let rval = match self.parse_expr() {
            Ok(e) => e,
            Err(m) => {
                return Err(m);
            },
        };
        match self.consume_token(Token::Semicolon) {
            Ok(_) => (),
            Err(m) => {
                return Err(m);
            },
        }
        Ok(Stmt::AssignmentStmt { lval, rval })
    }

    fn parse_if_stmt(&mut self) -> (r: Result<Stmt, &'static str>)
        requires
            old(self).cursor() < old(self).toks().len(),
            old(self).toks()[old(self).cursor()] == TokenModel::Keywords(Keyword::If),
        ensures
            final(self).toks() == old(self).toks(),
            old(self).cursor() <= final(self).cursor() <= final(self).toks().len(),
            match (r, sp_parse_if(old(self).toks(), old(self).cursor())) {
                (Ok(s), Ok(p)) => s@ == p.0 && final(self).cursor() == p.1 && old(self).cursor()
                    < p.1 && sp_stmt_wf(s@),
                (Err(m), Err(ms)) => m@ == ms,
                _ => false,
            },
        decreases self.toks().len() - self.cursor(), 3int,
    {
        self.advance();
        match self.consume_token(Token::LParam) {
            Ok(_) => (),
            Err(m) => {
                return Err(m);
            },
        }
        let cond = match self.parse_expr() {
            Ok(e) => e,
            Err(m) => {
                return Err(m);
            },
        };
        match self.consume_token(Token::RParam) {
            Ok(_) => (),
            Err(m) => {
                return Err(m);
            },
        }
        let if_block = match self.parse_block() {
            Ok(b) => b,
            Err(m) => {
                return Err(m);
            },
        };
        let has_else = match self.curr_token() {
            Some(Token::Keywords(Keyword::Else)) => true,
            _ => false,
        };
        let else_stmt = if has_else {
            self.advance();
            match self.parse_block() {
                Ok(b) => Some(b),
                Err(m) => {
                    return Err(m);
                },
            }
        } else {
            None
        };
        Ok(Stmt::IfStmt { cond, if_block, else_stmt })
    }

    fn parse_while_stmt(&mut self) -> (r: Result<Stmt, &'static str>)
        requires
            old(self).cursor() < old(self).toks().len(),
            old(self).toks()[old(self).cursor()] == TokenModel::Keywords(Keyword::While),
        ensures
            final(self).toks() == old(self).toks(),
            old(self).cursor() <= final(self).cursor() <= final(self).toks().len(),
            match (r, sp_parse_while(old(self).toks(), old(self).cursor())) {
                (Ok(s), Ok(p)) => s@ == p.0 && final(self).cursor() == p.1 && old(self).cursor()
                    < p.1 && sp_stmt_wf(s@),
                (Err(m), Err(ms)) => m@ == ms,
                _ => false,
            },
        decreases self.toks().len() - self.cursor(), 3int,
    {
        self.advance();
        match self.consume_token(Token::LParam) {
            Ok(_) => (),
            Err(m) => {
                return Err(m);
            },
        }
        let cond = match self.parse_expr() {
            Ok(e) => e,
            Err(m) => {
                return Err(m);
            },
        };
        match self.consume_token(Token::RParam) {
            Ok(_) => (),
            Err(m) => {
                return Err(m);
            },
        }
        let block = match self.parse_block() {
            Ok(b) => b,
            Err(m) => {
                return Err(m);
            },
        };
        Ok(Stmt::WhileStmt { cond, block })
    }

    fn parse_expr(&mut self) -> (r: Result<Expr, &'static str>)
        requires
            old(self).cursor() <= old(self).toks().len(),
        ensures
            final(self).toks() == old(self).toks(),
            old(self).cursor() <= final(self).cursor() <= final(self).toks().len(),
            match (r, sp_parse_expr(old(self).toks(), old(self).cursor())) {
                (Ok(e), Ok(p)) => e@ == p.0 && final(self).cursor() == p.1 && old(self).cursor()
                    < p.1 && sp_expr_wf(e@),
                (Err(m), Err(ms)) => m@ == ms,
                _ => false,
            },
        decreases self.toks().len() - self.cursor(), 7int,
    {
        self.parse_relation_expr()
    }

    fn parse_relation_expr(&mut self) -> (r: Result<Expr, &'static str>)
        requires
            old(self).cursor() <= old(self).toks().len(),
        ensures
            final(self).toks() == old(self).toks(),
            old(self).cursor() <= final(self).cursor() <= final(self).toks().len(),
            match (r, sp_parse_relation(old(self).toks(), old(self).cursor())) {
                (Ok(e), Ok(p)) => e@ == p.0 && final(self).cursor() == p.1 && old(self).cursor()
                    < p.1 && sp_expr_wf(e@),
                (Err(m), Err(ms)) => m@ == ms,
                _ => false,
            },
        decreases self.toks().len() - self.cursor(), 6int,
    {
        let ghost t = old(self).toks();
        let ghost c0 = old(self).cursor();
        let mut expr = match self.parse_additive_expr() {
            Ok(e) => e,
            Err(m) => {
                return Err(m);
            },
        };
        loop
            invariant_except_break
                self.toks() == t,
                t == old(self).toks(),
                c0 == old(self).cursor(),
                c0 < self.cursor() <= t.len(),
                sp_expr_wf(expr@),
                sp_parse_relation(t, c0) == sp_parse_rel_rest(t, self.cursor(), expr@),
            ensures
                self.toks() == t,
                c0 < self.cursor() <= t.len(),
                sp_expr_wf(expr@),
                sp_parse_relation(t, c0) == Ok::<(ExprModel, int), Seq<char>>(
                    (expr@, self.cursor()),
                ),
            decreases t.len() - self.cursor(),
        {
            let is_op = match self.curr_token() {
                Some(Token::Gt) => true,
                _ => false,
            };
            if !is_op {
                break;
            }
            self.advance();
            let rhs = match self.parse_additive_expr() {
                Ok(e) => e,
                Err(m) => {
                    return Err(m);
                },
            };
            expr = Expr::BinaryExpr {
                op: String::from_str(">"),
                lhs: Box::new(expr),
                rhs: Box::new(rhs),
            };
            proof {
                reveal_strlit(">");
                assert(">"@ =~= seq!['>']);
            }
        }
        Ok(expr)
    }

    fn parse_additive_expr(&mut self) -> (r: Result<Expr, &'static str>)
        requires
            old(self).cursor() <= old(self).toks().len(),
        ensures
            final(self).toks() == old(self).toks(),
            old(self).cursor() <= final(self).cursor() <= final(self).toks().len(),
            match (r, sp_parse_additive(old(self).toks(), old(self).cursor())) {
                (Ok(e), Ok(p)) => e@ == p.0 && final(self).cursor() == p.1 && old(self).cursor()
                    < p.1 && sp_expr_wf(e@),
                (Err(m), Err(ms)) => m@ == ms,
                _ => false,
            },
        decreases self.toks().len() - self.cursor(), 4int,
    {
        let ghost t = old(self).toks();
        let ghost c0 = old(self).cursor();
        let mut expr = match self.parse_multiplicative_expr() {
            Ok(e) => e,
            Err(m) => {
                return Err(m);
            },
        };
        loop
            invariant_except_break
                self.toks() == t,
                t == old(self).toks(),
                c0 == old(self).cursor(),
                c0 < self.cursor() <= t.len(),
                sp_expr_wf(expr@),
                sp_parse_additive(t, c0) == sp_parse_add_rest(t, self.cursor(), expr@),
            ensures
                self.toks() == t,
                c0 < self.cursor() <= t.len(),
                sp_expr_wf(expr@),
                sp_parse_additive(t, c0) == Ok::<(ExprModel, int), Seq<char>>(
                    (expr@, self.cursor()),
                ),
            decreases t.len() - self.cursor(),
        {
            let op_kind: u8 = match self.curr_token() {
                Some(Token::Plus) => 1,
                Some(Token::Minus) => 2,
                _ => 0,
            };
            if op_kind == 0 {
                break;
            }
            self.advance();
            let rhs = match self.parse_multiplicative_expr() {
                Ok(e) => e,
                Err(m) => {
                    return Err(m);
                },
            };
            let op = if op_kind == 1 {
                String::from_str("+")
            } else {
                String::from_str("-")
            };
            expr = Expr::BinaryExpr { op, lhs: Box::new(expr), rhs: Box::new(rhs) };
            proof {
                reveal_strlit("+");
                reveal_strlit("-");
                assert("+"@ =~= seq!['+']);
                assert("-"@ =~= seq!['-']);
            }
        }
        Ok(expr)
    }

    fn parse_multiplicative_expr(&mut self) -> (r: Result<Expr, &'static str>)
        requires
            old(self).cursor() <= old(self).toks().len(),
        ensures
            final(self).toks() == old(self).toks(),
            old(self).cursor() <= final(self).cursor() <= final(self).toks().len(),
            match (r, sp_parse_multiplicative(old(self).toks(), old(self).cursor())) {
                (Ok(e), Ok(p)) => e@ == p.0 && final(self).cursor() == p.1 && old(self).cursor()
                    < p.1 && sp_expr_wf(e@),
                (Err(m), Err(ms)) => m@ == ms,
                _ => false,
            },
        decreases self.toks().len() - self.cursor(), 2int,
    {
        let ghost t = old(self).toks();
        let ghost c0 = old(self).cursor();
        let mut expr = match self.parse_primary_expr() {
            Ok(e) => e,
            Err(m) => {
                return Err(m);
            },
        };
        loop
            invariant_except_break
                self.toks() == t,
                t == old(self).toks(),
                c0 == old(self).cursor(),
                c0 < self.cursor() <= t.len(),
                sp_expr_wf(expr@),
                sp_parse_multiplicative(t, c0) == sp_parse_mult_rest(t, self.cursor(), expr@),
            ensures
                self.toks() == t,
                c0 < self.cursor() <= t.len(),
                sp_expr_wf(expr@),
                sp_parse_multiplicative(t, c0) == Ok::<(ExprModel, int), Seq<char>>(
                    (expr@, self.cursor()),
                ),
            decreases t.len() - self.cursor(),
        {
            let is_op = match self.curr_token() {
                Some(Token::Times) => true,
                _ => false,
            };
            if !is_op {
                break;
            }
            self.advance();
            let rhs = match self.parse_primary_expr() {
                Ok(e) => e,
                Err(m) => {
                    return Err(m);
                },
            };
            expr = Expr::BinaryExpr {
                op: String::from_str("*"),
                lhs: Box::new(expr),
                rhs: Box::new(rhs),
            };
            proof {
                reveal_strlit("*");
                assert("*"@ =~= seq!['*']);
            }
        }
        Ok(expr)
    }

    fn parse_primary_expr(&mut self) -> (r: Result<Expr, &'static str>)
        requires
            old(self).cursor() <= old(self).toks().len(),
        ensures
            final(self).toks() == old(self).toks(),
            old(self).cursor() <= final(self).cursor() <= final(self).toks().len(),
            match (r, sp_parse_primary(old(self).toks(), old(self).cursor())) {
                (Ok(e), Ok(p)) => e@ == p.0 && final(self).cursor() == p.1 && old(self).cursor()
                    < p.1 && sp_expr_wf(e@),
                (Err(m), Err(ms)) => m@ == ms,
                _ => false,
            },
        decreases self.toks().len() - self.cursor(), 0int,
    {
        let kind: u8 = match self.curr_token() {
            Some(Token::Int(_)) => 1,
            Some(Token::Ident(_)) => 2,
            Some(Token::LParam) => 3,
            _ => 0,
        };
        if kind == 1 {
            let num = match self.curr_token() {
                Some(Token::Int(s)) => match parse_i32(s.as_str()) {
                    Some(v) => v,
                    None => {
                        return Err("Invalid integer");
                    },
                },
                _ => {
                    return Err("Invalid integer");
                },
            };
            self.advance();
            Ok(Expr::Number(num))
        } else if kind == 2 {
            let var_name = match self.curr_token() {
                Some(Token::Ident(s)) => s.clone(),
                _ => {
                    return Err("Expected expression");
                },
            };
            self.advance();
            Ok(Expr::Var(var_name))
        } else if kind == 3 {
            self.advance();
            let expr = match self.parse_expr() {
                Ok(e) => e,
                Err(m) => {
                    return Err(m);
                },
            };
            match self.consume_token(Token::RParam) {
                Ok(_) => (),
                Err(m) => {
                    return Err(m);
                },
            }
            Ok(expr)
        } else {
            Err("Expected expression")
        }
    }
}

} // verus!
