//! The code generator: a tree walk over the abstract syntax tree that
//! resolves identifiers through the scoped symbol table, allocates
//! temporaries, and emits an ordered list of quadruples, backpatching
//! jump targets as control-flow constructs close. Semantic violations are
//! collected across the whole pass and returned together.

use vstd::prelude::*;
use crate::ast::{
    sp_block_wf, sp_expr_wf, sp_function_wf, sp_stmt_wf, Block, BlockModel, Expr, ExprModel,
    Function, FunctionModel, IdentType, Stmt, StmtModel,
};
use crate::errors::{CompilationError, CompilationErrorModel};
use crate::symbol_table::{
    sp_add_symbol, sp_enter_scope, sp_exit_scope, sp_lookup, sp_table_wf, DataType, SymbolTable,
    SymbolType, TableModel,
};
use crate::text::{i32_to_string, sp_int_dec, sp_nat_dec, usize_to_string};

verus! {

/// One three-address instruction: an operator, two source operands and a
/// result field. Jump instructions hold their 1-indexed target address in
/// the result field; `0` is the not-yet-backpatched placeholder and never
/// a legal address.
#[derive(Debug, Clone)]
pub struct Quadruple {
    pub op: String,
    pub arg1: String,
    pub arg2: String,
    pub result: String,
}

/// The mathematical value of a quadruple.
pub struct QuadrupleModel {
    pub op: Seq<char>,
    pub arg1: Seq<char>,
    pub arg2: Seq<char>,
    pub result: Seq<char>,
}

impl View for Quadruple {
    type V = QuadrupleModel;

    open spec fn view(&self) -> QuadrupleModel {
        QuadrupleModel {
            op: self.op@,
            arg1: self.arg1@,
            arg2: self.arg2@,
            result: self.result@,
        }
    }
}

impl Quadruple {
    /// A quadruple from its four textual fields.
    pub fn new(op: &str, arg1: &str, arg2: &str, result: &str) -> (q: Quadruple)
        ensures
            q@ == (QuadrupleModel { op: op@, arg1: arg1@, arg2: arg2@, result: result@ }),
    {
        Quadruple {
            op: op.to_owned(),
            arg1: arg1.to_owned(),
            arg2: arg2.to_owned(),
            result: result.to_owned(),
        }
    }
}

/// The generator's running state: the symbol table, the quadruples
/// emitted so far, the temporary counter and the collected errors.
#[derive(Debug)]
pub struct CodeGenerator {
    pub symbol_table: SymbolTable,
    pub quadruples: Vec<Quadruple>,
    pub temp_counter: usize,
    pub errors: Vec<CompilationError>,
}

/// The mathematical value of the generator's state.
pub struct GenModel {
    pub table: TableModel,
    pub quads: Seq<QuadrupleModel>,
    pub temp_counter: int,
    pub errors: Seq<CompilationErrorModel>,
}

impl View for CodeGenerator {
    type V = GenModel;

    open spec fn view(&self) -> GenModel {
        GenModel {
            table: self.symbol_table@,
            quads: self.quadruples@.map_values(|q: Quadruple| q@),
            temp_counter: self.temp_counter as int,
            errors: self.errors@.map_values(|e: CompilationError| e@),
        }
    }
}

// ---------------------------------------------------------------------------
// The generator as a mathematical function over the tree
// ---------------------------------------------------------------------------

/// The name of the `n`-th temporary.
pub open spec fn sp_temp_name(n: int) -> Seq<char> {
    "t"@ + sp_nat_dec(n as nat)
}

/// Appending one quadruple to the state.
pub open spec fn sp_emit(
    g: GenModel,
    op: Seq<char>,
    arg1: Seq<char>,
    arg2: Seq<char>,
    result: Seq<char>,
) -> GenModel {
    GenModel { quads: g.quads.push(QuadrupleModel { op, arg1, arg2, result }), ..g }
}

/// Code generation for an expression: the new state and the textual value
/// of the expression. A literal or a resolved variable yields its text
/// with no quadruple; an undeclared variable records an error and yields
/// the substitute literal `0`; a binary operation emits one quadruple
/// into a fresh temporary.
pub open spec fn sp_gen_expr(g: GenModel, e: ExprModel) -> (GenModel, Seq<char>)
    decreases e,
{
    match e {
        ExprModel::Number(n) => (g, sp_int_dec(n)),
        ExprModel::Var(name) => {
            if sp_lookup(g.table, name) is None {
                (
                    GenModel {
                        errors: g.errors.push(
                            CompilationErrorModel::UndeclaredVariable { name, location: None },
                        ),
                        ..g
                    },
                    "0"@,
                )
            } else {
                (g, name)
            }
        },
        ExprModel::BinaryExpr { op, lhs, rhs } => {
            let gl = sp_gen_expr(g, *lhs);
            let gr = sp_gen_expr(gl.0, *rhs);
            let g2 = GenModel { temp_counter: gr.0.temp_counter + 1, ..gr.0 };
            let temp = sp_temp_name(g2.temp_counter);
            (sp_emit(g2, op, gl.1, gr.1, temp), temp)
        },
    }
}

/// Condition extraction for `if`/`while`: a binary condition supplies its
/// operator and operand values directly; any other expression is
/// evaluated and compared against literal `0` under the `z` operator tag.
pub open spec fn sp_gen_cond(g: GenModel, e: ExprModel) -> (GenModel, (
    Seq<char>,
    Seq<char>,
    Seq<char>,
)) {
    match e {
        ExprModel::BinaryExpr { op, lhs, rhs } => {
            let gl = sp_gen_expr(g, *lhs);
            let gr = sp_gen_expr(gl.0, *rhs);
            (gr.0, (op, gl.1, gr.1))
        },
        _ => {
            let gv = sp_gen_expr(g, e);
            (gv.0, ("z"@, gv.1, "0"@))
        },
    }
}

/// The number of quadruples (and temporaries) an expression can emit:
/// one per binary operation.
pub open spec fn sp_expr_size(e: ExprModel) -> nat
    decreases e,
{
    match e {
        ExprModel::Number(_) => 0,
        ExprModel::Var(_) => 0,
        ExprModel::BinaryExpr { op: _, lhs, rhs } => 1 + sp_expr_size(*lhs) + sp_expr_size(*rhs),
    }
}

/// An upper bound on the quadruples (and temporaries) a statement can
/// emit.
pub open spec fn sp_stmt_size(s: StmtModel) -> nat
    decreases s, 0int,
{
    match s {
        StmtModel::ReturnStmt(e) => sp_expr_size(e) + 1,
        StmtModel::IfStmt { cond, if_block, else_stmt } => sp_expr_size(cond) + 3
            + sp_block_size(if_block) + match else_stmt {
            Some(b) => sp_block_size(b),
            None => 0,
        },
        StmtModel::WhileStmt { cond, block } => sp_expr_size(cond) + 2 + sp_block_size(block),
        StmtModel::AssignmentStmt { lval: _, rval } => sp_expr_size(rval) + 1,
        StmtModel::DeclareStmt { ident_type: _, ident: _, rval } => 1 + match rval {
            Some(e) => sp_expr_size(e),
            None => 0,
        },
    }
}

/// An upper bound on the quadruples a statement suffix can emit.
pub open spec fn sp_stmts_size(ss: Seq<StmtModel>, i: int) -> nat
    decreases ss, ss.len() - i,
{
    if i < 0 || i >= ss.len() {
        0
    } else {
        sp_stmt_size(ss[i]) + sp_stmts_size(ss, i + 1)
    }
}

/// An upper bound on the quadruples a block can emit.
pub open spec fn sp_block_size(b: BlockModel) -> nat
    decreases b, 1int,
{
    proof {
        assert(decreases_to!(b => b.stmts));
    }
    sp_stmts_size(b.stmts, 0)
}

/// Code generation for one statement.
pub open spec fn sp_gen_stmt(g: GenModel, s: StmtModel) -> GenModel
    decreases s, 0int,
{
    match s {
        StmtModel::ReturnStmt(e) => {
            let gv = sp_gen_expr(g, e);
            sp_emit(gv.0, "return"@, gv.1, ""@, ""@)
        },
        StmtModel::AssignmentStmt { lval, rval } => {
            if sp_lookup(g.table, lval) is None {
                GenModel {
                    errors: g.errors.push(
                        CompilationErrorModel::UndeclaredVariable { name: lval, location: None },
                    ),
                    ..g
                }
            } else {
                let gv = sp_gen_expr(g, rval);
                sp_emit(gv.0, "="@, gv.1, ""@, lval)
            }
        },
        StmtModel::DeclareStmt { ident_type: _, ident, rval } => {
            let after = match sp_add_symbol(g.table, ident, SymbolType::Variable, DataType::Int) {
                Err(e) => GenModel { errors: g.errors.push(e), ..g },
                Ok(t2) => GenModel { table: t2, ..g },
            };
            match rval {
                None => after,
                Some(e) => {
                    let gv = sp_gen_expr(after, e);
                    sp_emit(gv.0, "="@, gv.1, ""@, ident)
                },
            }
        },
        StmtModel::IfStmt { cond, if_block, else_stmt } => {
            let gc = sp_gen_cond(g, cond);
            let g1 = gc.0;
            let cond_jump_index = g1.quads.len() as int;
            let g2 = sp_emit(g1, "j"@ + gc.1.0, gc.1.1, gc.1.2, "0"@);
            let else_jump_index = g2.quads.len() as int;
            let g3 = sp_emit(g2, "j"@, ""@, ""@, "0"@);
            let then_start = g3.quads.len() + 1;
            let g4 = sp_gen_block(g3, if_block);
            let after_else_jump_index = g4.quads.len() as int;
            let g5 = if else_stmt is Some {
                sp_emit(g4, "j"@, ""@, ""@, "0"@)
            } else {
                g4
            };
            let else_start = g5.quads.len() + 1;
            let g6 = match else_stmt {
                Some(b) => sp_gen_block(g5, b),
                None => g5,
            };
            let after_if = g6.quads.len() + 1;
            let q1 = g6.quads.update(
                cond_jump_index,
                QuadrupleModel {
                    result: sp_nat_dec(then_start as nat),
                    ..g6.quads[cond_jump_index]
                },
            );
            let else_target = if else_stmt is Some {
                else_start
            } else {
                after_if
            };
            let q2 = q1.update(
                else_jump_index,
                QuadrupleModel { result: sp_nat_dec(else_target as nat), ..q1[else_jump_index] },
            );
            let q3 = if else_stmt is Some {
                q2.update(
                    after_else_jump_index,
                    QuadrupleModel {
                        result: sp_nat_dec(after_if as nat),
                        ..q2[after_else_jump_index]
                    },
                )
            } else {
                q2
            };
            GenModel { quads: q3, ..g6 }
        },
        StmtModel::WhileStmt { cond, block } => {
            let loop_start = g.quads.len() + 1;
            let gc = sp_gen_cond(g, cond);
            let g1 = gc.0;
            let cond_jump_index = g1.quads.len() as int;
            let g2 = sp_emit(g1, "j"@ + gc.1.0, gc.1.1, gc.1.2, "0"@);
            let g3 = sp_gen_block(g2, block);
            let back_jump_index = g3.quads.len() as int;
            let g4 = sp_emit(g3, "j"@, ""@, ""@, "0"@);
            let loop_end = g4.quads.len() + 1;
            let q1 = g4.quads.update(
                cond_jump_index,
                QuadrupleModel {
                    result: sp_nat_dec(loop_end as nat),
                    ..g4.quads[cond_jump_index]
                },
            );
            let q2 = q1.update(
                back_jump_index,
                QuadrupleModel { result: sp_nat_dec(loop_start as nat), ..q1[back_jump_index] },
            );
            GenModel { quads: q2, ..g4 }
        },
    }
}

/// Code generation for a statement suffix, in order.
pub open spec fn sp_gen_stmts(g: GenModel, ss: Seq<StmtModel>, i: int) -> GenModel
    decreases ss, ss.len() - i,
{
    if i < 0 || i >= ss.len() {
        g
    } else {
        sp_gen_stmts(sp_gen_stmt(g, ss[i]), ss, i + 1)
    }
}

/// Code generation for a block: a fresh nested scope around its
/// statements.
pub open spec fn sp_gen_block(g: GenModel, b: BlockModel) -> GenModel
    decreases b, 1int,
{
    proof {
        assert(decreases_to!(b => b.stmts));
    }
    let g1 = GenModel { table: sp_enter_scope(g.table), ..g };
    let g2 = sp_gen_stmts(g1, b.stmts, 0);
    GenModel { table: sp_exit_scope(g2.table), ..g2 }
}

/// The empty generator state.
pub open spec fn sp_gen_init() -> GenModel {
    GenModel {
        table: TableModel {
            symbols: Seq::empty(),
            scopes: Seq::empty(),
            current_scope: 0,
            declared: Seq::empty(),
        },
        quads: Seq::empty(),
        temp_counter: 0,
        errors: Seq::empty(),
    }
}

/// Code generation for a whole function: fresh state, an outer scope
/// around the body, and the collected results.
pub open spec fn sp_generate(f: FunctionModel) -> GenModel {
    let g0 = sp_gen_init();
    let g1 = GenModel { table: sp_enter_scope(g0.table), ..g0 };
    let g2 = sp_gen_block(g1, f.block);
    GenModel { table: sp_exit_scope(g2.table), ..g2 }
}

/// The error views of an error list.
pub open spec fn sp_error_views(es: Seq<CompilationError>) -> Seq<CompilationErrorModel> {
    es.map_values(|e: CompilationError| e@)
}

/// The model of an optional block.
pub open spec fn sp_opt_block_view(o: Option<Block>) -> Option<BlockModel> {
    match o {
        Some(b) => Some(b@),
        None => None,
    }
}

/// An upper bound on the quadruples an optional block can emit.
pub open spec fn sp_opt_block_size(o: Option<BlockModel>) -> nat {
    match o {
        Some(b) => sp_block_size(b),
        None => 0,
    }
}

// ---------------------------------------------------------------------------
// Structural measures used only for termination
// ---------------------------------------------------------------------------

pub open spec fn sp_stmt_measure(s: StmtModel) -> nat
    decreases s, 0int,
{
    match s {
        StmtModel::ReturnStmt(_) => 1,
        StmtModel::AssignmentStmt { .. } => 1,
        StmtModel::DeclareStmt { .. } => 1,
        StmtModel::IfStmt { cond: _, if_block, else_stmt } => 1 + sp_block_measure(if_block)
            + match else_stmt {
            Some(b) => sp_block_measure(b),
            None => 0,
        },
        StmtModel::WhileStmt { cond: _, block } => 1 + sp_block_measure(block),
    }
}

pub open spec fn sp_stmts_measure(ss: Seq<StmtModel>, i: int) -> nat
    decreases ss, ss.len() - i,
{
    if i < 0 || i >= ss.len() {
        0
    } else {
        sp_stmt_measure(ss[i]) + sp_stmts_measure(ss, i + 1)
    }
}

pub open spec fn sp_block_measure(b: BlockModel) -> nat
    decreases b, 1int,
{
    proof {
        assert(decreases_to!(b => b.stmts));
    }
    1 + sp_stmts_measure(b.stmts, 0)
}

proof fn lemma_stmts_measure_element(ss: Seq<StmtModel>, i: int, k: int)
    requires
        0 <= i <= k < ss.len(),
    ensures
        sp_stmt_measure(ss[k]) <= sp_stmts_measure(ss, i),
    decreases k - i,
{
    if i < k {
        lemma_stmts_measure_element(ss, i + 1, k);
    }
}

// ---------------------------------------------------------------------------
// The executable generator
// ---------------------------------------------------------------------------

impl CodeGenerator {
    /// A fresh generator with empty state.
    pub fn new() -> (g: CodeGenerator)
        ensures
            g@ == sp_gen_init(),
            sp_table_wf(g@.table),
    {
        let g = CodeGenerator {
            symbol_table: SymbolTable::new(),
            quadruples: Vec::new(),
            temp_counter: 0,
            errors: Vec::new(),
        };
        proof {
            assert(g@.quads =~= Seq::<QuadrupleModel>::empty());
            assert(g@.errors =~= Seq::<CompilationErrorModel>::empty());
            assert(g@.table.symbols =~= Seq::<crate::symbol_table::SymbolModel>::empty());
            assert(g@.table.scopes =~= Seq::<int>::empty());
            assert(g@.table.declared =~= Seq::<crate::symbol_table::SymbolModel>::empty());
            assert(g@ == sp_gen_init());
        }
        g
    }

    fn emit(&mut self, op: &str, arg1: &str, arg2: &str, result: &str)
        ensures
            final(self)@ == sp_emit(old(self)@, op@, arg1@, arg2@, result@),
    {
        self.quadruples.push(Quadruple::new(op, arg1, arg2, result));
        proof {
            assert(self@.quads =~= old(self)@.quads.push(
                QuadrupleModel { op: op@, arg1: arg1@, arg2: arg2@, result: result@ },
            ));
            assert(self@ == sp_emit(old(self)@, op@, arg1@, arg2@, result@));
        }
    }

    fn new_temp(&mut self) -> (t: String)
        requires
            old(self).temp_counter < usize::MAX,
        ensures
            final(self)@ == (GenModel {
                temp_counter: old(self)@.temp_counter + 1,
                ..old(self)@
            }),
            t@ == sp_temp_name(old(self)@.temp_counter + 1),
    {
        self.temp_counter = self.temp_counter + 1;
        let t = String::from_str("t").concat(usize_to_string(self.temp_counter).as_str());
        proof {
            assert(self@.quads =~= old(self)@.quads);
            assert(self@.errors =~= old(self)@.errors);
        }
        t
    }

    fn backpatch(&mut self, index: usize, target: usize)
        requires
            index < old(self)@.quads.len(),
        ensures
            final(self)@ == (GenModel {
                quads: old(self)@.quads.update(
                    index as int,
                    QuadrupleModel {
                        result: sp_nat_dec(target as nat),
                        ..old(self)@.quads[index as int]
                    },
                ),
                ..old(self)@
            }),
    {
        let t = usize_to_string(target);
        self.quadruples[index].result = t;
        proof {
            assert(self@.quads =~= old(self)@.quads.update(
                index as int,
                QuadrupleModel {
                    result: sp_nat_dec(target as nat),
                    ..old(self)@.quads[index as int]
                },
            ));
        }
    }

    fn process_expr(&mut self, expr: &Expr) -> (r: Result<String, Vec<CompilationError>>)
        requires
            old(self)@.quads.len() + sp_expr_size(expr@) <= usize::MAX,
            old(self)@.temp_counter + sp_expr_size(expr@) <= usize::MAX,
        ensures
            final(self)@.table == old(self)@.table,
            old(self)@.quads.len() <= final(self)@.quads.len() <= old(self)@.quads.len()
                + sp_expr_size(expr@),
            old(self)@.temp_counter <= final(self)@.temp_counter <= old(self)@.temp_counter
                + sp_expr_size(expr@),
            r matches Ok(v) && (final(self)@, v@) == sp_gen_expr(old(self)@, expr@),
        decreases expr,
    {
        match expr {
            Expr::Number(n) => Ok(i32_to_string(*n)),
            Expr::Var(name) => {
                if self.symbol_table.lookup(name.as_str()).is_none() {
                    self.errors.push(
                        CompilationError::UndeclaredVariable { name: name.clone(), location: None },
                    );
                    proof {
                        assert(self@.errors =~= old(self)@.errors.push(
                            CompilationErrorModel::UndeclaredVariable {
                                name: name@,
                                location: None,
                            },
                        ));
                        assert(self@ == sp_gen_expr(old(self)@, expr@).0);
                    }
                    Ok(String::from_str("0"))
                } else {
                    Ok(name.clone())
                }
            },
            Expr::BinaryExpr { op, lhs, rhs } => {
                let left = self.process_expr(lhs)?;
                let right = self.process_expr(rhs)?;
                let temp = self.new_temp();
                self.emit(op.as_str(), left.as_str(), right.as_str(), temp.as_str());
                Ok(temp)
            },
        }
    }

    fn extract_condition(&mut self, expr: &Expr) -> (r: Result<
        (String, String, String),
        Vec<CompilationError>,
    >)
        requires
            old(self)@.quads.len() + sp_expr_size(expr@) <= usize::MAX,
            old(self)@.temp_counter + sp_expr_size(expr@) <= usize::MAX,
        ensures
            final(self)@.table == old(self)@.table,
            old(self)@.quads.len() <= final(self)@.quads.len() <= old(self)@.quads.len()
                + sp_expr_size(expr@),
            old(self)@.temp_counter <= final(self)@.temp_counter <= old(self)@.temp_counter
                + sp_expr_size(expr@),
            r matches Ok(c) && (final(self)@, (c.0@, c.1@, c.2@)) == sp_gen_cond(
                old(self)@,
                expr@,
            ),
    {
        match expr {
            Expr::BinaryExpr { op, lhs, rhs } => {
                let left = self.process_expr(lhs)?;
                let right = self.process_expr(rhs)?;
                Ok((op.clone(), left, right))
            },
            _ => {
                let value = self.process_expr(expr)?;
                Ok((String::from_str("z"), value, String::from_str("0")))
            },
        }
    }

    fn process_return_stmt(&mut self, expr: &Expr) -> (r: Result<(), Vec<CompilationError>>)
        requires
            old(self)@.quads.len() + sp_expr_size(expr@) + 1 <= usize::MAX,
            old(self)@.temp_counter + sp_expr_size(expr@) <= usize::MAX,
        ensures
            final(self)@.table == old(self)@.table,
            old(self)@.quads.len() <= final(self)@.quads.len() <= old(self)@.quads.len()
                + sp_expr_size(expr@) + 1,
            old(self)@.temp_counter <= final(self)@.temp_counter <= old(self)@.temp_counter
                + sp_expr_size(expr@),
            r matches Ok(v) && final(self)@ == sp_gen_stmt(
                old(self)@,
                StmtModel::ReturnStmt(expr@),
            ),
    {
        let result = self.process_expr(expr)?;
        self.emit("return", result.as_str(), "", "");
        Ok(())
    }

    fn process_assignment_stmt(&mut self, lval: &str, rval: &Expr) -> (r: Result<
        (),
        Vec<CompilationError>,
    >)
        requires
            old(self)@.quads.len() + sp_expr_size(rval@) + 1 <= usize::MAX,
            old(self)@.temp_counter + sp_expr_size(rval@) <= usize::MAX,
        ensures
            final(self)@.table == old(self)@.table,
            old(self)@.quads.len() <= final(self)@.quads.len() <= old(self)@.quads.len()
                + sp_expr_size(rval@) + 1,
            old(self)@.temp_counter <= final(self)@.temp_counter <= old(self)@.temp_counter
                + sp_expr_size(rval@),
            r matches Ok(v) && final(self)@ == sp_gen_stmt(
                old(self)@,
                StmtModel::AssignmentStmt { lval: lval@, rval: rval@ },
            ),
    {
        if self.symbol_table.lookup(lval).is_none() {
            self.errors.push(
                CompilationError::UndeclaredVariable { name: lval.to_owned(), location: None },
            );
            proof {
                assert(self@.errors =~= old(self)@.errors.push(
                    CompilationErrorModel::UndeclaredVariable { name: lval@, location: None },
                ));
            }
            return Ok(());
        }
        let result = self.process_expr(rval)?;
        self.emit("=", result.as_str(), "", lval);
        Ok(())
    }

    /// Process a declaration. A duplicate at the exact current scope
    /// level records `DuplicateDeclaration` and adds no symbol, but the
    /// initializer, if present, is still evaluated and assigned, so that
    /// errors inside it are collected in the same pass.
    fn process_declare_stmt(
        &mut self,
        ident_type: &IdentType,
        ident: &str,
        rval: &Option<Expr>,
    ) -> (r: Result<(), Vec<CompilationError>>)
        requires
            sp_table_wf(old(self)@.table),
            old(self)@.quads.len() + 1 + match rval {
                Some(e) => sp_expr_size(e@),
                None => 0nat,
            } <= usize::MAX,
            old(self)@.temp_counter + match rval {
                Some(e) => sp_expr_size(e@),
                None => 0nat,
            } <= usize::MAX,
        ensures
            sp_table_wf(final(self)@.table),
            old(self)@.quads.len() <= final(self)@.quads.len() <= old(self)@.quads.len() + 1
                + match rval {
                Some(e) => sp_expr_size(e@),
                None => 0nat,
            },
            old(self)@.temp_counter <= final(self)@.temp_counter <= old(self)@.temp_counter
                + match rval {
                Some(e) => sp_expr_size(e@),
                None => 0nat,
            },
            r matches Ok(v) && final(self)@ == sp_gen_stmt(
                old(self)@,
                StmtModel::DeclareStmt {
                    ident_type: *ident_type,
                    ident: ident@,
                    rval: match rval {
                        Some(e) => Some(e@),
                        None => None,
                    },
                },
            ),
    {
        let data_type = match ident_type {
            IdentType::Int => DataType::Int,
        };
        if let Err(e) = self.symbol_table.add_symbol(
            ident.to_owned(),
            SymbolType::Variable,
            data_type,
        ) {
            self.errors.push(e);
            proof {
                assert(self@.errors =~= old(self)@.errors.push(
                    CompilationErrorModel::DuplicateDeclaration { name: ident@, location: None },
                ));
            }
        }
        if let Some(expr) = rval {
            let result = self.process_expr(expr)?;
            self.emit("=", result.as_str(), "", ident);
        }
        Ok(())
    }

    fn process_if_stmt(
        &mut self,
        cond: &Expr,
        if_block: &Block,
        else_stmt: &Option<Block>,
    ) -> (r: Result<(), Vec<CompilationError>>)
        requires
            sp_table_wf(old(self)@.table),
            old(self)@.quads.len() + sp_expr_size(cond@) + 3 + sp_block_size(if_block@)
                + sp_opt_block_size(sp_opt_block_view(*else_stmt)) + 1 <= usize::MAX,
            old(self)@.temp_counter + sp_expr_size(cond@) + sp_block_size(if_block@)
                + sp_opt_block_size(sp_opt_block_view(*else_stmt)) <= usize::MAX,
        ensures
            sp_table_wf(final(self)@.table),
            old(self)@.quads.len() <= final(self)@.quads.len() <= old(self)@.quads.len()
                + sp_expr_size(cond@) + 3
                + sp_block_size(if_block@) + sp_opt_block_size(sp_opt_block_view(*else_stmt)),
            old(self)@.temp_counter <= final(self)@.temp_counter <= old(self)@.temp_counter
                + sp_expr_size(cond@) + sp_block_size(if_block@) + sp_opt_block_size(
                sp_opt_block_view(*else_stmt),
            ),
            r matches Ok(v) && final(self)@ == sp_gen_stmt(
                old(self)@,
                StmtModel::IfStmt {
                    cond: cond@,
                    if_block: if_block@,
                    else_stmt: sp_opt_block_view(*else_stmt),
                },
            ),
        decreases sp_block_measure(if_block@) + sp_opt_block_measure(
            sp_opt_block_view(*else_stmt),
        ), 1int,
    {
        let (cond_op, lhs, rhs) = self.extract_condition(cond)?;
        let cond_jump_op = String::from_str("j").concat(cond_op.as_str());
        let cond_jump_index = self.quadruples.len();
        self.emit(cond_jump_op.as_str(), lhs.as_str(), rhs.as_str(), "0");
        let else_jump_index = self.quadruples.len();
        self.emit("j", "", "", "0");
        proof {
            assert(self.quadruples@.len() == self@.quads.len());
            assert(self@.quads.len() + 1 <= usize::MAX);
        }
        let then_start_index = self.quadruples.len() + 1;
        self.process_block(if_block)?;
        let after_else_jump_index: Option<usize> = if else_stmt.is_some() {
            let jump_index = self.quadruples.len();
            self.emit("j", "", "", "0");
            Some(jump_index)
        } else {
            None
        };
        proof {
            assert(self.quadruples@.len() == self@.quads.len());
            assert(self@.quads.len() + 1 <= usize::MAX);
        }
        let else_start_index = self.quadruples.len() + 1;
        if let Some(else_blk) = else_stmt {
            self.process_block(else_blk)?;
        }
        proof {
            assert(self.quadruples@.len() == self@.quads.len());
            assert(self@.quads.len() + 1 <= usize::MAX);
        }
        let after_if_index = self.quadruples.len() + 1;
        self.backpatch(cond_jump_index, then_start_index);
        let else_jump_target = if else_stmt.is_some() {
            else_start_index
        } else {
            after_if_index
        };
        self.backpatch(else_jump_index, else_jump_target);
        if let Some(jump_index) = after_else_jump_index {
            self.backpatch(jump_index, after_if_index);
        }
        Ok(())
    }

    fn process_while_stmt(&mut self, cond: &Expr, block: &Block) -> (r: Result<
        (),
        Vec<CompilationError>,
    >)
        requires
            sp_table_wf(old(self)@.table),
            old(self)@.quads.len() + sp_expr_size(cond@) + 2 + sp_block_size(block@) + 1
                <= usize::MAX,
            old(self)@.temp_counter + sp_expr_size(cond@) + sp_block_size(block@) <= usize::MAX,
        ensures
            sp_table_wf(final(self)@.table),
            old(self)@.quads.len() <= final(self)@.quads.len() <= old(self)@.quads.len()
                + sp_expr_size(cond@) + 2
                + sp_block_size(block@),
            old(self)@.temp_counter <= final(self)@.temp_counter <= old(self)@.temp_counter
                + sp_expr_size(cond@) + sp_block_size(block@),
            r matches Ok(v) && final(self)@ == sp_gen_stmt(
                old(self)@,
                StmtModel::WhileStmt { cond: cond@, block: block@ },
            ),
        decreases sp_block_measure(block@), 1int,
    {
        proof {
            assert(self.quadruples@.len() == self@.quads.len());
        }
        let loop_start_index = self.quadruples.len() + 1;
        let (cond_op, lhs, rhs) = self.extract_condition(cond)?;
        let cond_jump_op = String::from_str("j").concat(cond_op.as_str());
        let cond_jump_index = self.quadruples.len();
        self.emit(cond_jump_op.as_str(), lhs.as_str(), rhs.as_str(), "0");
        self.process_block(block)?;
        let back_jump_index = self.quadruples.len();
        self.emit("j", "", "", "0");
        proof {
            assert(self.quadruples@.len() == self@.quads.len());
            assert(self@.quads.len() + 1 <= usize::MAX);
        }
        let loop_end_index = self.quadruples.len() + 1;
        self.backpatch(cond_jump_index, loop_end_index);
        self.backpatch(back_jump_index, loop_start_index);
        Ok(())
    }

    fn process_stmt(&mut self, stmt: &Stmt) -> (r: Result<(), Vec<CompilationError>>)
        requires
            sp_table_wf(old(self)@.table),
            old(self)@.quads.len() + sp_stmt_size(stmt@) + 1 <= usize::MAX,
            old(self)@.temp_counter + sp_stmt_size(stmt@) <= usize::MAX,
        ensures
            sp_table_wf(final(self)@.table),
            old(self)@.quads.len() <= final(self)@.quads.len() <= old(self)@.quads.len()
                + sp_stmt_size(stmt@),
            old(self)@.temp_counter <= final(self)@.temp_counter <= old(self)@.temp_counter
                + sp_stmt_size(stmt@),
            r matches Ok(v) && final(self)@ == sp_gen_stmt(old(self)@, stmt@),
        decreases sp_stmt_measure(stmt@), 1int,
    {
        match stmt {
            Stmt::ReturnStmt(expr) => self.process_return_stmt(expr),
            Stmt::IfStmt { cond, if_block, else_stmt } => self.process_if_stmt(
                cond,
                if_block,
                else_stmt,
            ),
            Stmt::WhileStmt { cond, block } => self.process_while_stmt(cond, block),
            Stmt::AssignmentStmt { lval, rval } => self.process_assignment_stmt(
                lval.as_str(),
                rval,
            ),
            Stmt::DeclareStmt { ident_type, ident, rval } => self.process_declare_stmt(
                ident_type,
                ident.as_str(),
                rval,
            ),
        }
    }

    fn process_block(&mut self, block: &Block) -> (r: Result<(), Vec<CompilationError>>)
        requires
            sp_table_wf(old(self)@.table),
            old(self)@.quads.len() + sp_block_size(block@) + 1 <= usize::MAX,
            old(self)@.temp_counter + sp_block_size(block@) <= usize::MAX,
        ensures
            sp_table_wf(final(self)@.table),
            old(self)@.quads.len() <= final(self)@.quads.len() <= old(self)@.quads.len()
                + sp_block_size(block@),
            old(self)@.temp_counter <= final(self)@.temp_counter <= old(self)@.temp_counter
                + sp_block_size(block@),
            r matches Ok(v) && final(self)@ == sp_gen_block(old(self)@, block@),
        decreases sp_block_measure(block@), 0int,
    {
        self.symbol_table.enter_scope();
        proof {
            assert(self@ == (GenModel { table: sp_enter_scope(old(self)@.table), ..old(self)@ }));
        }
        let ghost g1 = self@;
        let ghost ss = block@.stmts;
        proof {
            crate::ast::lemma_stmts_model_index(block.stmts@, 0);
        }
        let n = block.stmts.len();
        let mut k: usize = 0;
        while k < n
            invariant
                0 <= k <= n,
                n == block.stmts.len(),
                ss == block@.stmts,
                ss.len() == n,
                forall|j: int| 0 <= j < n ==> ss[j] == crate::ast::sp_stmt_model(block.stmts@[j]),
                sp_table_wf(self@.table),
                sp_gen_stmts(g1, ss, 0) == sp_gen_stmts(self@, ss, k as int),
                self@.quads.len() + sp_stmts_size(ss, k as int) <= g1.quads.len() + sp_stmts_size(
                    ss,
                    0,
                ),
                self@.temp_counter + sp_stmts_size(ss, k as int) <= g1.temp_counter
                    + sp_stmts_size(ss, 0),
                g1.temp_counter <= self@.temp_counter,
                g1.quads.len() <= self@.quads.len(),
                g1.quads.len() + sp_stmts_size(ss, 0) + 1 <= usize::MAX,
                g1.temp_counter + sp_stmts_size(ss, 0) <= usize::MAX,
            decreases n - k,
        {
            let stmt = &block.stmts[k];
            proof {
                assert(stmt@ == ss[k as int]);
                lemma_stmts_measure_element(ss, 0, k as int);
                assert(sp_block_measure(block@) == 1 + sp_stmts_measure(ss, 0));
                assert(sp_stmt_measure(stmt@) < sp_block_measure(block@));
                assert(sp_stmts_size(ss, k as int) == sp_stmt_size(ss[k as int]) + sp_stmts_size(
                    ss,
                    k + 1,
                ));
            }
            match self.process_stmt(stmt) {
                Ok(_) => (),
                Err(e) => {
                    return Err(e);
                },
            }
            k = k + 1;
        }
        proof {
            assert(sp_gen_stmts(self@, ss, n as int) == self@);
        }
        self.symbol_table.exit_scope();
        proof {
            assert(self@ == sp_gen_block(old(self)@, block@));
        }
        Ok(())
    }

    /// Generate code for a whole function. All internal state is reset at
    /// the start, so no state survives across independent compilations.
    /// On success the quadruple list and symbol table are left in the
    /// generator; on failure the complete batch of semantic errors found
    /// in the single pass is returned and the error list is left empty.
    pub fn generate(&mut self, ast: &Function) -> (r: Result<(), Vec<CompilationError>>)
        requires
            sp_block_size(ast@.block) + 1 <= usize::MAX,
        ensures
            ({
                let gm = sp_generate(ast@);
                &&& final(self)@.table == gm.table
                &&& final(self)@.quads == gm.quads
                &&& final(self)@.temp_counter == gm.temp_counter
                &&& match r {
                    Ok(_) => gm.errors.len() == 0 && final(self)@.errors == gm.errors,
                    Err(es) => gm.errors.len() > 0 && sp_error_views(es@) == gm.errors
                        && final(self)@.errors.len() == 0,
                }
            }),
            sp_function_wf(ast@) ==> sp_new_jumps_valid(final(self)@.quads, 0),
    {
        self.symbol_table = SymbolTable::new();
        self.quadruples = Vec::new();
        self.temp_counter = 0;
        self.errors = Vec::new();
        proof {
            assert(self@.quads =~= Seq::<QuadrupleModel>::empty());
            assert(self@.errors =~= Seq::<CompilationErrorModel>::empty());
            assert(self@.table.symbols =~= Seq::<crate::symbol_table::SymbolModel>::empty());
            assert(self@.table.scopes =~= Seq::<int>::empty());
            assert(self@.table.declared =~= Seq::<crate::symbol_table::SymbolModel>::empty());
            assert(self@ == sp_gen_init());
        }
        self.symbol_table.enter_scope();
        proof {
            assert(self@ == (GenModel { table: sp_enter_scope(sp_gen_init().table), ..sp_gen_init() }));
        }
        match self.process_block(&ast.block) {
            Ok(_) => (),
            Err(e) => {
                return Err(e);
            },
        }
        self.symbol_table.exit_scope();
        proof {
            assert(self@ == sp_generate(ast@));
            if sp_function_wf(ast@) {
                lemma_backpatch_soundness(ast@);
            }
        }
        if self.errors.len() > 0 {
            let mut errs: Vec<CompilationError> = Vec::new();
            core::mem::swap(&mut errs, &mut self.errors);
            proof {
                assert(self@.errors =~= Seq::<CompilationErrorModel>::empty());
                assert(self@.quads =~= sp_generate(ast@).quads);
            }
            return Err(errs);
        }
        proof {
            assert(sp_error_views(self.errors@) =~= sp_generate(ast@).errors);
        }
        Ok(())
    }
}

/// The structural measure of an optional block, for termination only.
pub open spec fn sp_opt_block_measure(o: Option<BlockModel>) -> nat {
    match o {
        Some(b) => sp_block_measure(b),
        None => 0,
    }
}

// ---------------------------------------------------------------------------
// Size guard for callers of `generate`
// ---------------------------------------------------------------------------

fn expr_size_checked(e: &Expr) -> (r: Option<usize>)
    ensures
        match r {
            Some(n) => n == sp_expr_size(e@),
            None => sp_expr_size(e@) > usize::MAX,
        },
    decreases e,
{
    match e {
        Expr::Number(_) => Some(0),
        Expr::Var(_) => Some(0),
        Expr::BinaryExpr { op: _, lhs, rhs } => {
            let l = match expr_size_checked(lhs) {
                Some(n) => n,
                None => {
                    return None;
                },
            };
            let r0 = match expr_size_checked(rhs) {
                Some(n) => n,
                None => {
                    return None;
                },
            };
            match l.checked_add(r0) {
                Some(s) => s.checked_add(1),
                None => None,
            }
        },
    }
}

fn stmt_size_checked(s: &Stmt) -> (r: Option<usize>)
    ensures
        match r {
            Some(n) => n == sp_stmt_size(s@),
            None => sp_stmt_size(s@) > usize::MAX,
        },
    decreases sp_stmt_measure(s@), 1int,
{
    match s {
        Stmt::ReturnStmt(e) => match expr_size_checked(e) {
            Some(n) => n.checked_add(1),
            None => None,
        },
        Stmt::AssignmentStmt { lval: _, rval } => match expr_size_checked(rval) {
            Some(n) => n.checked_add(1),
            None => None,
        },
        Stmt::DeclareStmt { ident_type: _, ident: _, rval } => match rval {
            Some(e) => match expr_size_checked(e) {
                Some(n) => n.checked_add(1),
                None => None,
            },
            None => Some(1),
        },
        Stmt::WhileStmt { cond, block } => {
            let c = match expr_size_checked(cond) {
                Some(n) => n,
                None => {
                    return None;
                },
            };
            let b = match block_size_checked(block) {
                Some(n) => n,
                None => {
                    return None;
                },
            };
            match c.checked_add(b) {
                Some(s) => s.checked_add(2),
                None => None,
            }
        },
        Stmt::IfStmt { cond, if_block, else_stmt } => {
            let c = match expr_size_checked(cond) {
                Some(n) => n,
                None => {
                    return None;
                },
            };
            let b1 = match block_size_checked(if_block) {
                Some(n) => n,
                None => {
                    return None;
                },
            };
            let b2 = match else_stmt {
                Some(b) => match block_size_checked(b) {
                    Some(n) => n,
                    None => {
                        return None;
                    },
                },
                None => 0,
            };
            match c.checked_add(b1) {
                Some(s1) => match s1.checked_add(b2) {
                    Some(s2) => s2.checked_add(3),
                    None => None,
                },
                None => None,
            }
        },
    }
}

fn block_size_checked(block: &Block) -> (r: Option<usize>)
    ensures
        match r {
            Some(n) => n == sp_block_size(block@),
            None => sp_block_size(block@) > usize::MAX,
        },
    decreases sp_block_measure(block@), 0int,
{
    let ghost ss = block@.stmts;
    proof {
        crate::ast::lemma_stmts_model_index(block.stmts@, 0);
    }
    let n = block.stmts.len();
    let mut total: usize = 0;
    let mut k: usize = 0;
    while k < n
        invariant
            0 <= k <= n,
            n == block.stmts.len(),
            ss == block@.stmts,
            ss.len() == n,
            forall|j: int| 0 <= j < n ==> ss[j] == crate::ast::sp_stmt_model(block.stmts@[j]),
            total + sp_stmts_size(ss, k as int) == sp_stmts_size(ss, 0),
        decreases n - k,
    {
        let stmt = &block.stmts[k];
        proof {
            assert(stmt@ == ss[k as int]);
            lemma_stmts_measure_element(ss, 0, k as int);
            assert(sp_stmt_measure(stmt@) < sp_block_measure(block@));
            assert(sp_stmts_size(ss, k as int) == sp_stmt_size(ss[k as int]) + sp_stmts_size(
                ss,
                k + 1,
            ));
        }
        let s = match stmt_size_checked(stmt) {
            Some(v) => v,
            None => {
                return None;
            },
        };
        total = match total.checked_add(s) {
            Some(v) => v,
            None => {
                return None;
            },
        };
        k = k + 1;
    }
    Some(total)
}

/// Whether a function's body is small enough for the generator's address
/// arithmetic: the bound on the quadruples it can emit, plus one, fits in
/// `usize`. `generate` asks this of its input; a caller that cannot know
/// it beforehand checks here first.
pub fn generation_within_limits(ast: &Function) -> (r: bool)
    ensures
        r == (sp_block_size(ast@.block) + 1 <= usize::MAX),
{
    match block_size_checked(&ast.block) {
        Some(n) => n < usize::MAX,
        None => false,
    }
}

// ---------------------------------------------------------------------------
// Backpatch soundness
// ---------------------------------------------------------------------------

/// Whether an operator marks a jump quadruple: it begins with `j`.
pub open spec fn sp_is_jump(op: Seq<char>) -> bool {
    op.len() > 0 && op[0] == 'j'
}

/// Every jump quadruple at or after position `lo` carries, as its result,
/// the decimal rendering of a target between `lo + 1` and one past the
/// end of the list, both 1-indexed.
pub open spec fn sp_new_jumps_valid(quads: Seq<QuadrupleModel>, lo: int) -> bool {
    forall|i: int|
        lo <= i < quads.len() ==> (sp_is_jump(#[trigger] quads[i].op) ==> exists|t: nat| #![trigger sp_nat_dec(t)]
            lo + 1 <= t <= quads.len() + 1 && quads[i].result == sp_nat_dec(t))
}

proof fn lemma_expr_quads(g: GenModel, e: ExprModel)
    requires
        sp_expr_wf(e),
    ensures
        ({
            let g2 = sp_gen_expr(g, e).0;
            &&& g2.quads.len() >= g.quads.len()
            &&& forall|i: int| 0 <= i < g.quads.len() ==> g2.quads[i] == g.quads[i]
            &&& forall|i: int|
                g.quads.len() <= i < g2.quads.len() ==> !sp_is_jump(#[trigger] g2.quads[i].op)
        }),
    decreases e,
{
    match e {
        ExprModel::Number(_) => {},
        ExprModel::Var(_) => {},
        ExprModel::BinaryExpr { op, lhs, rhs } => {
            lemma_expr_quads(g, *lhs);
            let gl = sp_gen_expr(g, *lhs);
            lemma_expr_quads(gl.0, *rhs);
        },
    }
}

proof fn lemma_cond_quads(g: GenModel, e: ExprModel)
    requires
        sp_expr_wf(e),
    ensures
        ({
            let g2 = sp_gen_cond(g, e).0;
            &&& g2.quads.len() >= g.quads.len()
            &&& forall|i: int| 0 <= i < g.quads.len() ==> g2.quads[i] == g.quads[i]
            &&& forall|i: int|
                g.quads.len() <= i < g2.quads.len() ==> !sp_is_jump(#[trigger] g2.quads[i].op)
        }),
{
    match e {
        ExprModel::BinaryExpr { op, lhs, rhs } => {
            lemma_expr_quads(g, *lhs);
            let gl = sp_gen_expr(g, *lhs);
            lemma_expr_quads(gl.0, *rhs);
        },
        _ => {
            lemma_expr_quads(g, e);
        },
    }
}

proof fn lemma_stmt_quads(g: GenModel, s: StmtModel)
    requires
        sp_stmt_wf(s),
    ensures
        ({
            let g2 = sp_gen_stmt(g, s);
            &&& g2.quads.len() >= g.quads.len()
            &&& forall|i: int| 0 <= i < g.quads.len() ==> g2.quads[i] == g.quads[i]
            &&& sp_new_jumps_valid(g2.quads, g.quads.len() as int)
        }),
    decreases s, 0int,
{
    reveal_strlit("j");
    reveal_strlit("return");
    reveal_strlit("=");
    let g2 = sp_gen_stmt(g, s);
    let lo = g.quads.len() as int;
    match s {
        StmtModel::ReturnStmt(e) => {
            lemma_expr_quads(g, e);
            assert forall|i: int|
                lo <= i < g2.quads.len() && sp_is_jump(#[trigger] g2.quads[i].op) implies exists|t: nat| #![trigger sp_nat_dec(t)]
                lo + 1 <= t <= g2.quads.len() + 1 && g2.quads[i].result == sp_nat_dec(t) by {
                assert(!sp_is_jump("return"@));
                assert(false);
            }
        },
        StmtModel::AssignmentStmt { lval, rval } => {
            if sp_lookup(g.table, lval) is None {
            } else {
                lemma_expr_quads(g, rval);
                assert forall|i: int|
                    lo <= i < g2.quads.len() && sp_is_jump(
                        #[trigger] g2.quads[i].op,
                    ) implies exists|t: nat| #![trigger sp_nat_dec(t)]
                    lo + 1 <= t <= g2.quads.len() + 1 && g2.quads[i].result == sp_nat_dec(t) by {
                    assert(!sp_is_jump("="@));
                    assert(false);
                }
            }
        },
        StmtModel::DeclareStmt { ident_type: _, ident, rval } => {
            let after = match sp_add_symbol(g.table, ident, SymbolType::Variable, DataType::Int) {
                Err(e) => GenModel { errors: g.errors.push(e), ..g },
                Ok(t2) => GenModel { table: t2, ..g },
            };
            match rval {
                None => {},
                Some(e) => {
                    lemma_expr_quads(after, e);
                    assert forall|i: int|
                        lo <= i < g2.quads.len() && sp_is_jump(
                            #[trigger] g2.quads[i].op,
                        ) implies exists|t: nat| #![trigger sp_nat_dec(t)]
                        lo + 1 <= t <= g2.quads.len() + 1 && g2.quads[i].result == sp_nat_dec(
                            t,
                        ) by {
                        assert(!sp_is_jump("="@));
                        assert(false);
                    }
                },
            }
        },
        StmtModel::IfStmt { cond, if_block, else_stmt } => {
            lemma_cond_quads(g, cond);
            let gc = sp_gen_cond(g, cond);
            let g1 = gc.0;
            let cji = g1.quads.len() as int;
            let gg2 = sp_emit(g1, "j"@ + gc.1.0, gc.1.1, gc.1.2, "0"@);
            let eji = gg2.quads.len() as int;
            let g3 = sp_emit(gg2, "j"@, ""@, ""@, "0"@);
            let then_start = g3.quads.len() + 1;
            lemma_block_quads(g3, if_block);
            let g4 = sp_gen_block(g3, if_block);
            let aeji = g4.quads.len() as int;
            let g5 = if else_stmt is Some {
                sp_emit(g4, "j"@, ""@, ""@, "0"@)
            } else {
                g4
            };
            let else_start = g5.quads.len() + 1;
            if else_stmt is Some {
                lemma_block_quads(g5, else_stmt->0);
            }
            let g6 = match else_stmt {
                Some(b) => sp_gen_block(g5, b),
                None => g5,
            };
            let after_if = g6.quads.len() + 1;
            let n = g2.quads.len() as int;
            assert(n == g6.quads.len());
            assert forall|i: int|
                lo <= i < n && sp_is_jump(#[trigger] g2.quads[i].op) implies exists|t: nat| #![trigger sp_nat_dec(t)]
                lo + 1 <= t <= n + 1 && g2.quads[i].result == sp_nat_dec(t) by {
                if i == cji {
                    assert(g2.quads[i].result == sp_nat_dec(then_start as nat));
                    assert(lo + 1 <= then_start <= n + 1 && g2.quads[i].result == sp_nat_dec(
                        then_start as nat,
                    ));
                } else if i == eji {
                    let et = if else_stmt is Some {
                        else_start
                    } else {
                        after_if
                    };
                    assert(lo + 1 <= et <= n + 1 && g2.quads[i].result == sp_nat_dec(et as nat));
                } else if else_stmt is Some && i == aeji {
                    assert(lo + 1 <= after_if <= n + 1 && g2.quads[i].result == sp_nat_dec(
                        after_if as nat,
                    ));
                } else if lo <= i < cji {
                    assert(g2.quads[i] == g1.quads[i]);
                    assert(!sp_is_jump(g1.quads[i].op));
                    assert(false);
                } else if g3.quads.len() <= i < g4.quads.len() {
                    assert(g2.quads[i] == g4.quads[i]);
                    assert(sp_is_jump(g4.quads[i].op));
                    let t = choose|t: nat|
                        g3.quads.len() + 1 <= t <= g4.quads.len() + 1 && g4.quads[i].result
                            == sp_nat_dec(t);
                    assert(lo + 1 <= t <= n + 1 && g2.quads[i].result == sp_nat_dec(t));
                } else {
                    assert(else_stmt is Some && g5.quads.len() <= i < g6.quads.len());
                    assert(g2.quads[i] == g6.quads[i]);
                    assert(sp_is_jump(g6.quads[i].op));
                    let t = choose|t: nat|
                        g5.quads.len() + 1 <= t <= g6.quads.len() + 1 && g6.quads[i].result
                            == sp_nat_dec(t);
                    assert(lo + 1 <= t <= n + 1 && g2.quads[i].result == sp_nat_dec(t));
                }
            }
        },
        StmtModel::WhileStmt { cond, block } => {
            let loop_start = g.quads.len() + 1;
            lemma_cond_quads(g, cond);
            let gc = sp_gen_cond(g, cond);
            let g1 = gc.0;
            let cji = g1.quads.len() as int;
            let gg2 = sp_emit(g1, "j"@ + gc.1.0, gc.1.1, gc.1.2, "0"@);
            lemma_block_quads(gg2, block);
            let g3 = sp_gen_block(gg2, block);
            let bji = g3.quads.len() as int;
            let g4 = sp_emit(g3, "j"@, ""@, ""@, "0"@);
            let loop_end = g4.quads.len() + 1;
            let n = g2.quads.len() as int;
            assert(n == g4.quads.len());
            assert forall|i: int|
                lo <= i < n && sp_is_jump(#[trigger] g2.quads[i].op) implies exists|t: nat| #![trigger sp_nat_dec(t)]
                lo + 1 <= t <= n + 1 && g2.quads[i].result == sp_nat_dec(t) by {
                if i == cji {
                    assert(lo + 1 <= loop_end <= n + 1 && g2.quads[i].result == sp_nat_dec(
                        loop_end as nat,
                    ));
                } else if i == bji {
                    assert(lo + 1 <= loop_start <= n + 1 && g2.quads[i].result == sp_nat_dec(
                        loop_start as nat,
                    ));
                } else if lo <= i < cji {
                    assert(g2.quads[i] == g1.quads[i]);
                    assert(!sp_is_jump(g1.quads[i].op));
                    assert(false);
                } else {
                    assert(gg2.quads.len() <= i < g3.quads.len());
                    assert(g2.quads[i] == g3.quads[i]);
                    assert(sp_is_jump(g3.quads[i].op));
                    let t = choose|t: nat|
                        gg2.quads.len() + 1 <= t <= g3.quads.len() + 1 && g3.quads[i].result
                            == sp_nat_dec(t);
                    assert(lo + 1 <= t <= n + 1 && g2.quads[i].result == sp_nat_dec(t));
                }
            }
        },
    }
}

proof fn lemma_stmts_quads(g: GenModel, ss: Seq<StmtModel>, k: int)
    requires
        forall|i: int| 0 <= i < ss.len() ==> sp_stmt_wf(#[trigger] ss[i]),
    ensures
        ({
            let g2 = sp_gen_stmts(g, ss, k);
            &&& g2.quads.len() >= g.quads.len()
            &&& forall|i: int| 0 <= i < g.quads.len() ==> g2.quads[i] == g.quads[i]
            &&& sp_new_jumps_valid(g2.quads, g.quads.len() as int)
        }),
    decreases ss, ss.len() - k,
{
    if 0 <= k < ss.len() {
        lemma_stmt_quads(g, ss[k]);
        let g1 = sp_gen_stmt(g, ss[k]);
        lemma_stmts_quads(g1, ss, k + 1);
        let g2 = sp_gen_stmts(g, ss, k);
        let lo = g.quads.len() as int;
        assert forall|i: int|
            lo <= i < g2.quads.len() && sp_is_jump(#[trigger] g2.quads[i].op) implies exists|t: nat|
            #![trigger sp_nat_dec(t)]
            lo + 1 <= t <= g2.quads.len() + 1 && g2.quads[i].result == sp_nat_dec(t) by {
            if i < g1.quads.len() {
                assert(g2.quads[i] == g1.quads[i]);
                assert(sp_is_jump(g1.quads[i].op));
                let t = choose|t: nat|
                    lo + 1 <= t <= g1.quads.len() + 1 && g1.quads[i].result == sp_nat_dec(t);
                assert(lo + 1 <= t <= g2.quads.len() + 1 && g2.quads[i].result == sp_nat_dec(t));
            } else {
                let t = choose|t: nat|
                    g1.quads.len() + 1 <= t <= g2.quads.len() + 1 && g2.quads[i].result
                        == sp_nat_dec(t);
                assert(lo + 1 <= t <= g2.quads.len() + 1 && g2.quads[i].result == sp_nat_dec(t));
            }
        }
    }
}

proof fn lemma_block_quads(g: GenModel, b: BlockModel)
    requires
        sp_block_wf(b),
    ensures
        ({
            let g2 = sp_gen_block(g, b);
            &&& g2.quads.len() >= g.quads.len()
            &&& forall|i: int| 0 <= i < g.quads.len() ==> g2.quads[i] == g.quads[i]
            &&& sp_new_jumps_valid(g2.quads, g.quads.len() as int)
        }),
    decreases b, 1int,
{
    assert(decreases_to!(b => b.stmts));
    let g1 = GenModel { table: sp_enter_scope(g.table), ..g };
    lemma_stmts_quads(g1, b.stmts, 0);
}

/// Backpatch soundness: in the quadruple list generated for a function
/// whose binary operators are ones the parser can produce, every jump
/// quadruple's final target is the decimal rendering of a valid 1-indexed
/// position within the list, or of `len + 1`, denoting the position just
/// past the end.
pub proof fn lemma_backpatch_soundness(f: FunctionModel)
    requires
        sp_function_wf(f),
    ensures
        ({
            let gm = sp_generate(f);
            forall|i: int|
                0 <= i < gm.quads.len() ==> (sp_is_jump(#[trigger] gm.quads[i].op) ==> exists|t: nat|
                    #![trigger sp_nat_dec(t)]
                    1 <= t <= gm.quads.len() + 1 && gm.quads[i].result == sp_nat_dec(t))
        }),
{
    let g0 = sp_gen_init();
    let g1 = GenModel { table: sp_enter_scope(g0.table), ..g0 };
    lemma_block_quads(g1, f.block);
}

/// The control-safety face of backpatch soundness, stated for the
/// trivial interpreter that reads a jump's target back as a number: in
/// the list generated for a function whose binary operators are ones the
/// parser can produce, every jump quadruple's result field is a pure
/// digit string, and the number it denotes is a valid 1-indexed position
/// in the list or `len + 1`, the position just past its end. A program
/// counter that follows these jumps can therefore never leave the program
/// except by falling off its end.
pub proof fn lemma_jump_targets_decode_in_range(f: FunctionModel, i: int)
    requires
        sp_function_wf(f),
        0 <= i < sp_generate(f).quads.len(),
        sp_is_jump(sp_generate(f).quads[i].op),
    ensures
        crate::text::sp_all_digits(sp_generate(f).quads[i].result),
        1 <= crate::text::sp_digits_val(sp_generate(f).quads[i].result) <= sp_generate(
            f,
        ).quads.len() + 1,
{
    lemma_backpatch_soundness(f);
    let gm = sp_generate(f);
    let t = choose|t: nat|
        #![trigger sp_nat_dec(t)]
        1 <= t <= gm.quads.len() + 1 && gm.quads[i].result == sp_nat_dec(t);
    crate::text::lemma_nat_dec_round_trip(t);
}

} // verus!
