//! The scoped symbol table: a sequence of symbols plus a stack recording,
//! for each entered scope, the symbol-count boundary at entry. Scope
//! levels are non-decreasing along the sequence, and exiting a scope
//! truncates the sequence back to its entry boundary, making the inner
//! symbols unreachable. A second, durable sequence records every accepted
//! declaration and survives scope exits: it is what an external consumer
//! iterates and prints once generation is done.

use vstd::prelude::*;
use crate::errors::{CompilationError, CompilationErrorModel};
use crate::text::str_eq;

verus! {

/// What kind of thing a symbol names; only variables exist here.
#[derive(Debug, Clone, Copy, PartialEq, Eq, Structural)]
pub enum SymbolType {
    Variable,
}

/// The declared type of a symbol; the language has a single `int` type.
#[derive(Debug, Clone, Copy, PartialEq, Eq, Structural)]
pub enum DataType {
    Int,
}

/// One declared identifier, never mutated after creation.
#[derive(Debug, Clone)]
pub struct Symbol {
    pub name: String,
    pub symbol_type: SymbolType,
    pub data_type: DataType,
    pub scope_level: usize,
}

/// The mathematical value of a symbol.
pub struct SymbolModel {
    pub name: Seq<char>,
    pub symbol_type: SymbolType,
    pub data_type: DataType,
    pub scope_level: int,
}

impl View for Symbol {
    type V = SymbolModel;

    open spec fn view(&self) -> SymbolModel {
        SymbolModel {
            name: self.name@,
            symbol_type: self.symbol_type,
            data_type: self.data_type,
            scope_level: self.scope_level as int,
        }
    }
}

/// The scoped registry of declared identifiers. `symbols` is the scan
/// sequence that lookup reads and scope exit truncates; `declared` is the
/// durable record of every declaration ever accepted, which scope exit
/// leaves in place — the populated table an external consumer iterates
/// and prints after generation.
#[derive(Debug)]
pub struct SymbolTable {
    pub symbols: Vec<Symbol>,
    pub scopes: Vec<usize>,
    pub current_scope: usize,
    pub declared: Vec<Symbol>,
}

/// The mathematical value of a symbol table.
pub struct TableModel {
    pub symbols: Seq<SymbolModel>,
    pub scopes: Seq<int>,
    pub current_scope: int,
    pub declared: Seq<SymbolModel>,
}

impl View for SymbolTable {
    type V = TableModel;

    open spec fn view(&self) -> TableModel {
        TableModel {
            symbols: self.symbols@.map_values(|s: Symbol| s@),
            scopes: self.scopes@.map_values(|n: usize| n as int),
            current_scope: self.current_scope as int,
            declared: self.declared@.map_values(|s: Symbol| s@),
        }
    }
}

// ---------------------------------------------------------------------------
// The table's operations as mathematical functions
// ---------------------------------------------------------------------------

/// The number of open-scope boundaries at or before position `k`: the
/// scope level a symbol appended at position `k` carries.
pub open spec fn sp_level_at(scopes: Seq<int>, k: int) -> int
    decreases scopes.len(),
{
    if scopes.len() == 0 {
        0
    } else {
        sp_level_at(scopes.drop_last(), k) + if scopes.last() <= k {
            1int
        } else {
            0int
        }
    }
}

/// Well-formedness of a table: the scope level equals the number of open
/// scopes, boundaries are within the symbol sequence and non-decreasing,
/// and each symbol's level counts the boundaries at or before it.
pub open spec fn sp_table_wf(t: TableModel) -> bool {
    &&& t.current_scope == t.scopes.len()
    &&& forall|i: int| 0 <= i < t.scopes.len() ==> 0 <= #[trigger] t.scopes[i] <= t.symbols.len()
    &&& forall|i: int, j: int|
        0 <= i < j < t.scopes.len() ==> #[trigger] t.scopes[i] <= #[trigger] t.scopes[j]
    &&& forall|k: int|
        0 <= k < t.symbols.len() ==> #[trigger] t.symbols[k].scope_level == sp_level_at(
            t.scopes,
            k,
        )
}

/// Entering a scope: push the current symbol count as a boundary and
/// increment the scope level.
pub open spec fn sp_enter_scope(t: TableModel) -> TableModel {
    TableModel {
        scopes: t.scopes.push(t.symbols.len() as int),
        current_scope: t.current_scope + 1,
        ..t
    }
}

/// Exiting a scope: pop the boundary, truncate the symbol sequence back
/// to it, and decrement the scope level; a no-op if no scope is open.
/// The durable record of declarations is untouched.
pub open spec fn sp_exit_scope(t: TableModel) -> TableModel {
    if t.scopes.len() == 0 {
        t
    } else {
        let b = t.scopes.last();
        TableModel {
            symbols: if 0 <= b <= t.symbols.len() {
                t.symbols.subrange(0, b)
            } else {
                t.symbols
            },
            scopes: t.scopes.drop_last(),
            current_scope: t.current_scope - 1,
            ..t
        }
    }
}

/// Whether a symbol of the given name exists at exactly the current
/// scope level.
pub open spec fn sp_declared_at_current(t: TableModel, name: Seq<char>) -> bool {
    exists|k: int|
        0 <= k < t.symbols.len() && #[trigger] t.symbols[k].name == name
            && t.symbols[k].scope_level == t.current_scope
}

/// Declaring a name: a duplicate at the exact current scope level fails;
/// otherwise a new symbol is appended at the current level, both to the
/// scan sequence and to the durable record.
pub open spec fn sp_add_symbol(
    t: TableModel,
    name: Seq<char>,
    symbol_type: SymbolType,
    data_type: DataType,
) -> Result<TableModel, CompilationErrorModel> {
    if sp_declared_at_current(t, name) {
        Err(CompilationErrorModel::DuplicateDeclaration { name, location: None })
    } else {
        let symbol = SymbolModel { name, symbol_type, data_type, scope_level: t.current_scope };
        Ok(
            TableModel {
                symbols: t.symbols.push(symbol),
                scopes: t.scopes,
                current_scope: t.current_scope,
                declared: t.declared.push(symbol),
            },
        )
    }
}

/// The backward scan of `lookup`, from position `k` down: the nearest
/// symbol with the given name whose level does not exceed the current
/// scope.
pub open spec fn sp_lookup_from(t: TableModel, name: Seq<char>, k: int) -> Option<SymbolModel>
    decreases k + 1,
    when k >= -1
{
    if k < 0 || k >= t.symbols.len() {
        None
    } else if t.symbols[k].name == name && t.symbols[k].scope_level <= t.current_scope {
        Some(t.symbols[k])
    } else {
        sp_lookup_from(t, name, k - 1)
    }
}

/// Lookup: the innermost visible symbol of the given name, if any.
pub open spec fn sp_lookup(t: TableModel, name: Seq<char>) -> Option<SymbolModel> {
    sp_lookup_from(t, name, t.symbols.len() - 1)
}

// ---------------------------------------------------------------------------
// Facts about well-formed tables
// ---------------------------------------------------------------------------

proof fn lemma_level_at_bounds(scopes: Seq<int>, k: int)
    ensures
        0 <= sp_level_at(scopes, k) <= scopes.len(),
    decreases scopes.len(),
{
    if scopes.len() > 0 {
        lemma_level_at_bounds(scopes.drop_last(), k);
    }
}

proof fn lemma_level_at_monotone(scopes: Seq<int>, k1: int, k2: int)
    requires
        k1 <= k2,
    ensures
        sp_level_at(scopes, k1) <= sp_level_at(scopes, k2),
    decreases scopes.len(),
{
    if scopes.len() > 0 {
        lemma_level_at_monotone(scopes.drop_last(), k1, k2);
    }
}

proof fn lemma_level_at_full(scopes: Seq<int>, k: int)
    requires
        forall|i: int| 0 <= i < scopes.len() ==> #[trigger] scopes[i] <= k,
    ensures
        sp_level_at(scopes, k) == scopes.len(),
    decreases scopes.len(),
{
    if scopes.len() > 0 {
        assert(forall|i: int|
            0 <= i < scopes.drop_last().len() ==> #[trigger] scopes.drop_last()[i] <= k);
        lemma_level_at_full(scopes.drop_last(), k);
    }
}

/// In a well-formed table every symbol's level is at most the current
/// scope, and levels are non-decreasing along the sequence.
pub proof fn lemma_wf_levels(t: TableModel)
    requires
        sp_table_wf(t),
    ensures
        forall|k: int|
            0 <= k < t.symbols.len() ==> 0 <= #[trigger] t.symbols[k].scope_level
                <= t.current_scope,
        forall|k1: int, k2: int|
            0 <= k1 <= k2 < t.symbols.len() ==> #[trigger] t.symbols[k1].scope_level
                <= #[trigger] t.symbols[k2].scope_level,
{
    assert forall|k: int| 0 <= k < t.symbols.len() implies 0 <= #[trigger] t.symbols[k].scope_level
        <= t.current_scope by {
        lemma_level_at_bounds(t.scopes, k);
    }
    assert forall|k1: int, k2: int|
        0 <= k1 <= k2 < t.symbols.len() implies #[trigger] t.symbols[k1].scope_level
        <= #[trigger] t.symbols[k2].scope_level by {
        lemma_level_at_monotone(t.scopes, k1, k2);
    }
}

/// Entering a scope preserves well-formedness.
pub proof fn lemma_wf_enter(t: TableModel)
    requires
        sp_table_wf(t),
    ensures
        sp_table_wf(sp_enter_scope(t)),
{
    let t2 = sp_enter_scope(t);
    assert forall|k: int| 0 <= k < t2.symbols.len() implies #[trigger] t2.symbols[k].scope_level
        == sp_level_at(t2.scopes, k) by {
        assert(t2.scopes.drop_last() =~= t.scopes);
        assert(t2.scopes.last() == t.symbols.len() as int);
    }
}

/// Exiting a scope preserves well-formedness.
pub proof fn lemma_wf_exit(t: TableModel)
    requires
        sp_table_wf(t),
    ensures
        sp_table_wf(sp_exit_scope(t)),
{
    if t.scopes.len() > 0 {
        let t2 = sp_exit_scope(t);
        let b = t.scopes.last();
        assert(t2.scopes =~= t.scopes.drop_last());
        assert forall|k: int|
            0 <= k < t2.symbols.len() implies #[trigger] t2.symbols[k].scope_level == sp_level_at(
            t2.scopes,
            k,
        ) by {
            assert(t2.symbols[k] == t.symbols[k]);
            assert(sp_level_at(t.scopes, k) == sp_level_at(t.scopes.drop_last(), k) + if t.scopes.last()
                <= k {
                1int
            } else {
                0int
            });
        }
    }
}

/// A successful declaration preserves well-formedness.
pub proof fn lemma_wf_add(t: TableModel, name: Seq<char>, st: SymbolType, dt: DataType)
    requires
        sp_table_wf(t),
        !sp_declared_at_current(t, name),
    ensures
        sp_add_symbol(t, name, st, dt) matches Ok(t2) && sp_table_wf(t2),
{
    let t2 = sp_add_symbol(t, name, st, dt)->Ok_0;
    assert forall|k: int| 0 <= k < t2.symbols.len() implies #[trigger] t2.symbols[k].scope_level
        == sp_level_at(t2.scopes, k) by {
        if k < t.symbols.len() {
            assert(t2.symbols[k] == t.symbols[k]);
        } else {
            assert(t2.symbols[k].scope_level == t.current_scope);
            lemma_level_at_full(t.scopes, k);
        }
    }
}

// ---------------------------------------------------------------------------
// The executable table
// ---------------------------------------------------------------------------

impl SymbolTable {
    /// An empty table with no open scope.
    pub fn new() -> (t: SymbolTable)
        ensures
            t@.symbols.len() == 0,
            t@.scopes.len() == 0,
            t@.current_scope == 0,
            t@.declared.len() == 0,
            sp_table_wf(t@),
    {
        let t = SymbolTable {
            symbols: Vec::new(),
            scopes: Vec::new(),
            current_scope: 0,
            declared: Vec::new(),
        };
        proof {
            assert(t@.symbols =~= Seq::<SymbolModel>::empty());
            assert(t@.scopes =~= Seq::<int>::empty());
            assert(t@.declared =~= Seq::<SymbolModel>::empty());
        }
        t
    }

    /// Open a new scope: record the boundary and deepen the level.
    pub fn enter_scope(&mut self)
        requires
            sp_table_wf(old(self)@),
        ensures
            final(self)@ == sp_enter_scope(old(self)@),
            sp_table_wf(final(self)@),
    {
        let b = self.symbols.len();
        self.scopes.push(b);
        self.current_scope = self.scopes.len();
        proof {
            assert(self@.scopes =~= old(self)@.scopes.push(old(self)@.symbols.len() as int));
            assert(self@.symbols =~= old(self)@.symbols);
            assert(self@ == sp_enter_scope(old(self)@));
            lemma_wf_enter(old(self)@);
        }
    }

    /// Close the innermost scope, discarding the symbols declared in it;
    /// a no-op if no scope is open.
    pub fn exit_scope(&mut self)
        requires
            sp_table_wf(old(self)@),
        ensures
            final(self)@ == sp_exit_scope(old(self)@),
            sp_table_wf(final(self)@),
    {
        match self.scopes.pop() {
            Some(b) => {
                self.symbols.truncate(b);
                self.current_scope = self.scopes.len();
                proof {
                    assert(self@.scopes =~= old(self)@.scopes.drop_last());
                    assert(self@.symbols =~= old(self)@.symbols.subrange(
                        0,
                        old(self)@.scopes.last(),
                    ));
                    assert(self@ == sp_exit_scope(old(self)@));
                    lemma_wf_exit(old(self)@);
                }
            },
            None => {
                proof {
                    assert(self@.scopes =~= old(self)@.scopes);
                    assert(self@ == old(self)@);
                }
            },
        }
    }

    /// Declare a name at the current scope level. Fails with
    /// `DuplicateDeclaration` exactly when a symbol of the same name
    /// already exists at the exact current level; declarations in
    /// enclosing scopes do not conflict.
    pub fn add_symbol(
        &mut self,
        name: String,
        symbol_type: SymbolType,
        data_type: DataType,
    ) -> (r: Result<(), CompilationError>)
        requires
            sp_table_wf(old(self)@),
        ensures
            sp_table_wf(final(self)@),
            match r {
                Ok(_) => !sp_declared_at_current(old(self)@, name@) && Ok::<
                    TableModel,
                    CompilationErrorModel,
                >(final(self)@) == sp_add_symbol(old(self)@, name@, symbol_type, data_type),
                Err(e) => sp_declared_at_current(old(self)@, name@) && final(self)@ == old(self)@
                    && e@ == (CompilationErrorModel::DuplicateDeclaration {
                    name: name@,
                    location: None,
                }),
            },
    {
        proof {
            lemma_wf_levels(old(self)@);
        }
        let ghost t = self@;
        let mut k = self.symbols.len();
        let mut stopped = false;
        while k > 0 && !stopped
            invariant
                self == old(self),
                0 <= k <= t.symbols.len(),
                t == self@,
                sp_table_wf(t),
                forall|j: int|
                    k <= j < t.symbols.len() ==> !(#[trigger] t.symbols[j].name == name@
                        && t.symbols[j].scope_level == t.current_scope),
                stopped ==> forall|j: int|
                    0 <= j < k ==> #[trigger] t.symbols[j].scope_level < t.current_scope,
            decreases k + if stopped {
                0int
            } else {
                1int
            },
        {
            k = k - 1;
            let sym = &self.symbols[k];
            if str_eq(sym.name.as_str(), name.as_str()) && sym.scope_level == self.current_scope {
                proof {
                    assert(t.symbols[k as int] == sym@);
                    assert(t.symbols[k as int].name == name@);
                    assert(sp_declared_at_current(t, name@));
                }
                return Err(
                    CompilationError::DuplicateDeclaration { name, location: None },
                );
            }
            if sym.scope_level < self.current_scope {
                proof {
                    lemma_wf_levels(t);
                    assert(t.symbols[k as int] == sym@);
                    assert forall|j: int|
                        0 <= j < k implies #[trigger] t.symbols[j].scope_level
                        < t.current_scope by {
                        assert(t.symbols[j].scope_level <= t.symbols[k as int].scope_level);
                    }
                }
                stopped = true;
            } else {
                proof {
                    assert(!(t.symbols[k as int].name == name@ && t.symbols[k as int].scope_level
                        == t.current_scope));
                }
            }
        }
        proof {
            assert(!sp_declared_at_current(t, name@));
        }
        let level = self.current_scope;
        let recorded = Symbol { name: name.clone(), symbol_type, data_type, scope_level: level };
        let symbol = Symbol { name, symbol_type, data_type, scope_level: level };
        proof {
            lemma_wf_add(t, symbol.name@, symbol_type, data_type);
        }
        self.declared.push(recorded);
        self.symbols.push(symbol);
        proof {
            let sm = SymbolModel {
                name: symbol.name@,
                symbol_type,
                data_type,
                scope_level: t.current_scope,
            };
            assert(self@.symbols =~= t.symbols.push(sm));
            assert(self@.declared =~= t.declared.push(sm));
            assert(self@.scopes =~= t.scopes);
            assert(Ok::<TableModel, CompilationErrorModel>(self@) == sp_add_symbol(
                t,
                symbol.name@,
                symbol_type,
                data_type,
            ));
        }
        Ok(())
    }

    /// The innermost visible symbol of the given name: the nearest symbol,
    /// scanning backward, whose name matches and whose level does not
    /// exceed the current scope.
    pub fn lookup(&self, name: &str) -> (r: Option<&Symbol>)
        ensures
            match r {
                Some(sym) => sp_lookup(self@, name@) == Some(sym@),
                None => sp_lookup(self@, name@) is None,
            },
    {
        let ghost t = self@;
        let mut k = self.symbols.len();
        while k > 0
            invariant
                0 <= k <= t.symbols.len(),
                t == self@,
                sp_lookup(t, name@) == sp_lookup_from(t, name@, k - 1),
            decreases k,
        {
            k = k - 1;
            let sym = &self.symbols[k];
            if str_eq(sym.name.as_str(), name) && sym.scope_level <= self.current_scope {
                return Some(sym);
            }
        }
        None
    }
}

// ---------------------------------------------------------------------------
// Laws of the symbol table
// ---------------------------------------------------------------------------

/// Declaring the same name twice at one scope level fails the second time
/// with `DuplicateDeclaration`, whatever happened in between that left
/// the level and the first symbol in place.
pub proof fn lemma_duplicate_declaration(t: TableModel, name: Seq<char>)
    requires
        !sp_declared_at_current(t, name),
    ensures
        sp_add_symbol(t, name, SymbolType::Variable, DataType::Int) matches Ok(t1)
            && sp_add_symbol(t1, name, SymbolType::Variable, DataType::Int) == Err::<
            TableModel,
            CompilationErrorModel,
        >(CompilationErrorModel::DuplicateDeclaration { name, location: None }),
{
    let t1 = sp_add_symbol(t, name, SymbolType::Variable, DataType::Int)->Ok_0;
    assert(t1.symbols[t.symbols.len() as int].name == name);
    assert(sp_declared_at_current(t1, name));
}

/// Shadowing: after declaring a name, entering a scope and declaring the
/// same name again succeeds; lookup then resolves to the inner symbol;
/// exiting the scope discards it from the scan sequence, and lookup
/// resolves to the outer symbol again. The durable record keeps both
/// declarations, outer first.
pub proof fn lemma_shadowing(t: TableModel, name: Seq<char>)
    requires
        sp_table_wf(t),
        !sp_declared_at_current(t, name),
    ensures
        ({
            let t1 = sp_add_symbol(t, name, SymbolType::Variable, DataType::Int)->Ok_0;
            let t2 = sp_enter_scope(t1);
            &&& sp_add_symbol(t2, name, SymbolType::Variable, DataType::Int) is Ok
            &&& ({
                let t3 = sp_add_symbol(t2, name, SymbolType::Variable, DataType::Int)->Ok_0;
                let t4 = sp_exit_scope(t3);
                &&& sp_lookup(t3, name) matches Some(inner) && inner.name == name
                    && inner.scope_level == t.current_scope + 1
                &&& sp_lookup(t4, name) matches Some(outer) && outer.name == name
                    && outer.scope_level == t.current_scope
                &&& t4.symbols == t1.symbols
                &&& t4.declared.len() == t.declared.len() + 2
                &&& t4.declared[t.declared.len() as int].scope_level == t.current_scope
                &&& t4.declared[t.declared.len() as int + 1].scope_level == t.current_scope + 1
                &&& t4.declared[t.declared.len() as int].name == name
                &&& t4.declared[t.declared.len() as int + 1].name == name
            })
        }),
{
    lemma_wf_add(t, name, SymbolType::Variable, DataType::Int);
    let t1 = sp_add_symbol(t, name, SymbolType::Variable, DataType::Int)->Ok_0;
    lemma_wf_enter(t1);
    let t2 = sp_enter_scope(t1);
    lemma_wf_levels(t2);
    lemma_wf_levels(t1);
    assert(!sp_declared_at_current(t2, name)) by {
        if sp_declared_at_current(t2, name) {
            let k = choose|k: int|
                0 <= k < t2.symbols.len() && #[trigger] t2.symbols[k].name == name
                    && t2.symbols[k].scope_level == t2.current_scope;
            assert(t2.symbols[k] == t1.symbols[k]);
            assert(t1.symbols[k].scope_level <= t1.current_scope);
        }
    }
    lemma_wf_add(t2, name, SymbolType::Variable, DataType::Int);
    let t3 = sp_add_symbol(t2, name, SymbolType::Variable, DataType::Int)->Ok_0;
    let n = t3.symbols.len();
    assert(t3.symbols[n - 1].name == name);
    assert(t3.symbols[n - 1].scope_level == t2.current_scope);
    let t4 = sp_exit_scope(t3);
    assert(t4.symbols =~= t1.symbols);
    let m = t4.symbols.len();
    assert(t4.symbols[m - 1].name == name);
    assert(t4.symbols[m - 1].scope_level == t.current_scope);
}

} // verus!
