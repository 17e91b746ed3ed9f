//! The semantic analyzer.  Its behaviour is stated as a state-passing
//! functional model: each analysis step maps an analyzer state and a node of
//! the syntax tree to the next state and the annotated node.

use vstd::prelude::*;
use crate::resolution::{
    lemma_names_opt_mono, names_opt,
    lemma_scoped_items_mono, lemma_scoped_stmt_mono, lemma_scoped_stmts_mono, scoped_block,
    scoped_function, scoped_item, scoped_items, scoped_stmt, scoped_stmts,
    complete_block, complete_decl, complete_decls, complete_dims, complete_expr, complete_exprs,
    complete_function, complete_init, complete_inits, complete_items, complete_opt, complete_param,
    complete_params, complete_stmt, complete_stmts, extends, lemma_decls_mono, lemma_dims_mono,
    lemma_expr_mono, lemma_exprs_mono, lemma_init_mono, lemma_inits_mono, lemma_items_mono,
    lemma_opt_mono, lemma_params_mono, lemma_stmt_mono, lemma_stmts_mono, names_symbol,
    resolved_block, resolved_decl, resolved_decls, resolved_dims, resolved_expr, resolved_exprs,
    resolved_function, resolved_init, resolved_inits, resolved_item, resolved_items, resolved_opt,
    resolved_param, resolved_params, resolved_stmt, resolved_stmts,
};
use crate::ast::{
    BinaryOp, Block, Expr, ExprKind, ForInit, FunctionDef, Initializer, Item, Param, PostfixOp,
    Program, SourceLocation, SpecBlock, SpecExpr, SpecExprKind, SpecForInit, SpecFunctionDef,
    SpecInitializer, SpecItem, SpecParam, SpecProgram, SpecStmt, SpecVarDecl, Stmt, TypeName,
    UnaryOp, VarDecl, decls_view, dims_view, exprs_view, function_def_view, inits_view, items_view,
    lemma_decls_view_index, lemma_decls_view_len, lemma_dims_view_index, lemma_dims_view_len,
    lemma_exprs_view_index, lemma_exprs_view_len, lemma_inits_view_index, lemma_inits_view_len,
    lemma_items_view_index, lemma_items_view_len, lemma_params_view_index, lemma_params_view_len,
    lemma_stmts_view_index, lemma_stmts_view_len, opt_expr_view, params_view, stmts_view,
};
use crate::semantic::{
    ScopeId, ScopeInfo, SemanticAnalysis, SemanticBlock, SemanticError, SemanticExpr,
    SemanticExprKind, SemanticForInit, SemanticFunction, SemanticInitializer, SemanticItem,
    SemanticParam, SemanticProgram, SemanticStmt, SemanticType, SemanticVarDecl, SpecScope,
    SpecSemAnalysis, SpecSemBlock, SpecSemError, SpecSemExpr, SpecSemExprKind, SpecSemForInit,
    SpecSemFunction, SpecSemInitializer, SpecSemItem, SpecSemParam, SpecSemProgram, SpecSemStmt,
    SpecSemVarDecl, SpecSymbol, SpecType, Symbol, SymbolId, SymbolKind, append_decimal, decimal,
    entries_view, error_view, lemma_sem_empty_views, lemma_sem_exprs_view_index,
    lemma_sem_exprs_view_len, lemma_sem_exprs_view_push, lemma_sem_inits_view_index,
    lemma_sem_inits_view_len, lemma_sem_inits_view_push, lemma_sem_stmts_view_push,
    lemma_types_view_index, lemma_types_view_len, lemma_types_view_push, opt_sem_expr_view,
    opt_sem_init_view, scope_view, sem_decls_view, sem_dims_view, sem_exprs_view, sem_inits_view,
    sem_item_view, sem_param_view, sem_stmts_view, symbol_view, types_view,
};

verus! {

// ---------------------------------------------------------------------------
// State of the analyzer in the model
// ---------------------------------------------------------------------------

pub struct AnalyzerState {
    pub symbols: Seq<SpecSymbol>,
    pub scopes: Seq<SpecScope>,
    pub scope_stack: Seq<ScopeId>,
    pub errors: Seq<SpecSemError>,
    pub current_return_type: Option<TypeName>,
    pub loop_depth: usize,
}

/// The symbol table is consistent: symbol `i` and scope `i` carry the id
/// `i`; the global scope has no parent and every other scope has an earlier
/// one; a name is bound at most once in a scope; a binding of `name` to
/// `id` in scope `i` refers to symbol `id`, which is named `name` and was
/// declared in scope `i`; and every symbol is bound, under its name, in the
/// scope it was declared in.
pub open spec fn table_consistent(symbols: Seq<SpecSymbol>, scopes: Seq<SpecScope>) -> bool {
    &&& scopes.len() >= 1
    &&& scopes[0].parent is None
    &&& forall|i: int|
        0 <= i < symbols.len() ==> (#[trigger] symbols[i]).id.0 == i && symbols[i].scope_id.0 < scopes.len()
    &&& forall|i: int| 0 <= i < scopes.len() ==> (#[trigger] scopes[i]).id.0 == i
    &&& forall|i: int|
        1 <= i < scopes.len() ==> ((#[trigger] scopes[i]).parent matches Some(p) && p.0 < i)
    &&& forall|i: int, j: int, k: int|
        0 <= i < scopes.len() && 0 <= j < k < scopes[i].symbols.len()
            ==> #[trigger] scopes[i].symbols[j].0 != #[trigger] scopes[i].symbols[k].0
    &&& forall|i: int, j: int|
        0 <= i < scopes.len() && 0 <= j < scopes[i].symbols.len() ==> {
            let entry = #[trigger] scopes[i].symbols[j];
            &&& entry.1.0 < symbols.len()
            &&& symbols[entry.1.0 as int].name == entry.0
            &&& symbols[entry.1.0 as int].scope_id.0 == i
        }
    &&& forall|k: int|
        0 <= k < symbols.len() ==> find_entry(
            scopes[(#[trigger] symbols[k]).scope_id.0 as int].symbols,
            symbols[k].name,
            0,
        ) == Some(symbols[k].id)
}

/// Every scope on the stack exists, the symbol table is consistent, and no
/// symbol has the error type.
pub open spec fn state_wf(st: AnalyzerState) -> bool {
    &&& st.scopes.len() >= 1
    &&& st.scope_stack.len() >= 1
    &&& forall|i: int| 0 <= i < st.scope_stack.len() ==> (#[trigger] st.scope_stack[i]).0 < st.scopes.len()
    &&& table_consistent(st.symbols, st.scopes)
    &&& forall|i: int| 0 <= i < st.symbols.len() ==> !((#[trigger] st.symbols[i]).ty is Error)
}

pub proof fn lemma_find_entry_none(entries: Seq<(Seq<char>, SymbolId)>, name: Seq<char>, i: int)
    requires
        0 <= i,
        find_entry(entries, name, i) is None,
    ensures
        forall|j: int| i <= j < entries.len() ==> entries[j].0 != name,
    decreases entries.len() - i,
{
    if i < entries.len() {
        lemma_find_entry_none(entries, name, i + 1);
    }
}

pub open spec fn initial_state() -> AnalyzerState {
    AnalyzerState {
        symbols: seq![],
        scopes: seq![SpecScope { id: ScopeId(0), parent: None, symbols: seq![] }],
        scope_stack: seq![ScopeId(0)],
        errors: seq![],
        current_return_type: None,
        loop_depth: 0,
    }
}

pub open spec fn report(st: AnalyzerState, location: SourceLocation, message: Seq<char>) -> AnalyzerState {
    AnalyzerState { errors: st.errors.push(SpecSemError { location, message }), ..st }
}

pub open spec fn current_scope(st: AnalyzerState) -> ScopeId {
    st.scope_stack.last()
}

/// The symbol bound to `name` among `entries[i..]`, the first such binding.
pub open spec fn find_entry(entries: Seq<(Seq<char>, SymbolId)>, name: Seq<char>, i: int) -> Option<SymbolId>
    decreases entries.len() - i,
{
    if i < 0 || i >= entries.len() {
        None
    } else if entries[i].0 == name {
        Some(entries[i].1)
    } else {
        find_entry(entries, name, i + 1)
    }
}

pub open spec fn duplicate_message(name: Seq<char>) -> Seq<char> {
    "duplicate declaration of '"@ + name + "'"@
}

/// Declares `name` in the innermost scope; a name already declared there is
/// reported and gets no symbol.
pub open spec fn declare(
    st: AnalyzerState,
    name: Seq<char>,
    kind: SymbolKind,
    is_const: bool,
    ty: SpecType,
    location: SourceLocation,
) -> (AnalyzerState, Option<SymbolId>) {
    let cur = current_scope(st);
    let scope = st.scopes[cur.0 as int];
    if find_entry(scope.symbols, name, 0) is Some {
        (report(st, location, duplicate_message(name)), None)
    } else {
        let id = SymbolId(st.symbols.len() as usize);
        let symbol = SpecSymbol { id, name, kind, is_const, ty, scope_id: cur };
        let scope2 = SpecScope { symbols: scope.symbols.push((name, id)), ..scope };
        (
            AnalyzerState {
                symbols: st.symbols.push(symbol),
                scopes: st.scopes.update(cur.0 as int, scope2),
                ..st
            },
            Some(id),
        )
    }
}

/// The binding of `name` in the innermost of the `k` outermost scopes of the
/// stack that binds it.
pub open spec fn lookup_from(st: AnalyzerState, name: Seq<char>, k: int) -> Option<SymbolId>
    decreases k,
{
    if k <= 0 {
        None
    } else {
        let sid = st.scope_stack[k - 1];
        match find_entry(st.scopes[sid.0 as int].symbols, name, 0) {
            Some(id) => Some(id),
            None => lookup_from(st, name, k - 1),
        }
    }
}

pub open spec fn lookup(st: AnalyzerState, name: Seq<char>) -> Option<SymbolId> {
    lookup_from(st, name, st.scope_stack.len() as int)
}

pub open spec fn push_scope(st: AnalyzerState) -> (AnalyzerState, ScopeId) {
    let id = ScopeId(st.scopes.len() as usize);
    let scope = SpecScope { id, parent: Some(current_scope(st)), symbols: seq![] };
    (AnalyzerState { scopes: st.scopes.push(scope), scope_stack: st.scope_stack.push(id), ..st }, id)
}

pub open spec fn pop_scope(st: AnalyzerState) -> AnalyzerState {
    if st.scope_stack.len() > 1 {
        AnalyzerState { scope_stack: st.scope_stack.drop_last(), ..st }
    } else {
        st
    }
}

pub proof fn lemma_find_entry_found(entries: Seq<(Seq<char>, SymbolId)>, name: Seq<char>, i: int) -> (j: int)
    requires
        0 <= i,
        find_entry(entries, name, i) is Some,
    ensures
        i <= j < entries.len(),
        entries[j].0 == name,
        Some(entries[j].1) == find_entry(entries, name, i),
    decreases entries.len() - i,
{
    if entries[i].0 == name {
        i
    } else {
        lemma_find_entry_found(entries, name, i + 1)
    }
}

/// A lookup only finds a symbol of the name looked up.
pub proof fn lemma_lookup_sound(st: AnalyzerState, name: Seq<char>, k: int)
    requires
        state_wf(st),
        0 <= k <= st.scope_stack.len(),
    ensures
        lookup_from(st, name, k) matches Some(id) ==> names_symbol(st.symbols, name, id),
    decreases k,
{
    if k > 0 {
        let sid = st.scope_stack[k - 1];
        let entries = st.scopes[sid.0 as int].symbols;
        if find_entry(entries, name, 0) is Some {
            let j = lemma_find_entry_found(entries, name, 0);
            assert(entries[j] == st.scopes[sid.0 as int].symbols[j]);
        } else {
            lemma_lookup_sound(st, name, k - 1);
        }
    }
}

// ---------------------------------------------------------------------------
// Laws of the symbol table
// ---------------------------------------------------------------------------

pub proof fn lemma_find_entry_push(entries: Seq<(Seq<char>, SymbolId)>, x: (Seq<char>, SymbolId), name: Seq<char>, i: int)
    requires
        0 <= i <= entries.len(),
    ensures
        find_entry(entries.push(x), name, i) == match find_entry(entries, name, i) {
            Some(id) => Some(id),
            None => if x.0 == name { Some(x.1) } else { None },
        },
    decreases entries.len() - i,
{
    if i < entries.len() {
        assert(entries.push(x)[i] == entries[i]);
        lemma_find_entry_push(entries, x, name, i + 1);
    } else {
        assert(entries.push(x)[i] == x);
        assert(find_entry(entries.push(x), name, i + 1) is None);
    }
}

/// `lookup_from` sees the scopes only through what they bind to `name`.
pub proof fn lemma_lookup_from_same_finds(a: AnalyzerState, b: AnalyzerState, name: Seq<char>, k: int)
    requires
        0 <= k <= a.scope_stack.len(),
        k <= b.scope_stack.len(),
        forall|j: int|
            0 <= j < k ==> find_entry(a.scopes[(#[trigger] a.scope_stack[j]).0 as int].symbols, name, 0)
                == find_entry(b.scopes[b.scope_stack[j].0 as int].symbols, name, 0),
    ensures
        lookup_from(a, name, k) == lookup_from(b, name, k),
    decreases k,
{
    if k > 0 {
        assert(a.scope_stack[k - 1] == a.scope_stack[k - 1]);
        lemma_lookup_from_same_finds(a, b, name, k - 1);
    }
}

/// A name just declared is found by the next lookup, as the symbol the
/// declaration created, whatever outer scopes bind it to.
pub proof fn law_declare_then_lookup(
    st: AnalyzerState,
    name: Seq<char>,
    kind: SymbolKind,
    is_const: bool,
    ty: SpecType,
    location: SourceLocation,
)
    requires
        state_wf(st),
        declare(st, name, kind, is_const, ty, location).1 is Some,
    ensures
        lookup(declare(st, name, kind, is_const, ty, location).0, name)
            == declare(st, name, kind, is_const, ty, location).1,
        declare(st, name, kind, is_const, ty, location).0.symbols.last().name == name,
{
    let cur = current_scope(st);
    let entries = st.scopes[cur.0 as int].symbols;
    let (st2, sid) = declare(st, name, kind, is_const, ty, location);
    let id = SymbolId(st.symbols.len() as usize);
    lemma_find_entry_push(entries, (name, id), name, 0);
    assert(st2.scopes[cur.0 as int].symbols == entries.push((name, id)));
    assert(st2.scope_stack == st.scope_stack);
}

/// A second declaration of a name in the same scope is refused: it is
/// reported, creates no symbol and changes no binding.
pub proof fn law_duplicate_declaration_refused(
    st: AnalyzerState,
    name: Seq<char>,
    kind: SymbolKind,
    is_const: bool,
    ty: SpecType,
    location: SourceLocation,
)
    requires
        state_wf(st),
        find_entry(st.scopes[current_scope(st).0 as int].symbols, name, 0) is Some,
    ensures
        declare(st, name, kind, is_const, ty, location).1 is None,
        declare(st, name, kind, is_const, ty, location).0 == report(st, location, duplicate_message(name)),
{
}

/// Declaring a name leaves the lookup of every other name unchanged.
pub proof fn law_declare_keeps_other_lookups(
    st: AnalyzerState,
    name: Seq<char>,
    kind: SymbolKind,
    is_const: bool,
    ty: SpecType,
    location: SourceLocation,
    other: Seq<char>,
)
    requires
        state_wf(st),
        other != name,
    ensures
        lookup(declare(st, name, kind, is_const, ty, location).0, other) == lookup(st, other),
{
    let cur = current_scope(st);
    let entries = st.scopes[cur.0 as int].symbols;
    let st2 = declare(st, name, kind, is_const, ty, location).0;
    let id = SymbolId(st.symbols.len() as usize);
    lemma_find_entry_push(entries, (name, id), other, 0);
    assert forall|j: int| 0 <= j < st2.scope_stack.len() implies find_entry(st2.scopes[(#[trigger] st2.scope_stack[j]).0 as int].symbols, other, 0)
        == find_entry(st.scopes[st.scope_stack[j].0 as int].symbols, other, 0) by {
        assert(st2.scope_stack[j] == st.scope_stack[j]);
        assert(st.scope_stack[j].0 < st.scopes.len());
    }
    lemma_lookup_from_same_finds(st2, st, other, st.scope_stack.len() as int);
}

/// Closing a scope undoes opening it: the names declared inside it are no
/// longer visible and every lookup answers as before the scope was opened.
pub proof fn law_closed_scope_is_forgotten(
    st: AnalyzerState,
    name: Seq<char>,
    kind: SymbolKind,
    is_const: bool,
    ty: SpecType,
    location: SourceLocation,
    other: Seq<char>,
)
    requires
        state_wf(st),
        st.scopes.len() < usize::MAX,
    ensures
        pop_scope(push_scope(st).0).scope_stack == st.scope_stack,
        lookup(pop_scope(declare(push_scope(st).0, name, kind, is_const, ty, location).0), other)
            == lookup(st, other),
{
    let (st1, sid) = push_scope(st);
    let st2 = declare(st1, name, kind, is_const, ty, location).0;
    let st3 = pop_scope(st2);
    assert(st1.scope_stack.len() > 1);
    assert(st3.scope_stack =~= st.scope_stack);
    assert(pop_scope(st1).scope_stack =~= st.scope_stack);
    assert forall|j: int| 0 <= j < st3.scope_stack.len() implies find_entry(st3.scopes[(#[trigger] st3.scope_stack[j]).0 as int].symbols, other, 0)
        == find_entry(st.scopes[st.scope_stack[j].0 as int].symbols, other, 0) by {
        assert(st3.scope_stack[j] == st.scope_stack[j]);
        let k = st.scope_stack[j].0 as int;
        assert(k < st.scopes.len());
        assert(st1.scopes[k] == st.scopes[k]);
        assert(current_scope(st1) == sid);
        assert(st2.scopes[k] == st1.scopes[k]);
    }
    lemma_lookup_from_same_finds(st3, st, other, st.scope_stack.len() as int);
}

/// Leaving a loop restores the loop depth that entering it raised.
pub proof fn law_loop_depth_restored(st: AnalyzerState)
    ensures
        with_loop_depth(enter_loop(st), st.loop_depth) == st,
{
}

pub open spec fn enter_loop(st: AnalyzerState) -> AnalyzerState {
    AnalyzerState {
        loop_depth: if st.loop_depth < usize::MAX { (st.loop_depth + 1) as usize } else { st.loop_depth },
        ..st
    }
}

pub open spec fn with_loop_depth(st: AnalyzerState, depth: usize) -> AnalyzerState {
    AnalyzerState { loop_depth: depth, ..st }
}

// ---------------------------------------------------------------------------
// Types
// ---------------------------------------------------------------------------

pub open spec fn scalar_type(t: TypeName) -> SpecType {
    match t {
        TypeName::Int => SpecType::Int,
        TypeName::Float => SpecType::Float,
        TypeName::Void => SpecType::Void,
    }
}

pub open spec fn declared_type(base: TypeName, rank: usize) -> SpecType {
    if rank == 0 {
        scalar_type(base)
    } else {
        SpecType::Array { element: base, rank }
    }
}

pub open spec fn promote_numeric(left: SpecType, right: SpecType) -> SpecType {
    if left is Float || right is Float {
        SpecType::Float
    } else if left is Error || right is Error {
        SpecType::Error
    } else {
        SpecType::Int
    }
}

pub open spec fn is_scalar(t: SpecType) -> bool {
    t is Int || t is Float
}

pub open spec fn is_assignable(expected: SpecType, actual: SpecType) -> bool {
    if expected is Error || actual is Error {
        true
    } else if is_scalar(expected) && is_scalar(actual) {
        true
    } else if expected is Array && actual is Array {
        expected->element == actual->element && expected->rank == actual->rank
    } else {
        false
    }
}

/// Assignment compatibility is symmetric: a value of type `b` may be stored
/// where `a` is expected exactly when a value of type `a` may be stored where
/// `b` is expected.
pub proof fn law_assignable_symmetric(a: SpecType, b: SpecType)
    ensures
        is_assignable(a, b) == is_assignable(b, a),
{
}

/// The error type is compatible with every type, so one mistake is not
/// reported again by every check that uses its result.
pub proof fn law_error_type_is_compatible(t: SpecType)
    ensures
        is_assignable(SpecType::Error, t),
        is_assignable(t, SpecType::Error),
{
}

/// Numeric promotion does not depend on the order of the operands.
pub proof fn law_promotion_commutative(a: SpecType, b: SpecType)
    ensures
        promote_numeric(a, b) == promote_numeric(b, a),
{
}

/// The type of an element of an array type; `None` for a type that has none.
pub open spec fn element_type(t: SpecType) -> Option<SpecType> {
    match t {
        SpecType::Array { element, rank } => if rank > 1 {
            Some(SpecType::Array { element, rank: (rank - 1) as usize })
        } else if rank == 1 {
            Some(scalar_type(element))
        } else {
            None
        },
        SpecType::Error => Some(SpecType::Error),
        _ => None,
    }
}

pub open spec fn type_name_str(t: TypeName) -> Seq<char> {
    match t {
        TypeName::Int => "int"@,
        TypeName::Float => "float"@,
        TypeName::Void => "void"@,
    }
}

pub open spec fn brackets(n: nat) -> Seq<char>
    decreases n,
{
    if n == 0 {
        seq![]
    } else {
        brackets((n - 1) as nat) + "[]"@
    }
}

pub open spec fn type_str(t: SpecType) -> Seq<char>
    decreases t,
{
    match t {
        SpecType::Int => "int"@,
        SpecType::Float => "float"@,
        SpecType::Void => "void"@,
        SpecType::Array { element, rank } => type_name_str(element) + brackets(rank as nat),
        SpecType::Function { return_type, params } => "fn("@ + join_types(params) + ") -> "@
            + type_name_str(return_type),
        SpecType::Error => "<error>"@,
    }
}

pub open spec fn join_types(ps: Seq<SpecType>) -> Seq<char>
    decreases ps,
{
    if ps.len() == 0 {
        seq![]
    } else if ps.len() == 1 {
        type_str(ps[0])
    } else {
        join_types(ps.drop_last()) + ", "@ + type_str(ps.last())
    }
}

// ---------------------------------------------------------------------------
// Checks on annotated expressions
// ---------------------------------------------------------------------------

pub open spec fn is_mutable_lvalue(st: AnalyzerState, e: SpecSemExpr) -> bool
    decreases e,
{
    match e.kind {
        SpecSemExprKind::Ident { symbol_id, .. } => match symbol_id {
            Some(id) => id.0 < st.symbols.len() && st.symbols[id.0 as int].kind != SymbolKind::Function
                && !st.symbols[id.0 as int].is_const,
            None => false,
        },
        SpecSemExprKind::Index { array, .. } => is_mutable_lvalue(st, *array),
        _ => false,
    }
}

pub open spec fn is_const_expr(st: AnalyzerState, e: SpecSemExpr) -> bool
    decreases e,
{
    match e.kind {
        SpecSemExprKind::Ident { symbol_id, .. } => match symbol_id {
            Some(id) => id.0 < st.symbols.len() && st.symbols[id.0 as int].is_const,
            None => false,
        },
        SpecSemExprKind::IntLiteral(_) => true,
        SpecSemExprKind::FloatLiteral(_) => true,
        SpecSemExprKind::Unary { op, expr } => (op == UnaryOp::Plus || op == UnaryOp::Minus
            || op == UnaryOp::Not) && is_const_expr(st, *expr),
        SpecSemExprKind::Binary { left, right, .. } => is_const_expr(st, *left) && is_const_expr(st, *right),
        SpecSemExprKind::Index { array, index } => is_const_expr(st, *array) && is_const_expr(st, *index),
        _ => false,
    }
}

pub open spec fn is_const_init(st: AnalyzerState, i: SpecSemInitializer) -> bool
    decreases i,
{
    match i {
        SpecSemInitializer::Expr(e) => is_const_expr(st, e),
        SpecSemInitializer::List(items) => all_const_inits(st, items),
    }
}

pub open spec fn all_const_inits(st: AnalyzerState, items: Seq<SpecSemInitializer>) -> bool
    decreases items,
{
    if items.len() == 0 {
        true
    } else {
        all_const_inits(st, items.drop_last()) && is_const_init(st, items.last())
    }
}

pub open spec fn require_condition(st: AnalyzerState, e: SpecSemExpr) -> AnalyzerState {
    if !is_scalar(e.ty) && !(e.ty is Error) {
        report(st, e.location, "condition must be a scalar expression, found "@ + type_str(e.ty))
    } else {
        st
    }
}

pub open spec fn check_return(st: AnalyzerState, location: SourceLocation, e: Option<SpecSemExpr>) -> AnalyzerState {
    match st.current_return_type {
        None => st,
        Some(TypeName::Void) => match e {
            Some(e) => report(st, location, "void function cannot return a value of type "@ + type_str(e.ty)),
            None => st,
        },
        Some(t) => match e {
            Some(e) => if !is_assignable(scalar_type(t), e.ty) {
                report(
                    st,
                    location,
                    "expected return type "@ + type_str(scalar_type(t)) + ", found "@ + type_str(e.ty),
                )
            } else {
                st
            },
            None => report(st, location, "missing return value for function returning "@ + type_str(scalar_type(t))),
        },
    }
}

pub open spec fn check_const_declaration(
    st: AnalyzerState,
    is_const: bool,
    init: Option<SpecSemInitializer>,
    location: SourceLocation,
) -> AnalyzerState {
    if !is_const {
        st
    } else {
        match init {
            None => report(st, location, "const declarations require an initializer"@),
            Some(i) => if !is_const_init(st, i) {
                report(st, location, "const initializer must be a constant expression"@)
            } else {
                st
            },
        }
    }
}

/// Reports each argument, among the first `n` pairs, that its parameter's
/// type does not accept.
pub open spec fn check_args(st: AnalyzerState, params: Seq<SpecType>, args: Seq<SpecSemExpr>, n: nat) -> AnalyzerState
    decreases n,
{
    if n == 0 {
        st
    } else {
        let st1 = check_args(st, params, args, (n - 1) as nat);
        let k = n - 1;
        if !is_assignable(params[k], args[k].ty) {
            report(st1, args[k].location, "expected "@ + type_str(params[k]) + ", found "@ + type_str(args[k].ty))
        } else {
            st1
        }
    }
}

pub open spec fn min_len(a: nat, b: nat) -> nat {
    if a < b { a } else { b }
}

// ---------------------------------------------------------------------------
// Expressions
// ---------------------------------------------------------------------------

pub open spec fn expr_size(e: SpecExpr) -> nat
    decreases e,
{
    match e.kind {
        SpecExprKind::Unary { expr, .. } => 1 + expr_size(*expr),
        SpecExprKind::Binary { left, right, .. } => 1 + expr_size(*left) + expr_size(*right),
        SpecExprKind::Assign { target, value } => 1 + expr_size(*target) + expr_size(*value),
        SpecExprKind::Call { callee, args } => 1 + expr_size(*callee) + exprs_size(args),
        SpecExprKind::Index { array, index } => 1 + expr_size(*array) + expr_size(*index),
        SpecExprKind::Postfix { expr, .. } => 1 + expr_size(*expr),
        _ => 1,
    }
}

pub open spec fn exprs_size(es: Seq<SpecExpr>) -> nat
    decreases es,
{
    if es.len() == 0 {
        0
    } else {
        exprs_size(es.drop_last()) + expr_size(es.last())
    }
}

pub proof fn lemma_expr_size_pos(e: SpecExpr)
    ensures
        expr_size(e) >= 1,
{
}

pub proof fn lemma_exprs_size_elem(s: Seq<SpecExpr>, i: int)
    requires
        0 <= i < s.len(),
    ensures
        expr_size(s[i]) <= exprs_size(s),
    decreases s.len(),
{
    if i < s.len() - 1 {
        lemma_exprs_size_elem(s.drop_last(), i);
    }
}

pub open spec fn sem(location: SourceLocation, ty: SpecType, kind: SpecSemExprKind) -> SpecSemExpr {
    SpecSemExpr { location, ty, kind }
}

#[verifier::opaque]
pub open spec fn sa_expr(st: AnalyzerState, e: SpecExpr) -> (AnalyzerState, SpecSemExpr)
    decreases expr_size(e), 1nat,
{
    match e.kind {
        SpecExprKind::Ident(name) => match lookup(st, name) {
            Some(id) => (st, sem(e.location, st.symbols[id.0 as int].ty, SpecSemExprKind::Ident { name, symbol_id: Some(id) })),
            None => (
                report(st, e.location, "use of undeclared identifier"@),
                sem(e.location, SpecType::Error, SpecSemExprKind::Ident { name, symbol_id: None }),
            ),
        },
        SpecExprKind::IntLiteral(v) => (st, sem(e.location, SpecType::Int, SpecSemExprKind::IntLiteral(v))),
        SpecExprKind::FloatLiteral(v) => (st, sem(e.location, SpecType::Float, SpecSemExprKind::FloatLiteral(v))),
        // The operand's own location is the one reported for unary and postfix operators.
        SpecExprKind::Unary { op, expr } => sa_unary(st, expr.location, op, *expr),
        SpecExprKind::Binary { op, left, right } => sa_binary(st, e.location, op, *left, *right),
        SpecExprKind::Assign { target, value } => sa_assign(st, e.location, *target, *value),
        SpecExprKind::Call { callee, args } => sa_call(st, e.location, *callee, args),
        SpecExprKind::Index { array, index } => sa_index(st, e.location, *array, *index),
        SpecExprKind::Postfix { op, expr } => sa_postfix(st, expr.location, op, *expr),
    }
}

pub open spec fn lvalue_numeric_type(st: AnalyzerState, location: SourceLocation, x: SpecSemExpr) -> (AnalyzerState, SpecType) {
    if !is_mutable_lvalue(st, x) {
        (report(st, location, "operand must be a modifiable lvalue"@), SpecType::Error)
    } else if !is_scalar(x.ty) {
        (report(st, location, "operand must be a numeric scalar, found "@ + type_str(x.ty)), SpecType::Error)
    } else {
        (st, x.ty)
    }
}

#[verifier::opaque]
pub open spec fn sa_unary(st: AnalyzerState, location: SourceLocation, op: UnaryOp, operand: SpecExpr) -> (AnalyzerState, SpecSemExpr)
    decreases expr_size(operand) + 1, 0nat,
{
    let (st1, x) = sa_expr(st, operand);
    let (st2, ty) = match op {
        UnaryOp::Plus | UnaryOp::Minus => if is_scalar(x.ty) {
            (st1, x.ty)
        } else {
            (report(st1, location, "operator requires a numeric operand, found "@ + type_str(x.ty)), SpecType::Error)
        },
        UnaryOp::Not => if is_scalar(x.ty) {
            (st1, SpecType::Int)
        } else {
            (report(st1, location, "operator requires a scalar operand, found "@ + type_str(x.ty)), SpecType::Error)
        },
        UnaryOp::PreInc | UnaryOp::PreDec => lvalue_numeric_type(st1, location, x),
    };
    (st2, sem(location, ty, SpecSemExprKind::Unary { op, expr: Box::new(x) }))
}

pub open spec fn binary_type(st: AnalyzerState, location: SourceLocation, op: BinaryOp, l: SpecType, r: SpecType) -> (AnalyzerState, SpecType) {
    let pair = type_str(l) + " and "@ + type_str(r);
    match op {
        BinaryOp::Add | BinaryOp::Sub | BinaryOp::Mul | BinaryOp::Div => if is_scalar(l) && is_scalar(r) {
            (st, promote_numeric(l, r))
        } else {
            (report(st, location, "operator requires numeric scalars, found "@ + pair), SpecType::Error)
        },
        BinaryOp::Mod => if l is Int && r is Int {
            (st, SpecType::Int)
        } else {
            (report(st, location, "operator % requires int operands, found "@ + pair), SpecType::Error)
        },
        BinaryOp::And | BinaryOp::Or => if is_scalar(l) && is_scalar(r) {
            (st, SpecType::Int)
        } else {
            (report(st, location, "logical operator requires scalar operands, found "@ + pair), SpecType::Error)
        },
        _ => if is_scalar(l) && is_scalar(r) {
            (st, SpecType::Int)
        } else {
            (report(st, location, "comparison requires numeric scalars, found "@ + pair), SpecType::Error)
        },
    }
}

/// Typing of binary operators.  `+ - * /` take two `int`/`float` operands
/// and give `float` when either is `float`, `int` otherwise; `%` takes two
/// `int` operands and gives `int`; comparisons, `&&` and `||` take two
/// `int`/`float` operands and give `int`.  Any other operands give the error
/// type and exactly one error at the operator's location; well-typed
/// operands add no error.  Nothing else in the state changes.
pub proof fn law_binary_type(st: AnalyzerState, location: SourceLocation, op: BinaryOp, l: SpecType, r: SpecType)
    ensures
        ({
            let (st1, ty) = binary_type(st, location, op, l, r);
            let arithmetic = op == BinaryOp::Add || op == BinaryOp::Sub || op == BinaryOp::Mul || op == BinaryOp::Div;
            let scalars = (l is Int || l is Float) && (r is Int || r is Float);
            let accepted = if op == BinaryOp::Mod { l is Int && r is Int } else { scalars };
            &&& st1 == (AnalyzerState { errors: st1.errors, ..st })
            &&& (accepted ==> st1.errors == st.errors)
            &&& (!accepted ==> ty is Error && st1.errors.len() == st.errors.len() + 1
                && st1.errors.drop_last() == st.errors && st1.errors.last().location == location)
            &&& (accepted && arithmetic ==> (ty is Float <==> (l is Float || r is Float)) && (ty is Int <==> (l is Int && r is Int)))
            &&& (accepted && !arithmetic ==> ty is Int)
        }),
{
    let (st1, ty) = binary_type(st, location, op, l, r);
    if st1.errors.len() == st.errors.len() + 1 {
        assert(st1.errors.drop_last() =~= st.errors);
    }
}

#[verifier::opaque]
pub open spec fn sa_binary(st: AnalyzerState, location: SourceLocation, op: BinaryOp, left: SpecExpr, right: SpecExpr) -> (AnalyzerState, SpecSemExpr)
    decreases expr_size(left) + expr_size(right) + 1, 0nat,
{
    let (st1, l) = sa_expr(st, left);
    let (st2, r) = sa_expr(st1, right);
    let (st3, ty) = binary_type(st2, location, op, l.ty, r.ty);
    (st3, sem(location, ty, SpecSemExprKind::Binary { op, left: Box::new(l), right: Box::new(r) }))
}

#[verifier::opaque]
pub open spec fn sa_assign(st: AnalyzerState, location: SourceLocation, target: SpecExpr, value: SpecExpr) -> (AnalyzerState, SpecSemExpr)
    decreases expr_size(target) + expr_size(value) + 1, 0nat,
{
    let (st1, t) = sa_expr(st, target);
    let (st2, v) = sa_expr(st1, value);
    let (st3, ty) = if !is_mutable_lvalue(st2, t) {
        (report(st2, location, "left-hand side must be a modifiable lvalue"@), SpecType::Error)
    } else if !is_assignable(t.ty, v.ty) {
        (report(st2, location, "cannot assign "@ + type_str(v.ty) + " to "@ + type_str(t.ty)), SpecType::Error)
    } else {
        (st2, t.ty)
    };
    (st3, sem(location, ty, SpecSemExprKind::Assign { target: Box::new(t), value: Box::new(v) }))
}

#[verifier::opaque]
pub open spec fn sa_args(st: AnalyzerState, args: Seq<SpecExpr>) -> (AnalyzerState, Seq<SpecSemExpr>)
    decreases exprs_size(args), 2nat,
{
    if args.len() == 0 {
        (st, seq![])
    } else {
        proof {
            lemma_expr_size_pos(args.last());
        }
        let (st1, xs) = sa_args(st, args.drop_last());
        let (st2, x) = sa_expr(st1, args.last());
        (st2, xs.push(x))
    }
}

pub open spec fn arity_message(expected: nat, found: nat) -> Seq<char> {
    "expected "@ + decimal(expected) + " arguments, found "@ + decimal(found)
}

/// Assignment compatibility: the error type is compatible with everything,
/// `int` and `float` with each other in either direction, and two array
/// types exactly when their element types and ranks agree.  Nothing else is
/// compatible: an array is never compatible with a scalar, and `void` and
/// function types are compatible with nothing but the error type.
pub proof fn law_assignable(expected: SpecType, actual: SpecType)
    ensures
        expected is Error || actual is Error ==> is_assignable(expected, actual),
        (expected is Int || expected is Float) && (actual is Int || actual is Float) ==> is_assignable(expected, actual),
        expected is Array && actual is Array ==> (is_assignable(expected, actual) <==> (
            expected->element == actual->element && expected->rank == actual->rank)),
        (expected is Array) != (actual is Array) && !(expected is Error) && !(actual is Error) ==> !is_assignable(expected, actual),
        (expected is Void || expected is Function || actual is Void || actual is Function) && !(expected is Error)
            && !(actual is Error) ==> !is_assignable(expected, actual),
{
}

/// The error reported for an argument whose type does not fit its parameter.
pub open spec fn argument_error(param: SpecType, arg: SpecSemExpr) -> SpecSemError {
    SpecSemError { location: arg.location, message: "expected "@ + type_str(param) + ", found "@ + type_str(arg.ty) }
}

pub proof fn lemma_check_args(st: AnalyzerState, params: Seq<SpecType>, args: Seq<SpecSemExpr>, n: nat)
    requires
        n <= params.len(),
        n <= args.len(),
    ensures
        check_args(st, params, args, n) == (AnalyzerState { errors: check_args(st, params, args, n).errors, ..st }),
        st.errors.len() <= check_args(st, params, args, n).errors.len(),
        check_args(st, params, args, n).errors.subrange(0, st.errors.len() as int) == st.errors,
        forall|k: int| 0 <= k < n && !is_assignable(params[k], #[trigger] args[k].ty)
            ==> check_args(st, params, args, n).errors.contains(argument_error(params[k], args[k])),
        (forall|k: int| 0 <= k < n ==> is_assignable(params[k], #[trigger] args[k].ty)) ==> check_args(st, params, args, n) == st,
    decreases n,
{
    if n > 0 {
        let m = (n - 1) as nat;
        lemma_check_args(st, params, args, m);
        let st1 = check_args(st, params, args, m);
        let r = check_args(st, params, args, n);
        assert(r.errors.subrange(0, st1.errors.len() as int) == st1.errors);
        assert(r.errors.subrange(0, st.errors.len() as int) =~= st.errors) by {
            assert(st1.errors.subrange(0, st.errors.len() as int) == st.errors);
        }
        assert forall|k: int| 0 <= k < n && !is_assignable(params[k], #[trigger] args[k].ty)
            implies r.errors.contains(argument_error(params[k], args[k])) by {
            if k < m {
                let e = argument_error(params[k], args[k]);
                assert(st1.errors.contains(e));
                let i = choose|i: int| 0 <= i < st1.errors.len() && st1.errors[i] == e;
                assert(r.errors[i] == st1.errors[i]);
            } else {
                assert(r.errors[st1.errors.len() as int] == argument_error(params[k], args[k]));
            }
        }
    }
}

/// What a call of a function type checks.  With `n` parameters and `m`
/// arguments, when `m != n` (too many as well as too few) the first error
/// the call adds is the arity error at the call's location.  Among the first
/// `min(n, m)` arguments, each whose type is not assignable to its parameter
/// gets an error at its own location; in particular an array argument whose
/// element type or rank differs from an array parameter's does.  A call
/// with the right number of assignable arguments adds no error.  Earlier
/// errors are kept.
pub proof fn law_call_checks(st: AnalyzerState, location: SourceLocation, c: SpecSemExpr, xs: Seq<SpecSemExpr>)
    requires
        c.ty is Function,
    ensures
        ({
            let ps = c.ty->params;
            let r = finish_call(st, location, c, xs).0;
            &&& st.errors.len() <= r.errors.len()
            &&& r.errors.subrange(0, st.errors.len() as int) == st.errors
            &&& (ps.len() != xs.len() ==> r.errors.len() > st.errors.len() && r.errors[st.errors.len() as int] == (
                SpecSemError { location, message: arity_message(ps.len(), xs.len()) }))
            &&& (forall|k: int| 0 <= k < ps.len() && k < xs.len() && !is_assignable(ps[k], #[trigger] xs[k].ty)
                ==> r.errors.contains(argument_error(ps[k], xs[k])))
            &&& (forall|k: int| 0 <= k < ps.len() && k < xs.len() && ps[k] is Array && #[trigger] xs[k].ty is Array && (
                ps[k]->element != xs[k].ty->element || ps[k]->rank != xs[k].ty->rank)
                ==> r.errors.contains(argument_error(ps[k], xs[k])))
            &&& (ps.len() == xs.len() && (forall|k: int| 0 <= k < ps.len() ==> is_assignable(ps[k], #[trigger] xs[k].ty))
                ==> r.errors == st.errors)
        }),
        ({
            let x = finish_call(st, location, c, xs).1;
            let rt = c.ty->return_type;
            &&& x.location == location
            &&& (rt == TypeName::Int ==> x.ty == SpecType::Int)
            &&& (rt == TypeName::Float ==> x.ty == SpecType::Float)
            &&& (rt == TypeName::Void ==> x.ty == SpecType::Void)
            &&& x.kind matches SpecSemExprKind::Call { callee, args, function_symbol } && *callee == c && args == xs
                && function_symbol == (match c.kind {
                SpecSemExprKind::Ident { symbol_id, .. } => symbol_id,
                _ => None,
            })
        }),
{
    let ps = c.ty->params;
    let st1 = if ps.len() != xs.len() {
        report(st, location, arity_message(ps.len(), xs.len()))
    } else {
        st
    };
    let n = min_len(ps.len(), xs.len());
    lemma_check_args(st1, ps, xs, n);
    let r = finish_call(st, location, c, xs).0;
    assert(r == check_args(st1, ps, xs, n));
    assert(st1.errors.subrange(0, st.errors.len() as int) =~= st.errors);
    assert(r.errors.subrange(0, st.errors.len() as int) =~= st.errors) by {
        assert(r.errors.subrange(0, st1.errors.len() as int) == st1.errors);
    }
    if ps.len() != xs.len() {
        assert(r.errors[st.errors.len() as int] == r.errors.subrange(0, st1.errors.len() as int)[st.errors.len() as int]);
    }
    assert forall|k: int| 0 <= k < ps.len() && k < xs.len() && ps[k] is Array && #[trigger] xs[k].ty is Array && (
        ps[k]->element != xs[k].ty->element || ps[k]->rank != xs[k].ty->rank)
        implies r.errors.contains(argument_error(ps[k], xs[k])) by {
        law_assignable(ps[k], xs[k].ty);
    }
}

/// What follows the analysis of the callee and of the arguments of a call.
pub open spec fn finish_call(st: AnalyzerState, location: SourceLocation, c: SpecSemExpr, xs: Seq<SpecSemExpr>) -> (AnalyzerState, SpecSemExpr) {
    match c.ty {
        SpecType::Function { return_type, params } => {
            let st1 = if params.len() != xs.len() {
                report(st, location, arity_message(params.len(), xs.len()))
            } else {
                st
            };
            let st2 = check_args(st1, params, xs, min_len(params.len(), xs.len()));
            let fsym = match c.kind {
                SpecSemExprKind::Ident { symbol_id, .. } => symbol_id,
                _ => None,
            };
            (st2, sem(location, scalar_type(return_type), SpecSemExprKind::Call { callee: Box::new(c), args: xs, function_symbol: fsym }))
        },
        SpecType::Error => (st, sem(location, SpecType::Error, SpecSemExprKind::Call { callee: Box::new(c), args: xs, function_symbol: None })),
        _ => (
            report(st, location, "callee is not a function, found "@ + type_str(c.ty)),
            sem(location, SpecType::Error, SpecSemExprKind::Call { callee: Box::new(c), args: xs, function_symbol: None }),
        ),
    }
}

#[verifier::opaque]
pub open spec fn sa_call(st: AnalyzerState, location: SourceLocation, callee: SpecExpr, args: Seq<SpecExpr>) -> (AnalyzerState, SpecSemExpr)
    decreases expr_size(callee) + exprs_size(args) + 1, 0nat,
{
    let (st1, c) = sa_expr(st, callee);
    let (st2, xs) = sa_args(st1, args);
    finish_call(st2, location, c, xs)
}

#[verifier::opaque]
pub open spec fn sa_index(st: AnalyzerState, location: SourceLocation, array: SpecExpr, index: SpecExpr) -> (AnalyzerState, SpecSemExpr)
    decreases expr_size(array) + expr_size(index) + 1, 0nat,
{
    let (st1, a) = sa_expr(st, array);
    let (st2, i) = sa_expr(st1, index);
    let st3 = if !(i.ty is Int) && !(i.ty is Error) {
        report(st2, i.location, "array index must be int, found "@ + type_str(i.ty))
    } else {
        st2
    };
    let (st4, ty) = match element_type(a.ty) {
        Some(t) => (st3, t),
        None => (report(st3, location, "cannot index into "@ + type_str(a.ty)), SpecType::Error),
    };
    (st4, sem(location, ty, SpecSemExprKind::Index { array: Box::new(a), index: Box::new(i) }))
}

#[verifier::opaque]
pub open spec fn sa_postfix(st: AnalyzerState, location: SourceLocation, op: PostfixOp, operand: SpecExpr) -> (AnalyzerState, SpecSemExpr)
    decreases expr_size(operand) + 1, 0nat,
{
    let (st1, x) = sa_expr(st, operand);
    let (st2, ty) = lvalue_numeric_type(st1, location, x);
    (st2, sem(location, ty, SpecSemExprKind::Postfix { op, expr: Box::new(x) }))
}

// ---------------------------------------------------------------------------
// Declarations and initializers
// ---------------------------------------------------------------------------

pub open spec fn sa_dimensions(st: AnalyzerState, dims: Seq<Option<SpecExpr>>) -> (AnalyzerState, Seq<Option<SpecSemExpr>>)
    decreases dims.len(),
{
    if dims.len() == 0 {
        (st, seq![])
    } else {
        let (st1, xs) = sa_dimensions(st, dims.drop_last());
        match dims.last() {
            Some(e) => {
                let (st2, x) = sa_expr(st1, e);
                let st3 = if !(x.ty is Int) && !(x.ty is Error) {
                    report(st2, x.location, "array dimension must be int, found "@ + type_str(x.ty))
                } else {
                    st2
                };
                (st3, xs.push(Some(x)))
            },
            None => (st1, xs.push(None)),
        }
    }
}

#[verifier::opaque]
pub open spec fn sa_initializer(st: AnalyzerState, init: SpecInitializer, expected: SpecType, location: SourceLocation) -> (AnalyzerState, SpecSemInitializer)
    decreases init,
{
    match init {
        SpecInitializer::Expr(e) => {
            let (st1, x) = sa_expr(st, e);
            let st2 = if !is_assignable(expected, x.ty) {
                report(st1, location, "cannot initialize "@ + type_str(expected) + " with "@ + type_str(x.ty))
            } else {
                st1
            };
            (st2, SpecSemInitializer::Expr(x))
        },
        SpecInitializer::List(items) => {
            let (st1, elem) = match element_type(expected) {
                Some(t) => (st, t),
                None => (
                    report(st, location, "brace initializer requires an array type, found "@ + type_str(expected)),
                    SpecType::Error,
                ),
            };
            let (st2, xs) = sa_init_items(st1, items, elem, location);
            (st2, SpecSemInitializer::List(xs))
        },
    }
}

#[verifier::opaque]
pub open spec fn sa_init_items(st: AnalyzerState, items: Seq<SpecInitializer>, expected: SpecType, location: SourceLocation) -> (AnalyzerState, Seq<SpecSemInitializer>)
    decreases items,
{
    if items.len() == 0 {
        (st, seq![])
    } else {
        let (st1, xs) = sa_init_items(st, items.drop_last(), expected, location);
        let (st2, x) = sa_initializer(st1, items.last(), expected, location);
        (st2, xs.push(x))
    }
}

pub open spec fn void_check(st: AnalyzerState, ty: TypeName, location: SourceLocation, message: Seq<char>) -> AnalyzerState {
    if ty == TypeName::Void {
        report(st, location, message)
    } else {
        st
    }
}

pub open spec fn sa_opt_initializer(st: AnalyzerState, init: Option<SpecInitializer>, expected: SpecType, location: SourceLocation) -> (AnalyzerState, Option<SpecSemInitializer>) {
    match init {
        Some(i) => {
            let (st1, x) = sa_initializer(st, i, expected, location);
            (st1, Some(x))
        },
        None => (st, None),
    }
}

pub open spec fn sa_local_decl(st: AnalyzerState, d: SpecVarDecl) -> (AnalyzerState, SpecSemVarDecl) {
    let (st1, dims) = sa_dimensions(st, d.dimensions);
    let ty = declared_type(d.ty, d.dimensions.len() as usize);
    let st2 = void_check(st1, d.ty, d.location, "variables cannot have type void"@);
    let (st3, sid) = declare(st2, d.name, SymbolKind::Variable, d.is_const, ty, d.location);
    let (st4, init) = sa_opt_initializer(st3, d.init, ty, d.location);
    let st5 = check_const_declaration(st4, d.is_const, init, d.location);
    (st5, SpecSemVarDecl { symbol_id: sid, is_const: d.is_const, ty, name: d.name, dimensions: dims, init })
}

pub open spec fn sa_local_decls(st: AnalyzerState, ds: Seq<SpecVarDecl>) -> (AnalyzerState, Seq<SpecSemVarDecl>)
    decreases ds.len(),
{
    if ds.len() == 0 {
        (st, seq![])
    } else {
        let (st1, xs) = sa_local_decls(st, ds.drop_last());
        let (st2, x) = sa_local_decl(st1, ds.last());
        (st2, xs.push(x))
    }
}

pub open spec fn sa_global_decl(st: AnalyzerState, d: SpecVarDecl, sid: Option<SymbolId>) -> (AnalyzerState, SpecSemVarDecl) {
    let (st1, dims) = sa_dimensions(st, d.dimensions);
    let ty = declared_type(d.ty, d.dimensions.len() as usize);
    let st2 = void_check(st1, d.ty, d.location, "variables cannot have type void"@);
    let (st3, init) = sa_opt_initializer(st2, d.init, ty, d.location);
    let st4 = check_const_declaration(st3, d.is_const, init, d.location);
    (st4, SpecSemVarDecl { symbol_id: sid, is_const: d.is_const, ty, name: d.name, dimensions: dims, init })
}

pub open spec fn sa_param(st: AnalyzerState, p: SpecParam) -> (AnalyzerState, SpecSemParam) {
    let (st1, dims) = sa_dimensions(st, p.dimensions);
    let ty = declared_type(p.ty, p.dimensions.len() as usize);
    let st2 = void_check(st1, p.ty, p.location, "parameters cannot have type void"@);
    let (st3, sid) = declare(st2, p.name, SymbolKind::Parameter, false, ty, p.location);
    (st3, SpecSemParam { symbol_id: sid, ty, name: p.name, dimensions: dims })
}

pub open spec fn sa_params(st: AnalyzerState, ps: Seq<SpecParam>) -> (AnalyzerState, Seq<SpecSemParam>)
    decreases ps.len(),
{
    if ps.len() == 0 {
        (st, seq![])
    } else {
        let (st1, xs) = sa_params(st, ps.drop_last());
        let (st2, x) = sa_param(st1, ps.last());
        (st2, xs.push(x))
    }
}

// ---------------------------------------------------------------------------
// Statements
// ---------------------------------------------------------------------------

pub open spec fn sa_opt_expr(st: AnalyzerState, e: Option<SpecExpr>) -> (AnalyzerState, Option<SpecSemExpr>) {
    match e {
        Some(e) => {
            let (st1, x) = sa_expr(st, e);
            (st1, Some(x))
        },
        None => (st, None),
    }
}

pub open spec fn jump_check(st: AnalyzerState, location: SourceLocation, message: Seq<char>) -> AnalyzerState {
    if st.loop_depth == 0 {
        report(st, location, message)
    } else {
        st
    }
}

/// `break` and `continue` are accepted inside a loop and reported at their
/// own location outside one, and change nothing else.
pub proof fn law_jumps(st: AnalyzerState, location: SourceLocation)
    ensures
        sa_stmt(st, SpecStmt::Break { location }).1 == SpecSemStmt::Break,
        sa_stmt(st, SpecStmt::Continue { location }).1 == SpecSemStmt::Continue,
        st.loop_depth > 0 ==> sa_stmt(st, SpecStmt::Break { location }).0 == st && sa_stmt(st, SpecStmt::Continue { location }).0 == st,
        st.loop_depth == 0 ==> sa_stmt(st, SpecStmt::Break { location }).0 == report(st, location, "break can only appear inside a loop"@),
        st.loop_depth == 0 ==> sa_stmt(st, SpecStmt::Continue { location }).0 == report(st, location, "continue can only appear inside a loop"@),
{
    reveal(sa_stmt);
}

/// Return statements: outside a function nothing is checked.  In a `void`
/// function a returned value is an error and a bare `return` is fine; in an
/// `int` or `float` function a bare `return` is an error, and so is a value
/// whose type is not assignable to the return type.  Each error is one
/// report at the statement's location; an accepted return changes nothing.
pub proof fn law_return_check(st: AnalyzerState, location: SourceLocation, e: Option<SpecSemExpr>)
    ensures
        ({
            let r = check_return(st, location, e);
            let accepted = match st.current_return_type {
                None => true,
                Some(TypeName::Void) => e is None,
                Some(t) => e matches Some(x) && is_assignable(scalar_type(t), x.ty),
            };
            &&& r == (AnalyzerState { errors: r.errors, ..st })
            &&& (accepted ==> r.errors == st.errors)
            &&& (!accepted ==> r.errors.len() == st.errors.len() + 1 && r.errors.drop_last() == st.errors
                && r.errors.last().location == location)
        }),
{
    let r = check_return(st, location, e);
    if r.errors.len() == st.errors.len() + 1 {
        assert(r.errors.drop_last() =~= st.errors);
    }
}

#[verifier::opaque]
pub open spec fn sa_stmt(st: AnalyzerState, s: SpecStmt) -> (AnalyzerState, SpecSemStmt)
    decreases s, 1nat,
{
    match s {
        SpecStmt::VarDecl { decls, .. } => {
            let (st1, ds) = sa_local_decls(st, decls);
            (st1, SpecSemStmt::VarDecl(ds))
        },
        SpecStmt::If { .. } => sa_if(st, s),
        SpecStmt::While { .. } => sa_while(st, s),
        SpecStmt::For { .. } => sa_for(st, s),
        SpecStmt::Return { location, expr } => {
            let (st1, x) = sa_opt_expr(st, expr);
            (check_return(st1, location, x), SpecSemStmt::Return(x))
        },
        SpecStmt::Break { location } => (
            jump_check(st, location, "break can only appear inside a loop"@),
            SpecSemStmt::Break,
        ),
        SpecStmt::Continue { location } => (
            jump_check(st, location, "continue can only appear inside a loop"@),
            SpecSemStmt::Continue,
        ),
        SpecStmt::Expr { expr, .. } => {
            let (st1, x) = sa_expr(st, expr);
            (st1, SpecSemStmt::Expr(x))
        },
        SpecStmt::Block(b) => {
            let (st1, sb) = sa_block_new_scope(st, b);
            (st1, SpecSemStmt::Block(sb))
        },
        SpecStmt::Empty { .. } => (st, SpecSemStmt::Empty),
    }
}

#[verifier::opaque]
pub open spec fn sa_if(st: AnalyzerState, s: SpecStmt) -> (AnalyzerState, SpecSemStmt)
    decreases s, 0nat,
{
    match s {
        SpecStmt::If { condition, then_branch, else_branch, .. } => {
            let (st1, c) = sa_expr(st, condition);
            let st2 = require_condition(st1, c);
            let (st3, t) = sa_stmt(st2, *then_branch);
            match else_branch {
                Some(b) => {
                    let (st4, e) = sa_stmt(st3, *b);
                    (st4, SpecSemStmt::If { condition: c, then_branch: Box::new(t), else_branch: Some(Box::new(e)) })
                },
                None => (st3, SpecSemStmt::If { condition: c, then_branch: Box::new(t), else_branch: None }),
            }
        },
        _ => (st, SpecSemStmt::Empty),
    }
}

#[verifier::opaque]
pub open spec fn sa_while(st: AnalyzerState, s: SpecStmt) -> (AnalyzerState, SpecSemStmt)
    decreases s, 0nat,
{
    match s {
        SpecStmt::While { condition, body, .. } => {
            let (st1, c) = sa_expr(st, condition);
            let st2 = require_condition(st1, c);
            let (st3, b) = sa_stmt(enter_loop(st2), *body);
            (with_loop_depth(st3, st2.loop_depth), SpecSemStmt::While { condition: c, body: Box::new(b) })
        },
        _ => (st, SpecSemStmt::Empty),
    }
}

pub open spec fn sa_for_init(st: AnalyzerState, init: Option<SpecForInit>) -> (AnalyzerState, Option<SpecSemForInit>) {
    match init {
        Some(SpecForInit::Decl(ds)) => {
            let (st1, xs) = sa_local_decls(st, ds);
            (st1, Some(SpecSemForInit::Decl(xs)))
        },
        Some(SpecForInit::Expr(e)) => {
            let (st1, x) = sa_expr(st, e);
            (st1, Some(SpecSemForInit::Expr(x)))
        },
        None => (st, None),
    }
}

pub open spec fn sa_opt_condition(st: AnalyzerState, e: Option<SpecExpr>) -> (AnalyzerState, Option<SpecSemExpr>) {
    match e {
        Some(e) => {
            let (st1, x) = sa_expr(st, e);
            (require_condition(st1, x), Some(x))
        },
        None => (st, None),
    }
}

#[verifier::opaque]
pub open spec fn sa_for(st: AnalyzerState, s: SpecStmt) -> (AnalyzerState, SpecSemStmt)
    decreases s, 0nat,
{
    match s {
        SpecStmt::For { init, condition, update, body, .. } => {
            let opens_scope = init matches Some(SpecForInit::Decl(_));
            let (st1, scope_id) = if opens_scope {
                let (s1, id) = push_scope(st);
                (s1, Some(id))
            } else {
                (st, None)
            };
            let (st2, i) = sa_for_init(st1, init);
            let (st3, c) = sa_opt_condition(st2, condition);
            let (st4, u) = sa_opt_expr(st3, update);
            let (st5, b) = sa_stmt(enter_loop(st4), *body);
            let st6 = with_loop_depth(st5, st4.loop_depth);
            let st7 = if opens_scope { pop_scope(st6) } else { st6 };
            (st7, SpecSemStmt::For { scope_id, init: i, condition: c, update: u, body: Box::new(b) })
        },
        _ => (st, SpecSemStmt::Empty),
    }
}

#[verifier::opaque]
pub open spec fn sa_stmts(st: AnalyzerState, ss: Seq<SpecStmt>) -> (AnalyzerState, Seq<SpecSemStmt>)
    decreases ss, 0nat,
{
    if ss.len() == 0 {
        (st, seq![])
    } else {
        let (st1, xs) = sa_stmts(st, ss.drop_last());
        let (st2, x) = sa_stmt(st1, ss.last());
        (st2, xs.push(x))
    }
}

#[verifier::opaque]
pub open spec fn sa_block_in_current_scope(st: AnalyzerState, b: SpecBlock) -> (AnalyzerState, SpecSemBlock)
    decreases b, 0nat,
{
    let scope_id = current_scope(st);
    let (st1, ss) = sa_stmts(st, b.statements);
    (st1, SpecSemBlock { scope_id, statements: ss })
}

#[verifier::opaque]
pub open spec fn sa_block_new_scope(st: AnalyzerState, b: SpecBlock) -> (AnalyzerState, SpecSemBlock)
    decreases b, 1nat,
{
    let (st1, _) = push_scope(st);
    let (st2, sb) = sa_block_in_current_scope(st1, b);
    (pop_scope(st2), sb)
}

// ---------------------------------------------------------------------------
// Functions and the program
// ---------------------------------------------------------------------------

pub open spec fn sa_function(st: AnalyzerState, f: SpecFunctionDef, sid: Option<SymbolId>) -> (AnalyzerState, SpecSemFunction) {
    let (st1, scope_id) = push_scope(st);
    let previous = st1.current_return_type;
    let st2 = AnalyzerState { current_return_type: Some(f.return_type), ..st1 };
    let (st3, ps) = sa_params(st2, f.params);
    let (st4, body) = sa_block_in_current_scope(st3, f.body);
    let st5 = AnalyzerState { current_return_type: previous, ..st4 };
    (
        pop_scope(st5),
        SpecSemFunction { symbol_id: sid, return_type: f.return_type, name: f.name, params: ps, scope_id, body },
    )
}

pub enum SpecPredeclared {
    Function(Option<SymbolId>),
    Global(Seq<Option<SymbolId>>),
}

pub open spec fn param_types(ps: Seq<SpecParam>) -> Seq<SpecType> {
    ps.map_values(|p: SpecParam| declared_type(p.ty, p.dimensions.len() as usize))
}

pub open spec fn predeclare_globals(st: AnalyzerState, ds: Seq<SpecVarDecl>) -> (AnalyzerState, Seq<Option<SymbolId>>)
    decreases ds.len(),
{
    if ds.len() == 0 {
        (st, seq![])
    } else {
        let (st1, ids) = predeclare_globals(st, ds.drop_last());
        let d = ds.last();
        let st2 = void_check(st1, d.ty, d.location, "variables cannot have type void"@);
        let (st3, sid) = declare(st2, d.name, SymbolKind::Variable, d.is_const, declared_type(d.ty, d.dimensions.len() as usize), d.location);
        (st3, ids.push(sid))
    }
}

pub open spec fn predeclare_item(st: AnalyzerState, item: SpecItem) -> (AnalyzerState, SpecPredeclared) {
    match item {
        SpecItem::Function(f) => {
            let ty = SpecType::Function { return_type: f.return_type, params: param_types(f.params) };
            let (st1, sid) = declare(st, f.name, SymbolKind::Function, false, ty, f.location);
            (st1, SpecPredeclared::Function(sid))
        },
        SpecItem::GlobalDecl(ds) => {
            let (st1, ids) = predeclare_globals(st, ds);
            (st1, SpecPredeclared::Global(ids))
        },
    }
}

pub open spec fn predeclare_program(st: AnalyzerState, items: Seq<SpecItem>) -> (AnalyzerState, Seq<SpecPredeclared>)
    decreases items.len(),
{
    if items.len() == 0 {
        (st, seq![])
    } else {
        let (st1, ps) = predeclare_program(st, items.drop_last());
        let (st2, p) = predeclare_item(st1, items.last());
        (st2, ps.push(p))
    }
}

pub open spec fn sa_global_decls(st: AnalyzerState, ds: Seq<SpecVarDecl>, ids: Seq<Option<SymbolId>>, n: nat) -> (AnalyzerState, Seq<SpecSemVarDecl>)
    decreases n,
{
    if n == 0 {
        (st, seq![])
    } else {
        let (st1, xs) = sa_global_decls(st, ds, ids, (n - 1) as nat);
        let (st2, x) = sa_global_decl(st1, ds[n - 1], ids[n - 1]);
        (st2, xs.push(x))
    }
}

/// Items and their predeclarations of the same kind, and for a global
/// declaration one symbol slot per declarator.
pub open spec fn predeclared_matches(items: Seq<SpecItem>, pre: Seq<SpecPredeclared>) -> bool {
    &&& items.len() == pre.len()
    &&& forall|i: int| 0 <= i < items.len() ==> match (#[trigger] items[i], pre[i]) {
        (SpecItem::Function(_), SpecPredeclared::Function(_)) => true,
        (SpecItem::GlobalDecl(ds), SpecPredeclared::Global(ids)) => ds.len() == ids.len(),
        _ => false,
    }
}

pub open spec fn sa_item(st: AnalyzerState, item: SpecItem, pre: SpecPredeclared) -> (AnalyzerState, SpecSemItem) {
    match item {
        SpecItem::Function(f) => {
            let sid = match pre {
                SpecPredeclared::Function(sid) => sid,
                _ => None,
            };
            let (st1, x) = sa_function(st, f, sid);
            (st1, SpecSemItem::Function(x))
        },
        SpecItem::GlobalDecl(ds) => {
            let ids = match pre {
                SpecPredeclared::Global(ids) => ids,
                _ => seq![],
            };
            let (st1, xs) = sa_global_decls(st, ds, ids, ds.len());
            (st1, SpecSemItem::GlobalDecl(xs))
        },
    }
}

pub open spec fn sa_items(st: AnalyzerState, items: Seq<SpecItem>, pre: Seq<SpecPredeclared>, n: nat) -> (AnalyzerState, Seq<SpecSemItem>)
    decreases n,
{
    if n == 0 {
        (st, seq![])
    } else {
        let (st1, xs) = sa_items(st, items, pre, (n - 1) as nat);
        let (st2, x) = sa_item(st1, items[n - 1], pre[n - 1]);
        (st2, xs.push(x))
    }
}

/// Each symbol handed out ahead of the program's items is a symbol of the
/// declared name.
pub open spec fn item_named(syms: Seq<SpecSymbol>, item: SpecItem, pre: SpecPredeclared) -> bool {
    match (item, pre) {
        (SpecItem::Function(f), SpecPredeclared::Function(sid)) => names_opt(syms, f.name, sid),
        (SpecItem::GlobalDecl(ds), SpecPredeclared::Global(ids)) => forall|j: int|
            0 <= j < ds.len() && j < ids.len() ==> names_opt(syms, ds[j].name, #[trigger] ids[j]),
        _ => true,
    }
}

pub open spec fn predeclared_named(syms: Seq<SpecSymbol>, items: Seq<SpecItem>, pre: Seq<SpecPredeclared>) -> bool {
    forall|i: int| 0 <= i < items.len() && i < pre.len() ==> item_named(syms, #[trigger] items[i], pre[i])
}

pub proof fn lemma_declare_names(
    st: AnalyzerState,
    name: Seq<char>,
    kind: SymbolKind,
    is_const: bool,
    ty: SpecType,
    location: SourceLocation,
)
    ensures
        extends(st.symbols, declare(st, name, kind, is_const, ty, location).0.symbols),
        declare(st, name, kind, is_const, ty, location).0.symbols.len() <= usize::MAX ==> names_opt(
            declare(st, name, kind, is_const, ty, location).0.symbols,
            name,
            declare(st, name, kind, is_const, ty, location).1,
        ),
{
}

pub proof fn lemma_item_named_mono(a: Seq<SpecSymbol>, b: Seq<SpecSymbol>, item: SpecItem, pre: SpecPredeclared)
    requires
        extends(a, b),
        item_named(a, item, pre),
    ensures
        item_named(b, item, pre),
{
    match (item, pre) {
        (SpecItem::Function(f), SpecPredeclared::Function(sid)) => lemma_names_opt_mono(a, b, f.name, sid),
        (SpecItem::GlobalDecl(ds), SpecPredeclared::Global(ids)) => {
            assert forall|j: int| 0 <= j < ds.len() && j < ids.len() implies names_opt(b, ds[j].name, #[trigger] ids[j]) by {
                lemma_names_opt_mono(a, b, ds[j].name, ids[j]);
            }
        },
        _ => {},
    }
}

pub proof fn lemma_predeclared_named_mono(a: Seq<SpecSymbol>, b: Seq<SpecSymbol>, items: Seq<SpecItem>, pre: Seq<SpecPredeclared>)
    requires
        extends(a, b),
        predeclared_named(a, items, pre),
    ensures
        predeclared_named(b, items, pre),
{
    assert forall|i: int| 0 <= i < items.len() && i < pre.len() implies item_named(b, #[trigger] items[i], pre[i]) by {
        lemma_item_named_mono(a, b, items[i], pre[i]);
    }
}

pub proof fn lemma_predeclare_globals_named(st: AnalyzerState, ds: Seq<SpecVarDecl>)
    ensures
        extends(st.symbols, predeclare_globals(st, ds).0.symbols),
        predeclare_globals(st, ds).1.len() == ds.len(),
        predeclare_globals(st, ds).0.symbols.len() <= usize::MAX ==> forall|j: int| 0 <= j < ds.len() ==> names_opt(
            predeclare_globals(st, ds).0.symbols,
            ds[j].name,
            #[trigger] predeclare_globals(st, ds).1[j],
        ),
    decreases ds.len(),
{
    if ds.len() > 0 {
        let front = ds.drop_last();
        lemma_predeclare_globals_named(st, front);
        let (st1, ids) = predeclare_globals(st, front);
        let d = ds.last();
        let st2 = void_check(st1, d.ty, d.location, "variables cannot have type void"@);
        let ty = declared_type(d.ty, d.dimensions.len() as usize);
        lemma_declare_names(st2, d.name, SymbolKind::Variable, d.is_const, ty, d.location);
        let (st3, sid) = declare(st2, d.name, SymbolKind::Variable, d.is_const, ty, d.location);
        let out = ids.push(sid);
        assert(st2.symbols == st1.symbols);
        if st3.symbols.len() <= usize::MAX {
            assert forall|j: int| 0 <= j < ds.len() implies names_opt(st3.symbols, ds[j].name, #[trigger] out[j]) by {
                if j < front.len() {
                    assert(front[j] == ds[j]);
                    assert(out[j] == ids[j]);
                    lemma_names_opt_mono(st1.symbols, st3.symbols, ds[j].name, ids[j]);
                }
            }
        }
    }
}

pub proof fn lemma_predeclare_program_named(st: AnalyzerState, items: Seq<SpecItem>)
    ensures
        extends(st.symbols, predeclare_program(st, items).0.symbols),
        predeclare_program(st, items).1.len() == items.len(),
        predeclare_program(st, items).0.symbols.len() <= usize::MAX ==> predeclared_named(
            predeclare_program(st, items).0.symbols,
            items,
            predeclare_program(st, items).1,
        ),
    decreases items.len(),
{
    if items.len() > 0 {
        let front = items.drop_last();
        lemma_predeclare_program_named(st, front);
        let (st1, ps) = predeclare_program(st, front);
        let item = items.last();
        let (st2, p) = predeclare_item(st1, item);
        match item {
            SpecItem::Function(f) => {
                let ty = SpecType::Function { return_type: f.return_type, params: param_types(f.params) };
                lemma_declare_names(st1, f.name, SymbolKind::Function, false, ty, f.location);
            },
            SpecItem::GlobalDecl(ds) => {
                lemma_predeclare_globals_named(st1, ds);
            },
        }
        let out = ps.push(p);
        if st2.symbols.len() <= usize::MAX {
            assert(item_named(st2.symbols, item, p));
            assert forall|i: int| 0 <= i < items.len() && i < out.len() implies item_named(st2.symbols, #[trigger] items[i], out[i]) by {
                if i < front.len() {
                    assert(front[i] == items[i]);
                    assert(out[i] == ps[i]);
                    lemma_item_named_mono(st1.symbols, st2.symbols, items[i], ps[i]);
                }
            }
        }
    }
}

/// The runtime library: name, return type and parameter types of each of
/// its functions, in the order they are declared.
pub open spec fn builtin_signature(i: int) -> (Seq<char>, TypeName, Seq<SpecType>) {
    if i == 0 {
        ("getint"@, TypeName::Int, seq![])
    } else if i == 1 {
        ("getch"@, TypeName::Int, seq![])
    } else if i == 2 {
        ("getfloat"@, TypeName::Float, seq![])
    } else if i == 3 {
        ("getarray"@, TypeName::Int, seq![array_param(TypeName::Int)])
    } else if i == 4 {
        ("getfarray"@, TypeName::Int, seq![array_param(TypeName::Float)])
    } else if i == 5 {
        ("putint"@, TypeName::Void, seq![SpecType::Int])
    } else if i == 6 {
        ("putch"@, TypeName::Void, seq![SpecType::Int])
    } else if i == 7 {
        ("putfloat"@, TypeName::Void, seq![SpecType::Float])
    } else if i == 8 {
        ("putarray"@, TypeName::Void, seq![SpecType::Int, array_param(TypeName::Int)])
    } else if i == 9 {
        ("putfarray"@, TypeName::Void, seq![SpecType::Int, array_param(TypeName::Float)])
    } else if i == 10 {
        ("starttime"@, TypeName::Void, seq![])
    } else {
        ("stoptime"@, TypeName::Void, seq![])
    }
}

/// The symbol of the `i`-th runtime library function.
pub open spec fn builtin_symbol(i: int) -> SpecSymbol {
    SpecSymbol {
        id: SymbolId(i as usize),
        name: builtin_signature(i).0,
        kind: SymbolKind::Function,
        is_const: false,
        ty: SpecType::Function { return_type: builtin_signature(i).1, params: builtin_signature(i).2 },
        scope_id: ScopeId(0),
    }
}

/// The first `k` runtime library functions are declared in the global
/// scope, and nothing else is.
pub open spec fn builtins_declared(st: AnalyzerState, k: int) -> bool {
    &&& st.symbols.len() == k
    &&& forall|i: int| 0 <= i < k ==> #[trigger] st.symbols[i] == builtin_symbol(i)
    &&& st.scopes.len() == 1
    &&& st.scope_stack == seq![ScopeId(0)]
    &&& st.scopes[0].symbols.len() == k
    &&& forall|j: int| 0 <= j < k ==> #[trigger] st.scopes[0].symbols[j] == (builtin_signature(j).0, SymbolId(j as usize))
}

pub proof fn lemma_find_entry_absent(entries: Seq<(Seq<char>, SymbolId)>, name: Seq<char>, i: int)
    requires
        0 <= i,
        forall|j: int| i <= j < entries.len() ==> entries[j].0 != name,
    ensures
        find_entry(entries, name, i) is None,
    decreases entries.len() - i,
{
    if i < entries.len() {
        lemma_find_entry_absent(entries, name, i + 1);
    }
}

pub proof fn lemma_builtin_names_distinct(i: int, j: int)
    requires
        0 <= i < j < 12,
    ensures
        builtin_signature(i).0 != builtin_signature(j).0,
{
    reveal_strlit("getint");
    reveal_strlit("getch");
    reveal_strlit("getfloat");
    reveal_strlit("getarray");
    reveal_strlit("getfarray");
    reveal_strlit("putint");
    reveal_strlit("putch");
    reveal_strlit("putfloat");
    reveal_strlit("putarray");
    reveal_strlit("putfarray");
    reveal_strlit("starttime");
    reveal_strlit("stoptime");
    let a = builtin_signature(i).0;
    let b = builtin_signature(j).0;
    if a.len() == b.len() {
        assert(a[0] != b[0] || a[3] != b[3]);
    }
}

pub proof fn lemma_declare_builtin_step(st: AnalyzerState, k: int)
    requires
        0 <= k < 12,
        builtins_declared(st, k),
    ensures
        builtins_declared(
            declare_builtin(st, builtin_signature(k).0, builtin_signature(k).1, builtin_signature(k).2),
            k + 1,
        ),
{
    let name = builtin_signature(k).0;
    let entries = st.scopes[0].symbols;
    assert forall|j: int| 0 <= j < entries.len() implies entries[j].0 != name by {
        assert(entries[j] == (builtin_signature(j).0, SymbolId(j as usize)));
        lemma_builtin_names_distinct(j, k);
    }
    lemma_find_entry_absent(entries, name, 0);
    let st2 = declare_builtin(st, name, builtin_signature(k).1, builtin_signature(k).2);
    assert(current_scope(st) == ScopeId(0));
    assert forall|i: int| 0 <= i < k + 1 implies #[trigger] st2.symbols[i] == builtin_symbol(i) by {
        if i < k {
            assert(st2.symbols[i] == st.symbols[i]);
        }
    }
    assert forall|j: int| 0 <= j < k + 1 implies #[trigger] st2.scopes[0].symbols[j] == (builtin_signature(j).0, SymbolId(j as usize)) by {
        if j < k {
            assert(st2.scopes[0].symbols[j] == entries[j]);
        }
    }
}

/// Declaring the runtime library in a fresh analyzer creates exactly its
/// twelve functions, in order, as symbols `0` to `11` of the global scope.
pub proof fn lemma_builtins()
    ensures
        register_builtins(initial_state()).symbols.len() == 12,
        forall|i: int| 0 <= i < 12 ==> #[trigger] register_builtins(initial_state()).symbols[i] == builtin_symbol(i),
{
    let s0 = initial_state();
    assert(builtins_declared(s0, 0));
    lemma_declare_builtin_step(s0, 0);
    let s1 = declare_builtin(s0, "getint"@, TypeName::Int, seq![]);
    lemma_declare_builtin_step(s1, 1);
    let s2 = declare_builtin(s1, "getch"@, TypeName::Int, seq![]);
    lemma_declare_builtin_step(s2, 2);
    let s3 = declare_builtin(s2, "getfloat"@, TypeName::Float, seq![]);
    lemma_declare_builtin_step(s3, 3);
    let s4 = declare_builtin(s3, "getarray"@, TypeName::Int, seq![array_param(TypeName::Int)]);
    lemma_declare_builtin_step(s4, 4);
    let s5 = declare_builtin(s4, "getfarray"@, TypeName::Int, seq![array_param(TypeName::Float)]);
    lemma_declare_builtin_step(s5, 5);
    let s6 = declare_builtin(s5, "putint"@, TypeName::Void, seq![SpecType::Int]);
    lemma_declare_builtin_step(s6, 6);
    let s7 = declare_builtin(s6, "putch"@, TypeName::Void, seq![SpecType::Int]);
    lemma_declare_builtin_step(s7, 7);
    let s8 = declare_builtin(s7, "putfloat"@, TypeName::Void, seq![SpecType::Float]);
    lemma_declare_builtin_step(s8, 8);
    let s9 = declare_builtin(s8, "putarray"@, TypeName::Void, seq![SpecType::Int, array_param(TypeName::Int)]);
    lemma_declare_builtin_step(s9, 9);
    let s10 = declare_builtin(s9, "putfarray"@, TypeName::Void, seq![SpecType::Int, array_param(TypeName::Float)]);
    lemma_declare_builtin_step(s10, 10);
    let s11 = declare_builtin(s10, "starttime"@, TypeName::Void, seq![]);
    lemma_declare_builtin_step(s11, 11);
    let s12 = declare_builtin(s11, "stoptime"@, TypeName::Void, seq![]);
    assert(s12 == register_builtins(s0));
}

/// The whole analysis of a program: the runtime library is declared, then
/// every top-level name, then each item is analyzed in order.
pub open spec fn spec_analyze(p: SpecProgram) -> SpecSemAnalysis {
    let st1 = register_builtins(initial_state());
    let (st2, pre) = predeclare_program(st1, p.items);
    let (st3, items) = sa_items(st2, p.items, pre, p.items.len());
    SpecSemAnalysis {
        program: SpecSemProgram { items, symbols: st3.symbols, scopes: st3.scopes },
        errors: st3.errors,
    }
}

pub open spec fn array_param(element: TypeName) -> SpecType {
    SpecType::Array { element, rank: 1 }
}

pub open spec fn declare_builtin(st: AnalyzerState, name: Seq<char>, return_type: TypeName, params: Seq<SpecType>) -> AnalyzerState {
    declare(
        st,
        name,
        SymbolKind::Function,
        false,
        SpecType::Function { return_type, params },
        SourceLocation { line: 0, column: 0 },
    ).0
}

/// The runtime library of SysY, declared before the program.
pub open spec fn register_builtins(st: AnalyzerState) -> AnalyzerState {
    let s1 = declare_builtin(st, "getint"@, TypeName::Int, seq![]);
    let s2 = declare_builtin(s1, "getch"@, TypeName::Int, seq![]);
    let s3 = declare_builtin(s2, "getfloat"@, TypeName::Float, seq![]);
    let s4 = declare_builtin(s3, "getarray"@, TypeName::Int, seq![array_param(TypeName::Int)]);
    let s5 = declare_builtin(s4, "getfarray"@, TypeName::Int, seq![array_param(TypeName::Float)]);
    let s6 = declare_builtin(s5, "putint"@, TypeName::Void, seq![SpecType::Int]);
    let s7 = declare_builtin(s6, "putch"@, TypeName::Void, seq![SpecType::Int]);
    let s8 = declare_builtin(s7, "putfloat"@, TypeName::Void, seq![SpecType::Float]);
    let s9 = declare_builtin(s8, "putarray"@, TypeName::Void, seq![SpecType::Int, array_param(TypeName::Int)]);
    let s10 = declare_builtin(s9, "putfarray"@, TypeName::Void, seq![SpecType::Int, array_param(TypeName::Float)]);
    let s11 = declare_builtin(s10, "starttime"@, TypeName::Void, seq![]);
    declare_builtin(s11, "stoptime"@, TypeName::Void, seq![])
}


// ---------------------------------------------------------------------------
// The analyzer
// ---------------------------------------------------------------------------

pub(crate) enum PredeclaredItem {
    Function(Option<SymbolId>),
    Global(Vec<Option<SymbolId>>),
}

pub(crate) closed spec fn predeclared_view(p: PredeclaredItem) -> SpecPredeclared {
    match p {
        PredeclaredItem::Function(sid) => SpecPredeclared::Function(sid),
        PredeclaredItem::Global(ids) => SpecPredeclared::Global(ids@),
    }
}

pub(crate) closed spec fn predeclared_seq_view(ps: Seq<PredeclaredItem>) -> Seq<SpecPredeclared> {
    ps.map_values(|p: PredeclaredItem| predeclared_view(p))
}

pub(crate) struct Analyzer {
    pub(crate) symbols: Vec<Symbol>,
    pub(crate) scopes: Vec<ScopeInfo>,
    pub(crate) scope_stack: Vec<ScopeId>,
    pub(crate) errors: Vec<SemanticError>,
    pub(crate) current_return_type: Option<TypeName>,
    pub(crate) loop_depth: usize,
}

impl View for Analyzer {
    type V = AnalyzerState;

    closed spec fn view(&self) -> AnalyzerState {
        AnalyzerState {
            symbols: self.symbols@.map_values(|s: Symbol| symbol_view(s)),
            scopes: self.scopes@.map_values(|s: ScopeInfo| scope_view(s)),
            scope_stack: self.scope_stack@,
            errors: self.errors@.map_values(|e: SemanticError| error_view(e)),
            current_return_type: self.current_return_type,
            loop_depth: self.loop_depth,
        }
    }
}

impl Analyzer {
    pub(crate) open spec fn wf(&self) -> bool {
        state_wf(self@)
    }

    pub(crate) fn new() -> (r: Self)
        ensures
            r@ == initial_state(),
            r.wf(),
    {
        let global_scope = ScopeInfo { id: ScopeId(0), parent: None, symbols: Vec::new() };
        let mut scopes: Vec<ScopeInfo> = Vec::new();
        scopes.push(global_scope);
        let mut scope_stack: Vec<ScopeId> = Vec::new();
        scope_stack.push(ScopeId(0));
        let r = Analyzer {
            symbols: Vec::new(),
            scopes,
            scope_stack,
            errors: Vec::new(),
            current_return_type: None,
            loop_depth: 0,
        };
        proof {
            assert(r.scopes@[0].symbols@ =~= Seq::<(String, SymbolId)>::empty());
            assert(entries_view(r.scopes@[0].symbols@) =~= Seq::<(Seq<char>, SymbolId)>::empty());
            assert(r@.scopes =~= initial_state().scopes);
            assert(r@.scope_stack =~= initial_state().scope_stack);
            assert(r@.symbols =~= initial_state().symbols);
            assert(r@.errors =~= initial_state().errors);
        }
        r
    }

    fn report_error(&mut self, location: SourceLocation, message: String)
        requires
            old(self).wf(),
        ensures
            final(self).wf(),
            extends(old(self)@.symbols, final(self)@.symbols),
            old(self)@.errors.len() <= final(self)@.errors.len(),
            old(self)@.scopes.len() <= final(self)@.scopes.len(),
            final(self)@ == report(old(self)@, location, message@),
    {
        self.errors.push(SemanticError { location, message });
        proof {
            assert(self@.errors =~= old(self)@.errors.push(SpecSemError { location, message: message@ }));
            assert(self@.symbols =~= old(self)@.symbols);
            assert(self@.scopes =~= old(self)@.scopes);
        }
    }

    fn current_scope(&self) -> (r: ScopeId)
        requires
            self.wf(),
        ensures
            r == current_scope(self@),
            r.0 < self.scopes.len(),
    {
        let n = self.scope_stack.len();
        self.scope_stack[n - 1]
    }

    fn push_scope(&mut self) -> (r: ScopeId)
        requires
            old(self).wf(),
        ensures
            final(self).wf(),
            extends(old(self)@.symbols, final(self)@.symbols),
            old(self)@.errors.len() <= final(self)@.errors.len(),
            old(self)@.scopes.len() <= final(self)@.scopes.len(),
            (final(self)@, r) == push_scope(old(self)@),
    {
        let parent = Some(self.current_scope());
        let scope_id = ScopeId(self.scopes.len());
        self.scopes.push(ScopeInfo { id: scope_id, parent, symbols: Vec::new() });
        self.scope_stack.push(scope_id);
        proof {
            let sc = SpecScope { id: scope_id, parent, symbols: seq![] };
            assert(entries_view(Seq::<(String, SymbolId)>::empty()) =~= Seq::<(Seq<char>, SymbolId)>::empty());
            assert(self@.scopes =~= old(self)@.scopes.push(sc));
            assert(self@.symbols =~= old(self)@.symbols);
            assert(self@.errors =~= old(self)@.errors);
            let st = old(self)@;
            let sc2 = self@.scopes;
            assert forall|i: int| 0 <= i < sc2.len() implies (#[trigger] sc2[i]).id.0 == i by {
                if i < st.scopes.len() {
                    assert(sc2[i] == st.scopes[i]);
                }
            }
            assert forall|i: int| 1 <= i < sc2.len() implies ((#[trigger] sc2[i]).parent matches Some(p) && p.0 < i) by {
                if i < st.scopes.len() {
                    assert(sc2[i] == st.scopes[i]);
                }
            }
            assert forall|i: int, j: int, k: int|
                0 <= i < sc2.len() && 0 <= j < k < sc2[i].symbols.len() implies
                #[trigger] sc2[i].symbols[j].0 != #[trigger] sc2[i].symbols[k].0 by {
                assert(sc2[i] == st.scopes[i]);
            }
            assert forall|i: int, j: int|
                0 <= i < sc2.len() && 0 <= j < sc2[i].symbols.len() implies {
                    let entry = #[trigger] sc2[i].symbols[j];
                    &&& entry.1.0 < self@.symbols.len()
                    &&& self@.symbols[entry.1.0 as int].name == entry.0
                    &&& self@.symbols[entry.1.0 as int].scope_id.0 == i
                } by {
                assert(sc2[i] == st.scopes[i]);
            }
            assert(sc2[0] == st.scopes[0]);
            assert forall|k: int| 0 <= k < self@.symbols.len() implies find_entry(
                sc2[(#[trigger] self@.symbols[k]).scope_id.0 as int].symbols,
                self@.symbols[k].name,
                0,
            ) == Some(self@.symbols[k].id) by {
                assert(self@.symbols[k] == st.symbols[k]);
                assert(sc2[st.symbols[k].scope_id.0 as int] == st.scopes[st.symbols[k].scope_id.0 as int]);
            }
        }
        scope_id
    }

    fn pop_scope(&mut self)
        requires
            old(self).wf(),
        ensures
            final(self).wf(),
            extends(old(self)@.symbols, final(self)@.symbols),
            old(self)@.errors.len() <= final(self)@.errors.len(),
            old(self)@.scopes.len() <= final(self)@.scopes.len(),
            final(self)@ == pop_scope(old(self)@),
    {
        if self.scope_stack.len() > 1 {
            self.scope_stack.pop();
            proof {
                assert(self@.scope_stack =~= old(self)@.scope_stack.drop_last());
                assert(self@.symbols =~= old(self)@.symbols);
                assert(self@.scopes =~= old(self)@.scopes);
                assert(self@.errors =~= old(self)@.errors);
            }
        }
    }

    /// The symbol bound to `key` directly in scope `scope`.
    fn find_in_scope(&self, scope: usize, key: &String) -> (r: Option<SymbolId>)
        requires
            self.wf(),
            scope < self.scopes.len(),
        ensures
            r == find_entry(self@.scopes[scope as int].symbols, key@, 0),
            r matches Some(id) ==> id.0 < self.symbols.len(),
    {
        let ghost entries = self@.scopes[scope as int].symbols;
        let n = self.scopes[scope].symbols.len();
        let mut j: usize = 0;
        while j < n
            invariant
                self.wf(),
                scope < self.scopes.len(),
                entries == self@.scopes[scope as int].symbols,
                n == entries.len(),
                j <= n,
                find_entry(entries, key@, 0) == find_entry(entries, key@, j as int),
            decreases n - j,
        {
            if self.scopes[scope].symbols[j].0 == *key {
                proof {
                    assert(entries[j as int] == (self.scopes@[scope as int].symbols@[j as int].0@, self.scopes@[scope as int].symbols@[j as int].1));
                }
                return Some(self.scopes[scope].symbols[j].1);
            }
            j = j + 1;
        }
        None
    }

    fn declare_symbol(
        &mut self,
        name: String,
        kind: SymbolKind,
        is_const: bool,
        ty: SemanticType,
        context: SourceLocation,
    ) -> (r: Option<SymbolId>)
        requires
            old(self).wf(),
            !(ty@ is Error),
        ensures
            final(self).wf(),
            extends(old(self)@.symbols, final(self)@.symbols),
            old(self)@.errors.len() <= final(self)@.errors.len(),
            old(self)@.scopes.len() <= final(self)@.scopes.len(),
            (final(self)@, r) == declare(old(self)@, name@, kind, is_const, ty@, context),
    {
        let current_scope = self.current_scope();
        let cs = current_scope.0;
        if self.find_in_scope(cs, &name).is_some() {
            let mut message = String::from_str("duplicate declaration of '");
            message.append(name.as_str());
            message.append("'");
            self.report_error(context, message);
            return None;
        }
        let id = SymbolId(self.symbols.len());
        self.symbols.push(Symbol { id, name: name.clone(), kind, is_const, ty, scope_id: current_scope });
        self.scopes[cs].symbols.push((name, id));
        proof {
            let st = old(self)@;
            let scope = st.scopes[cs as int];
            let scope2 = SpecScope { symbols: scope.symbols.push((name@, id)), ..scope };
            assert(self@.symbols =~= st.symbols.push(SpecSymbol { id, name: name@, kind, is_const, ty: ty@, scope_id: current_scope }));
            assert(entries_view(self.scopes@[cs as int].symbols@) =~= scope.symbols.push((name@, id)));
            assert(self@.scopes =~= st.scopes.update(cs as int, scope2));
            assert(self@.errors =~= st.errors);
            lemma_find_entry_none(scope.symbols, name@, 0);
            let sy2 = self@.symbols;
            let sc2 = self@.scopes;
            assert forall|i: int| 0 <= i < sy2.len() implies (#[trigger] sy2[i]).id.0 == i && sy2[i].scope_id.0 < sc2.len() by {
                if i < st.symbols.len() {
                    assert(sy2[i] == st.symbols[i]);
                }
            }
            assert forall|i: int| 0 <= i < sc2.len() implies (#[trigger] sc2[i]).id.0 == i by {
                if i != cs {
                    assert(sc2[i] == st.scopes[i]);
                }
            }
            assert forall|i: int| 1 <= i < sc2.len() implies ((#[trigger] sc2[i]).parent matches Some(p) && p.0 < i) by {
                if i != cs {
                    assert(sc2[i] == st.scopes[i]);
                }
            }
            assert forall|i: int, j: int, k: int|
                0 <= i < sc2.len() && 0 <= j < k < sc2[i].symbols.len() implies
                #[trigger] sc2[i].symbols[j].0 != #[trigger] sc2[i].symbols[k].0 by {
                if i != cs {
                    assert(sc2[i] == st.scopes[i]);
                } else {
                    assert(sc2[i].symbols[j] == st.scopes[i].symbols[j]);
                    if k < scope.symbols.len() {
                        assert(sc2[i].symbols[k] == st.scopes[i].symbols[k]);
                    }
                }
            }
            assert forall|i: int, j: int|
                0 <= i < sc2.len() && 0 <= j < sc2[i].symbols.len() implies {
                    let entry = #[trigger] sc2[i].symbols[j];
                    &&& entry.1.0 < sy2.len()
                    &&& sy2[entry.1.0 as int].name == entry.0
                    &&& sy2[entry.1.0 as int].scope_id.0 == i
                } by {
                if i != cs {
                    assert(sc2[i] == st.scopes[i]);
                    let entry = st.scopes[i].symbols[j];
                    assert(sy2[entry.1.0 as int] == st.symbols[entry.1.0 as int]);
                } else if j < scope.symbols.len() {
                    assert(sc2[i].symbols[j] == st.scopes[i].symbols[j]);
                    let entry = st.scopes[i].symbols[j];
                    assert(sy2[entry.1.0 as int] == st.symbols[entry.1.0 as int]);
                }
            }
            if cs == 0 {
                assert(sc2[0].parent == st.scopes[0].parent);
            } else {
                assert(sc2[0] == st.scopes[0]);
            }
            assert forall|k: int| 0 <= k < sy2.len() implies find_entry(
                sc2[(#[trigger] sy2[k]).scope_id.0 as int].symbols,
                sy2[k].name,
                0,
            ) == Some(sy2[k].id) by {
                if k < st.symbols.len() {
                    assert(sy2[k] == st.symbols[k]);
                    let ks = st.symbols[k].scope_id.0 as int;
                    if ks == cs {
                        lemma_find_entry_push(scope.symbols, (name@, id), st.symbols[k].name, 0);
                    } else {
                        assert(sc2[ks] == st.scopes[ks]);
                    }
                } else {
                    lemma_find_entry_push(scope.symbols, (name@, id), name@, 0);
                }
            }
        }
        Some(id)
    }

    fn lookup_symbol(&self, name: &str) -> (r: Option<SymbolId>)
        requires
            self.wf(),
        ensures
            r == lookup(self@, name@),
            r matches Some(id) ==> id.0 < self.symbols.len(),
    {
        let key = String::from_str(name);
        let mut k: usize = self.scope_stack.len();
        while k > 0
            invariant
                self.wf(),
                k <= self.scope_stack.len(),
                key@ == name@,
                lookup(self@, name@) == lookup_from(self@, name@, k as int),
            decreases k,
        {
            let scope_id = self.scope_stack[k - 1];
            let found = self.find_in_scope(scope_id.0, &key);
            if found.is_some() {
                return found;
            }
            k = k - 1;
        }
        None
    }

    // -----------------------------------------------------------------------
    // Types
    // -----------------------------------------------------------------------

    fn declared_type(&self, base: TypeName, rank: usize) -> (r: SemanticType)
        ensures
            r@ == declared_type(base, rank),
    {
        if rank == 0 {
            self.scalar_type(base)
        } else {
            SemanticType::Array { element: base, rank }
        }
    }

    fn scalar_type(&self, ty: TypeName) -> (r: SemanticType)
        ensures
            r@ == scalar_type(ty),
    {
        match ty {
            TypeName::Int => SemanticType::Int,
            TypeName::Float => SemanticType::Float,
            TypeName::Void => SemanticType::Void,
        }
    }

    fn promote_numeric(&self, left: &SemanticType, right: &SemanticType) -> (r: SemanticType)
        ensures
            r@ == promote_numeric(left@, right@),
    {
        if matches!(left, SemanticType::Float) || matches!(right, SemanticType::Float) {
            SemanticType::Float
        } else if matches!(left, SemanticType::Error) || matches!(right, SemanticType::Error) {
            SemanticType::Error
        } else {
            SemanticType::Int
        }
    }

    fn is_scalar(&self, ty: &SemanticType) -> (r: bool)
        ensures
            r == is_scalar(ty@),
    {
        matches!(ty, SemanticType::Int | SemanticType::Float)
    }

    fn is_numeric_scalar(&self, ty: &SemanticType) -> (r: bool)
        ensures
            r == is_scalar(ty@),
    {
        self.is_scalar(ty)
    }

    fn is_assignable(&self, expected: &SemanticType, actual: &SemanticType) -> (r: bool)
        ensures
            r == is_assignable(expected@, actual@),
    {
        if matches!(expected, SemanticType::Error) || matches!(actual, SemanticType::Error) {
            return true;
        }
        if self.is_scalar(expected) && self.is_scalar(actual) {
            return true;
        }
        match expected {
            SemanticType::Array { element: left_element, rank: left_rank } => match actual {
                SemanticType::Array { element: right_element, rank: right_rank } => {
                    *left_element == *right_element && *left_rank == *right_rank
                },
                _ => false,
            },
            _ => false,
        }
    }

    fn type_name_to_string(&self, ty: TypeName) -> (r: &'static str)
        ensures
            r@ == type_name_str(ty),
    {
        match ty {
            TypeName::Int => "int",
            TypeName::Float => "float",
            TypeName::Void => "void",
        }
    }

    #[verifier::loop_isolation(false)]
    fn type_to_string(&self, ty: &SemanticType) -> (r: String)
        ensures
            r@ == type_str(ty@),
        decreases ty,
    {
        proof {
            reveal(types_view);
        }
        match ty {
            SemanticType::Int => String::from_str("int"),
            SemanticType::Float => String::from_str("float"),
            SemanticType::Void => String::from_str("void"),
            SemanticType::Array { element, rank } => {
                let mut s = String::from_str(self.type_name_to_string(*element));
                let mut i: usize = 0;
                while i < *rank
                    invariant
                        i <= *rank,
                        s@ == type_name_str(*element) + brackets(i as nat),
                    decreases *rank - i,
                {
                    s.append("[]");
                    proof {
                        assert(s@ =~= type_name_str(*element) + brackets((i + 1) as nat));
                    }
                    i = i + 1;
                }
                s
            },
            SemanticType::Function { return_type, params } => {
                let ghost ps = types_view(params@);
                proof {
                    lemma_types_view_len(params@);
                }
                let mut s = String::from_str("fn(");
                let mut i: usize = 0;
                while i < params.len()
                    invariant
                        i <= params.len(),
                        ps == types_view(params@),
                        ps.len() == params.len(),
                        s@ == "fn("@ + join_types(ps.take(i as int)),
                    decreases params.len() - i,
                {
                    if i > 0 {
                        s.append(", ");
                    }
                    proof {
                        assert(decreases_to!(ty => params@[i as int]));
                    }
                    let p = self.type_to_string(&params[i]);
                    s.append(p.as_str());
                    proof {
                        lemma_types_view_index(params@, i as int);
                        let t1 = ps.take(i as int + 1);
                        assert(t1.drop_last() =~= ps.take(i as int));
                        assert(t1.last() == ps[i as int]);
                        if i == 0 {
                            assert(ps.take(0) =~= Seq::<SpecType>::empty());
                            assert(join_types(t1) == type_str(ps[0]));
                            assert(s@ =~= "fn("@ + join_types(t1));
                        } else {
                            assert(join_types(t1) == join_types(ps.take(i as int)) + ", "@ + type_str(ps[i as int]));
                            assert(s@ =~= "fn("@ + join_types(t1));
                        }
                    }
                    i = i + 1;
                }
                s.append(") -> ");
                s.append(self.type_name_to_string(*return_type));
                proof {
                    assert(ps.take(params.len() as int) =~= ps);
                    assert(s@ =~= type_str(ty@));
                }
                s
            },
            SemanticType::Error => String::from_str("<error>"),
        }
    }

    // -----------------------------------------------------------------------
    // Checks on annotated expressions
    // -----------------------------------------------------------------------

    fn is_mutable_lvalue(&self, expr: &SemanticExpr) -> (r: bool)
        ensures
            r == is_mutable_lvalue(self@, expr@),
        decreases expr,
    {
        proof {
            reveal(sem_exprs_view);
        }
        match &expr.kind {
            SemanticExprKind::Ident { symbol_id, .. } => match symbol_id {
                Some(id) => {
                    if id.0 < self.symbols.len() {
                        let symbol = &self.symbols[id.0];
                        symbol.kind != SymbolKind::Function && !symbol.is_const
                    } else {
                        false
                    }
                },
                None => false,
            },
            SemanticExprKind::Index { array, .. } => self.is_mutable_lvalue(array),
            _ => false,
        }
    }

    fn is_const_expr(&self, expr: &SemanticExpr) -> (r: bool)
        ensures
            r == is_const_expr(self@, expr@),
        decreases expr,
    {
        proof {
            reveal(sem_exprs_view);
        }
        match &expr.kind {
            SemanticExprKind::Ident { symbol_id, .. } => match symbol_id {
                Some(id) => id.0 < self.symbols.len() && self.symbols[id.0].is_const,
                None => false,
            },
            SemanticExprKind::IntLiteral(_) => true,
            SemanticExprKind::FloatLiteral(_) => true,
            SemanticExprKind::Unary { op, expr } => {
                matches!(op, UnaryOp::Plus | UnaryOp::Minus | UnaryOp::Not) && self.is_const_expr(expr)
            },
            SemanticExprKind::Binary { left, right, .. } => {
                self.is_const_expr(left) && self.is_const_expr(right)
            },
            SemanticExprKind::Index { array, index } => {
                self.is_const_expr(array) && self.is_const_expr(index)
            },
            _ => false,
        }
    }

    #[verifier::loop_isolation(false)]
    fn is_const_initializer(&self, initializer: &SemanticInitializer) -> (r: bool)
        ensures
            r == is_const_init(self@, initializer@),
        decreases initializer,
    {
        proof {
            reveal(sem_inits_view);
        }
        match initializer {
            SemanticInitializer::Expr(expr) => self.is_const_expr(expr),
            SemanticInitializer::List(items) => {
                let ghost iv = sem_inits_view(items@);
                proof {
                    lemma_sem_inits_view_len(items@);
                    assert(iv.take(0) =~= Seq::<SpecSemInitializer>::empty());
                }
                let mut ok = true;
                let mut i: usize = 0;
                while i < items.len()
                    invariant
                        i <= items.len(),
                        iv == sem_inits_view(items@),
                        iv.len() == items.len(),
                        ok == all_const_inits(self@, iv.take(i as int)),
                    decreases items.len() - i,
                {
                    proof {
                        lemma_sem_inits_view_index(items@, i as int);
                        let t1 = iv.take(i as int + 1);
                        assert(t1.drop_last() =~= iv.take(i as int));
                        assert(decreases_to!(initializer => items@[i as int]));
                    }
                    if ok {
                        ok = self.is_const_initializer(&items[i]);
                    }
                    i = i + 1;
                }
                proof {
                    assert(iv.take(items.len() as int) =~= iv);
                }
                ok
            },
        }
    }

    fn require_condition(&mut self, expr: &SemanticExpr)
        requires
            old(self).wf(),
        ensures
            final(self).wf(),
            extends(old(self)@.symbols, final(self)@.symbols),
            old(self)@.errors.len() <= final(self)@.errors.len(),
            old(self)@.scopes.len() <= final(self)@.scopes.len(),
            final(self)@ == require_condition(old(self)@, expr@),
    {
        if !self.is_scalar(&expr.ty) && !matches!(expr.ty, SemanticType::Error) {
            let mut message = String::from_str("condition must be a scalar expression, found ");
            let t = self.type_to_string(&expr.ty);
            message.append(t.as_str());
            self.report_error(expr.location, message);
        }
    }

    fn check_return(&mut self, location: SourceLocation, expr: Option<&SemanticExpr>)
        requires
            old(self).wf(),
        ensures
            final(self).wf(),
            extends(old(self)@.symbols, final(self)@.symbols),
            old(self)@.errors.len() <= final(self)@.errors.len(),
            old(self)@.scopes.len() <= final(self)@.scopes.len(),
            final(self)@ == check_return(old(self)@, location, match expr {
                Some(e) => Some(e@),
                None => None,
            }),
    {
        match self.current_return_type {
            None => {},
            Some(TypeName::Void) => match expr {
                Some(expr) => {
                    let mut message = String::from_str("void function cannot return a value of type ");
                    let t = self.type_to_string(&expr.ty);
                    message.append(t.as_str());
                    self.report_error(location, message);
                },
                None => {},
            },
            Some(expected) => {
                let expected = self.scalar_type(expected);
                match expr {
                    Some(expr) => {
                        if !self.is_assignable(&expected, &expr.ty) {
                            let mut message = String::from_str("expected return type ");
                            let t1 = self.type_to_string(&expected);
                            message.append(t1.as_str());
                            message.append(", found ");
                            let t2 = self.type_to_string(&expr.ty);
                            message.append(t2.as_str());
                            self.report_error(location, message);
                        }
                    },
                    None => {
                        let mut message = String::from_str("missing return value for function returning ");
                        let t = self.type_to_string(&expected);
                        message.append(t.as_str());
                        self.report_error(location, message);
                    },
                }
            },
        }
    }

    fn check_const_declaration(
        &mut self,
        is_const: bool,
        init: Option<&SemanticInitializer>,
        location: SourceLocation,
    )
        requires
            old(self).wf(),
        ensures
            final(self).wf(),
            extends(old(self)@.symbols, final(self)@.symbols),
            old(self)@.errors.len() <= final(self)@.errors.len(),
            old(self)@.scopes.len() <= final(self)@.scopes.len(),
            final(self)@ == check_const_declaration(old(self)@, is_const, match init {
                Some(i) => Some(i@),
                None => None,
            }, location),
    {
        if !is_const {
            return;
        }
        match init {
            None => {
                self.report_error(location, String::from_str("const declarations require an initializer"));
            },
            Some(init) => {
                if !self.is_const_initializer(init) {
                    self.report_error(
                        location,
                        String::from_str("const initializer must be a constant expression"),
                    );
                }
            },
        }
    }

    // -----------------------------------------------------------------------
    // Expressions
    // -----------------------------------------------------------------------

    /// `prefix`, then the two types joined by " and ".
    fn type_pair_message(&self, prefix: &str, left: &SemanticType, right: &SemanticType) -> (r: String)
        ensures
            r@ == prefix@ + (type_str(left@) + " and "@ + type_str(right@)),
    {
        let mut message = String::from_str(prefix);
        let l = self.type_to_string(left);
        message.append(l.as_str());
        message.append(" and ");
        let r = self.type_to_string(right);
        message.append(r.as_str());
        proof {
            assert(message@ =~= prefix@ + (type_str(left@) + " and "@ + type_str(right@)));
        }
        message
    }

    /// `prefix` followed by the type.
    fn type_message(&self, prefix: &str, ty: &SemanticType) -> (r: String)
        ensures
            r@ == prefix@ + type_str(ty@),
    {
        let mut message = String::from_str(prefix);
        let t = self.type_to_string(ty);
        message.append(t.as_str());
        message
    }

    fn element_type(&self, ty: &SemanticType) -> (r: Option<SemanticType>)
        ensures
            match r {
                Some(t) => element_type(ty@) == Some(t@),
                None => element_type(ty@) is None,
            },
    {
        match ty {
            SemanticType::Array { element, rank } => {
                if *rank > 1 {
                    Some(SemanticType::Array { element: *element, rank: *rank - 1 })
                } else if *rank == 1 {
                    Some(self.scalar_type(*element))
                } else {
                    None
                }
            },
            SemanticType::Error => Some(SemanticType::Error),
            _ => None,
        }
    }

    /// The type of `++`/`--` applied to `operand`, reporting an operand that
    /// is not a modifiable numeric lvalue.
    fn increment_type(&mut self, location: SourceLocation, operand: &SemanticExpr) -> (r: SemanticType)
        requires
            old(self).wf(),
        ensures
            final(self).wf(),
            extends(old(self)@.symbols, final(self)@.symbols),
            old(self)@.errors.len() <= final(self)@.errors.len(),
            old(self)@.scopes.len() <= final(self)@.scopes.len(),
            (final(self)@, r@) == lvalue_numeric_type(old(self)@, location, operand@),
    {
        if !self.is_mutable_lvalue(operand) {
            self.report_error(location, String::from_str("operand must be a modifiable lvalue"));
            SemanticType::Error
        } else if !self.is_numeric_scalar(&operand.ty) {
            let message = self.type_message("operand must be a numeric scalar, found ", &operand.ty);
            self.report_error(location, message);
            SemanticType::Error
        } else {
            operand.ty.clone()
        }
    }

    fn analyze_expr(&mut self, expr: &Expr) -> (r: SemanticExpr)
        requires
            old(self).wf(),
        ensures
            final(self).wf(),
            extends(old(self)@.symbols, final(self)@.symbols),
            old(self)@.errors.len() <= final(self)@.errors.len(),
            old(self)@.scopes.len() <= final(self)@.scopes.len(),
            (final(self)@, r@) == sa_expr(old(self)@, expr@),
            resolved_expr(final(self)@.symbols, r@),
            final(self)@.errors.len() == old(self)@.errors.len() ==> complete_expr(r@),
        decreases expr_size(expr@), 1nat,
    {
        proof {
            reveal(sa_expr);
            reveal(sa_unary);
            reveal(sa_binary);
            reveal(sa_assign);
            reveal(sa_args);
            reveal(sa_call);
            reveal(sa_index);
            reveal(sa_postfix);
            reveal(exprs_view);
            reveal(sem_exprs_view);
        }
        match &expr.kind {
            ExprKind::Ident(name) => {
                let symbol_id = self.lookup_symbol(name.as_str());
                proof {
                    lemma_lookup_sound(self@, name@, self@.scope_stack.len() as int);
                }
                let ty = match symbol_id {
                    Some(id) => self.symbols[id.0].ty.clone(),
                    None => {
                        self.report_error(expr.location, String::from_str("use of undeclared identifier"));
                        SemanticType::Error
                    },
                };
                SemanticExpr {
                    location: expr.location,
                    ty,
                    kind: SemanticExprKind::Ident { name: name.clone(), symbol_id },
                }
            },
            ExprKind::IntLiteral(value) => SemanticExpr {
                location: expr.location,
                ty: SemanticType::Int,
                kind: SemanticExprKind::IntLiteral(value.clone()),
            },
            ExprKind::FloatLiteral(value) => SemanticExpr {
                location: expr.location,
                ty: SemanticType::Float,
                kind: SemanticExprKind::FloatLiteral(value.clone()),
            },
            ExprKind::Unary { op, expr } => self.analyze_unary(expr.location, *op, expr),
            ExprKind::Binary { op, left, right } => self.analyze_binary(expr.location, *op, left, right),
            ExprKind::Assign { target, value } => self.analyze_assign(expr.location, target, value),
            ExprKind::Call { callee, args } => self.analyze_call(expr.location, callee, args),
            ExprKind::Index { array, index } => self.analyze_index(expr.location, array, index),
            ExprKind::Postfix { op, expr } => self.analyze_postfix(expr.location, *op, expr),
        }
    }

    fn analyze_unary(&mut self, location: SourceLocation, op: UnaryOp, expr: &Expr) -> (r: SemanticExpr)
        requires
            old(self).wf(),
        ensures
            final(self).wf(),
            extends(old(self)@.symbols, final(self)@.symbols),
            old(self)@.errors.len() <= final(self)@.errors.len(),
            old(self)@.scopes.len() <= final(self)@.scopes.len(),
            (final(self)@, r@) == sa_unary(old(self)@, location, op, expr@),
            resolved_expr(final(self)@.symbols, r@),
            final(self)@.errors.len() == old(self)@.errors.len() ==> complete_expr(r@),
        decreases expr_size(expr@) + 1, 0nat,
    {
        proof {
            reveal(sa_expr);
            reveal(sa_unary);
            reveal(sa_binary);
            reveal(sa_assign);
            reveal(sa_args);
            reveal(sa_call);
            reveal(sa_index);
            reveal(sa_postfix);
        }
        let expr = self.analyze_expr(expr);
        let ghost s1 = self@;
        let ty = match op {
            UnaryOp::Plus | UnaryOp::Minus => {
                if self.is_numeric_scalar(&expr.ty) {
                    expr.ty.clone()
                } else {
                    let message = self.type_message("operator requires a numeric operand, found ", &expr.ty);
                    self.report_error(location, message);
                    SemanticType::Error
                }
            },
            UnaryOp::Not => {
                if self.is_scalar(&expr.ty) {
                    SemanticType::Int
                } else {
                    let message = self.type_message("operator requires a scalar operand, found ", &expr.ty);
                    self.report_error(location, message);
                    SemanticType::Error
                }
            },
            UnaryOp::PreInc | UnaryOp::PreDec => self.increment_type(location, &expr),
        };
        proof {
            lemma_expr_mono(s1.symbols, self@.symbols, expr@);
            reveal(sem_exprs_view);
        }
        SemanticExpr { location, ty, kind: SemanticExprKind::Unary { op, expr: Box::new(expr) } }
    }

    fn analyze_binary(&mut self, location: SourceLocation, op: BinaryOp, left: &Expr, right: &Expr) -> (r: SemanticExpr)
        requires
            old(self).wf(),
        ensures
            final(self).wf(),
            extends(old(self)@.symbols, final(self)@.symbols),
            old(self)@.errors.len() <= final(self)@.errors.len(),
            old(self)@.scopes.len() <= final(self)@.scopes.len(),
            (final(self)@, r@) == sa_binary(old(self)@, location, op, left@, right@),
            resolved_expr(final(self)@.symbols, r@),
            final(self)@.errors.len() == old(self)@.errors.len() ==> complete_expr(r@),
        decreases expr_size(left@) + expr_size(right@) + 1, 0nat,
    {
        proof {
            reveal(sa_expr);
            reveal(sa_unary);
            reveal(sa_binary);
            reveal(sa_assign);
            reveal(sa_args);
            reveal(sa_call);
            reveal(sa_index);
            reveal(sa_postfix);
        }
        let left = self.analyze_expr(left);
        let ghost s1 = self@;
        let right = self.analyze_expr(right);
        let ghost s2 = self@;
        let ty = match op {
            BinaryOp::Add | BinaryOp::Sub | BinaryOp::Mul | BinaryOp::Div => {
                if self.is_numeric_scalar(&left.ty) && self.is_numeric_scalar(&right.ty) {
                    self.promote_numeric(&left.ty, &right.ty)
                } else {
                    let message = self.type_pair_message("operator requires numeric scalars, found ", &left.ty, &right.ty);
                    self.report_error(location, message);
                    SemanticType::Error
                }
            },
            BinaryOp::Mod => {
                if matches!(left.ty, SemanticType::Int) && matches!(right.ty, SemanticType::Int) {
                    SemanticType::Int
                } else {
                    let message = self.type_pair_message("operator % requires int operands, found ", &left.ty, &right.ty);
                    self.report_error(location, message);
                    SemanticType::Error
                }
            },
            BinaryOp::Eq | BinaryOp::Neq | BinaryOp::Lt | BinaryOp::Le | BinaryOp::Gt | BinaryOp::Ge => {
                if self.is_numeric_scalar(&left.ty) && self.is_numeric_scalar(&right.ty) {
                    SemanticType::Int
                } else {
                    let message = self.type_pair_message("comparison requires numeric scalars, found ", &left.ty, &right.ty);
                    self.report_error(location, message);
                    SemanticType::Error
                }
            },
            BinaryOp::And | BinaryOp::Or => {
                if self.is_scalar(&left.ty) && self.is_scalar(&right.ty) {
                    SemanticType::Int
                } else {
                    let message = self.type_pair_message("logical operator requires scalar operands, found ", &left.ty, &right.ty);
                    self.report_error(location, message);
                    SemanticType::Error
                }
            },
        };
        proof {
            lemma_expr_mono(s1.symbols, self@.symbols, left@);
            lemma_expr_mono(s2.symbols, self@.symbols, right@);
            reveal(sem_exprs_view);
        }
        SemanticExpr {
            location,
            ty,
            kind: SemanticExprKind::Binary { op, left: Box::new(left), right: Box::new(right) },
        }
    }

    fn analyze_assign(&mut self, location: SourceLocation, target: &Expr, value: &Expr) -> (r: SemanticExpr)
        requires
            old(self).wf(),
        ensures
            final(self).wf(),
            extends(old(self)@.symbols, final(self)@.symbols),
            old(self)@.errors.len() <= final(self)@.errors.len(),
            old(self)@.scopes.len() <= final(self)@.scopes.len(),
            (final(self)@, r@) == sa_assign(old(self)@, location, target@, value@),
            resolved_expr(final(self)@.symbols, r@),
            final(self)@.errors.len() == old(self)@.errors.len() ==> complete_expr(r@),
        decreases expr_size(target@) + expr_size(value@) + 1, 0nat,
    {
        proof {
            reveal(sa_expr);
            reveal(sa_unary);
            reveal(sa_binary);
            reveal(sa_assign);
            reveal(sa_args);
            reveal(sa_call);
            reveal(sa_index);
            reveal(sa_postfix);
        }
        let target = self.analyze_expr(target);
        let ghost s1 = self@;
        let value = self.analyze_expr(value);
        let ghost s2 = self@;
        let ty = if !self.is_mutable_lvalue(&target) {
            self.report_error(location, String::from_str("left-hand side must be a modifiable lvalue"));
            SemanticType::Error
        } else if !self.is_assignable(&target.ty, &value.ty) {
            let mut message = String::from_str("cannot assign ");
            let v = self.type_to_string(&value.ty);
            message.append(v.as_str());
            message.append(" to ");
            let t = self.type_to_string(&target.ty);
            message.append(t.as_str());
            self.report_error(location, message);
            SemanticType::Error
        } else {
            target.ty.clone()
        };
        proof {
            lemma_expr_mono(s1.symbols, self@.symbols, target@);
            lemma_expr_mono(s2.symbols, self@.symbols, value@);
            reveal(sem_exprs_view);
        }
        SemanticExpr {
            location,
            ty,
            kind: SemanticExprKind::Assign { target: Box::new(target), value: Box::new(value) },
        }
    }

    fn analyze_call(&mut self, location: SourceLocation, callee: &Expr, args: &Vec<Expr>) -> (r: SemanticExpr)
        requires
            old(self).wf(),
        ensures
            final(self).wf(),
            extends(old(self)@.symbols, final(self)@.symbols),
            old(self)@.errors.len() <= final(self)@.errors.len(),
            old(self)@.scopes.len() <= final(self)@.scopes.len(),
            (final(self)@, r@) == sa_call(old(self)@, location, callee@, exprs_view(args@)),
            resolved_expr(final(self)@.symbols, r@),
            final(self)@.errors.len() == old(self)@.errors.len() ==> complete_expr(r@),
        decreases expr_size(callee@) + exprs_size(exprs_view(args@)) + 1, 0nat,
    {
        proof {
            reveal(sa_expr);
            reveal(sa_unary);
            reveal(sa_binary);
            reveal(sa_assign);
            reveal(sa_args);
            reveal(sa_call);
            reveal(sa_index);
            reveal(sa_postfix);
        }
        let ghost av = exprs_view(args@);
        let callee = self.analyze_expr(callee);
        let ghost st1 = self@;
        let mut analyzed: Vec<SemanticExpr> = Vec::new();
        proof {
            reveal(sem_exprs_view);
            assert(resolved_exprs(self@.symbols, sem_exprs_view(analyzed@)));
        }
        let mut i: usize = 0;
        proof {
            lemma_exprs_view_len(args@);
            lemma_sem_empty_views();
            reveal(sa_args);
            assert(av.take(0) =~= Seq::<SpecExpr>::empty());
        }
        while i < args.len()
            invariant
                self.wf(),
                extends(old(self)@.symbols, self@.symbols),
                old(self)@.errors.len() <= self@.errors.len(),
                old(self)@.scopes.len() <= self@.scopes.len(),
                i <= args.len(),
                av == exprs_view(args@),
                av.len() == args.len(),
                (self@, sem_exprs_view(analyzed@)) == sa_args(st1, av.take(i as int)),
                extends(old(self)@.symbols, st1.symbols),
                extends(st1.symbols, self@.symbols),
                st1.errors.len() <= self@.errors.len(),
                st1.errors.len() == old(self)@.errors.len() ==> complete_expr(callee@),
                resolved_exprs(self@.symbols, sem_exprs_view(analyzed@)),
                self@.errors.len() == old(self)@.errors.len() ==> complete_exprs(sem_exprs_view(analyzed@)),
            decreases args.len() - i,
        {
            proof {
                reveal(sa_expr);
                reveal(sa_unary);
                reveal(sa_binary);
                reveal(sa_assign);
                reveal(sa_args);
                reveal(sa_call);
                reveal(sa_index);
                reveal(sa_postfix);
                lemma_exprs_view_index(args@, i as int);
                lemma_exprs_size_elem(av, i as int);
                let t1 = av.take(i as int + 1);
                assert(t1.drop_last() =~= av.take(i as int));
            }
            let ghost s_before = self@;
            let x = self.analyze_expr(&args[i]);
            proof {
                lemma_sem_exprs_view_push(analyzed@, x);
                lemma_exprs_mono(s_before.symbols, self@.symbols, sem_exprs_view(analyzed@));
                assert(sem_exprs_view(analyzed@).push(x@).drop_last() =~= sem_exprs_view(analyzed@));
            }
            analyzed.push(x);
            i = i + 1;
        }
        proof {
            assert(av.take(args.len() as int) =~= av);
            lemma_expr_mono(st1.symbols, self@.symbols, callee@);
        }
        self.finish_call(location, callee, analyzed)
    }

    #[verifier::loop_isolation(false)]
    #[verifier::rlimit(80)]
    fn finish_call(&mut self, location: SourceLocation, callee: SemanticExpr, args: Vec<SemanticExpr>) -> (r: SemanticExpr)
        requires
            old(self).wf(),
            resolved_expr(old(self)@.symbols, callee@),
            resolved_exprs(old(self)@.symbols, sem_exprs_view(args@)),
        ensures
            final(self).wf(),
            extends(old(self)@.symbols, final(self)@.symbols),
            old(self)@.errors.len() <= final(self)@.errors.len(),
            old(self)@.scopes.len() <= final(self)@.scopes.len(),
            (final(self)@, r@) == finish_call(old(self)@, location, callee@, sem_exprs_view(args@)),
            resolved_expr(final(self)@.symbols, r@),
            final(self)@.errors.len() == old(self)@.errors.len() && complete_expr(callee@)
                && complete_exprs(sem_exprs_view(args@)) ==> complete_expr(r@),
    {
        proof {
            reveal(types_view);
            reveal(sem_exprs_view);
        }
        let ghost xv = sem_exprs_view(args@);
        proof {
            lemma_sem_exprs_view_len(args@);
        }
        let (ty, function_symbol) = match &callee.ty {
            SemanticType::Function { return_type, params } => {
                let ghost ps = types_view(params@);
                proof {
                    lemma_types_view_len(params@);
                }
                if params.len() != args.len() {
                    let mut message = String::from_str("expected ");
                    append_decimal(&mut message, params.len());
                    message.append(" arguments, found ");
                    append_decimal(&mut message, args.len());
                    proof {
                        assert(message@ =~= arity_message(ps.len(), xv.len()));
                    }
                    self.report_error(location, message);
                }
                let ghost st1 = self@;
                let n = if params.len() < args.len() { params.len() } else { args.len() };
                let mut k: usize = 0;
                while k < n
                    invariant
                        self.wf(),
                        extends(old(self)@.symbols, self@.symbols),
                        old(self)@.errors.len() <= self@.errors.len(),
                        old(self)@.scopes.len() <= self@.scopes.len(),
                        k <= n,
                        n == min_len(ps.len(), xv.len()),
                        self@ == check_args(st1, ps, xv, k as nat),
                    decreases n - k,
                {
                    proof {
                        lemma_types_view_index(params@, k as int);
                        lemma_sem_exprs_view_index(args@, k as int);
                    }
                    if !self.is_assignable(&params[k], &args[k].ty) {
                        let mut message = String::from_str("expected ");
                        let e = self.type_to_string(&params[k]);
                        message.append(e.as_str());
                        message.append(", found ");
                        let a = self.type_to_string(&args[k].ty);
                        message.append(a.as_str());
                        self.report_error(args[k].location, message);
                    }
                    k = k + 1;
                }
                let function_symbol = match &callee.kind {
                    SemanticExprKind::Ident { symbol_id, .. } => *symbol_id,
                    _ => None,
                };
                (self.scalar_type(*return_type), function_symbol)
            },
            SemanticType::Error => (SemanticType::Error, None),
            other => {
                let message = self.type_message("callee is not a function, found ", other);
                self.report_error(location, message);
                (SemanticType::Error, None)
            },
        };
        proof {
            lemma_expr_mono(old(self)@.symbols, self@.symbols, callee@);
            lemma_exprs_mono(old(self)@.symbols, self@.symbols, sem_exprs_view(args@));
        }
        SemanticExpr {
            location,
            ty,
            kind: SemanticExprKind::Call { callee: Box::new(callee), args, function_symbol },
        }
    }

    fn analyze_index(&mut self, location: SourceLocation, array: &Expr, index: &Expr) -> (r: SemanticExpr)
        requires
            old(self).wf(),
        ensures
            final(self).wf(),
            extends(old(self)@.symbols, final(self)@.symbols),
            old(self)@.errors.len() <= final(self)@.errors.len(),
            old(self)@.scopes.len() <= final(self)@.scopes.len(),
            (final(self)@, r@) == sa_index(old(self)@, location, array@, index@),
            resolved_expr(final(self)@.symbols, r@),
            final(self)@.errors.len() == old(self)@.errors.len() ==> complete_expr(r@),
        decreases expr_size(array@) + expr_size(index@) + 1, 0nat,
    {
        proof {
            reveal(sa_expr);
            reveal(sa_unary);
            reveal(sa_binary);
            reveal(sa_assign);
            reveal(sa_args);
            reveal(sa_call);
            reveal(sa_index);
            reveal(sa_postfix);
        }
        let array = self.analyze_expr(array);
        let ghost s1 = self@;
        let index = self.analyze_expr(index);
        let ghost s2 = self@;
        if !matches!(index.ty, SemanticType::Int) && !matches!(index.ty, SemanticType::Error) {
            let message = self.type_message("array index must be int, found ", &index.ty);
            self.report_error(index.location, message);
        }
        let ty = match self.element_type(&array.ty) {
            Some(t) => t,
            None => {
                let message = self.type_message("cannot index into ", &array.ty);
                self.report_error(location, message);
                SemanticType::Error
            },
        };
        proof {
            lemma_expr_mono(s1.symbols, self@.symbols, array@);
            lemma_expr_mono(s2.symbols, self@.symbols, index@);
            reveal(sem_exprs_view);
        }
        SemanticExpr {
            location,
            ty,
            kind: SemanticExprKind::Index { array: Box::new(array), index: Box::new(index) },
        }
    }

    fn analyze_postfix(&mut self, location: SourceLocation, op: PostfixOp, expr: &Expr) -> (r: SemanticExpr)
        requires
            old(self).wf(),
        ensures
            final(self).wf(),
            extends(old(self)@.symbols, final(self)@.symbols),
            old(self)@.errors.len() <= final(self)@.errors.len(),
            old(self)@.scopes.len() <= final(self)@.scopes.len(),
            (final(self)@, r@) == sa_postfix(old(self)@, location, op, expr@),
            resolved_expr(final(self)@.symbols, r@),
            final(self)@.errors.len() == old(self)@.errors.len() ==> complete_expr(r@),
        decreases expr_size(expr@) + 1, 0nat,
    {
        proof {
            reveal(sa_expr);
            reveal(sa_unary);
            reveal(sa_binary);
            reveal(sa_assign);
            reveal(sa_args);
            reveal(sa_call);
            reveal(sa_index);
            reveal(sa_postfix);
        }
        let expr = self.analyze_expr(expr);
        let ghost s1 = self@;
        let ty = self.increment_type(location, &expr);
        proof {
            lemma_expr_mono(s1.symbols, self@.symbols, expr@);
            reveal(sem_exprs_view);
        }
        SemanticExpr { location, ty, kind: SemanticExprKind::Postfix { op, expr: Box::new(expr) } }
    }

    // -----------------------------------------------------------------------
    // Declarations and initializers
    // -----------------------------------------------------------------------

    fn analyze_dimensions(&mut self, dimensions: &Vec<Option<Expr>>, _location: SourceLocation) -> (r: Vec<Option<SemanticExpr>>)
        requires
            old(self).wf(),
        ensures
            final(self).wf(),
            extends(old(self)@.symbols, final(self)@.symbols),
            old(self)@.errors.len() <= final(self)@.errors.len(),
            old(self)@.scopes.len() <= final(self)@.scopes.len(),
            (final(self)@, sem_dims_view(r@)) == sa_dimensions(old(self)@, dims_view(dimensions@)),
            resolved_dims(final(self)@.symbols, sem_dims_view(r@)),
            final(self)@.errors.len() == old(self)@.errors.len() ==> complete_dims(sem_dims_view(r@)),
    {
        let ghost dv = dims_view(dimensions@);
        let ghost st0 = self@;
        let mut out: Vec<Option<SemanticExpr>> = Vec::new();
        let mut i: usize = 0;
        proof {
            lemma_dims_view_len(dimensions@);
            assert(dv.take(0) =~= Seq::<Option<SpecExpr>>::empty());
            assert(sem_dims_view(out@) =~= Seq::<Option<SpecSemExpr>>::empty());
        }
        while i < dimensions.len()
            invariant
                self.wf(),
                extends(old(self)@.symbols, self@.symbols),
                old(self)@.errors.len() <= self@.errors.len(),
                old(self)@.scopes.len() <= self@.scopes.len(),
                i <= dimensions.len(),
                dv == dims_view(dimensions@),
                dv.len() == dimensions.len(),
                (self@, sem_dims_view(out@)) == sa_dimensions(st0, dv.take(i as int)),
                resolved_dims(self@.symbols, sem_dims_view(out@)),
                self@.errors.len() == old(self)@.errors.len() ==> complete_dims(sem_dims_view(out@)),
            decreases dimensions.len() - i,
        {
            proof {
                lemma_dims_view_index(dimensions@, i as int);
                assert(dv.take(i as int + 1).drop_last() =~= dv.take(i as int));
            }
            let ghost before = out@;
            let ghost s_before = self@;
            match &dimensions[i] {
                Some(expr) => {
                    let x = self.analyze_expr(expr);
                    let ghost sx = self@;
                    if !matches!(x.ty, SemanticType::Int) && !matches!(x.ty, SemanticType::Error) {
                        let message = self.type_message("array dimension must be int, found ", &x.ty);
                        self.report_error(x.location, message);
                    }
                    proof {
                        lemma_expr_mono(sx.symbols, self@.symbols, x@);
                    }
                    out.push(Some(x));
                },
                None => {
                    out.push(None);
                },
            }
            proof {
                assert(sem_dims_view(out@) =~= sem_dims_view(before).push(opt_sem_expr_view(out@.last())));
                lemma_dims_mono(s_before.symbols, self@.symbols, sem_dims_view(before));
                let dv2 = sem_dims_view(out@);
                assert forall|k: int| 0 <= k < dv2.len() implies resolved_opt(self@.symbols, #[trigger] dv2[k]) by {
                    if k < before.len() {
                        assert(dv2[k] == sem_dims_view(before)[k]);
                    }
                }
            }
            i = i + 1;
        }
        proof {
            assert(dv.take(dimensions.len() as int) =~= dv);
        }
        out
    }

    #[verifier::loop_isolation(false)]
    fn analyze_initializer(
        &mut self,
        initializer: &Initializer,
        expected_ty: &SemanticType,
        location: SourceLocation,
    ) -> (r: SemanticInitializer)
        requires
            old(self).wf(),
        ensures
            final(self).wf(),
            extends(old(self)@.symbols, final(self)@.symbols),
            old(self)@.errors.len() <= final(self)@.errors.len(),
            old(self)@.scopes.len() <= final(self)@.scopes.len(),
            (final(self)@, r@) == sa_initializer(old(self)@, initializer@, expected_ty@, location),
            resolved_init(final(self)@.symbols, r@),
            final(self)@.errors.len() == old(self)@.errors.len() ==> complete_init(r@),
        decreases initializer,
    {
        proof {
            reveal(sa_initializer);
            reveal(sa_init_items);
            reveal(inits_view);
            reveal(sem_inits_view);
        }
        match initializer {
            Initializer::Expr(expr) => {
                let expr = self.analyze_expr(expr);
                let ghost sx = self@;
                if !self.is_assignable(expected_ty, &expr.ty) {
                    let mut message = String::from_str("cannot initialize ");
                    let e = self.type_to_string(expected_ty);
                    message.append(e.as_str());
                    message.append(" with ");
                    let a = self.type_to_string(&expr.ty);
                    message.append(a.as_str());
                    self.report_error(location, message);
                }
                proof {
                    lemma_expr_mono(sx.symbols, self@.symbols, expr@);
                }
                SemanticInitializer::Expr(expr)
            },
            Initializer::List(items) => {
                let element_ty = match self.element_type(expected_ty) {
                    Some(t) => t,
                    None => {
                        let message = self.type_message(
                            "brace initializer requires an array type, found ",
                            expected_ty,
                        );
                        self.report_error(location, message);
                        SemanticType::Error
                    },
                };
                let ghost iv = inits_view(items@);
                let ghost st1 = self@;
                let mut out: Vec<SemanticInitializer> = Vec::new();
                let mut i: usize = 0;
                proof {
                    lemma_inits_view_len(items@);
                    lemma_sem_empty_views();
                    assert(resolved_inits(self@.symbols, sem_inits_view(out@)));
                    assert(iv.take(0) =~= Seq::<SpecInitializer>::empty());
                }
                while i < items.len()
                    invariant
                        self.wf(),
                        extends(old(self)@.symbols, self@.symbols),
                        old(self)@.errors.len() <= self@.errors.len(),
                        old(self)@.scopes.len() <= self@.scopes.len(),
                        i <= items.len(),
                        iv == inits_view(items@),
                        iv.len() == items.len(),
                        (self@, sem_inits_view(out@)) == sa_init_items(st1, iv.take(i as int), element_ty@, location),
                        resolved_inits(self@.symbols, sem_inits_view(out@)),
                        self@.errors.len() == old(self)@.errors.len() ==> complete_inits(sem_inits_view(out@)),
                    decreases items.len() - i,
                {
                    proof {
                        reveal(sa_initializer);
                        reveal(sa_init_items);
                        lemma_inits_view_index(items@, i as int);
                        assert(iv.take(i as int + 1).drop_last() =~= iv.take(i as int));
                        assert(decreases_to!(initializer => items@[i as int]));
                    }
                    let ghost s_before = self@;
                    let x = self.analyze_initializer(&items[i], &element_ty, location);
                    proof {
                        lemma_sem_inits_view_push(out@, x);
                        lemma_inits_mono(s_before.symbols, self@.symbols, sem_inits_view(out@));
                        assert(sem_inits_view(out@).push(x@).drop_last() =~= sem_inits_view(out@));
                    }
                    out.push(x);
                    i = i + 1;
                }
                proof {
                    assert(iv.take(items.len() as int) =~= iv);
                }
                SemanticInitializer::List(out)
            },
        }
    }

    fn analyze_opt_initializer(
        &mut self,
        init: &Option<Initializer>,
        expected_ty: &SemanticType,
        location: SourceLocation,
    ) -> (r: Option<SemanticInitializer>)
        requires
            old(self).wf(),
        ensures
            final(self).wf(),
            extends(old(self)@.symbols, final(self)@.symbols),
            old(self)@.errors.len() <= final(self)@.errors.len(),
            old(self)@.scopes.len() <= final(self)@.scopes.len(),
            (final(self)@, opt_sem_init_view(r)) == sa_opt_initializer(old(self)@, match init {
                Some(i) => Some(i@),
                None => None,
            }, expected_ty@, location),
            r matches Some(i) ==> resolved_init(final(self)@.symbols, i@),
            r matches Some(i) ==> (final(self)@.errors.len() == old(self)@.errors.len() ==> complete_init(i@)),
    {
        match init {
            Some(initializer) => Some(self.analyze_initializer(initializer, expected_ty, location)),
            None => None,
        }
    }

    fn report_void(&mut self, ty: TypeName, location: SourceLocation, message: &str)
        requires
            old(self).wf(),
        ensures
            final(self).wf(),
            extends(old(self)@.symbols, final(self)@.symbols),
            old(self)@.errors.len() <= final(self)@.errors.len(),
            old(self)@.scopes.len() <= final(self)@.scopes.len(),
            final(self)@ == void_check(old(self)@, ty, location, message@),
    {
        if ty == TypeName::Void {
            self.report_error(location, String::from_str(message));
        }
    }

    fn analyze_global_decl(&mut self, decl: &VarDecl, symbol_id: Option<SymbolId>) -> (r: SemanticVarDecl)
        requires
            old(self).wf(),
            names_opt(old(self)@.symbols, decl@.name, symbol_id),
        ensures
            final(self).wf(),
            extends(old(self)@.symbols, final(self)@.symbols),
            old(self)@.errors.len() <= final(self)@.errors.len(),
            old(self)@.scopes.len() <= final(self)@.scopes.len(),
            (final(self)@, r@) == sa_global_decl(old(self)@, decl@, symbol_id),
            resolved_decl(final(self)@.symbols, r@),
            final(self)@.errors.len() == old(self)@.errors.len() ==> complete_decl(r@),
    {
        proof {
            lemma_dims_view_len(decl.dimensions@);
        }
        let dimensions = self.analyze_dimensions(&decl.dimensions, decl.location);
        let ghost s1 = self@;
        let ty = self.declared_type(decl.ty, decl.dimensions.len());
        self.report_void(decl.ty, decl.location, "variables cannot have type void");
        let init = self.analyze_opt_initializer(&decl.init, &ty, decl.location);
        let ghost s3 = self@;
        match &init {
            Some(i) => self.check_const_declaration(decl.is_const, Some(i), decl.location),
            None => self.check_const_declaration(decl.is_const, None, decl.location),
        }
        proof {
            lemma_dims_mono(s1.symbols, self@.symbols, sem_dims_view(dimensions@));
            lemma_names_opt_mono(old(self)@.symbols, self@.symbols, decl@.name, symbol_id);
            if let Some(i) = &init {
                lemma_init_mono(s3.symbols, self@.symbols, i@);
            }
        }
        SemanticVarDecl {
            symbol_id,
            is_const: decl.is_const,
            ty,
            name: decl.name.clone(),
            dimensions,
            init,
        }
    }

    fn analyze_local_decl(&mut self, decl: &VarDecl) -> (r: SemanticVarDecl)
        requires
            old(self).wf(),
        ensures
            final(self).wf(),
            extends(old(self)@.symbols, final(self)@.symbols),
            old(self)@.errors.len() <= final(self)@.errors.len(),
            old(self)@.scopes.len() <= final(self)@.scopes.len(),
            (final(self)@, r@) == sa_local_decl(old(self)@, decl@),
            resolved_decl(final(self)@.symbols, r@),
            final(self)@.errors.len() == old(self)@.errors.len() ==> complete_decl(r@),
    {
        proof {
            lemma_dims_view_len(decl.dimensions@);
        }
        let dimensions = self.analyze_dimensions(&decl.dimensions, decl.location);
        let ghost s1 = self@;
        let ty = self.declared_type(decl.ty, decl.dimensions.len());
        self.report_void(decl.ty, decl.location, "variables cannot have type void");
        let ghost s2 = self@;
        let symbol_id = self.declare_symbol(
            decl.name.clone(),
            SymbolKind::Variable,
            decl.is_const,
            ty.clone(),
            decl.location,
        );
        proof {
            assert(self@.symbols.len() == self.symbols.len());
            lemma_declare_names(s2, decl.name@, SymbolKind::Variable, decl.is_const, ty@, decl.location);
        }
        let ghost s_declared = self@;
        let init = self.analyze_opt_initializer(&decl.init, &ty, decl.location);
        let ghost s3 = self@;
        match &init {
            Some(i) => self.check_const_declaration(decl.is_const, Some(i), decl.location),
            None => self.check_const_declaration(decl.is_const, None, decl.location),
        }
        proof {
            lemma_dims_mono(s1.symbols, self@.symbols, sem_dims_view(dimensions@));
            lemma_names_opt_mono(s_declared.symbols, self@.symbols, decl.name@, symbol_id);
            if let Some(i) = &init {
                lemma_init_mono(s3.symbols, self@.symbols, i@);
            }
        }
        SemanticVarDecl {
            symbol_id,
            is_const: decl.is_const,
            ty,
            name: decl.name.clone(),
            dimensions,
            init,
        }
    }

    fn analyze_param(&mut self, param: &Param) -> (r: SemanticParam)
        requires
            old(self).wf(),
        ensures
            final(self).wf(),
            extends(old(self)@.symbols, final(self)@.symbols),
            old(self)@.errors.len() <= final(self)@.errors.len(),
            old(self)@.scopes.len() <= final(self)@.scopes.len(),
            (final(self)@, r@) == sa_param(old(self)@, param@),
            resolved_param(final(self)@.symbols, r@),
            final(self)@.errors.len() == old(self)@.errors.len() ==> complete_param(r@),
    {
        proof {
            lemma_dims_view_len(param.dimensions@);
        }
        let dimensions = self.analyze_dimensions(&param.dimensions, param.location);
        let ghost s1 = self@;
        let ty = self.declared_type(param.ty, param.dimensions.len());
        self.report_void(param.ty, param.location, "parameters cannot have type void");
        let ghost s2 = self@;
        let symbol_id = self.declare_symbol(
            param.name.clone(),
            SymbolKind::Parameter,
            false,
            ty.clone(),
            param.location,
        );
        proof {
            assert(self@.symbols.len() == self.symbols.len());
            lemma_declare_names(s2, param.name@, SymbolKind::Parameter, false, ty@, param.location);
            lemma_dims_mono(s1.symbols, self@.symbols, sem_dims_view(dimensions@));
        }
        SemanticParam { symbol_id, ty, name: param.name.clone(), dimensions }
    }

    // -----------------------------------------------------------------------
    // Statements
    // -----------------------------------------------------------------------

    fn analyze_local_decls(&mut self, decls: &Vec<VarDecl>) -> (r: Vec<SemanticVarDecl>)
        requires
            old(self).wf(),
        ensures
            final(self).wf(),
            extends(old(self)@.symbols, final(self)@.symbols),
            old(self)@.errors.len() <= final(self)@.errors.len(),
            old(self)@.scopes.len() <= final(self)@.scopes.len(),
            (final(self)@, sem_decls_view(r@)) == sa_local_decls(old(self)@, decls_view(decls@)),
            resolved_decls(final(self)@.symbols, sem_decls_view(r@)),
            final(self)@.errors.len() == old(self)@.errors.len() ==> complete_decls(sem_decls_view(r@)),
    {
        let ghost dv = decls_view(decls@);
        let ghost st0 = self@;
        let mut out: Vec<SemanticVarDecl> = Vec::new();
        let mut i: usize = 0;
        proof {
            lemma_decls_view_len(decls@);
            assert(dv.take(0) =~= Seq::<SpecVarDecl>::empty());
            assert(sem_decls_view(out@) =~= Seq::<SpecSemVarDecl>::empty());
        }
        while i < decls.len()
            invariant
                self.wf(),
                extends(old(self)@.symbols, self@.symbols),
                old(self)@.errors.len() <= self@.errors.len(),
                old(self)@.scopes.len() <= self@.scopes.len(),
                i <= decls.len(),
                dv == decls_view(decls@),
                dv.len() == decls.len(),
                (self@, sem_decls_view(out@)) == sa_local_decls(st0, dv.take(i as int)),
                resolved_decls(self@.symbols, sem_decls_view(out@)),
                self@.errors.len() == old(self)@.errors.len() ==> complete_decls(sem_decls_view(out@)),
            decreases decls.len() - i,
        {
            proof {
                lemma_decls_view_index(decls@, i as int);
                assert(dv.take(i as int + 1).drop_last() =~= dv.take(i as int));
            }
            let ghost s_before = self@;
            let x = self.analyze_local_decl(&decls[i]);
            proof {
                assert(sem_decls_view(out@.push(x)) =~= sem_decls_view(out@).push(x@));
                lemma_decls_mono(s_before.symbols, self@.symbols, sem_decls_view(out@));
                let d2 = sem_decls_view(out@.push(x));
                assert forall|k: int| 0 <= k < d2.len() implies resolved_decl(self@.symbols, #[trigger] d2[k]) by {
                    if k < out@.len() {
                        assert(d2[k] == sem_decls_view(out@)[k]);
                    }
                }
            }
            out.push(x);
            i = i + 1;
        }
        proof {
            assert(dv.take(decls.len() as int) =~= dv);
        }
        out
    }

    fn analyze_opt_expr(&mut self, expr: &Option<Expr>) -> (r: Option<SemanticExpr>)
        requires
            old(self).wf(),
        ensures
            final(self).wf(),
            extends(old(self)@.symbols, final(self)@.symbols),
            old(self)@.errors.len() <= final(self)@.errors.len(),
            old(self)@.scopes.len() <= final(self)@.scopes.len(),
            (final(self)@, opt_sem_expr_view(r)) == sa_opt_expr(old(self)@, opt_expr_view(*expr)),
            resolved_opt(final(self)@.symbols, opt_sem_expr_view(r)),
            final(self)@.errors.len() == old(self)@.errors.len() ==> complete_opt(opt_sem_expr_view(r)),
    {
        match expr {
            Some(e) => Some(self.analyze_expr(e)),
            None => None,
        }
    }

    fn enter_loop(&mut self) -> (saved: usize)
        requires
            old(self).wf(),
        ensures
            final(self).wf(),
            extends(old(self)@.symbols, final(self)@.symbols),
            old(self)@.errors.len() <= final(self)@.errors.len(),
            old(self)@.scopes.len() <= final(self)@.scopes.len(),
            final(self)@ == enter_loop(old(self)@),
            saved == old(self)@.loop_depth,
    {
        let saved = self.loop_depth;
        // Nesting cannot reach usize::MAX loops; the depth saturates there.
        self.loop_depth = if saved < usize::MAX { saved + 1 } else { saved };
        saved
    }

    fn leave_loop(&mut self, saved: usize)
        requires
            old(self).wf(),
        ensures
            final(self).wf(),
            extends(old(self)@.symbols, final(self)@.symbols),
            old(self)@.errors.len() <= final(self)@.errors.len(),
            old(self)@.scopes.len() <= final(self)@.scopes.len(),
            final(self)@ == with_loop_depth(old(self)@, saved),
    {
        self.loop_depth = saved;
    }

    fn analyze_stmt(&mut self, stmt: &Stmt) -> (r: SemanticStmt)
        requires
            old(self).wf(),
        ensures
            final(self).wf(),
            extends(old(self)@.symbols, final(self)@.symbols),
            old(self)@.errors.len() <= final(self)@.errors.len(),
            old(self)@.scopes.len() <= final(self)@.scopes.len(),
            (final(self)@, r@) == sa_stmt(old(self)@, stmt@),
            resolved_stmt(final(self)@.symbols, r@),
            final(self)@.errors.len() == old(self)@.errors.len() ==> complete_stmt(r@),
            scoped_stmt(final(self)@.scopes.len() as nat, r@),
        decreases stmt, 1nat,
    {
        proof {
            reveal(sa_stmt);
            reveal(sa_if);
            reveal(sa_while);
            reveal(sa_for);
            reveal(sa_stmts);
            reveal(sa_block_in_current_scope);
            reveal(sa_block_new_scope);
            reveal(stmts_view);
            reveal(sem_stmts_view);
        }
        match stmt {
            Stmt::VarDecl { decls, .. } => SemanticStmt::VarDecl(self.analyze_local_decls(decls)),
            Stmt::If { .. } => self.analyze_if_stmt(stmt),
            Stmt::While { .. } => self.analyze_while_stmt(stmt),
            Stmt::For { .. } => self.analyze_for_stmt(stmt),
            Stmt::Return { location, expr } => {
                let analyzed = self.analyze_opt_expr(expr);
                let ghost s1 = self@;
                match &analyzed {
                    Some(x) => self.check_return(*location, Some(x)),
                    None => self.check_return(*location, None),
                }
                proof {
                    lemma_opt_mono(s1.symbols, self@.symbols, opt_sem_expr_view(analyzed));
                }
                SemanticStmt::Return(analyzed)
            },
            Stmt::Break { location } => {
                if self.loop_depth == 0 {
                    self.report_error(*location, String::from_str("break can only appear inside a loop"));
                }
                SemanticStmt::Break
            },
            Stmt::Continue { location } => {
                if self.loop_depth == 0 {
                    self.report_error(*location, String::from_str("continue can only appear inside a loop"));
                }
                SemanticStmt::Continue
            },
            Stmt::Expr { expr, .. } => SemanticStmt::Expr(self.analyze_expr(expr)),
            Stmt::Block(block) => SemanticStmt::Block(self.analyze_block_with_new_scope(block)),
            Stmt::Empty { .. } => SemanticStmt::Empty,
        }
    }

    fn analyze_if_stmt(&mut self, stmt: &Stmt) -> (r: SemanticStmt)
        requires
            old(self).wf(),
        ensures
            final(self).wf(),
            extends(old(self)@.symbols, final(self)@.symbols),
            old(self)@.errors.len() <= final(self)@.errors.len(),
            old(self)@.scopes.len() <= final(self)@.scopes.len(),
            (final(self)@, r@) == sa_if(old(self)@, stmt@),
            resolved_stmt(final(self)@.symbols, r@),
            final(self)@.errors.len() == old(self)@.errors.len() ==> complete_stmt(r@),
            scoped_stmt(final(self)@.scopes.len() as nat, r@),
        decreases stmt, 0nat,
    {
        proof {
            reveal(sa_stmt);
            reveal(sa_if);
            reveal(sa_while);
            reveal(sa_for);
            reveal(sa_stmts);
            reveal(sa_block_in_current_scope);
            reveal(sa_block_new_scope);
            reveal(stmts_view);
            reveal(sem_stmts_view);
        }
        match stmt {
            Stmt::If { condition, then_branch, else_branch, .. } => {
                let condition = self.analyze_expr(condition);
                let ghost s1 = self@;
                self.require_condition(&condition);
                let then_analyzed = self.analyze_stmt(then_branch);
                let ghost s3 = self@;
                let else_analyzed = match else_branch {
                    Some(branch) => Some(Box::new(self.analyze_stmt(branch))),
                    None => None,
                };
                proof {
                    lemma_expr_mono(s1.symbols, self@.symbols, condition@);
                    lemma_stmt_mono(s3.symbols, self@.symbols, then_analyzed@);
                    lemma_scoped_stmt_mono(s3.scopes.len() as nat, self@.scopes.len() as nat, then_analyzed@);
                }
                SemanticStmt::If { condition, then_branch: Box::new(then_analyzed), else_branch: else_analyzed }
            },
            _ => SemanticStmt::Empty,
        }
    }

    fn analyze_while_stmt(&mut self, stmt: &Stmt) -> (r: SemanticStmt)
        requires
            old(self).wf(),
        ensures
            final(self).wf(),
            extends(old(self)@.symbols, final(self)@.symbols),
            old(self)@.errors.len() <= final(self)@.errors.len(),
            old(self)@.scopes.len() <= final(self)@.scopes.len(),
            (final(self)@, r@) == sa_while(old(self)@, stmt@),
            resolved_stmt(final(self)@.symbols, r@),
            final(self)@.errors.len() == old(self)@.errors.len() ==> complete_stmt(r@),
            scoped_stmt(final(self)@.scopes.len() as nat, r@),
        decreases stmt, 0nat,
    {
        proof {
            reveal(sa_stmt);
            reveal(sa_if);
            reveal(sa_while);
            reveal(sa_for);
            reveal(sa_stmts);
            reveal(sa_block_in_current_scope);
            reveal(sa_block_new_scope);
            reveal(stmts_view);
            reveal(sem_stmts_view);
        }
        match stmt {
            Stmt::While { condition, body, .. } => {
                let condition = self.analyze_expr(condition);
                let ghost s1 = self@;
                self.require_condition(&condition);
                let saved = self.enter_loop();
                let body = Box::new(self.analyze_stmt(body));
                let ghost s3 = self@;
                self.leave_loop(saved);
                proof {
                    lemma_expr_mono(s1.symbols, self@.symbols, condition@);
                    lemma_stmt_mono(s3.symbols, self@.symbols, (*body)@);
                    lemma_scoped_stmt_mono(s3.scopes.len() as nat, self@.scopes.len() as nat, (*body)@);
                }
                SemanticStmt::While { condition, body }
            },
            _ => SemanticStmt::Empty,
        }
    }

    #[verifier::rlimit(60)]
    fn analyze_for_stmt(&mut self, stmt: &Stmt) -> (r: SemanticStmt)
        requires
            old(self).wf(),
        ensures
            final(self).wf(),
            extends(old(self)@.symbols, final(self)@.symbols),
            old(self)@.errors.len() <= final(self)@.errors.len(),
            old(self)@.scopes.len() <= final(self)@.scopes.len(),
            (final(self)@, r@) == sa_for(old(self)@, stmt@),
            resolved_stmt(final(self)@.symbols, r@),
            final(self)@.errors.len() == old(self)@.errors.len() ==> complete_stmt(r@),
            scoped_stmt(final(self)@.scopes.len() as nat, r@),
        decreases stmt, 0nat,
    {
        proof {
            reveal(sa_stmt);
            reveal(sa_if);
            reveal(sa_while);
            reveal(sa_for);
            reveal(sa_stmts);
            reveal(sa_block_in_current_scope);
            reveal(sa_block_new_scope);
            reveal(stmts_view);
            reveal(sem_stmts_view);
        }
        match stmt {
            Stmt::For { init, condition, update, body, .. } => {
                let opens_scope = matches!(init, Some(ForInit::Decl(_)));
                let scope_id = if opens_scope {
                    Some(self.push_scope())
                } else {
                    None
                };
                let init = match init {
                    Some(ForInit::Decl(decls)) => Some(SemanticForInit::Decl(self.analyze_local_decls(decls))),
                    Some(ForInit::Expr(expr)) => Some(SemanticForInit::Expr(self.analyze_expr(expr))),
                    None => None,
                };
                let ghost s_init = self@;
                let condition = match condition {
                    Some(expr) => {
                        let c = self.analyze_expr(expr);
                        let ghost sc = self@;
                        self.require_condition(&c);
                        proof {
                            lemma_expr_mono(sc.symbols, self@.symbols, c@);
                        }
                        Some(c)
                    },
                    None => None,
                };
                let ghost s_cond = self@;
                let update = self.analyze_opt_expr(update);
                let ghost s_update = self@;
                let saved = self.enter_loop();
                let body = Box::new(self.analyze_stmt(body));
                let ghost s_body = self@;
                self.leave_loop(saved);
                if scope_id.is_some() {
                    self.pop_scope();
                }
                proof {
                    match &init {
                        Some(SemanticForInit::Decl(ds)) => lemma_decls_mono(s_init.symbols, self@.symbols, sem_decls_view(ds@)),
                        Some(SemanticForInit::Expr(e)) => lemma_expr_mono(s_init.symbols, self@.symbols, e@),
                        None => {},
                    }
                    lemma_opt_mono(s_cond.symbols, self@.symbols, opt_sem_expr_view(condition));
                    lemma_opt_mono(s_update.symbols, self@.symbols, opt_sem_expr_view(update));
                    lemma_stmt_mono(s_body.symbols, self@.symbols, (*body)@);
                    lemma_scoped_stmt_mono(s_body.scopes.len() as nat, self@.scopes.len() as nat, (*body)@);
                }
                SemanticStmt::For { scope_id, init, condition, update, body }
            },
            _ => SemanticStmt::Empty,
        }
    }

    #[verifier::loop_isolation(false)]
    fn analyze_block_in_current_scope(&mut self, block: &Block) -> (r: SemanticBlock)
        requires
            old(self).wf(),
        ensures
            final(self).wf(),
            extends(old(self)@.symbols, final(self)@.symbols),
            old(self)@.errors.len() <= final(self)@.errors.len(),
            old(self)@.scopes.len() <= final(self)@.scopes.len(),
            (final(self)@, r@) == sa_block_in_current_scope(old(self)@, block@),
            resolved_block(final(self)@.symbols, r@),
            final(self)@.errors.len() == old(self)@.errors.len() ==> complete_block(r@),
            scoped_block(final(self)@.scopes.len() as nat, r@),
        decreases block, 0nat,
    {
        proof {
            reveal(sa_stmt);
            reveal(sa_if);
            reveal(sa_while);
            reveal(sa_for);
            reveal(sa_stmts);
            reveal(sa_block_in_current_scope);
            reveal(sa_block_new_scope);
            reveal(stmts_view);
            reveal(sem_stmts_view);
        }
        let scope_id = self.current_scope();
        let ghost sv = stmts_view(block.statements@);
        let ghost st0 = self@;
        let mut statements: Vec<SemanticStmt> = Vec::new();
        let mut i: usize = 0;
        proof {
            lemma_stmts_view_len(block.statements@);
            lemma_sem_empty_views();
            assert(sv.take(0) =~= Seq::<SpecStmt>::empty());
        }
        while i < block.statements.len()
            invariant
                self.wf(),
                extends(old(self)@.symbols, self@.symbols),
                old(self)@.errors.len() <= self@.errors.len(),
                old(self)@.scopes.len() <= self@.scopes.len(),
                i <= block.statements.len(),
                sv == stmts_view(block.statements@),
                sv.len() == block.statements.len(),
                (self@, sem_stmts_view(statements@)) == sa_stmts(st0, sv.take(i as int)),
                resolved_stmts(self@.symbols, sem_stmts_view(statements@)),
                self@.errors.len() == old(self)@.errors.len() ==> complete_stmts(sem_stmts_view(statements@)),
                scoped_stmts(self@.scopes.len() as nat, sem_stmts_view(statements@)),
                scope_id.0 < self@.scopes.len(),
            decreases block.statements.len() - i,
        {
            proof {
                reveal(sa_stmt);
                        reveal(sa_if);
                        reveal(sa_while);
                        reveal(sa_for);
                        reveal(sa_stmts);
                        reveal(sa_block_in_current_scope);
                        reveal(sa_block_new_scope);
                        reveal(stmts_view);
                        reveal(sem_stmts_view);
                lemma_stmts_view_index(block.statements@, i as int);
                assert(sv.take(i as int + 1).drop_last() =~= sv.take(i as int));
                assert(decreases_to!(block => block.statements@[i as int]));
            }
            let ghost s_before = self@;
            let x = self.analyze_stmt(&block.statements[i]);
            proof {
                lemma_sem_stmts_view_push(statements@, x);
                lemma_stmts_mono(s_before.symbols, self@.symbols, sem_stmts_view(statements@));
                lemma_scoped_stmts_mono(s_before.scopes.len() as nat, self@.scopes.len() as nat, sem_stmts_view(statements@));
                assert(sem_stmts_view(statements@).push(x@).drop_last() =~= sem_stmts_view(statements@));
            }
            statements.push(x);
            i = i + 1;
        }
        proof {
            assert(sv.take(block.statements.len() as int) =~= sv);
        }
        SemanticBlock { scope_id, statements }
    }

    fn analyze_block_with_new_scope(&mut self, block: &Block) -> (r: SemanticBlock)
        requires
            old(self).wf(),
        ensures
            final(self).wf(),
            extends(old(self)@.symbols, final(self)@.symbols),
            old(self)@.errors.len() <= final(self)@.errors.len(),
            old(self)@.scopes.len() <= final(self)@.scopes.len(),
            (final(self)@, r@) == sa_block_new_scope(old(self)@, block@),
            resolved_block(final(self)@.symbols, r@),
            final(self)@.errors.len() == old(self)@.errors.len() ==> complete_block(r@),
            scoped_block(final(self)@.scopes.len() as nat, r@),
        decreases block, 1nat,
    {
        proof {
            reveal(sa_stmt);
            reveal(sa_if);
            reveal(sa_while);
            reveal(sa_for);
            reveal(sa_stmts);
            reveal(sa_block_in_current_scope);
            reveal(sa_block_new_scope);
            reveal(stmts_view);
            reveal(sem_stmts_view);
        }
        self.push_scope();
        let analyzed = self.analyze_block_in_current_scope(block);
        let ghost s1 = self@;
        self.pop_scope();
        proof {
            lemma_stmts_mono(s1.symbols, self@.symbols, analyzed@.statements);
            lemma_scoped_stmts_mono(s1.scopes.len() as nat, self@.scopes.len() as nat, analyzed@.statements);
        }
        analyzed
    }

    // -----------------------------------------------------------------------
    // Functions and the program
    // -----------------------------------------------------------------------

    #[verifier::rlimit(40)]
    fn analyze_function(&mut self, function: &FunctionDef, symbol_id: Option<SymbolId>) -> (r: SemanticFunction)
        requires
            old(self).wf(),
            names_opt(old(self)@.symbols, function.name@, symbol_id),
        ensures
            final(self).wf(),
            extends(old(self)@.symbols, final(self)@.symbols),
            old(self)@.errors.len() <= final(self)@.errors.len(),
            old(self)@.scopes.len() <= final(self)@.scopes.len(),
            (final(self)@, r@) == sa_function(old(self)@, function_def_view(*function), symbol_id),
            resolved_function(final(self)@.symbols, r@),
            final(self)@.errors.len() == old(self)@.errors.len() ==> complete_function(r@),
            scoped_function(final(self)@.scopes.len() as nat, r@),
    {
        let scope_id = self.push_scope();
        let previous_return_type = self.current_return_type;
        self.current_return_type = Some(function.return_type);
        let ghost pv = params_view(function.params@);
        let ghost st0 = self@;
        let mut params: Vec<SemanticParam> = Vec::new();
        let mut i: usize = 0;
        proof {
            lemma_params_view_len(function.params@);
            assert(pv.take(0) =~= Seq::<SpecParam>::empty());
            assert(params@.map_values(|p: SemanticParam| sem_param_view(p)) =~= Seq::<SpecSemParam>::empty());
        }
        while i < function.params.len()
            invariant
                self.wf(),
                extends(old(self)@.symbols, self@.symbols),
                old(self)@.errors.len() <= self@.errors.len(),
                old(self)@.scopes.len() <= self@.scopes.len(),
                scope_id.0 < self@.scopes.len(),
                i <= function.params.len(),
                pv == params_view(function.params@),
                pv.len() == function.params.len(),
                (self@, params@.map_values(|p: SemanticParam| sem_param_view(p))) == sa_params(st0, pv.take(i as int)),
                resolved_params(self@.symbols, params@.map_values(|p: SemanticParam| sem_param_view(p))),
                self@.errors.len() == old(self)@.errors.len() ==> complete_params(params@.map_values(|p: SemanticParam| sem_param_view(p))),
            decreases function.params.len() - i,
        {
            proof {
                lemma_params_view_index(function.params@, i as int);
                assert(pv.take(i as int + 1).drop_last() =~= pv.take(i as int));
            }
            let ghost s_before = self@;
            let x = self.analyze_param(&function.params[i]);
            proof {
                let pv0 = params@.map_values(|p: SemanticParam| sem_param_view(p));
                let pv1 = params@.push(x).map_values(|p: SemanticParam| sem_param_view(p));
                assert(pv1 =~= pv0.push(x@));
                lemma_params_mono(s_before.symbols, self@.symbols, pv0);
                assert forall|k: int| 0 <= k < pv1.len() implies resolved_param(self@.symbols, #[trigger] pv1[k]) by {
                    if k < pv0.len() {
                        assert(pv1[k] == pv0[k]);
                    }
                }
            }
            params.push(x);
            i = i + 1;
        }
        proof {
            assert(pv.take(function.params.len() as int) =~= pv);
        }
        let ghost s_params = self@;
        let body = self.analyze_block_in_current_scope(&function.body);
        assert(scope_id.0 < self@.scopes.len());
        let ghost s_body = self@;
        self.current_return_type = previous_return_type;
        self.pop_scope();
        proof {
            lemma_params_mono(s_params.symbols, self@.symbols, params@.map_values(|p: SemanticParam| sem_param_view(p)));
            lemma_stmts_mono(s_body.symbols, self@.symbols, body@.statements);
            lemma_scoped_stmts_mono(s_body.scopes.len() as nat, self@.scopes.len() as nat, body@.statements);
            lemma_names_opt_mono(old(self)@.symbols, self@.symbols, function.name@, symbol_id);
        }
        SemanticFunction {
            symbol_id,
            return_type: function.return_type,
            name: function.name.clone(),
            params,
            scope_id,
            body,
        }
    }

    fn register_builtin(&mut self, name: &str, return_type: TypeName, params: Vec<SemanticType>)
        requires
            old(self).wf(),
        ensures
            final(self).wf(),
            extends(old(self)@.symbols, final(self)@.symbols),
            old(self)@.errors.len() <= final(self)@.errors.len(),
            old(self)@.scopes.len() <= final(self)@.scopes.len(),
            final(self)@ == declare_builtin(old(self)@, name@, return_type, types_view(params@)),
    {
        proof {
            reveal(types_view);
        }
        let ty = SemanticType::Function { return_type, params };
        let _ = self.declare_symbol(
            String::from_str(name),
            SymbolKind::Function,
            false,
            ty,
            SourceLocation { line: 0, column: 0 },
        );
    }

    pub(crate) fn register_builtins(&mut self)
        requires
            old(self).wf(),
        ensures
            final(self).wf(),
            extends(old(self)@.symbols, final(self)@.symbols),
            old(self)@.errors.len() <= final(self)@.errors.len(),
            old(self)@.scopes.len() <= final(self)@.scopes.len(),
            final(self)@ == register_builtins(old(self)@),
    {
        proof {
            lemma_sem_empty_views();
        }
        self.register_builtin("getint", TypeName::Int, Vec::new());
        self.register_builtin("getch", TypeName::Int, Vec::new());
        self.register_builtin("getfloat", TypeName::Float, Vec::new());
        let p = type_list1(SemanticType::Array { element: TypeName::Int, rank: 1 });
        self.register_builtin("getarray", TypeName::Int, p);
        let p = type_list1(SemanticType::Array { element: TypeName::Float, rank: 1 });
        self.register_builtin("getfarray", TypeName::Int, p);
        let p = type_list1(SemanticType::Int);
        self.register_builtin("putint", TypeName::Void, p);
        let p = type_list1(SemanticType::Int);
        self.register_builtin("putch", TypeName::Void, p);
        let p = type_list1(SemanticType::Float);
        self.register_builtin("putfloat", TypeName::Void, p);
        let p = type_list2(SemanticType::Int, SemanticType::Array { element: TypeName::Int, rank: 1 });
        self.register_builtin("putarray", TypeName::Void, p);
        let p = type_list2(SemanticType::Int, SemanticType::Array { element: TypeName::Float, rank: 1 });
        self.register_builtin("putfarray", TypeName::Void, p);
        self.register_builtin("starttime", TypeName::Void, Vec::new());
        self.register_builtin("stoptime", TypeName::Void, Vec::new());
    }

    fn predeclare_globals(&mut self, decls: &Vec<VarDecl>) -> (r: Vec<Option<SymbolId>>)
        requires
            old(self).wf(),
        ensures
            final(self).wf(),
            extends(old(self)@.symbols, final(self)@.symbols),
            old(self)@.errors.len() <= final(self)@.errors.len(),
            old(self)@.scopes.len() <= final(self)@.scopes.len(),
            (final(self)@, r@) == predeclare_globals(old(self)@, decls_view(decls@)),
            r.len() == decls.len(),
    {
        let ghost dv = decls_view(decls@);
        let ghost st0 = self@;
        let mut ids: Vec<Option<SymbolId>> = Vec::new();
        let mut k: usize = 0;
        proof {
            lemma_decls_view_len(decls@);
            assert(dv.take(0) =~= Seq::<SpecVarDecl>::empty());
        }
        while k < decls.len()
            invariant
                self.wf(),
                extends(old(self)@.symbols, self@.symbols),
                old(self)@.errors.len() <= self@.errors.len(),
                old(self)@.scopes.len() <= self@.scopes.len(),
                k <= decls.len(),
                dv == decls_view(decls@),
                dv.len() == decls.len(),
                ids.len() == k,
                (self@, ids@) == predeclare_globals(st0, dv.take(k as int)),
            decreases decls.len() - k,
        {
            proof {
                lemma_decls_view_index(decls@, k as int);
                assert(dv.take(k as int + 1).drop_last() =~= dv.take(k as int));
                lemma_dims_view_len(decls@[k as int].dimensions@);
            }
            let decl = &decls[k];
            let ty = self.declared_type(decl.ty, decl.dimensions.len());
            self.report_void(decl.ty, decl.location, "variables cannot have type void");
            let symbol_id = self.declare_symbol(decl.name.clone(), SymbolKind::Variable, decl.is_const, ty, decl.location);
            ids.push(symbol_id);
            k = k + 1;
        }
        proof {
            assert(dv.take(decls.len() as int) =~= dv);
        }
        ids
    }

    pub(crate) fn predeclare_program(&mut self, program: &Program) -> (r: Vec<PredeclaredItem>)
        requires
            old(self).wf(),
        ensures
            final(self).wf(),
            extends(old(self)@.symbols, final(self)@.symbols),
            old(self)@.errors.len() <= final(self)@.errors.len(),
            old(self)@.scopes.len() <= final(self)@.scopes.len(),
            (final(self)@, predeclared_seq_view(r@)) == predeclare_program(old(self)@, program@.items),
            predeclared_matches(program@.items, predeclared_seq_view(r@)),
            predeclared_named(final(self)@.symbols, program@.items, predeclared_seq_view(r@)),
    {
        let ghost iv = items_view(program.items@);
        let ghost st0 = self@;
        let mut predeclared: Vec<PredeclaredItem> = Vec::new();
        let mut i: usize = 0;
        proof {
            lemma_items_view_len(program.items@);
            assert(iv.take(0) =~= Seq::<SpecItem>::empty());
            assert(predeclared_seq_view(predeclared@) =~= Seq::<SpecPredeclared>::empty());
        }
        while i < program.items.len()
            invariant
                self.wf(),
                extends(old(self)@.symbols, self@.symbols),
                old(self)@.errors.len() <= self@.errors.len(),
                old(self)@.scopes.len() <= self@.scopes.len(),
                i <= program.items.len(),
                iv == items_view(program.items@),
                iv == program@.items,
                iv.len() == program.items.len(),
                predeclared.len() == i,
                (self@, predeclared_seq_view(predeclared@)) == predeclare_program(st0, iv.take(i as int)),
                predeclared_matches(iv.take(i as int), predeclared_seq_view(predeclared@)),
            decreases program.items.len() - i,
        {
            proof {
                lemma_items_view_index(program.items@, i as int);
                assert(iv.take(i as int + 1).drop_last() =~= iv.take(i as int));
            }
            let ghost before = predeclared@;
            match &program.items[i] {
                Item::Function(function) => {
                    let ghost fpv = params_view(function.params@);
                    let mut params: Vec<SemanticType> = Vec::new();
                    let mut j: usize = 0;
                    proof {
                        lemma_params_view_len(function.params@);
                        lemma_sem_empty_views();
                    }
                    while j < function.params.len()
                        invariant
                            j <= function.params.len(),
                            fpv == params_view(function.params@),
                            fpv.len() == function.params.len(),
                            types_view(params@) =~= param_types(fpv.take(j as int)),
                        decreases function.params.len() - j,
                    {
                        proof {
                            lemma_params_view_index(function.params@, j as int);
                            lemma_dims_view_len(function.params@[j as int].dimensions@);
                        }
                        let param = &function.params[j];
                        let t = self.declared_type(param.ty, param.dimensions.len());
                        proof {
                            lemma_types_view_push(params@, t);
                            assert(param_types(fpv.take(j as int + 1)) =~= param_types(fpv.take(j as int)).push(t@));
                        }
                        params.push(t);
                        j = j + 1;
                    }
                    proof {
                        assert(fpv.take(function.params.len() as int) =~= fpv);
                        reveal(types_view);
                    }
                    let ty = SemanticType::Function { return_type: function.return_type, params };
                    let symbol_id = self.declare_symbol(
                        function.name.clone(),
                        SymbolKind::Function,
                        false,
                        ty,
                        function.location,
                    );
                    predeclared.push(PredeclaredItem::Function(symbol_id));
                },
                Item::GlobalDecl(decls) => {
                    let ids = self.predeclare_globals(decls);
                    predeclared.push(PredeclaredItem::Global(ids));
                },
            }
            proof {
                assert(predeclared_seq_view(predeclared@) =~= predeclared_seq_view(before).push(predeclared_view(predeclared@.last())));
                let t1 = iv.take(i as int + 1);
                let pv1 = predeclared_seq_view(predeclared@);
                assert forall|k: int| 0 <= k < t1.len() implies match (#[trigger] t1[k], pv1[k]) {
                    (SpecItem::Function(_), SpecPredeclared::Function(_)) => true,
                    (SpecItem::GlobalDecl(ds), SpecPredeclared::Global(ids)) => ds.len() == ids.len(),
                    _ => false,
                } by {
                    if k < i {
                        assert(t1[k] == iv.take(i as int)[k]);
                        assert(pv1[k] == predeclared_seq_view(before)[k]);
                    } else {
                        lemma_decls_view_len(match program.items@[i as int] { Item::GlobalDecl(ds) => ds@, _ => Seq::empty() });
                    }
                }
            }
            i = i + 1;
        }
        proof {
            assert(iv.take(program.items.len() as int) =~= iv);
            assert(self@.symbols.len() == self.symbols.len());
            lemma_predeclare_program_named(old(self)@, program@.items);
        }
        predeclared
    }

    fn analyze_global_decls(&mut self, decls: &Vec<VarDecl>, symbol_ids: &Vec<Option<SymbolId>>) -> (r: Vec<SemanticVarDecl>)
        requires
            old(self).wf(),
            symbol_ids.len() == decls.len(),
            forall|j: int| 0 <= j < decls.len() ==> names_opt(old(self)@.symbols, decls@[j]@.name, #[trigger] symbol_ids@[j]),
        ensures
            final(self).wf(),
            extends(old(self)@.symbols, final(self)@.symbols),
            old(self)@.errors.len() <= final(self)@.errors.len(),
            old(self)@.scopes.len() <= final(self)@.scopes.len(),
            (final(self)@, sem_decls_view(r@)) == sa_global_decls(old(self)@, decls_view(decls@), symbol_ids@, decls.len() as nat),
            resolved_decls(final(self)@.symbols, sem_decls_view(r@)),
            final(self)@.errors.len() == old(self)@.errors.len() ==> complete_decls(sem_decls_view(r@)),
    {
        let ghost dv = decls_view(decls@);
        let ghost st0 = self@;
        let mut out: Vec<SemanticVarDecl> = Vec::new();
        let mut k: usize = 0;
        proof {
            lemma_decls_view_len(decls@);
            assert(sem_decls_view(out@) =~= Seq::<SpecSemVarDecl>::empty());
        }
        while k < decls.len()
            invariant
                self.wf(),
                extends(old(self)@.symbols, self@.symbols),
                old(self)@.errors.len() <= self@.errors.len(),
                old(self)@.scopes.len() <= self@.scopes.len(),
                k <= decls.len(),
                symbol_ids.len() == decls.len(),
                dv == decls_view(decls@),
                dv.len() == decls.len(),
                (self@, sem_decls_view(out@)) == sa_global_decls(st0, dv, symbol_ids@, k as nat),
                forall|j: int| 0 <= j < decls.len() ==> names_opt(self@.symbols, decls@[j]@.name, #[trigger] symbol_ids@[j]),
                resolved_decls(self@.symbols, sem_decls_view(out@)),
                self@.errors.len() == old(self)@.errors.len() ==> complete_decls(sem_decls_view(out@)),
            decreases decls.len() - k,
        {
            proof {
                lemma_decls_view_index(decls@, k as int);
            }
            let ghost s_before = self@;
            let x = self.analyze_global_decl(&decls[k], symbol_ids[k]);
            proof {
                assert forall|j: int| 0 <= j < decls.len() implies names_opt(self@.symbols, decls@[j]@.name, #[trigger] symbol_ids@[j]) by {
                    lemma_names_opt_mono(s_before.symbols, self@.symbols, decls@[j]@.name, symbol_ids@[j]);
                }
                assert(sem_decls_view(out@.push(x)) =~= sem_decls_view(out@).push(x@));
                lemma_decls_mono(s_before.symbols, self@.symbols, sem_decls_view(out@));
                let d2 = sem_decls_view(out@.push(x));
                assert forall|j: int| 0 <= j < d2.len() implies resolved_decl(self@.symbols, #[trigger] d2[j]) by {
                    if j < out@.len() {
                        assert(d2[j] == sem_decls_view(out@)[j]);
                    }
                }
            }
            out.push(x);
            k = k + 1;
        }
        out
    }

    pub(crate) fn analyze_program(&mut self, program: &Program, predeclared: &Vec<PredeclaredItem>) -> (r: Vec<SemanticItem>)
        requires
            old(self).wf(),
            predeclared_matches(program@.items, predeclared_seq_view(predeclared@)),
            predeclared_named(old(self)@.symbols, program@.items, predeclared_seq_view(predeclared@)),
        ensures
            final(self).wf(),
            extends(old(self)@.symbols, final(self)@.symbols),
            old(self)@.errors.len() <= final(self)@.errors.len(),
            old(self)@.scopes.len() <= final(self)@.scopes.len(),
            (final(self)@, r@.map_values(|i: SemanticItem| sem_item_view(i))) == sa_items(
                old(self)@,
                program@.items,
                predeclared_seq_view(predeclared@),
                program.items.len() as nat,
            ),
            resolved_items(final(self)@.symbols, r@.map_values(|i: SemanticItem| sem_item_view(i))),
            final(self)@.errors.len() == old(self)@.errors.len() ==> complete_items(r@.map_values(|i: SemanticItem| sem_item_view(i))),
            scoped_items(final(self)@.scopes.len() as nat, r@.map_values(|i: SemanticItem| sem_item_view(i))),
    {
        let ghost iv = items_view(program.items@);
        let ghost pv = predeclared_seq_view(predeclared@);
        let ghost st0 = self@;
        let mut items: Vec<SemanticItem> = Vec::new();
        let mut i: usize = 0;
        proof {
            lemma_items_view_len(program.items@);
            assert(items@.map_values(|i: SemanticItem| sem_item_view(i)) =~= Seq::<SpecSemItem>::empty());
        }
        while i < program.items.len()
            invariant
                self.wf(),
                extends(old(self)@.symbols, self@.symbols),
                old(self)@.errors.len() <= self@.errors.len(),
                old(self)@.scopes.len() <= self@.scopes.len(),
                i <= program.items.len(),
                iv == items_view(program.items@),
                iv == program@.items,
                pv == predeclared_seq_view(predeclared@),
                iv.len() == program.items.len(),
                predeclared_matches(iv, pv),
                predeclared_named(self@.symbols, iv, pv),
                (self@, items@.map_values(|i: SemanticItem| sem_item_view(i))) == sa_items(st0, iv, pv, i as nat),
                resolved_items(self@.symbols, items@.map_values(|i: SemanticItem| sem_item_view(i))),
                self@.errors.len() == old(self)@.errors.len() ==> complete_items(items@.map_values(|i: SemanticItem| sem_item_view(i))),
                scoped_items(self@.scopes.len() as nat, items@.map_values(|i: SemanticItem| sem_item_view(i))),
            decreases program.items.len() - i,
        {
            proof {
                lemma_items_view_index(program.items@, i as int);
                assert(pv[i as int] == predeclared_view(predeclared@[i as int]));
            }
            let ghost before = items@;
            let ghost s_before = self@;
            match &program.items[i] {
                Item::Function(function) => {
                    proof {
                        assert(item_named(self@.symbols, iv[i as int], pv[i as int]));
                    }
                    let symbol_id = match &predeclared[i] {
                        PredeclaredItem::Function(symbol_id) => *symbol_id,
                        PredeclaredItem::Global(_) => None,
                    };
                    let x = self.analyze_function(function, symbol_id);
                    items.push(SemanticItem::Function(x));
                },
                Item::GlobalDecl(decls) => {
                    let analyzed = match &predeclared[i] {
                        PredeclaredItem::Global(symbol_ids) => {
                            proof {
                                lemma_decls_view_len(decls@);
                                assert(item_named(self@.symbols, iv[i as int], pv[i as int]));
                                assert forall|j: int| 0 <= j < decls.len() implies names_opt(self@.symbols, decls@[j]@.name, #[trigger] symbol_ids@[j]) by {
                                    lemma_decls_view_index(decls@, j);
                                }
                            }
                            self.analyze_global_decls(decls, symbol_ids)
                        },
                        PredeclaredItem::Function(_) => Vec::new(),
                    };
                    items.push(SemanticItem::GlobalDecl(analyzed));
                },
            }
            proof {
                let v0 = before.map_values(|i: SemanticItem| sem_item_view(i));
                let v1 = items@.map_values(|i: SemanticItem| sem_item_view(i));
                assert(v1 =~= v0.push(sem_item_view(items@.last())));
                lemma_items_mono(s_before.symbols, self@.symbols, v0);
                lemma_predeclared_named_mono(s_before.symbols, self@.symbols, iv, pv);
                lemma_scoped_items_mono(s_before.scopes.len() as nat, self@.scopes.len() as nat, v0);
                assert forall|k: int| 0 <= k < v1.len() implies resolved_item(self@.symbols, #[trigger] v1[k]) by {
                    if k < v0.len() {
                        assert(v1[k] == v0[k]);
                    }
                }
                assert forall|k: int| 0 <= k < v1.len() implies scoped_item(self@.scopes.len() as nat, #[trigger] v1[k]) by {
                    if k < v0.len() {
                        assert(v1[k] == v0[k]);
                    }
                }
            }
            i = i + 1;
        }
        items
    }

    pub(crate) fn into_analysis(self, items: Vec<SemanticItem>) -> (r: SemanticAnalysis)
        requires
            self.wf(),
            resolved_items(self@.symbols, items@.map_values(|i: SemanticItem| sem_item_view(i))),
        ensures
            resolved_items(r@.program.symbols, r@.program.items),
            complete_items(items@.map_values(|i: SemanticItem| sem_item_view(i))) ==> complete_items(r@.program.items),
            scoped_items(self@.scopes.len() as nat, items@.map_values(|i: SemanticItem| sem_item_view(i)))
                ==> scoped_items(r@.program.scopes.len() as nat, r@.program.items),
            table_consistent(r@.program.symbols, r@.program.scopes),
            r@ == (SpecSemAnalysis {
                program: SpecSemProgram {
                    items: items@.map_values(|i: SemanticItem| sem_item_view(i)),
                    symbols: self@.symbols,
                    scopes: self@.scopes,
                },
                errors: self@.errors,
            }),
    {
        SemanticAnalysis {
            program: SemanticProgram { items, symbols: self.symbols, scopes: self.scopes },
            errors: self.errors,
        }
    }
}

fn type_list1(a: SemanticType) -> (r: Vec<SemanticType>)
    ensures
        types_view(r@) == seq![a@],
{
    let mut v: Vec<SemanticType> = Vec::new();
    proof {
        lemma_sem_empty_views();
        lemma_types_view_push(v@, a);
        assert(seq![a@] =~= Seq::<SpecType>::empty().push(a@));
    }
    v.push(a);
    v
}

fn type_list2(a: SemanticType, b: SemanticType) -> (r: Vec<SemanticType>)
    ensures
        types_view(r@) == seq![a@, b@],
{
    let mut v = type_list1(a);
    proof {
        lemma_types_view_push(v@, b);
        assert(seq![a@, b@] =~= seq![a@].push(b@));
    }
    v.push(b);
    v
}

} // verus!
