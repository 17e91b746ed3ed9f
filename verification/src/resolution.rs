//! Name resolution in the annotated tree: every identifier that the analysis
//! binds to a symbol is bound to a symbol of the same name and has that
//! symbol's type, and a call records the symbol of its callee.

use vstd::prelude::*;
use crate::semantic::{
    SpecSemBlock, SpecSemExpr, SpecSemExprKind, SpecSemForInit, SpecSemFunction,
    SpecSemInitializer, SpecSemItem, SpecSemParam, SpecSemStmt, SpecSemVarDecl, SpecSymbol,
    SymbolId,
};

verus! {

/// `b` keeps every symbol of `a` at its index.
pub open spec fn extends(a: Seq<SpecSymbol>, b: Seq<SpecSymbol>) -> bool {
    &&& a.len() <= b.len()
    &&& forall|i: int| 0 <= i < a.len() ==> #[trigger] b[i] == a[i]
}

pub open spec fn names_symbol(syms: Seq<SpecSymbol>, name: Seq<char>, id: SymbolId) -> bool {
    id.0 < syms.len() && syms[id.0 as int].name == name
}

/// A declaration's symbol, where it got one, is a symbol of its own name.
pub open spec fn names_opt(syms: Seq<SpecSymbol>, name: Seq<char>, sid: Option<SymbolId>) -> bool {
    match sid {
        Some(id) => names_symbol(syms, name, id),
        None => true,
    }
}

pub open spec fn resolved_expr(syms: Seq<SpecSymbol>, e: SpecSemExpr) -> bool
    decreases e,
{
    match e.kind {
        SpecSemExprKind::Ident { name, symbol_id } => match symbol_id {
            Some(id) => names_symbol(syms, name, id) && e.ty == syms[id.0 as int].ty,
            None => true,
        },
        SpecSemExprKind::Unary { expr, .. } => resolved_expr(syms, *expr),
        SpecSemExprKind::Binary { left, right, .. } => resolved_expr(syms, *left) && resolved_expr(syms, *right),
        SpecSemExprKind::Assign { target, value } => resolved_expr(syms, *target) && resolved_expr(syms, *value),
        SpecSemExprKind::Call { callee, args, function_symbol } => {
            &&& resolved_expr(syms, *callee)
            &&& resolved_exprs(syms, args)
            &&& match function_symbol {
                Some(id) => match callee.kind {
                    SpecSemExprKind::Ident { symbol_id, .. } => symbol_id == Some(id),
                    _ => false,
                },
                None => true,
            }
        },
        SpecSemExprKind::Index { array, index } => resolved_expr(syms, *array) && resolved_expr(syms, *index),
        SpecSemExprKind::Postfix { expr, .. } => resolved_expr(syms, *expr),
        _ => true,
    }
}

pub open spec fn resolved_exprs(syms: Seq<SpecSymbol>, es: Seq<SpecSemExpr>) -> bool
    decreases es,
{
    if es.len() == 0 {
        true
    } else {
        resolved_exprs(syms, es.drop_last()) && resolved_expr(syms, es.last())
    }
}

pub open spec fn resolved_opt(syms: Seq<SpecSymbol>, e: Option<SpecSemExpr>) -> bool {
    match e {
        Some(e) => resolved_expr(syms, e),
        None => true,
    }
}

pub open spec fn resolved_dims(syms: Seq<SpecSymbol>, ds: Seq<Option<SpecSemExpr>>) -> bool {
    forall|i: int| 0 <= i < ds.len() ==> resolved_opt(syms, #[trigger] ds[i])
}

pub open spec fn resolved_init(syms: Seq<SpecSymbol>, i: SpecSemInitializer) -> bool
    decreases i,
{
    match i {
        SpecSemInitializer::Expr(e) => resolved_expr(syms, e),
        SpecSemInitializer::List(items) => resolved_inits(syms, items),
    }
}

pub open spec fn resolved_inits(syms: Seq<SpecSymbol>, items: Seq<SpecSemInitializer>) -> bool
    decreases items,
{
    if items.len() == 0 {
        true
    } else {
        resolved_inits(syms, items.drop_last()) && resolved_init(syms, items.last())
    }
}

pub open spec fn resolved_decl(syms: Seq<SpecSymbol>, d: SpecSemVarDecl) -> bool {
    &&& names_opt(syms, d.name, d.symbol_id)
    &&& resolved_dims(syms, d.dimensions)
    &&& match d.init {
        Some(i) => resolved_init(syms, i),
        None => true,
    }
}

pub open spec fn resolved_decls(syms: Seq<SpecSymbol>, ds: Seq<SpecSemVarDecl>) -> bool {
    forall|i: int| 0 <= i < ds.len() ==> resolved_decl(syms, #[trigger] ds[i])
}

pub open spec fn resolved_stmt(syms: Seq<SpecSymbol>, s: SpecSemStmt) -> bool
    decreases s,
{
    match s {
        SpecSemStmt::VarDecl(ds) => resolved_decls(syms, ds),
        SpecSemStmt::If { condition, then_branch, else_branch } => {
            &&& resolved_expr(syms, condition)
            &&& resolved_stmt(syms, *then_branch)
            &&& match else_branch {
                Some(b) => resolved_stmt(syms, *b),
                None => true,
            }
        },
        SpecSemStmt::While { condition, body } => resolved_expr(syms, condition) && resolved_stmt(syms, *body),
        SpecSemStmt::For { init, condition, update, body, .. } => {
            &&& match init {
                Some(SpecSemForInit::Decl(ds)) => resolved_decls(syms, ds),
                Some(SpecSemForInit::Expr(e)) => resolved_expr(syms, e),
                None => true,
            }
            &&& resolved_opt(syms, condition)
            &&& resolved_opt(syms, update)
            &&& resolved_stmt(syms, *body)
        },
        SpecSemStmt::Return(e) => resolved_opt(syms, e),
        SpecSemStmt::Expr(e) => resolved_expr(syms, e),
        SpecSemStmt::Block(b) => resolved_stmts(syms, b.statements),
        _ => true,
    }
}

pub open spec fn resolved_stmts(syms: Seq<SpecSymbol>, ss: Seq<SpecSemStmt>) -> bool
    decreases ss,
{
    if ss.len() == 0 {
        true
    } else {
        resolved_stmts(syms, ss.drop_last()) && resolved_stmt(syms, ss.last())
    }
}

pub open spec fn resolved_block(syms: Seq<SpecSymbol>, b: SpecSemBlock) -> bool {
    resolved_stmts(syms, b.statements)
}

pub open spec fn resolved_param(syms: Seq<SpecSymbol>, p: SpecSemParam) -> bool {
    names_opt(syms, p.name, p.symbol_id) && resolved_dims(syms, p.dimensions)
}

pub open spec fn resolved_params(syms: Seq<SpecSymbol>, ps: Seq<SpecSemParam>) -> bool {
    forall|i: int| 0 <= i < ps.len() ==> resolved_param(syms, #[trigger] ps[i])
}

pub open spec fn resolved_function(syms: Seq<SpecSymbol>, f: SpecSemFunction) -> bool {
    &&& names_opt(syms, f.name, f.symbol_id)
    &&& resolved_params(syms, f.params)
    &&& resolved_block(syms, f.body)
}

pub open spec fn resolved_item(syms: Seq<SpecSymbol>, item: SpecSemItem) -> bool {
    match item {
        SpecSemItem::Function(f) => resolved_function(syms, f),
        SpecSemItem::GlobalDecl(ds) => resolved_decls(syms, ds),
    }
}

pub open spec fn resolved_items(syms: Seq<SpecSymbol>, items: Seq<SpecSemItem>) -> bool {
    forall|i: int| 0 <= i < items.len() ==> resolved_item(syms, #[trigger] items[i])
}

// ---------------------------------------------------------------------------
// Resolution survives the growth of the symbol table
// ---------------------------------------------------------------------------

pub proof fn lemma_names_opt_mono(a: Seq<SpecSymbol>, b: Seq<SpecSymbol>, name: Seq<char>, sid: Option<SymbolId>)
    requires
        extends(a, b),
        names_opt(a, name, sid),
    ensures
        names_opt(b, name, sid),
{
    if let Some(id) = sid {
        assert(b[id.0 as int] == a[id.0 as int]);
    }
}

pub proof fn lemma_expr_mono(a: Seq<SpecSymbol>, b: Seq<SpecSymbol>, e: SpecSemExpr)
    requires
        extends(a, b),
        resolved_expr(a, e),
    ensures
        resolved_expr(b, e),
    decreases e,
{
    match e.kind {
        SpecSemExprKind::Ident { name, symbol_id } => {
            if let Some(id) = symbol_id {
                assert(b[id.0 as int] == a[id.0 as int]);
            }
        },
        SpecSemExprKind::Unary { expr, .. } => lemma_expr_mono(a, b, *expr),
        SpecSemExprKind::Binary { left, right, .. } => {
            lemma_expr_mono(a, b, *left);
            lemma_expr_mono(a, b, *right);
        },
        SpecSemExprKind::Assign { target, value } => {
            lemma_expr_mono(a, b, *target);
            lemma_expr_mono(a, b, *value);
        },
        SpecSemExprKind::Call { callee, args, .. } => {
            lemma_expr_mono(a, b, *callee);
            lemma_exprs_mono(a, b, args);
        },
        SpecSemExprKind::Index { array, index } => {
            lemma_expr_mono(a, b, *array);
            lemma_expr_mono(a, b, *index);
        },
        SpecSemExprKind::Postfix { expr, .. } => lemma_expr_mono(a, b, *expr),
        _ => {},
    }
}

pub proof fn lemma_exprs_mono(a: Seq<SpecSymbol>, b: Seq<SpecSymbol>, es: Seq<SpecSemExpr>)
    requires
        extends(a, b),
        resolved_exprs(a, es),
    ensures
        resolved_exprs(b, es),
    decreases es,
{
    if es.len() > 0 {
        lemma_exprs_mono(a, b, es.drop_last());
        lemma_expr_mono(a, b, es.last());
    }
}

pub proof fn lemma_opt_mono(a: Seq<SpecSymbol>, b: Seq<SpecSymbol>, e: Option<SpecSemExpr>)
    requires
        extends(a, b),
        resolved_opt(a, e),
    ensures
        resolved_opt(b, e),
{
    if let Some(x) = e {
        lemma_expr_mono(a, b, x);
    }
}

pub proof fn lemma_dims_mono(a: Seq<SpecSymbol>, b: Seq<SpecSymbol>, ds: Seq<Option<SpecSemExpr>>)
    requires
        extends(a, b),
        resolved_dims(a, ds),
    ensures
        resolved_dims(b, ds),
{
    assert forall|i: int| 0 <= i < ds.len() implies resolved_opt(b, #[trigger] ds[i]) by {
        lemma_opt_mono(a, b, ds[i]);
    }
}

pub proof fn lemma_init_mono(a: Seq<SpecSymbol>, b: Seq<SpecSymbol>, i: SpecSemInitializer)
    requires
        extends(a, b),
        resolved_init(a, i),
    ensures
        resolved_init(b, i),
    decreases i,
{
    match i {
        SpecSemInitializer::Expr(e) => lemma_expr_mono(a, b, e),
        SpecSemInitializer::List(items) => lemma_inits_mono(a, b, items),
    }
}

pub proof fn lemma_inits_mono(a: Seq<SpecSymbol>, b: Seq<SpecSymbol>, items: Seq<SpecSemInitializer>)
    requires
        extends(a, b),
        resolved_inits(a, items),
    ensures
        resolved_inits(b, items),
    decreases items,
{
    if items.len() > 0 {
        lemma_inits_mono(a, b, items.drop_last());
        lemma_init_mono(a, b, items.last());
    }
}

pub proof fn lemma_decl_mono(a: Seq<SpecSymbol>, b: Seq<SpecSymbol>, d: SpecSemVarDecl)
    requires
        extends(a, b),
        resolved_decl(a, d),
    ensures
        resolved_decl(b, d),
{
    lemma_names_opt_mono(a, b, d.name, d.symbol_id);
    lemma_dims_mono(a, b, d.dimensions);
    if let Some(i) = d.init {
        lemma_init_mono(a, b, i);
    }
}

pub proof fn lemma_decls_mono(a: Seq<SpecSymbol>, b: Seq<SpecSymbol>, ds: Seq<SpecSemVarDecl>)
    requires
        extends(a, b),
        resolved_decls(a, ds),
    ensures
        resolved_decls(b, ds),
{
    assert forall|i: int| 0 <= i < ds.len() implies resolved_decl(b, #[trigger] ds[i]) by {
        lemma_decl_mono(a, b, ds[i]);
    }
}

pub proof fn lemma_stmt_mono(a: Seq<SpecSymbol>, b: Seq<SpecSymbol>, s: SpecSemStmt)
    requires
        extends(a, b),
        resolved_stmt(a, s),
    ensures
        resolved_stmt(b, s),
    decreases s,
{
    match s {
        SpecSemStmt::VarDecl(ds) => lemma_decls_mono(a, b, ds),
        SpecSemStmt::If { condition, then_branch, else_branch } => {
            lemma_expr_mono(a, b, condition);
            lemma_stmt_mono(a, b, *then_branch);
            if let Some(x) = else_branch {
                lemma_stmt_mono(a, b, *x);
            }
        },
        SpecSemStmt::While { condition, body } => {
            lemma_expr_mono(a, b, condition);
            lemma_stmt_mono(a, b, *body);
        },
        SpecSemStmt::For { init, condition, update, body, .. } => {
            match init {
                Some(SpecSemForInit::Decl(ds)) => lemma_decls_mono(a, b, ds),
                Some(SpecSemForInit::Expr(e)) => lemma_expr_mono(a, b, e),
                None => {},
            }
            lemma_opt_mono(a, b, condition);
            lemma_opt_mono(a, b, update);
            lemma_stmt_mono(a, b, *body);
        },
        SpecSemStmt::Return(e) => lemma_opt_mono(a, b, e),
        SpecSemStmt::Expr(e) => lemma_expr_mono(a, b, e),
        SpecSemStmt::Block(blk) => lemma_stmts_mono(a, b, blk.statements),
        _ => {},
    }
}

pub proof fn lemma_stmts_mono(a: Seq<SpecSymbol>, b: Seq<SpecSymbol>, ss: Seq<SpecSemStmt>)
    requires
        extends(a, b),
        resolved_stmts(a, ss),
    ensures
        resolved_stmts(b, ss),
    decreases ss,
{
    if ss.len() > 0 {
        lemma_stmts_mono(a, b, ss.drop_last());
        lemma_stmt_mono(a, b, ss.last());
    }
}

pub proof fn lemma_params_mono(a: Seq<SpecSymbol>, b: Seq<SpecSymbol>, ps: Seq<SpecSemParam>)
    requires
        extends(a, b),
        resolved_params(a, ps),
    ensures
        resolved_params(b, ps),
{
    assert forall|i: int| 0 <= i < ps.len() implies resolved_param(b, #[trigger] ps[i]) by {
        lemma_names_opt_mono(a, b, ps[i].name, ps[i].symbol_id);
        lemma_dims_mono(a, b, ps[i].dimensions);
    }
}

pub proof fn lemma_items_mono(a: Seq<SpecSymbol>, b: Seq<SpecSymbol>, items: Seq<SpecSemItem>)
    requires
        extends(a, b),
        resolved_items(a, items),
    ensures
        resolved_items(b, items),
{
    assert forall|i: int| 0 <= i < items.len() implies resolved_item(b, #[trigger] items[i]) by {
        match items[i] {
            SpecSemItem::Function(f) => {
                lemma_names_opt_mono(a, b, f.name, f.symbol_id);
                lemma_params_mono(a, b, f.params);
                lemma_stmts_mono(a, b, f.body.statements);
            },
            SpecSemItem::GlobalDecl(ds) => lemma_decls_mono(a, b, ds),
        }
    }
}


// ---------------------------------------------------------------------------
// Complete annotations: every identifier bound, no expression of the error
// type
// ---------------------------------------------------------------------------

pub open spec fn complete_expr(e: SpecSemExpr) -> bool
    decreases e,
{
    &&& !(e.ty is Error)
    &&& match e.kind {
        SpecSemExprKind::Ident { symbol_id, .. } => symbol_id is Some,
        SpecSemExprKind::Unary { expr, .. } => complete_expr(*expr),
        SpecSemExprKind::Binary { left, right, .. } => complete_expr(*left) && complete_expr(*right),
        SpecSemExprKind::Assign { target, value } => complete_expr(*target) && complete_expr(*value),
        SpecSemExprKind::Call { callee, args, .. } => complete_expr(*callee) && complete_exprs(args),
        SpecSemExprKind::Index { array, index } => complete_expr(*array) && complete_expr(*index),
        SpecSemExprKind::Postfix { expr, .. } => complete_expr(*expr),
        _ => true,
    }
}

pub open spec fn complete_exprs(es: Seq<SpecSemExpr>) -> bool
    decreases es,
{
    if es.len() == 0 {
        true
    } else {
        complete_exprs(es.drop_last()) && complete_expr(es.last())
    }
}

pub open spec fn complete_opt(e: Option<SpecSemExpr>) -> bool {
    match e {
        Some(e) => complete_expr(e),
        None => true,
    }
}

pub open spec fn complete_dims(ds: Seq<Option<SpecSemExpr>>) -> bool {
    forall|i: int| 0 <= i < ds.len() ==> complete_opt(#[trigger] ds[i])
}

pub open spec fn complete_init(i: SpecSemInitializer) -> bool
    decreases i,
{
    match i {
        SpecSemInitializer::Expr(e) => complete_expr(e),
        SpecSemInitializer::List(items) => complete_inits(items),
    }
}

pub open spec fn complete_inits(items: Seq<SpecSemInitializer>) -> bool
    decreases items,
{
    if items.len() == 0 {
        true
    } else {
        complete_inits(items.drop_last()) && complete_init(items.last())
    }
}

pub open spec fn complete_decl(d: SpecSemVarDecl) -> bool {
    &&& complete_dims(d.dimensions)
    &&& match d.init {
        Some(i) => complete_init(i),
        None => true,
    }
}

pub open spec fn complete_decls(ds: Seq<SpecSemVarDecl>) -> bool {
    forall|i: int| 0 <= i < ds.len() ==> complete_decl(#[trigger] ds[i])
}

pub open spec fn complete_stmt(s: SpecSemStmt) -> bool
    decreases s,
{
    match s {
        SpecSemStmt::VarDecl(ds) => complete_decls(ds),
        SpecSemStmt::If { condition, then_branch, else_branch } => {
            &&& complete_expr(condition)
            &&& complete_stmt(*then_branch)
            &&& match else_branch {
                Some(b) => complete_stmt(*b),
                None => true,
            }
        },
        SpecSemStmt::While { condition, body } => complete_expr(condition) && complete_stmt(*body),
        SpecSemStmt::For { init, condition, update, body, .. } => {
            &&& match init {
                Some(SpecSemForInit::Decl(ds)) => complete_decls(ds),
                Some(SpecSemForInit::Expr(e)) => complete_expr(e),
                None => true,
            }
            &&& complete_opt(condition)
            &&& complete_opt(update)
            &&& complete_stmt(*body)
        },
        SpecSemStmt::Return(e) => complete_opt(e),
        SpecSemStmt::Expr(e) => complete_expr(e),
        SpecSemStmt::Block(b) => complete_stmts(b.statements),
        _ => true,
    }
}

pub open spec fn complete_stmts(ss: Seq<SpecSemStmt>) -> bool
    decreases ss,
{
    if ss.len() == 0 {
        true
    } else {
        complete_stmts(ss.drop_last()) && complete_stmt(ss.last())
    }
}

pub open spec fn complete_block(b: SpecSemBlock) -> bool {
    complete_stmts(b.statements)
}

pub open spec fn complete_param(p: SpecSemParam) -> bool {
    complete_dims(p.dimensions)
}

pub open spec fn complete_params(ps: Seq<SpecSemParam>) -> bool {
    forall|i: int| 0 <= i < ps.len() ==> complete_param(#[trigger] ps[i])
}

pub open spec fn complete_function(f: SpecSemFunction) -> bool {
    complete_params(f.params) && complete_block(f.body)
}

pub open spec fn complete_item(item: SpecSemItem) -> bool {
    match item {
        SpecSemItem::Function(f) => complete_function(f),
        SpecSemItem::GlobalDecl(ds) => complete_decls(ds),
    }
}

pub open spec fn complete_items(items: Seq<SpecSemItem>) -> bool {
    forall|i: int| 0 <= i < items.len() ==> complete_item(#[trigger] items[i])
}


// ---------------------------------------------------------------------------
// Scope ids stored in the annotated tree exist
// ---------------------------------------------------------------------------

pub open spec fn scoped_stmt(n: nat, s: SpecSemStmt) -> bool
    decreases s,
{
    match s {
        SpecSemStmt::If { then_branch, else_branch, .. } => {
            &&& scoped_stmt(n, *then_branch)
            &&& match else_branch {
                Some(b) => scoped_stmt(n, *b),
                None => true,
            }
        },
        SpecSemStmt::While { body, .. } => scoped_stmt(n, *body),
        SpecSemStmt::For { scope_id, body, .. } => {
            &&& match scope_id {
                Some(id) => id.0 < n,
                None => true,
            }
            &&& scoped_stmt(n, *body)
        },
        SpecSemStmt::Block(b) => b.scope_id.0 < n && scoped_stmts(n, b.statements),
        _ => true,
    }
}

pub open spec fn scoped_stmts(n: nat, ss: Seq<SpecSemStmt>) -> bool
    decreases ss,
{
    if ss.len() == 0 {
        true
    } else {
        scoped_stmts(n, ss.drop_last()) && scoped_stmt(n, ss.last())
    }
}

pub open spec fn scoped_block(n: nat, b: SpecSemBlock) -> bool {
    b.scope_id.0 < n && scoped_stmts(n, b.statements)
}

pub open spec fn scoped_function(n: nat, f: SpecSemFunction) -> bool {
    f.scope_id.0 < n && scoped_block(n, f.body)
}

pub open spec fn scoped_item(n: nat, item: SpecSemItem) -> bool {
    match item {
        SpecSemItem::Function(f) => scoped_function(n, f),
        SpecSemItem::GlobalDecl(_) => true,
    }
}

pub open spec fn scoped_items(n: nat, items: Seq<SpecSemItem>) -> bool {
    forall|i: int| 0 <= i < items.len() ==> scoped_item(n, #[trigger] items[i])
}

pub proof fn lemma_scoped_stmt_mono(n: nat, m: nat, s: SpecSemStmt)
    requires
        n <= m,
        scoped_stmt(n, s),
    ensures
        scoped_stmt(m, s),
    decreases s,
{
    match s {
        SpecSemStmt::If { then_branch, else_branch, .. } => {
            lemma_scoped_stmt_mono(n, m, *then_branch);
            if let Some(b) = else_branch {
                lemma_scoped_stmt_mono(n, m, *b);
            }
        },
        SpecSemStmt::While { body, .. } => lemma_scoped_stmt_mono(n, m, *body),
        SpecSemStmt::For { body, .. } => lemma_scoped_stmt_mono(n, m, *body),
        SpecSemStmt::Block(b) => lemma_scoped_stmts_mono(n, m, b.statements),
        _ => {},
    }
}

pub proof fn lemma_scoped_stmts_mono(n: nat, m: nat, ss: Seq<SpecSemStmt>)
    requires
        n <= m,
        scoped_stmts(n, ss),
    ensures
        scoped_stmts(m, ss),
    decreases ss,
{
    if ss.len() > 0 {
        lemma_scoped_stmts_mono(n, m, ss.drop_last());
        lemma_scoped_stmt_mono(n, m, ss.last());
    }
}

pub proof fn lemma_scoped_items_mono(n: nat, m: nat, items: Seq<SpecSemItem>)
    requires
        n <= m,
        scoped_items(n, items),
    ensures
        scoped_items(m, items),
{
    assert forall|i: int| 0 <= i < items.len() implies scoped_item(m, #[trigger] items[i]) by {
        if let SpecSemItem::Function(f) = items[i] {
            lemma_scoped_stmts_mono(n, m, f.body.statements);
        }
    }
}

} // verus!
