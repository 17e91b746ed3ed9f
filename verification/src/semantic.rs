//! Semantic analysis: name resolution with nested scopes, a symbol table,
//! type checking of SysY expressions and statements, and the annotated tree
//! that later stages consume.

use vstd::prelude::*;
use crate::ast::{BinaryOp, PostfixOp, Program, SourceLocation, TypeName, UnaryOp, lemma_items_view_len};
use crate::analyzer::{
    Analyzer, builtin_symbol, lemma_builtins, spec_analyze, table_consistent,
};
use crate::resolution::{complete_items, resolved_items, scoped_items};

verus! {

#[derive(Debug)]
pub struct SemanticAnalysis {
    pub program: SemanticProgram,
    pub errors: Vec<SemanticError>,
}

#[derive(Debug)]
pub struct SemanticProgram {
    pub items: Vec<SemanticItem>,
    pub symbols: Vec<Symbol>,
    pub scopes: Vec<ScopeInfo>,
}

#[derive(Debug)]
pub enum SemanticItem {
    Function(SemanticFunction),
    GlobalDecl(Vec<SemanticVarDecl>),
}

#[derive(Debug)]
pub struct SemanticFunction {
    pub symbol_id: Option<SymbolId>,
    pub return_type: TypeName,
    pub name: String,
    pub params: Vec<SemanticParam>,
    pub scope_id: ScopeId,
    pub body: SemanticBlock,
}

#[derive(Debug)]
pub struct SemanticParam {
    pub symbol_id: Option<SymbolId>,
    pub ty: SemanticType,
    pub name: String,
    pub dimensions: Vec<Option<SemanticExpr>>,
}

#[derive(Debug)]
pub struct SemanticBlock {
    pub scope_id: ScopeId,
    pub statements: Vec<SemanticStmt>,
}

#[derive(Debug)]
pub enum SemanticStmt {
    VarDecl(Vec<SemanticVarDecl>),
    If {
        condition: SemanticExpr,
        then_branch: Box<SemanticStmt>,
        else_branch: Option<Box<SemanticStmt>>,
    },
    While { condition: SemanticExpr, body: Box<SemanticStmt> },
    For {
        scope_id: Option<ScopeId>,
        init: Option<SemanticForInit>,
        condition: Option<SemanticExpr>,
        update: Option<SemanticExpr>,
        body: Box<SemanticStmt>,
    },
    Return(Option<SemanticExpr>),
    Break,
    Continue,
    Expr(SemanticExpr),
    Block(SemanticBlock),
    Empty,
}

#[derive(Debug)]
pub enum SemanticForInit {
    Decl(Vec<SemanticVarDecl>),
    Expr(SemanticExpr),
}

#[derive(Debug)]
pub struct SemanticVarDecl {
    pub symbol_id: Option<SymbolId>,
    pub is_const: bool,
    pub ty: SemanticType,
    pub name: String,
    pub dimensions: Vec<Option<SemanticExpr>>,
    pub init: Option<SemanticInitializer>,
}

#[derive(Debug)]
pub enum SemanticInitializer {
    Expr(SemanticExpr),
    List(Vec<SemanticInitializer>),
}

#[derive(Debug)]
pub struct SemanticExpr {
    pub location: SourceLocation,
    pub ty: SemanticType,
    pub kind: SemanticExprKind,
}

#[derive(Debug)]
pub enum SemanticExprKind {
    Ident { name: String, symbol_id: Option<SymbolId> },
    IntLiteral(String),
    FloatLiteral(String),
    Unary { op: UnaryOp, expr: Box<SemanticExpr> },
    Binary { op: BinaryOp, left: Box<SemanticExpr>, right: Box<SemanticExpr> },
    Assign { target: Box<SemanticExpr>, value: Box<SemanticExpr> },
    Call { callee: Box<SemanticExpr>, args: Vec<SemanticExpr>, function_symbol: Option<SymbolId> },
    Index { array: Box<SemanticExpr>, index: Box<SemanticExpr> },
    Postfix { op: PostfixOp, expr: Box<SemanticExpr> },
}

#[derive(Debug, Clone, Copy, PartialEq, Eq, Hash, Structural)]
pub struct SymbolId(pub usize);

#[derive(Debug, Clone, Copy, PartialEq, Eq, Hash, Structural)]
pub struct ScopeId(pub usize);

#[derive(Debug)]
pub struct Symbol {
    pub id: SymbolId,
    pub name: String,
    pub kind: SymbolKind,
    pub is_const: bool,
    pub ty: SemanticType,
    pub scope_id: ScopeId,
}

#[derive(Debug, Clone, Copy, PartialEq, Eq, Structural)]
pub enum SymbolKind {
    Variable,
    Parameter,
    Function,
}

/// One lexical scope: the names declared directly in it, each bound to its
/// symbol, in declaration order.  A name occurs at most once per scope.
#[derive(Debug)]
pub struct ScopeInfo {
    pub id: ScopeId,
    pub parent: Option<ScopeId>,
    pub symbols: Vec<(String, SymbolId)>,
}

#[derive(Debug)]
pub enum SemanticType {
    Int,
    Float,
    Void,
    Array { element: TypeName, rank: usize },
    Function { return_type: TypeName, params: Vec<SemanticType> },
    Error,
}

#[derive(Debug)]
pub struct SemanticError {
    pub location: SourceLocation,
    pub message: String,
}

/// Analyzes a parsed program.  The runtime library functions are declared
/// first, then every top-level function and global variable (so that items
/// may refer to those declared after them), and then each item is checked in
/// order.  Every problem found is recorded as an error; the analysis itself
/// always completes and annotates the whole program.
///
/// Besides matching the model exactly, the result has a consistent symbol
/// table in which every symbol is entered in its own scope, binds every
/// identifier only to a symbol of its own name and type and every
/// declaration only to a symbol of its own name, and
/// stores only scope ids that index the scope table.  When no error was
/// reported, every identifier is bound and no expression has the error type.
/// The runtime library functions are symbols `0` to `11`, in their order of
/// declaration.
pub fn analyze(program: &Program) -> (r: SemanticAnalysis)
    ensures
        r@ == spec_analyze(program@),
        table_consistent(r@.program.symbols, r@.program.scopes),
        resolved_items(r@.program.symbols, r@.program.items),
        r@.errors.len() == 0 ==> complete_items(r@.program.items),
        scoped_items(r@.program.scopes.len() as nat, r@.program.items),
        r@.program.symbols.len() >= 12,
        forall|i: int| 0 <= i < 12 ==> #[trigger] r@.program.symbols[i] == builtin_symbol(i),
{
    proof {
        lemma_items_view_len(program.items@);
        lemma_builtins();
    }
    let mut analyzer = Analyzer::new();
    analyzer.register_builtins();
    let ghost s1 = analyzer@;
    let predeclared = analyzer.predeclare_program(program);
    let ghost s2 = analyzer@;
    let items = analyzer.analyze_program(program, &predeclared);
    let ghost s3 = analyzer@;
    proof {
        assert forall|i: int| 0 <= i < 12 implies #[trigger] s3.symbols[i] == builtin_symbol(i) by {
            assert(s3.symbols[i] == s2.symbols[i]);
            assert(s2.symbols[i] == s1.symbols[i]);
        }
    }
    analyzer.into_analysis(items)
}

// ---------------------------------------------------------------------------
// Mathematical model: the same shapes with sequences in place of vectors and
// character sequences in place of strings.
// ---------------------------------------------------------------------------

pub enum SpecType {
    Int,
    Float,
    Void,
    Array { element: TypeName, rank: usize },
    Function { return_type: TypeName, params: Seq<SpecType> },
    Error,
}

pub struct SpecSemExpr {
    pub location: SourceLocation,
    pub ty: SpecType,
    pub kind: SpecSemExprKind,
}

pub enum SpecSemExprKind {
    Ident { name: Seq<char>, symbol_id: Option<SymbolId> },
    IntLiteral(Seq<char>),
    FloatLiteral(Seq<char>),
    Unary { op: UnaryOp, expr: Box<SpecSemExpr> },
    Binary { op: BinaryOp, left: Box<SpecSemExpr>, right: Box<SpecSemExpr> },
    Assign { target: Box<SpecSemExpr>, value: Box<SpecSemExpr> },
    Call { callee: Box<SpecSemExpr>, args: Seq<SpecSemExpr>, function_symbol: Option<SymbolId> },
    Index { array: Box<SpecSemExpr>, index: Box<SpecSemExpr> },
    Postfix { op: PostfixOp, expr: Box<SpecSemExpr> },
}

pub enum SpecSemInitializer {
    Expr(SpecSemExpr),
    List(Seq<SpecSemInitializer>),
}

pub struct SpecSemVarDecl {
    pub symbol_id: Option<SymbolId>,
    pub is_const: bool,
    pub ty: SpecType,
    pub name: Seq<char>,
    pub dimensions: Seq<Option<SpecSemExpr>>,
    pub init: Option<SpecSemInitializer>,
}

pub enum SpecSemForInit {
    Decl(Seq<SpecSemVarDecl>),
    Expr(SpecSemExpr),
}

pub struct SpecSemBlock {
    pub scope_id: ScopeId,
    pub statements: Seq<SpecSemStmt>,
}

pub enum SpecSemStmt {
    VarDecl(Seq<SpecSemVarDecl>),
    If {
        condition: SpecSemExpr,
        then_branch: Box<SpecSemStmt>,
        else_branch: Option<Box<SpecSemStmt>>,
    },
    While { condition: SpecSemExpr, body: Box<SpecSemStmt> },
    For {
        scope_id: Option<ScopeId>,
        init: Option<SpecSemForInit>,
        condition: Option<SpecSemExpr>,
        update: Option<SpecSemExpr>,
        body: Box<SpecSemStmt>,
    },
    Return(Option<SpecSemExpr>),
    Break,
    Continue,
    Expr(SpecSemExpr),
    Block(SpecSemBlock),
    Empty,
}

pub struct SpecSemParam {
    pub symbol_id: Option<SymbolId>,
    pub ty: SpecType,
    pub name: Seq<char>,
    pub dimensions: Seq<Option<SpecSemExpr>>,
}

pub struct SpecSemFunction {
    pub symbol_id: Option<SymbolId>,
    pub return_type: TypeName,
    pub name: Seq<char>,
    pub params: Seq<SpecSemParam>,
    pub scope_id: ScopeId,
    pub body: SpecSemBlock,
}

pub enum SpecSemItem {
    Function(SpecSemFunction),
    GlobalDecl(Seq<SpecSemVarDecl>),
}

pub struct SpecSymbol {
    pub id: SymbolId,
    pub name: Seq<char>,
    pub kind: SymbolKind,
    pub is_const: bool,
    pub ty: SpecType,
    pub scope_id: ScopeId,
}

pub struct SpecScope {
    pub id: ScopeId,
    pub parent: Option<ScopeId>,
    pub symbols: Seq<(Seq<char>, SymbolId)>,
}

pub struct SpecSemError {
    pub location: SourceLocation,
    pub message: Seq<char>,
}

pub struct SpecSemProgram {
    pub items: Seq<SpecSemItem>,
    pub symbols: Seq<SpecSymbol>,
    pub scopes: Seq<SpecScope>,
}

pub struct SpecSemAnalysis {
    pub program: SpecSemProgram,
    pub errors: Seq<SpecSemError>,
}

// ---------------------------------------------------------------------------
// Views
// ---------------------------------------------------------------------------

pub open spec fn type_view(t: SemanticType) -> SpecType
    decreases t,
{
    match t {
        SemanticType::Int => SpecType::Int,
        SemanticType::Float => SpecType::Float,
        SemanticType::Void => SpecType::Void,
        SemanticType::Array { element, rank } => SpecType::Array { element, rank },
        SemanticType::Function { return_type, params } => SpecType::Function {
            return_type,
            params: types_view(params@),
        },
        SemanticType::Error => SpecType::Error,
    }
}

#[verifier::opaque]
pub open spec fn types_view(ts: Seq<SemanticType>) -> Seq<SpecType>
    decreases ts,
{
    if ts.len() == 0 {
        seq![]
    } else {
        types_view(ts.drop_last()).push(type_view(ts.last()))
    }
}

pub open spec fn sem_expr_view(e: SemanticExpr) -> SpecSemExpr
    decreases e,
{
    SpecSemExpr {
        location: e.location,
        ty: type_view(e.ty),
        kind: match e.kind {
            SemanticExprKind::Ident { name, symbol_id } => SpecSemExprKind::Ident { name: name@, symbol_id },
            SemanticExprKind::IntLiteral(v) => SpecSemExprKind::IntLiteral(v@),
            SemanticExprKind::FloatLiteral(v) => SpecSemExprKind::FloatLiteral(v@),
            SemanticExprKind::Unary { op, expr } => SpecSemExprKind::Unary {
                op,
                expr: Box::new(sem_expr_view(*expr)),
            },
            SemanticExprKind::Binary { op, left, right } => SpecSemExprKind::Binary {
                op,
                left: Box::new(sem_expr_view(*left)),
                right: Box::new(sem_expr_view(*right)),
            },
            SemanticExprKind::Assign { target, value } => SpecSemExprKind::Assign {
                target: Box::new(sem_expr_view(*target)),
                value: Box::new(sem_expr_view(*value)),
            },
            SemanticExprKind::Call { callee, args, function_symbol } => SpecSemExprKind::Call {
                callee: Box::new(sem_expr_view(*callee)),
                args: sem_exprs_view(args@),
                function_symbol,
            },
            SemanticExprKind::Index { array, index } => SpecSemExprKind::Index {
                array: Box::new(sem_expr_view(*array)),
                index: Box::new(sem_expr_view(*index)),
            },
            SemanticExprKind::Postfix { op, expr } => SpecSemExprKind::Postfix {
                op,
                expr: Box::new(sem_expr_view(*expr)),
            },
        },
    }
}

#[verifier::opaque]
pub open spec fn sem_exprs_view(es: Seq<SemanticExpr>) -> Seq<SpecSemExpr>
    decreases es,
{
    if es.len() == 0 {
        seq![]
    } else {
        sem_exprs_view(es.drop_last()).push(sem_expr_view(es.last()))
    }
}

pub open spec fn opt_sem_expr_view(e: Option<SemanticExpr>) -> Option<SpecSemExpr> {
    match e {
        Some(e) => Some(sem_expr_view(e)),
        None => None,
    }
}

pub open spec fn sem_dims_view(ds: Seq<Option<SemanticExpr>>) -> Seq<Option<SpecSemExpr>> {
    ds.map_values(|d: Option<SemanticExpr>| opt_sem_expr_view(d))
}

pub open spec fn sem_init_view(i: SemanticInitializer) -> SpecSemInitializer
    decreases i,
{
    match i {
        SemanticInitializer::Expr(e) => SpecSemInitializer::Expr(sem_expr_view(e)),
        SemanticInitializer::List(items) => SpecSemInitializer::List(sem_inits_view(items@)),
    }
}

#[verifier::opaque]
pub open spec fn sem_inits_view(is: Seq<SemanticInitializer>) -> Seq<SpecSemInitializer>
    decreases is,
{
    if is.len() == 0 {
        seq![]
    } else {
        sem_inits_view(is.drop_last()).push(sem_init_view(is.last()))
    }
}

pub open spec fn opt_sem_init_view(i: Option<SemanticInitializer>) -> Option<SpecSemInitializer> {
    match i {
        Some(i) => Some(sem_init_view(i)),
        None => None,
    }
}

pub open spec fn sem_decl_view(d: SemanticVarDecl) -> SpecSemVarDecl {
    SpecSemVarDecl {
        symbol_id: d.symbol_id,
        is_const: d.is_const,
        ty: type_view(d.ty),
        name: d.name@,
        dimensions: sem_dims_view(d.dimensions@),
        init: opt_sem_init_view(d.init),
    }
}

pub open spec fn sem_decls_view(ds: Seq<SemanticVarDecl>) -> Seq<SpecSemVarDecl> {
    ds.map_values(|d: SemanticVarDecl| sem_decl_view(d))
}

pub open spec fn sem_stmt_view(s: SemanticStmt) -> SpecSemStmt
    decreases s,
{
    match s {
        SemanticStmt::VarDecl(ds) => SpecSemStmt::VarDecl(sem_decls_view(ds@)),
        SemanticStmt::If { condition, then_branch, else_branch } => SpecSemStmt::If {
            condition: sem_expr_view(condition),
            then_branch: Box::new(sem_stmt_view(*then_branch)),
            else_branch: match else_branch {
                Some(b) => Some(Box::new(sem_stmt_view(*b))),
                None => None,
            },
        },
        SemanticStmt::While { condition, body } => SpecSemStmt::While {
            condition: sem_expr_view(condition),
            body: Box::new(sem_stmt_view(*body)),
        },
        SemanticStmt::For { scope_id, init, condition, update, body } => SpecSemStmt::For {
            scope_id,
            init: match init {
                Some(SemanticForInit::Decl(ds)) => Some(SpecSemForInit::Decl(sem_decls_view(ds@))),
                Some(SemanticForInit::Expr(e)) => Some(SpecSemForInit::Expr(sem_expr_view(e))),
                None => None,
            },
            condition: opt_sem_expr_view(condition),
            update: opt_sem_expr_view(update),
            body: Box::new(sem_stmt_view(*body)),
        },
        SemanticStmt::Return(e) => SpecSemStmt::Return(opt_sem_expr_view(e)),
        SemanticStmt::Break => SpecSemStmt::Break,
        SemanticStmt::Continue => SpecSemStmt::Continue,
        SemanticStmt::Expr(e) => SpecSemStmt::Expr(sem_expr_view(e)),
        SemanticStmt::Block(b) => SpecSemStmt::Block(SpecSemBlock {
            scope_id: b.scope_id,
            statements: sem_stmts_view(b.statements@),
        }),
        SemanticStmt::Empty => SpecSemStmt::Empty,
    }
}

#[verifier::opaque]
pub open spec fn sem_stmts_view(ss: Seq<SemanticStmt>) -> Seq<SpecSemStmt>
    decreases ss,
{
    if ss.len() == 0 {
        seq![]
    } else {
        sem_stmts_view(ss.drop_last()).push(sem_stmt_view(ss.last()))
    }
}

pub open spec fn sem_block_view(b: SemanticBlock) -> SpecSemBlock {
    SpecSemBlock { scope_id: b.scope_id, statements: sem_stmts_view(b.statements@) }
}

pub open spec fn sem_param_view(p: SemanticParam) -> SpecSemParam {
    SpecSemParam {
        symbol_id: p.symbol_id,
        ty: type_view(p.ty),
        name: p.name@,
        dimensions: sem_dims_view(p.dimensions@),
    }
}

pub open spec fn sem_function_view(f: SemanticFunction) -> SpecSemFunction {
    SpecSemFunction {
        symbol_id: f.symbol_id,
        return_type: f.return_type,
        name: f.name@,
        params: f.params@.map_values(|p: SemanticParam| sem_param_view(p)),
        scope_id: f.scope_id,
        body: sem_block_view(f.body),
    }
}

pub open spec fn sem_item_view(i: SemanticItem) -> SpecSemItem {
    match i {
        SemanticItem::Function(f) => SpecSemItem::Function(sem_function_view(f)),
        SemanticItem::GlobalDecl(ds) => SpecSemItem::GlobalDecl(sem_decls_view(ds@)),
    }
}

pub open spec fn symbol_view(s: Symbol) -> SpecSymbol {
    SpecSymbol {
        id: s.id,
        name: s.name@,
        kind: s.kind,
        is_const: s.is_const,
        ty: type_view(s.ty),
        scope_id: s.scope_id,
    }
}

pub open spec fn entries_view(es: Seq<(String, SymbolId)>) -> Seq<(Seq<char>, SymbolId)> {
    es.map_values(|e: (String, SymbolId)| (e.0@, e.1))
}

pub open spec fn scope_view(s: ScopeInfo) -> SpecScope {
    SpecScope { id: s.id, parent: s.parent, symbols: entries_view(s.symbols@) }
}

pub open spec fn error_view(e: SemanticError) -> SpecSemError {
    SpecSemError { location: e.location, message: e.message@ }
}

impl View for SemanticType {
    type V = SpecType;

    open spec fn view(&self) -> SpecType {
        type_view(*self)
    }
}

impl View for SemanticExpr {
    type V = SpecSemExpr;

    open spec fn view(&self) -> SpecSemExpr {
        sem_expr_view(*self)
    }
}

impl View for SemanticInitializer {
    type V = SpecSemInitializer;

    open spec fn view(&self) -> SpecSemInitializer {
        sem_init_view(*self)
    }
}

impl View for SemanticVarDecl {
    type V = SpecSemVarDecl;

    open spec fn view(&self) -> SpecSemVarDecl {
        sem_decl_view(*self)
    }
}

impl View for SemanticStmt {
    type V = SpecSemStmt;

    open spec fn view(&self) -> SpecSemStmt {
        sem_stmt_view(*self)
    }
}

impl View for SemanticBlock {
    type V = SpecSemBlock;

    open spec fn view(&self) -> SpecSemBlock {
        sem_block_view(*self)
    }
}

impl View for SemanticParam {
    type V = SpecSemParam;

    open spec fn view(&self) -> SpecSemParam {
        sem_param_view(*self)
    }
}

impl View for SemanticFunction {
    type V = SpecSemFunction;

    open spec fn view(&self) -> SpecSemFunction {
        sem_function_view(*self)
    }
}

impl View for SemanticItem {
    type V = SpecSemItem;

    open spec fn view(&self) -> SpecSemItem {
        sem_item_view(*self)
    }
}

impl View for Symbol {
    type V = SpecSymbol;

    open spec fn view(&self) -> SpecSymbol {
        symbol_view(*self)
    }
}

impl View for ScopeInfo {
    type V = SpecScope;

    open spec fn view(&self) -> SpecScope {
        scope_view(*self)
    }
}

impl View for SemanticError {
    type V = SpecSemError;

    open spec fn view(&self) -> SpecSemError {
        error_view(*self)
    }
}

impl View for SemanticProgram {
    type V = SpecSemProgram;

    open spec fn view(&self) -> SpecSemProgram {
        SpecSemProgram {
            items: self.items@.map_values(|i: SemanticItem| sem_item_view(i)),
            symbols: self.symbols@.map_values(|s: Symbol| symbol_view(s)),
            scopes: self.scopes@.map_values(|s: ScopeInfo| scope_view(s)),
        }
    }
}

impl View for SemanticAnalysis {
    type V = SpecSemAnalysis;

    open spec fn view(&self) -> SpecSemAnalysis {
        SpecSemAnalysis {
            program: self.program@,
            errors: self.errors@.map_values(|e: SemanticError| error_view(e)),
        }
    }
}

// ---------------------------------------------------------------------------
// Lemmas on the views of sequences
// ---------------------------------------------------------------------------

pub proof fn lemma_types_view_push(s: Seq<SemanticType>, x: SemanticType)
    ensures
        types_view(s.push(x)) == types_view(s).push(type_view(x)),
{
    reveal(types_view);
    assert(s.push(x).drop_last() =~= s);
}

pub proof fn lemma_types_view_len(s: Seq<SemanticType>)
    ensures
        types_view(s).len() == s.len(),
    decreases s.len(),
{
    reveal(types_view);
    if s.len() > 0 {
        lemma_types_view_len(s.drop_last());
    }
}

pub proof fn lemma_types_view_index(s: Seq<SemanticType>, i: int)
    requires
        0 <= i < s.len(),
    ensures
        types_view(s).len() == s.len(),
        types_view(s)[i] == type_view(s[i]),
    decreases s.len(),
{
    reveal(types_view);
    if i < s.len() - 1 {
        lemma_types_view_index(s.drop_last(), i);
    }
    lemma_types_view_len(s);
}

pub proof fn lemma_sem_exprs_view_push(s: Seq<SemanticExpr>, x: SemanticExpr)
    ensures
        sem_exprs_view(s.push(x)) == sem_exprs_view(s).push(sem_expr_view(x)),
{
    reveal(sem_exprs_view);
    assert(s.push(x).drop_last() =~= s);
}

pub proof fn lemma_sem_inits_view_push(s: Seq<SemanticInitializer>, x: SemanticInitializer)
    ensures
        sem_inits_view(s.push(x)) == sem_inits_view(s).push(sem_init_view(x)),
{
    reveal(sem_inits_view);
    assert(s.push(x).drop_last() =~= s);
}

pub proof fn lemma_sem_stmts_view_push(s: Seq<SemanticStmt>, x: SemanticStmt)
    ensures
        sem_stmts_view(s.push(x)) == sem_stmts_view(s).push(sem_stmt_view(x)),
{
    reveal(sem_stmts_view);
    assert(s.push(x).drop_last() =~= s);
}

pub proof fn lemma_sem_exprs_view_index(s: Seq<SemanticExpr>, i: int)
    requires
        0 <= i < s.len(),
    ensures
        sem_exprs_view(s).len() == s.len(),
        sem_exprs_view(s)[i] == sem_expr_view(s[i]),
    decreases s.len(),
{
    reveal(sem_exprs_view);
    if i < s.len() - 1 {
        lemma_sem_exprs_view_index(s.drop_last(), i);
    } else {
        lemma_sem_exprs_view_len(s.drop_last());
    }
}

pub proof fn lemma_sem_exprs_view_len(s: Seq<SemanticExpr>)
    ensures
        sem_exprs_view(s).len() == s.len(),
    decreases s.len(),
{
    reveal(sem_exprs_view);
    if s.len() > 0 {
        lemma_sem_exprs_view_len(s.drop_last());
    }
}

pub proof fn lemma_sem_inits_view_index(s: Seq<SemanticInitializer>, i: int)
    requires
        0 <= i < s.len(),
    ensures
        sem_inits_view(s).len() == s.len(),
        sem_inits_view(s)[i] == sem_init_view(s[i]),
    decreases s.len(),
{
    reveal(sem_inits_view);
    if i < s.len() - 1 {
        lemma_sem_inits_view_index(s.drop_last(), i);
    } else {
        lemma_sem_inits_view_len(s.drop_last());
    }
}

pub proof fn lemma_sem_inits_view_len(s: Seq<SemanticInitializer>)
    ensures
        sem_inits_view(s).len() == s.len(),
    decreases s.len(),
{
    reveal(sem_inits_view);
    if s.len() > 0 {
        lemma_sem_inits_view_len(s.drop_last());
    }
}

/// The view of an empty sequence is empty, for each recursive kind of node.
pub proof fn lemma_sem_empty_views()
    ensures
        types_view(Seq::<SemanticType>::empty()) == Seq::<SpecType>::empty(),
        sem_exprs_view(Seq::<SemanticExpr>::empty()) == Seq::<SpecSemExpr>::empty(),
        sem_inits_view(Seq::<SemanticInitializer>::empty()) == Seq::<SpecSemInitializer>::empty(),
        sem_stmts_view(Seq::<SemanticStmt>::empty()) == Seq::<SpecSemStmt>::empty(),
{
    reveal(types_view);
    reveal(sem_exprs_view);
    reveal(sem_inits_view);
    reveal(sem_stmts_view);
}

// ---------------------------------------------------------------------------
// Decimal numerals
// ---------------------------------------------------------------------------

pub open spec fn digit_str(d: nat) -> Seq<char> {
    if d == 0 {
        "0"@
    } else if d == 1 {
        "1"@
    } else if d == 2 {
        "2"@
    } else if d == 3 {
        "3"@
    } else if d == 4 {
        "4"@
    } else if d == 5 {
        "5"@
    } else if d == 6 {
        "6"@
    } else if d == 7 {
        "7"@
    } else if d == 8 {
        "8"@
    } else {
        "9"@
    }
}

/// The decimal numeral of `n`, without leading zeros.
pub open spec fn decimal(n: nat) -> Seq<char>
    decreases n,
{
    if n < 10 {
        digit_str(n)
    } else {
        decimal(n / 10) + digit_str(n % 10)
    }
}

/// The number a string of decimal digits spells, most significant first.
pub open spec fn numeral_value(s: Seq<char>) -> int
    decreases s.len(),
{
    if s.len() == 0 {
        0
    } else {
        numeral_value(s.drop_last()) * 10 + (s.last() as int - 48)
    }
}

/// Each digit is the one character whose code is `48 + d`.
pub proof fn law_digit_str(d: nat)
    requires
        d < 10,
    ensures
        digit_str(d).len() == 1,
        digit_str(d)[0] as int == 48 + d,
{
    reveal_strlit("0");
    reveal_strlit("1");
    reveal_strlit("2");
    reveal_strlit("3");
    reveal_strlit("4");
    reveal_strlit("5");
    reveal_strlit("6");
    reveal_strlit("7");
    reveal_strlit("8");
    reveal_strlit("9");
}

/// `decimal(n)` is the standard base-10 numeral of `n`: non-empty, made of
/// the characters `0` to `9` only, without a leading zero unless it is `0`
/// itself, and read back in base 10 it is `n`.
pub proof fn law_decimal(n: nat)
    ensures
        decimal(n).len() >= 1,
        forall|i: int| 0 <= i < decimal(n).len() ==> 48 <= #[trigger] decimal(n)[i] as int <= 57,
        n > 0 ==> decimal(n)[0] != '0',
        numeral_value(decimal(n)) == n,
    decreases n,
{
    if n < 10 {
        law_digit_str(n);
        let s = decimal(n);
        assert(s.drop_last() =~= Seq::<char>::empty());
        assert(numeral_value(s.drop_last()) == 0);
        assert(numeral_value(s) == numeral_value(s.drop_last()) * 10 + (s.last() as int - 48));
    } else {
        let q = (n / 10) as nat;
        let r = (n % 10) as nat;
        law_decimal(q);
        law_digit_str(r);
        let a = decimal(q);
        let s = a + digit_str(r);
        assert(s.drop_last() =~= a);
        assert(s.last() == digit_str(r)[0]);
        assert forall|i: int| 0 <= i < s.len() implies 48 <= #[trigger] s[i] as int <= 57 by {
            if i < a.len() {
                assert(s[i] == a[i]);
            }
        }
        assert(s[0] == a[0]);
        assert(q > 0);
        assert(numeral_value(s) == numeral_value(a) * 10 + (s.last() as int - 48));
        assert(q * 10 + r == n);
    }
}

fn digit_text(d: usize) -> (r: &'static str)
    requires
        d < 10,
    ensures
        r@ == digit_str(d as nat),
{
    if d == 0 {
        "0"
    } else if d == 1 {
        "1"
    } else if d == 2 {
        "2"
    } else if d == 3 {
        "3"
    } else if d == 4 {
        "4"
    } else if d == 5 {
        "5"
    } else if d == 6 {
        "6"
    } else if d == 7 {
        "7"
    } else if d == 8 {
        "8"
    } else {
        "9"
    }
}

/// Appends the decimal numeral of `n` to `s`.
pub fn append_decimal(s: &mut String, n: usize)
    ensures
        final(s)@ == old(s)@ + decimal(n as nat),
    decreases n,
{
    if n >= 10 {
        append_decimal(s, n / 10);
    }
    s.append(digit_text(n % 10));
    proof {
        if n >= 10 {
            assert(old(s)@ + decimal((n / 10) as nat) + digit_str((n % 10) as nat) =~= old(s)@ + decimal(n as nat));
        } else {
            assert(n % 10 == n);
        }
    }
}

// ---------------------------------------------------------------------------
// Copying types
// ---------------------------------------------------------------------------

/// A copy of a semantic type, equal to it in the model.
#[verifier::loop_isolation(false)]
pub fn copy_type(t: &SemanticType) -> (r: SemanticType)
    ensures
        r@ == t@,
    decreases t,
{
    match t {
        SemanticType::Int => SemanticType::Int,
        SemanticType::Float => SemanticType::Float,
        SemanticType::Void => SemanticType::Void,
        SemanticType::Array { element, rank } => SemanticType::Array { element: *element, rank: *rank },
        SemanticType::Function { return_type, params } => {
            let mut out: Vec<SemanticType> = Vec::new();
            let mut i: usize = 0;
            proof {
                lemma_sem_empty_views();
                assert(params@.take(0) =~= Seq::<SemanticType>::empty());
            }
            while i < params.len()
                invariant
                    i <= params.len(),
                    types_view(out@) == types_view(params@.take(i as int)),
                decreases params.len() - i,
            {
                proof {
                    assert(decreases_to!(t => params@[i as int]));
                }
                let c = copy_type(&params[i]);
                proof {
                    lemma_types_view_push(out@, c);
                    lemma_types_view_push(params@.take(i as int), params@[i as int]);
                    assert(params@.take(i as int).push(params@[i as int]) =~= params@.take(i as int + 1));
                }
                out.push(c);
                i = i + 1;
            }
            proof {
                assert(params@.take(params.len() as int) =~= params@);
                reveal(types_view);
            }
            SemanticType::Function { return_type: *return_type, params: out }
        },
        SemanticType::Error => SemanticType::Error,
    }
}

/// Two types are equal exactly when their models are.
#[verifier::loop_isolation(false)]
pub fn types_equal(a: &SemanticType, b: &SemanticType) -> (r: bool)
    ensures
        r == (a@ == b@),
    decreases a,
{
    proof {
        reveal(types_view);
    }
    match a {
        SemanticType::Int => matches!(b, SemanticType::Int),
        SemanticType::Float => matches!(b, SemanticType::Float),
        SemanticType::Void => matches!(b, SemanticType::Void),
        SemanticType::Error => matches!(b, SemanticType::Error),
        SemanticType::Array { element, rank } => match b {
            SemanticType::Array { element: e2, rank: r2 } => *element == *e2 && *rank == *r2,
            _ => false,
        },
        SemanticType::Function { return_type, params } => match b {
            SemanticType::Function { return_type: rt2, params: p2 } => {
                if *return_type != *rt2 || params.len() != p2.len() {
                    proof {
                        lemma_types_view_len(params@);
                        lemma_types_view_len(p2@);
                    }
                    return false;
                }
                let mut i: usize = 0;
                while i < params.len()
                    invariant
                        i <= params.len(),
                        params.len() == p2.len(),
                        forall|k: int| 0 <= k < i ==> type_view(#[trigger] params@[k]) == type_view(p2@[k]),
                    decreases params.len() - i,
                {
                    proof {
                        assert(decreases_to!(a => params@[i as int]));
                    }
                    if !types_equal(&params[i], &p2[i]) {
                        proof {
                            lemma_types_view_index(params@, i as int);
                            lemma_types_view_index(p2@, i as int);
                        }
                        return false;
                    }
                    i = i + 1;
                }
                proof {
                    lemma_types_view_len(params@);
                    lemma_types_view_len(p2@);
                    assert forall|k: int| 0 <= k < params.len() implies types_view(params@)[k] == types_view(p2@)[k] by {
                        lemma_types_view_index(params@, k);
                        lemma_types_view_index(p2@, k);
                    }
                    assert(types_view(params@) =~= types_view(p2@));
                }
                true
            },
            _ => false,
        },
    }
}

impl PartialEq for SemanticType {
    fn eq(&self, other: &Self) -> (r: bool) {
        types_equal(self, other)
    }
}

impl vstd::std_specs::cmp::PartialEqSpecImpl for SemanticType {
    open spec fn obeys_eq_spec() -> bool {
        true
    }

    open spec fn eq_spec(&self, other: &Self) -> bool {
        self@ == other@
    }
}

impl Eq for SemanticType {
}

impl Clone for SemanticType {
    fn clone(&self) -> (r: Self)
        ensures
            r@ == self@,
    {
        copy_type(self)
    }
}


// ---------------------------------------------------------------------------
// Copies of the annotated tree
// ---------------------------------------------------------------------------

/// The view of an annotated expression's kind, which does not depend on its
/// location or type.
pub open spec fn sem_kind_view(k: SemanticExprKind) -> SpecSemExprKind {
    sem_expr_view(SemanticExpr { location: SourceLocation { line: 0, column: 0 }, ty: SemanticType::Int, kind: k }).kind
}

pub open spec fn sem_for_init_view(i: SemanticForInit) -> SpecSemForInit {
    match i {
        SemanticForInit::Decl(ds) => SpecSemForInit::Decl(sem_decls_view(ds@)),
        SemanticForInit::Expr(e) => SpecSemForInit::Expr(sem_expr_view(e)),
    }
}

fn copy_sem_expr(e: &SemanticExpr) -> (r: SemanticExpr)
    ensures
        r@ == e@,
    decreases e,
{
    let kind = copy_sem_kind(&e.kind);
    proof {
        reveal(sem_exprs_view);
    }
    SemanticExpr { location: e.location, ty: copy_type(&e.ty), kind }
}

fn copy_sem_kind(k: &SemanticExprKind) -> (r: SemanticExprKind)
    ensures
        sem_kind_view(r) == sem_kind_view(*k),
    decreases k,
{
    proof {
        reveal(sem_exprs_view);
    }
    match k {
        SemanticExprKind::Ident { name, symbol_id } => SemanticExprKind::Ident { name: name.clone(), symbol_id: *symbol_id },
        SemanticExprKind::IntLiteral(v) => SemanticExprKind::IntLiteral(v.clone()),
        SemanticExprKind::FloatLiteral(v) => SemanticExprKind::FloatLiteral(v.clone()),
        SemanticExprKind::Unary { op, expr } => SemanticExprKind::Unary { op: *op, expr: Box::new(copy_sem_expr(expr)) },
        SemanticExprKind::Binary { op, left, right } => SemanticExprKind::Binary {
            op: *op,
            left: Box::new(copy_sem_expr(left)),
            right: Box::new(copy_sem_expr(right)),
        },
        SemanticExprKind::Assign { target, value } => SemanticExprKind::Assign {
            target: Box::new(copy_sem_expr(target)),
            value: Box::new(copy_sem_expr(value)),
        },
        SemanticExprKind::Call { callee, args, function_symbol } => SemanticExprKind::Call {
            callee: Box::new(copy_sem_expr(callee)),
            args: copy_sem_exprs(args),
            function_symbol: *function_symbol,
        },
        SemanticExprKind::Index { array, index } => SemanticExprKind::Index {
            array: Box::new(copy_sem_expr(array)),
            index: Box::new(copy_sem_expr(index)),
        },
        SemanticExprKind::Postfix { op, expr } => SemanticExprKind::Postfix { op: *op, expr: Box::new(copy_sem_expr(expr)) },
    }
}

#[verifier::loop_isolation(false)]
fn copy_sem_exprs(es: &Vec<SemanticExpr>) -> (r: Vec<SemanticExpr>)
    ensures
        sem_exprs_view(r@) == sem_exprs_view(es@),
    decreases es,
{
    let mut out: Vec<SemanticExpr> = Vec::new();
    let mut i: usize = 0;
    proof {
        lemma_sem_empty_views();
        assert(es@.take(0) =~= Seq::<SemanticExpr>::empty());
    }
    while i < es.len()
        invariant
            i <= es.len(),
            sem_exprs_view(out@) == sem_exprs_view(es@.take(i as int)),
        decreases es.len() - i,
    {
        proof {
            assert(decreases_to!(es => es@[i as int]));
        }
        let c = copy_sem_expr(&es[i]);
        proof {
            lemma_sem_exprs_view_push(out@, c);
            lemma_sem_exprs_view_push(es@.take(i as int), es@[i as int]);
            assert(es@.take(i as int).push(es@[i as int]) =~= es@.take(i as int + 1));
        }
        out.push(c);
        i = i + 1;
    }
    proof {
        assert(es@.take(es.len() as int) =~= es@);
    }
    out
}

fn copy_sem_opt_expr(e: &Option<SemanticExpr>) -> (r: Option<SemanticExpr>)
    ensures
        opt_sem_expr_view(r) == opt_sem_expr_view(*e),
{
    match e {
        Some(e) => Some(copy_sem_expr(e)),
        None => None,
    }
}

fn copy_sem_dims(ds: &Vec<Option<SemanticExpr>>) -> (r: Vec<Option<SemanticExpr>>)
    ensures
        sem_dims_view(r@) == sem_dims_view(ds@),
{
    let mut out: Vec<Option<SemanticExpr>> = Vec::new();
    let mut i: usize = 0;
    while i < ds.len()
        invariant
            i <= ds.len(),
            out.len() == i,
            forall|k: int| 0 <= k < i ==> opt_sem_expr_view(#[trigger] out@[k]) == opt_sem_expr_view(ds@[k]),
        decreases ds.len() - i,
    {
        let c = copy_sem_opt_expr(&ds[i]);
        out.push(c);
        i = i + 1;
    }
    proof {
        assert(sem_dims_view(out@) =~= sem_dims_view(ds@));
    }
    out
}

#[verifier::loop_isolation(false)]
fn copy_sem_init(init: &SemanticInitializer) -> (r: SemanticInitializer)
    ensures
        r@ == init@,
    decreases init,
{
    proof {
        reveal(sem_inits_view);
        reveal(sem_exprs_view);
    }
    match init {
        SemanticInitializer::Expr(e) => SemanticInitializer::Expr(copy_sem_expr(e)),
        SemanticInitializer::List(items) => {
            let mut out: Vec<SemanticInitializer> = Vec::new();
            let mut i: usize = 0;
            proof {
                lemma_sem_empty_views();
                assert(items@.take(0) =~= Seq::<SemanticInitializer>::empty());
            }
            while i < items.len()
                invariant
                    i <= items.len(),
                    sem_inits_view(out@) == sem_inits_view(items@.take(i as int)),
                decreases items.len() - i,
            {
                proof {
                    assert(decreases_to!(init => items@[i as int]));
                }
                let c = copy_sem_init(&items[i]);
                proof {
                    lemma_sem_inits_view_push(out@, c);
                    lemma_sem_inits_view_push(items@.take(i as int), items@[i as int]);
                    assert(items@.take(i as int).push(items@[i as int]) =~= items@.take(i as int + 1));
                }
                out.push(c);
                i = i + 1;
            }
            proof {
                assert(items@.take(items.len() as int) =~= items@);
                reveal(sem_inits_view);
            }
            SemanticInitializer::List(out)
        },
    }
}

fn copy_sem_decl(d: &SemanticVarDecl) -> (r: SemanticVarDecl)
    ensures
        r@ == d@,
{
    let init = match &d.init {
        Some(i) => Some(copy_sem_init(i)),
        None => None,
    };
    SemanticVarDecl {
        symbol_id: d.symbol_id,
        is_const: d.is_const,
        ty: copy_type(&d.ty),
        name: d.name.clone(),
        dimensions: copy_sem_dims(&d.dimensions),
        init,
    }
}

fn copy_sem_decls(ds: &Vec<SemanticVarDecl>) -> (r: Vec<SemanticVarDecl>)
    ensures
        sem_decls_view(r@) == sem_decls_view(ds@),
{
    let mut out: Vec<SemanticVarDecl> = Vec::new();
    let mut i: usize = 0;
    while i < ds.len()
        invariant
            i <= ds.len(),
            out.len() == i,
            forall|k: int| 0 <= k < i ==> sem_decl_view(#[trigger] out@[k]) == sem_decl_view(ds@[k]),
        decreases ds.len() - i,
    {
        let c = copy_sem_decl(&ds[i]);
        out.push(c);
        i = i + 1;
    }
    proof {
        assert(sem_decls_view(out@) =~= sem_decls_view(ds@));
    }
    out
}

fn copy_sem_for_init(i: &SemanticForInit) -> (r: SemanticForInit)
    ensures
        sem_for_init_view(r) == sem_for_init_view(*i),
{
    match i {
        SemanticForInit::Decl(ds) => SemanticForInit::Decl(copy_sem_decls(ds)),
        SemanticForInit::Expr(e) => SemanticForInit::Expr(copy_sem_expr(e)),
    }
}

fn copy_sem_stmt(s: &SemanticStmt) -> (r: SemanticStmt)
    ensures
        r@ == s@,
    decreases s,
{
    proof {
        reveal(sem_stmts_view);
    }
    match s {
        SemanticStmt::VarDecl(ds) => SemanticStmt::VarDecl(copy_sem_decls(ds)),
        SemanticStmt::If { condition, then_branch, else_branch } => {
            let else_copy = match else_branch {
                Some(b) => Some(Box::new(copy_sem_stmt(b))),
                None => None,
            };
            SemanticStmt::If {
                condition: copy_sem_expr(condition),
                then_branch: Box::new(copy_sem_stmt(then_branch)),
                else_branch: else_copy,
            }
        },
        SemanticStmt::While { condition, body } => SemanticStmt::While {
            condition: copy_sem_expr(condition),
            body: Box::new(copy_sem_stmt(body)),
        },
        SemanticStmt::For { scope_id, init, condition, update, body } => {
            let init_copy = match init {
                Some(i) => Some(copy_sem_for_init(i)),
                None => None,
            };
            SemanticStmt::For {
                scope_id: *scope_id,
                init: init_copy,
                condition: copy_sem_opt_expr(condition),
                update: copy_sem_opt_expr(update),
                body: Box::new(copy_sem_stmt(body)),
            }
        },
        SemanticStmt::Return(e) => SemanticStmt::Return(copy_sem_opt_expr(e)),
        SemanticStmt::Break => SemanticStmt::Break,
        SemanticStmt::Continue => SemanticStmt::Continue,
        SemanticStmt::Expr(e) => SemanticStmt::Expr(copy_sem_expr(e)),
        SemanticStmt::Block(b) => SemanticStmt::Block(copy_sem_block(b)),
        SemanticStmt::Empty => SemanticStmt::Empty,
    }
}

#[verifier::loop_isolation(false)]
fn copy_sem_block(b: &SemanticBlock) -> (r: SemanticBlock)
    ensures
        r@ == b@,
    decreases b,
{
    let mut out: Vec<SemanticStmt> = Vec::new();
    let mut i: usize = 0;
    proof {
        lemma_sem_empty_views();
        assert(b.statements@.take(0) =~= Seq::<SemanticStmt>::empty());
    }
    while i < b.statements.len()
        invariant
            i <= b.statements.len(),
            sem_stmts_view(out@) == sem_stmts_view(b.statements@.take(i as int)),
        decreases b.statements.len() - i,
    {
        proof {
            assert(decreases_to!(b => b.statements@[i as int]));
        }
        let c = copy_sem_stmt(&b.statements[i]);
        proof {
            lemma_sem_stmts_view_push(out@, c);
            lemma_sem_stmts_view_push(b.statements@.take(i as int), b.statements@[i as int]);
            assert(b.statements@.take(i as int).push(b.statements@[i as int]) =~= b.statements@.take(i as int + 1));
        }
        out.push(c);
        i = i + 1;
    }
    proof {
        assert(b.statements@.take(b.statements.len() as int) =~= b.statements@);
    }
    SemanticBlock { scope_id: b.scope_id, statements: out }
}

fn copy_sem_param(p: &SemanticParam) -> (r: SemanticParam)
    ensures
        r@ == p@,
{
    SemanticParam {
        symbol_id: p.symbol_id,
        ty: copy_type(&p.ty),
        name: p.name.clone(),
        dimensions: copy_sem_dims(&p.dimensions),
    }
}

fn copy_sem_function(f: &SemanticFunction) -> (r: SemanticFunction)
    ensures
        r@ == f@,
{
    let mut params: Vec<SemanticParam> = Vec::new();
    let mut i: usize = 0;
    while i < f.params.len()
        invariant
            i <= f.params.len(),
            params.len() == i,
            forall|k: int| 0 <= k < i ==> sem_param_view(#[trigger] params@[k]) == sem_param_view(f.params@[k]),
        decreases f.params.len() - i,
    {
        let c = copy_sem_param(&f.params[i]);
        params.push(c);
        i = i + 1;
    }
    let r = SemanticFunction {
        symbol_id: f.symbol_id,
        return_type: f.return_type,
        name: f.name.clone(),
        params,
        scope_id: f.scope_id,
        body: copy_sem_block(&f.body),
    };
    proof {
        assert(r.params@.map_values(|p: SemanticParam| sem_param_view(p))
            =~= f.params@.map_values(|p: SemanticParam| sem_param_view(p)));
    }
    r
}

fn copy_sem_item(item: &SemanticItem) -> (r: SemanticItem)
    ensures
        r@ == item@,
{
    match item {
        SemanticItem::Function(f) => SemanticItem::Function(copy_sem_function(f)),
        SemanticItem::GlobalDecl(ds) => SemanticItem::GlobalDecl(copy_sem_decls(ds)),
    }
}

fn copy_symbol(s: &Symbol) -> (r: Symbol)
    ensures
        r@ == s@,
{
    Symbol {
        id: s.id,
        name: s.name.clone(),
        kind: s.kind,
        is_const: s.is_const,
        ty: copy_type(&s.ty),
        scope_id: s.scope_id,
    }
}

fn copy_scope(s: &ScopeInfo) -> (r: ScopeInfo)
    ensures
        r@ == s@,
{
    let mut entries: Vec<(String, SymbolId)> = Vec::new();
    let mut i: usize = 0;
    while i < s.symbols.len()
        invariant
            i <= s.symbols.len(),
            entries.len() == i,
            forall|k: int| 0 <= k < i ==> (#[trigger] entries@[k]).0@ == s.symbols@[k].0@ && entries@[k].1 == s.symbols@[k].1,
        decreases s.symbols.len() - i,
    {
        let name = s.symbols[i].0.clone();
        entries.push((name, s.symbols[i].1));
        i = i + 1;
    }
    let r = ScopeInfo { id: s.id, parent: s.parent, symbols: entries };
    proof {
        assert(entries_view(r.symbols@) =~= entries_view(s.symbols@));
    }
    r
}

fn copy_error(e: &SemanticError) -> (r: SemanticError)
    ensures
        r@ == e@,
{
    SemanticError { location: e.location, message: e.message.clone() }
}

fn copy_program(p: &SemanticProgram) -> (r: SemanticProgram)
    ensures
        r@ == p@,
{
    let mut items: Vec<SemanticItem> = Vec::new();
    let mut i: usize = 0;
    while i < p.items.len()
        invariant
            i <= p.items.len(),
            items.len() == i,
            forall|k: int| 0 <= k < i ==> sem_item_view(#[trigger] items@[k]) == sem_item_view(p.items@[k]),
        decreases p.items.len() - i,
    {
        let c = copy_sem_item(&p.items[i]);
        items.push(c);
        i = i + 1;
    }
    let mut symbols: Vec<Symbol> = Vec::new();
    let mut j: usize = 0;
    while j < p.symbols.len()
        invariant
            j <= p.symbols.len(),
            symbols.len() == j,
            forall|k: int| 0 <= k < j ==> symbol_view(#[trigger] symbols@[k]) == symbol_view(p.symbols@[k]),
        decreases p.symbols.len() - j,
    {
        let c = copy_symbol(&p.symbols[j]);
        symbols.push(c);
        j = j + 1;
    }
    let mut scopes: Vec<ScopeInfo> = Vec::new();
    let mut k: usize = 0;
    while k < p.scopes.len()
        invariant
            k <= p.scopes.len(),
            scopes.len() == k,
            forall|m: int| 0 <= m < k ==> scope_view(#[trigger] scopes@[m]) == scope_view(p.scopes@[m]),
        decreases p.scopes.len() - k,
    {
        let c = copy_scope(&p.scopes[k]);
        scopes.push(c);
        k = k + 1;
    }
    let r = SemanticProgram { items, symbols, scopes };
    proof {
        assert(r@.items =~= p@.items);
        assert(r@.symbols =~= p@.symbols);
        assert(r@.scopes =~= p@.scopes);
    }
    r
}

fn copy_analysis(a: &SemanticAnalysis) -> (r: SemanticAnalysis)
    ensures
        r@ == a@,
{
    let program = copy_program(&a.program);
    let mut errors: Vec<SemanticError> = Vec::new();
    let mut i: usize = 0;
    while i < a.errors.len()
        invariant
            i <= a.errors.len(),
            errors.len() == i,
            forall|k: int| 0 <= k < i ==> error_view(#[trigger] errors@[k]) == error_view(a.errors@[k]),
        decreases a.errors.len() - i,
    {
        let c = copy_error(&a.errors[i]);
        errors.push(c);
        i = i + 1;
    }
    let r = SemanticAnalysis { program, errors };
    proof {
        assert(r@.errors =~= a@.errors);
    }
    r
}

impl Clone for SemanticAnalysis {
    fn clone(&self) -> (r: Self)
        ensures
            r@ == self@,
    {
        copy_analysis(self)
    }
}

impl Clone for SemanticProgram {
    fn clone(&self) -> (r: Self)
        ensures
            r@ == self@,
    {
        copy_program(self)
    }
}

impl Clone for SemanticItem {
    fn clone(&self) -> (r: Self)
        ensures
            r@ == self@,
    {
        copy_sem_item(self)
    }
}

impl Clone for SemanticFunction {
    fn clone(&self) -> (r: Self)
        ensures
            r@ == self@,
    {
        copy_sem_function(self)
    }
}

impl Clone for SemanticParam {
    fn clone(&self) -> (r: Self)
        ensures
            r@ == self@,
    {
        copy_sem_param(self)
    }
}

impl Clone for SemanticBlock {
    fn clone(&self) -> (r: Self)
        ensures
            r@ == self@,
    {
        copy_sem_block(self)
    }
}

impl Clone for SemanticStmt {
    fn clone(&self) -> (r: Self)
        ensures
            r@ == self@,
    {
        copy_sem_stmt(self)
    }
}

impl Clone for SemanticForInit {
    fn clone(&self) -> (r: Self)
        ensures
            sem_for_init_view(r) == sem_for_init_view(*self),
    {
        copy_sem_for_init(self)
    }
}

impl Clone for SemanticVarDecl {
    fn clone(&self) -> (r: Self)
        ensures
            r@ == self@,
    {
        copy_sem_decl(self)
    }
}

impl Clone for SemanticInitializer {
    fn clone(&self) -> (r: Self)
        ensures
            r@ == self@,
    {
        copy_sem_init(self)
    }
}

impl Clone for SemanticExpr {
    fn clone(&self) -> (r: Self)
        ensures
            r@ == self@,
    {
        copy_sem_expr(self)
    }
}

impl Clone for SemanticExprKind {
    fn clone(&self) -> (r: Self)
        ensures
            sem_kind_view(r) == sem_kind_view(*self),
    {
        copy_sem_kind(self)
    }
}

impl Clone for Symbol {
    fn clone(&self) -> (r: Self)
        ensures
            r@ == self@,
    {
        copy_symbol(self)
    }
}

impl Clone for ScopeInfo {
    fn clone(&self) -> (r: Self)
        ensures
            r@ == self@,
    {
        copy_scope(self)
    }
}

impl Clone for SemanticError {
    fn clone(&self) -> (r: Self)
        ensures
            r@ == self@,
    {
        copy_error(self)
    }
}
} // verus!
