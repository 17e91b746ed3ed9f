//! Abstract syntax tree produced by the parser.

use vstd::prelude::*;

verus! {

#[derive(Debug)]
pub struct Program {
    pub items: Vec<Item>,
}

#[derive(Debug, Clone, Copy, PartialEq, Eq, Structural)]
pub struct SourceLocation {
    pub line: usize,
    pub column: usize,
}

#[derive(Debug)]
pub enum Item {
    Function(FunctionDef),
    GlobalDecl(Vec<VarDecl>),
}

#[derive(Debug)]
pub struct FunctionDef {
    pub location: SourceLocation,
    pub return_type: TypeName,
    pub name: String,
    pub params: Vec<Param>,
    pub body: Block,
}

#[derive(Debug)]
pub struct Param {
    pub location: SourceLocation,
    pub ty: TypeName,
    pub name: String,
    pub dimensions: Vec<Option<Expr>>,
}

#[derive(Debug)]
pub struct Block {
    pub location: SourceLocation,
    pub statements: Vec<Stmt>,
}

#[derive(Debug)]
pub enum Stmt {
    VarDecl { location: SourceLocation, decls: Vec<VarDecl> },
    If {
        location: SourceLocation,
        condition: Expr,
        then_branch: Box<Stmt>,
        else_branch: Option<Box<Stmt>>,
    },
    While { location: SourceLocation, condition: Expr, body: Box<Stmt> },
    For {
        location: SourceLocation,
        init: Option<ForInit>,
        condition: Option<Expr>,
        update: Option<Expr>,
        body: Box<Stmt>,
    },
    Return { location: SourceLocation, expr: Option<Expr> },
    Break { location: SourceLocation },
    Continue { location: SourceLocation },
    Expr { location: SourceLocation, expr: Expr },
    Block(Block),
    Empty { location: SourceLocation },
}

#[derive(Debug)]
pub enum ForInit {
    Decl(Vec<VarDecl>),
    Expr(Expr),
}

#[derive(Debug)]
pub struct VarDecl {
    pub location: SourceLocation,
    pub is_const: bool,
    pub ty: TypeName,
    pub name: String,
    pub dimensions: Vec<Option<Expr>>,
    pub init: Option<Initializer>,
}

#[derive(Debug)]
pub enum Initializer {
    Expr(Expr),
    List(Vec<Initializer>),
}

#[derive(Debug)]
pub struct Expr {
    pub location: SourceLocation,
    pub kind: ExprKind,
}

#[derive(Debug)]
pub enum ExprKind {
    Ident(String),
    IntLiteral(String),
    FloatLiteral(String),
    Unary { op: UnaryOp, expr: Box<Expr> },
    Binary { op: BinaryOp, left: Box<Expr>, right: Box<Expr> },
    Assign { target: Box<Expr>, value: Box<Expr> },
    Call { callee: Box<Expr>, args: Vec<Expr> },
    Index { array: Box<Expr>, index: Box<Expr> },
    Postfix { op: PostfixOp, expr: Box<Expr> },
}

#[derive(Debug, Clone, Copy, PartialEq, Eq, Structural)]
pub enum TypeName {
    Int,
    Float,
    Void,
}

#[derive(Debug, Clone, Copy, PartialEq, Eq, Structural)]
pub enum UnaryOp {
    Plus,
    Minus,
    Not,
    PreInc,
    PreDec,
}

#[derive(Debug, Clone, Copy, PartialEq, Eq, Structural)]
pub enum PostfixOp {
    PostInc,
    PostDec,
}

#[derive(Debug, Clone, Copy, PartialEq, Eq, Structural)]
pub enum BinaryOp {
    Add,
    Sub,
    Mul,
    Div,
    Mod,
    Eq,
    Neq,
    Lt,
    Le,
    Gt,
    Ge,
    And,
    Or,
}


// ---------------------------------------------------------------------------
// Mathematical model of the tree: the same shape, with sequences for vectors
// and character sequences for strings.
// ---------------------------------------------------------------------------

pub struct SpecProgram {
    pub items: Seq<SpecItem>,
}

pub enum SpecItem {
    Function(SpecFunctionDef),
    GlobalDecl(Seq<SpecVarDecl>),
}

pub struct SpecFunctionDef {
    pub location: SourceLocation,
    pub return_type: TypeName,
    pub name: Seq<char>,
    pub params: Seq<SpecParam>,
    pub body: SpecBlock,
}

pub struct SpecParam {
    pub location: SourceLocation,
    pub ty: TypeName,
    pub name: Seq<char>,
    pub dimensions: Seq<Option<SpecExpr>>,
}

pub struct SpecBlock {
    pub location: SourceLocation,
    pub statements: Seq<SpecStmt>,
}

pub enum SpecStmt {
    VarDecl { location: SourceLocation, decls: Seq<SpecVarDecl> },
    If {
        location: SourceLocation,
        condition: SpecExpr,
        then_branch: Box<SpecStmt>,
        else_branch: Option<Box<SpecStmt>>,
    },
    While { location: SourceLocation, condition: SpecExpr, body: Box<SpecStmt> },
    For {
        location: SourceLocation,
        init: Option<SpecForInit>,
        condition: Option<SpecExpr>,
        update: Option<SpecExpr>,
        body: Box<SpecStmt>,
    },
    Return { location: SourceLocation, expr: Option<SpecExpr> },
    Break { location: SourceLocation },
    Continue { location: SourceLocation },
    Expr { location: SourceLocation, expr: SpecExpr },
    Block(SpecBlock),
    Empty { location: SourceLocation },
}

pub enum SpecForInit {
    Decl(Seq<SpecVarDecl>),
    Expr(SpecExpr),
}

pub struct SpecVarDecl {
    pub location: SourceLocation,
    pub is_const: bool,
    pub ty: TypeName,
    pub name: Seq<char>,
    pub dimensions: Seq<Option<SpecExpr>>,
    pub init: Option<SpecInitializer>,
}

pub enum SpecInitializer {
    Expr(SpecExpr),
    List(Seq<SpecInitializer>),
}

pub struct SpecExpr {
    pub location: SourceLocation,
    pub kind: SpecExprKind,
}

pub enum SpecExprKind {
    Ident(Seq<char>),
    IntLiteral(Seq<char>),
    FloatLiteral(Seq<char>),
    Unary { op: UnaryOp, expr: Box<SpecExpr> },
    Binary { op: BinaryOp, left: Box<SpecExpr>, right: Box<SpecExpr> },
    Assign { target: Box<SpecExpr>, value: Box<SpecExpr> },
    Call { callee: Box<SpecExpr>, args: Seq<SpecExpr> },
    Index { array: Box<SpecExpr>, index: Box<SpecExpr> },
    Postfix { op: PostfixOp, expr: Box<SpecExpr> },
}

pub open spec fn expr_view(e: Expr) -> SpecExpr
    decreases e,
{
    SpecExpr {
        location: e.location,
        kind: match e.kind {
            ExprKind::Ident(n) => SpecExprKind::Ident(n@),
            ExprKind::IntLiteral(n) => SpecExprKind::IntLiteral(n@),
            ExprKind::FloatLiteral(n) => SpecExprKind::FloatLiteral(n@),
            ExprKind::Unary { op, expr } => SpecExprKind::Unary {
                op,
                expr: Box::new(expr_view(*expr)),
            },
            ExprKind::Binary { op, left, right } => SpecExprKind::Binary {
                op,
                left: Box::new(expr_view(*left)),
                right: Box::new(expr_view(*right)),
            },
            ExprKind::Assign { target, value } => SpecExprKind::Assign {
                target: Box::new(expr_view(*target)),
                value: Box::new(expr_view(*value)),
            },
            ExprKind::Call { callee, args } => SpecExprKind::Call {
                callee: Box::new(expr_view(*callee)),
                args: exprs_view(args@),
            },
            ExprKind::Index { array, index } => SpecExprKind::Index {
                array: Box::new(expr_view(*array)),
                index: Box::new(expr_view(*index)),
            },
            ExprKind::Postfix { op, expr } => SpecExprKind::Postfix {
                op,
                expr: Box::new(expr_view(*expr)),
            },
        },
    }
}

#[verifier::opaque]
pub open spec fn exprs_view(es: Seq<Expr>) -> Seq<SpecExpr>
    decreases es,
{
    if es.len() == 0 {
        seq![]
    } else {
        exprs_view(es.drop_last()).push(expr_view(es.last()))
    }
}

pub open spec fn opt_expr_view(e: Option<Expr>) -> Option<SpecExpr> {
    match e {
        Some(e) => Some(expr_view(e)),
        None => None,
    }
}

#[verifier::opaque]
pub open spec fn dims_view(ds: Seq<Option<Expr>>) -> Seq<Option<SpecExpr>>
    decreases ds.len(),
{
    if ds.len() == 0 {
        seq![]
    } else {
        dims_view(ds.drop_last()).push(opt_expr_view(ds.last()))
    }
}

pub open spec fn init_view(i: Initializer) -> SpecInitializer
    decreases i,
{
    match i {
        Initializer::Expr(e) => SpecInitializer::Expr(expr_view(e)),
        Initializer::List(items) => SpecInitializer::List(inits_view(items@)),
    }
}

#[verifier::opaque]
pub open spec fn inits_view(is: Seq<Initializer>) -> Seq<SpecInitializer>
    decreases is,
{
    if is.len() == 0 {
        seq![]
    } else {
        inits_view(is.drop_last()).push(init_view(is.last()))
    }
}

pub open spec fn decl_view(d: VarDecl) -> SpecVarDecl {
    SpecVarDecl {
        location: d.location,
        is_const: d.is_const,
        ty: d.ty,
        name: d.name@,
        dimensions: dims_view(d.dimensions@),
        init: match d.init {
            Some(i) => Some(init_view(i)),
            None => None,
        },
    }
}

#[verifier::opaque]
pub open spec fn decls_view(ds: Seq<VarDecl>) -> Seq<SpecVarDecl>
    decreases ds.len(),
{
    if ds.len() == 0 {
        seq![]
    } else {
        decls_view(ds.drop_last()).push(decl_view(ds.last()))
    }
}

pub open spec fn stmt_view(s: Stmt) -> SpecStmt
    decreases s,
{
    match s {
        Stmt::VarDecl { location, decls } => SpecStmt::VarDecl { location, decls: decls_view(decls@) },
        Stmt::If { location, condition, then_branch, else_branch } => SpecStmt::If {
            location,
            condition: expr_view(condition),
            then_branch: Box::new(stmt_view(*then_branch)),
            else_branch: match else_branch {
                Some(b) => Some(Box::new(stmt_view(*b))),
                None => None,
            },
        },
        Stmt::While { location, condition, body } => SpecStmt::While {
            location,
            condition: expr_view(condition),
            body: Box::new(stmt_view(*body)),
        },
        Stmt::For { location, init, condition, update, body } => SpecStmt::For {
            location,
            init: match init {
                Some(ForInit::Decl(ds)) => Some(SpecForInit::Decl(decls_view(ds@))),
                Some(ForInit::Expr(e)) => Some(SpecForInit::Expr(expr_view(e))),
                None => None,
            },
            condition: opt_expr_view(condition),
            update: opt_expr_view(update),
            body: Box::new(stmt_view(*body)),
        },
        Stmt::Return { location, expr } => SpecStmt::Return { location, expr: opt_expr_view(expr) },
        Stmt::Break { location } => SpecStmt::Break { location },
        Stmt::Continue { location } => SpecStmt::Continue { location },
        Stmt::Expr { location, expr } => SpecStmt::Expr { location, expr: expr_view(expr) },
        Stmt::Block(b) => SpecStmt::Block(SpecBlock { location: b.location, statements: stmts_view(b.statements@) }),
        Stmt::Empty { location } => SpecStmt::Empty { location },
    }
}

#[verifier::opaque]
pub open spec fn stmts_view(ss: Seq<Stmt>) -> Seq<SpecStmt>
    decreases ss,
{
    if ss.len() == 0 {
        seq![]
    } else {
        stmts_view(ss.drop_last()).push(stmt_view(ss.last()))
    }
}

pub open spec fn block_view(b: Block) -> SpecBlock {
    SpecBlock { location: b.location, statements: stmts_view(b.statements@) }
}

pub open spec fn param_view(p: Param) -> SpecParam {
    SpecParam { location: p.location, ty: p.ty, name: p.name@, dimensions: dims_view(p.dimensions@) }
}

#[verifier::opaque]
pub open spec fn params_view(ps: Seq<Param>) -> Seq<SpecParam>
    decreases ps.len(),
{
    if ps.len() == 0 {
        seq![]
    } else {
        params_view(ps.drop_last()).push(param_view(ps.last()))
    }
}

pub open spec fn item_view(i: Item) -> SpecItem {
    match i {
        Item::Function(f) => SpecItem::Function(SpecFunctionDef {
            location: f.location,
            return_type: f.return_type,
            name: f.name@,
            params: params_view(f.params@),
            body: block_view(f.body),
        }),
        Item::GlobalDecl(ds) => SpecItem::GlobalDecl(decls_view(ds@)),
    }
}

#[verifier::opaque]
pub open spec fn items_view(is: Seq<Item>) -> Seq<SpecItem>
    decreases is.len(),
{
    if is.len() == 0 {
        seq![]
    } else {
        items_view(is.drop_last()).push(item_view(is.last()))
    }
}

impl View for Program {
    type V = SpecProgram;

    open spec fn view(&self) -> SpecProgram {
        SpecProgram { items: items_view(self.items@) }
    }
}

impl View for Expr {
    type V = SpecExpr;

    open spec fn view(&self) -> SpecExpr {
        expr_view(*self)
    }
}

impl View for Stmt {
    type V = SpecStmt;

    open spec fn view(&self) -> SpecStmt {
        stmt_view(*self)
    }
}

impl View for Block {
    type V = SpecBlock;

    open spec fn view(&self) -> SpecBlock {
        block_view(*self)
    }
}

impl View for VarDecl {
    type V = SpecVarDecl;

    open spec fn view(&self) -> SpecVarDecl {
        decl_view(*self)
    }
}

impl View for Initializer {
    type V = SpecInitializer;

    open spec fn view(&self) -> SpecInitializer {
        init_view(*self)
    }
}

impl View for Param {
    type V = SpecParam;

    open spec fn view(&self) -> SpecParam {
        param_view(*self)
    }
}

impl View for Item {
    type V = SpecItem;

    open spec fn view(&self) -> SpecItem {
        item_view(*self)
    }
}


pub proof fn lemma_decls_view_index(s: Seq<VarDecl>, i: int)
    requires
        0 <= i < s.len(),
    ensures
        decls_view(s).len() == s.len(),
        decls_view(s)[i] == decl_view(s[i]),
    decreases s.len(),
{
    reveal(decls_view);
    if i < s.len() - 1 {
        lemma_decls_view_index(s.drop_last(), i);
    }
    lemma_decls_view_len(s);
}

pub proof fn lemma_decls_view_len(s: Seq<VarDecl>)
    ensures
        decls_view(s).len() == s.len(),
    decreases s.len(),
{
    reveal(decls_view);
    if s.len() > 0 {
        lemma_decls_view_len(s.drop_last());
    }
}

/// The view of an empty sequence is empty, for each kind of node.
pub proof fn lemma_empty_views()
    ensures
        exprs_view(Seq::<Expr>::empty()) == Seq::<SpecExpr>::empty(),
        dims_view(Seq::<Option<Expr>>::empty()) == Seq::<Option<SpecExpr>>::empty(),
        inits_view(Seq::<Initializer>::empty()) == Seq::<SpecInitializer>::empty(),
        decls_view(Seq::<VarDecl>::empty()) == Seq::<SpecVarDecl>::empty(),
        stmts_view(Seq::<Stmt>::empty()) == Seq::<SpecStmt>::empty(),
        params_view(Seq::<Param>::empty()) == Seq::<SpecParam>::empty(),
        items_view(Seq::<Item>::empty()) == Seq::<SpecItem>::empty(),
{
    reveal(exprs_view);
    reveal(dims_view);
    reveal(inits_view);
    reveal(decls_view);
    reveal(stmts_view);
    reveal(params_view);
    reveal(items_view);
}

pub proof fn lemma_exprs_view_len(s: Seq<Expr>)
    ensures
        exprs_view(s).len() == s.len(),
    decreases s.len(),
{
    reveal(exprs_view);
    if s.len() > 0 {
        lemma_exprs_view_len(s.drop_last());
    }
}

pub proof fn lemma_exprs_view_index(s: Seq<Expr>, i: int)
    requires
        0 <= i < s.len(),
    ensures
        exprs_view(s).len() == s.len(),
        exprs_view(s)[i] == expr_view(s[i]),
    decreases s.len(),
{
    reveal(exprs_view);
    if i < s.len() - 1 {
        lemma_exprs_view_index(s.drop_last(), i);
    }
    lemma_exprs_view_len(s);
}

pub proof fn lemma_dims_view_len(s: Seq<Option<Expr>>)
    ensures
        dims_view(s).len() == s.len(),
    decreases s.len(),
{
    reveal(dims_view);
    if s.len() > 0 {
        lemma_dims_view_len(s.drop_last());
    }
}

pub proof fn lemma_dims_view_index(s: Seq<Option<Expr>>, i: int)
    requires
        0 <= i < s.len(),
    ensures
        dims_view(s).len() == s.len(),
        dims_view(s)[i] == opt_expr_view(s[i]),
    decreases s.len(),
{
    reveal(dims_view);
    if i < s.len() - 1 {
        lemma_dims_view_index(s.drop_last(), i);
    }
    lemma_dims_view_len(s);
}

pub proof fn lemma_inits_view_len(s: Seq<Initializer>)
    ensures
        inits_view(s).len() == s.len(),
    decreases s.len(),
{
    reveal(inits_view);
    if s.len() > 0 {
        lemma_inits_view_len(s.drop_last());
    }
}

pub proof fn lemma_inits_view_index(s: Seq<Initializer>, i: int)
    requires
        0 <= i < s.len(),
    ensures
        inits_view(s).len() == s.len(),
        inits_view(s)[i] == init_view(s[i]),
    decreases s.len(),
{
    reveal(inits_view);
    if i < s.len() - 1 {
        lemma_inits_view_index(s.drop_last(), i);
    }
    lemma_inits_view_len(s);
}

pub proof fn lemma_stmts_view_len(s: Seq<Stmt>)
    ensures
        stmts_view(s).len() == s.len(),
    decreases s.len(),
{
    reveal(stmts_view);
    if s.len() > 0 {
        lemma_stmts_view_len(s.drop_last());
    }
}

pub proof fn lemma_stmts_view_index(s: Seq<Stmt>, i: int)
    requires
        0 <= i < s.len(),
    ensures
        stmts_view(s).len() == s.len(),
        stmts_view(s)[i] == stmt_view(s[i]),
    decreases s.len(),
{
    reveal(stmts_view);
    if i < s.len() - 1 {
        lemma_stmts_view_index(s.drop_last(), i);
    }
    lemma_stmts_view_len(s);
}

pub proof fn lemma_params_view_len(s: Seq<Param>)
    ensures
        params_view(s).len() == s.len(),
    decreases s.len(),
{
    reveal(params_view);
    if s.len() > 0 {
        lemma_params_view_len(s.drop_last());
    }
}

pub proof fn lemma_params_view_index(s: Seq<Param>, i: int)
    requires
        0 <= i < s.len(),
    ensures
        params_view(s).len() == s.len(),
        params_view(s)[i] == param_view(s[i]),
    decreases s.len(),
{
    reveal(params_view);
    if i < s.len() - 1 {
        lemma_params_view_index(s.drop_last(), i);
    }
    lemma_params_view_len(s);
}

pub proof fn lemma_items_view_len(s: Seq<Item>)
    ensures
        items_view(s).len() == s.len(),
    decreases s.len(),
{
    reveal(items_view);
    if s.len() > 0 {
        lemma_items_view_len(s.drop_last());
    }
}

pub proof fn lemma_items_view_index(s: Seq<Item>, i: int)
    requires
        0 <= i < s.len(),
    ensures
        items_view(s).len() == s.len(),
        items_view(s)[i] == item_view(s[i]),
    decreases s.len(),
{
    reveal(items_view);
    if i < s.len() - 1 {
        lemma_items_view_index(s.drop_last(), i);
    }
    lemma_items_view_len(s);
}

pub proof fn lemma_exprs_view_push(s: Seq<Expr>, x: Expr)
    ensures
        exprs_view(s.push(x)) == exprs_view(s).push(expr_view(x)),
{
    reveal(exprs_view);
    assert(s.push(x).drop_last() =~= s);
}

pub proof fn lemma_dims_view_push(s: Seq<Option<Expr>>, x: Option<Expr>)
    ensures
        dims_view(s.push(x)) == dims_view(s).push(opt_expr_view(x)),
{
    reveal(dims_view);
    assert(s.push(x).drop_last() =~= s);
}

pub proof fn lemma_inits_view_push(s: Seq<Initializer>, x: Initializer)
    ensures
        inits_view(s.push(x)) == inits_view(s).push(init_view(x)),
{
    reveal(inits_view);
    assert(s.push(x).drop_last() =~= s);
}

pub proof fn lemma_decls_view_push(s: Seq<VarDecl>, x: VarDecl)
    ensures
        decls_view(s.push(x)) == decls_view(s).push(decl_view(x)),
{
    reveal(decls_view);
    assert(s.push(x).drop_last() =~= s);
}

pub proof fn lemma_stmts_view_push(s: Seq<Stmt>, x: Stmt)
    ensures
        stmts_view(s.push(x)) == stmts_view(s).push(stmt_view(x)),
{
    reveal(stmts_view);
    assert(s.push(x).drop_last() =~= s);
}

pub proof fn lemma_params_view_push(s: Seq<Param>, x: Param)
    ensures
        params_view(s.push(x)) == params_view(s).push(param_view(x)),
{
    reveal(params_view);
    assert(s.push(x).drop_last() =~= s);
}

pub proof fn lemma_items_view_push(s: Seq<Item>, x: Item)
    ensures
        items_view(s.push(x)) == items_view(s).push(item_view(x)),
{
    reveal(items_view);
    assert(s.push(x).drop_last() =~= s);
}

// ---------------------------------------------------------------------------
// Copies
// ---------------------------------------------------------------------------

/// The view of an expression's kind, which does not depend on its location.
pub open spec fn kind_view(k: ExprKind) -> SpecExprKind {
    expr_view(Expr { location: SourceLocation { line: 0, column: 0 }, kind: k }).kind
}

pub open spec fn for_init_view(i: ForInit) -> SpecForInit {
    match i {
        ForInit::Decl(ds) => SpecForInit::Decl(decls_view(ds@)),
        ForInit::Expr(e) => SpecForInit::Expr(expr_view(e)),
    }
}

pub open spec fn function_def_view(f: FunctionDef) -> SpecFunctionDef {
    SpecFunctionDef {
        location: f.location,
        return_type: f.return_type,
        name: f.name@,
        params: params_view(f.params@),
        body: block_view(f.body),
    }
}

fn copy_expr(e: &Expr) -> (r: Expr)
    ensures
        r@ == e@,
    decreases e,
{
    let kind = copy_expr_kind(&e.kind);
    proof {
        reveal(exprs_view);
    }
    Expr { location: e.location, kind }
}

fn copy_expr_kind(k: &ExprKind) -> (r: ExprKind)
    ensures
        kind_view(r) == kind_view(*k),
    decreases k,
{
    proof {
        reveal(exprs_view);
    }
    match k {
        ExprKind::Ident(name) => ExprKind::Ident(name.clone()),
        ExprKind::IntLiteral(v) => ExprKind::IntLiteral(v.clone()),
        ExprKind::FloatLiteral(v) => ExprKind::FloatLiteral(v.clone()),
        ExprKind::Unary { op, expr } => ExprKind::Unary { op: *op, expr: Box::new(copy_expr(expr)) },
        ExprKind::Binary { op, left, right } => ExprKind::Binary {
            op: *op,
            left: Box::new(copy_expr(left)),
            right: Box::new(copy_expr(right)),
        },
        ExprKind::Assign { target, value } => ExprKind::Assign {
            target: Box::new(copy_expr(target)),
            value: Box::new(copy_expr(value)),
        },
        ExprKind::Call { callee, args } => ExprKind::Call {
            callee: Box::new(copy_expr(callee)),
            args: copy_exprs(args),
        },
        ExprKind::Index { array, index } => ExprKind::Index {
            array: Box::new(copy_expr(array)),
            index: Box::new(copy_expr(index)),
        },
        ExprKind::Postfix { op, expr } => ExprKind::Postfix { op: *op, expr: Box::new(copy_expr(expr)) },
    }
}

#[verifier::loop_isolation(false)]
fn copy_exprs(es: &Vec<Expr>) -> (r: Vec<Expr>)
    ensures
        exprs_view(r@) == exprs_view(es@),
    decreases es,
{
    let mut out: Vec<Expr> = Vec::new();
    let mut i: usize = 0;
    proof {
        lemma_empty_views();
        assert(es@.take(0) =~= Seq::<Expr>::empty());
    }
    while i < es.len()
        invariant
            i <= es.len(),
            exprs_view(out@) == exprs_view(es@.take(i as int)),
        decreases es.len() - i,
    {
        proof {
            assert(decreases_to!(es => es@[i as int]));
        }
        let c = copy_expr(&es[i]);
        proof {
            lemma_exprs_view_push(out@, c);
            lemma_exprs_view_push(es@.take(i as int), es@[i as int]);
            assert(es@.take(i as int).push(es@[i as int]) =~= es@.take(i as int + 1));
        }
        out.push(c);
        i = i + 1;
    }
    proof {
        assert(es@.take(es.len() as int) =~= es@);
    }
    out
}

fn copy_dims(ds: &Vec<Option<Expr>>) -> (r: Vec<Option<Expr>>)
    ensures
        dims_view(r@) == dims_view(ds@),
{
    let mut out: Vec<Option<Expr>> = Vec::new();
    let mut i: usize = 0;
    proof {
        lemma_empty_views();
        assert(ds@.take(0) =~= Seq::<Option<Expr>>::empty());
    }
    while i < ds.len()
        invariant
            i <= ds.len(),
            dims_view(out@) == dims_view(ds@.take(i as int)),
        decreases ds.len() - i,
    {
        let c = match &ds[i] {
            Some(e) => Some(copy_expr(e)),
            None => None,
        };
        proof {
            lemma_dims_view_push(out@, c);
            lemma_dims_view_push(ds@.take(i as int), ds@[i as int]);
            assert(ds@.take(i as int).push(ds@[i as int]) =~= ds@.take(i as int + 1));
        }
        out.push(c);
        i = i + 1;
    }
    proof {
        assert(ds@.take(ds.len() as int) =~= ds@);
    }
    out
}

#[verifier::loop_isolation(false)]
fn copy_init(init: &Initializer) -> (r: Initializer)
    ensures
        r@ == init@,
    decreases init,
{
    proof {
        reveal(inits_view);
        reveal(exprs_view);
    }
    match init {
        Initializer::Expr(e) => Initializer::Expr(copy_expr(e)),
        Initializer::List(items) => {
            let mut out: Vec<Initializer> = Vec::new();
            let mut i: usize = 0;
            proof {
                lemma_empty_views();
                assert(items@.take(0) =~= Seq::<Initializer>::empty());
            }
            while i < items.len()
                invariant
                    i <= items.len(),
                    inits_view(out@) == inits_view(items@.take(i as int)),
                decreases items.len() - i,
            {
                proof {
                    assert(decreases_to!(init => items@[i as int]));
                }
                let c = copy_init(&items[i]);
                proof {
                    lemma_inits_view_push(out@, c);
                    lemma_inits_view_push(items@.take(i as int), items@[i as int]);
                    assert(items@.take(i as int).push(items@[i as int]) =~= items@.take(i as int + 1));
                }
                out.push(c);
                i = i + 1;
            }
            proof {
                assert(items@.take(items.len() as int) =~= items@);
                reveal(inits_view);
            }
            Initializer::List(out)
        },
    }
}

fn copy_decl(d: &VarDecl) -> (r: VarDecl)
    ensures
        r@ == d@,
{
    let init = match &d.init {
        Some(i) => Some(copy_init(i)),
        None => None,
    };
    VarDecl {
        location: d.location,
        is_const: d.is_const,
        ty: d.ty,
        name: d.name.clone(),
        dimensions: copy_dims(&d.dimensions),
        init,
    }
}

fn copy_decls(ds: &Vec<VarDecl>) -> (r: Vec<VarDecl>)
    ensures
        decls_view(r@) == decls_view(ds@),
{
    let mut out: Vec<VarDecl> = Vec::new();
    let mut i: usize = 0;
    proof {
        lemma_empty_views();
        assert(ds@.take(0) =~= Seq::<VarDecl>::empty());
    }
    while i < ds.len()
        invariant
            i <= ds.len(),
            decls_view(out@) == decls_view(ds@.take(i as int)),
        decreases ds.len() - i,
    {
        let c = copy_decl(&ds[i]);
        proof {
            lemma_decls_view_push(out@, c);
            lemma_decls_view_push(ds@.take(i as int), ds@[i as int]);
            assert(ds@.take(i as int).push(ds@[i as int]) =~= ds@.take(i as int + 1));
        }
        out.push(c);
        i = i + 1;
    }
    proof {
        assert(ds@.take(ds.len() as int) =~= ds@);
    }
    out
}

fn copy_for_init(i: &ForInit) -> (r: ForInit)
    ensures
        for_init_view(r) == for_init_view(*i),
{
    match i {
        ForInit::Decl(ds) => ForInit::Decl(copy_decls(ds)),
        ForInit::Expr(e) => ForInit::Expr(copy_expr(e)),
    }
}

fn copy_opt_expr(e: &Option<Expr>) -> (r: Option<Expr>)
    ensures
        opt_expr_view(r) == opt_expr_view(*e),
{
    match e {
        Some(e) => Some(copy_expr(e)),
        None => None,
    }
}

fn copy_stmt(s: &Stmt) -> (r: Stmt)
    ensures
        r@ == s@,
    decreases s,
{
    proof {
        reveal(stmts_view);
    }
    match s {
        Stmt::VarDecl { location, decls } => Stmt::VarDecl { location: *location, decls: copy_decls(decls) },
        Stmt::If { location, condition, then_branch, else_branch } => {
            let else_copy = match else_branch {
                Some(b) => Some(Box::new(copy_stmt(b))),
                None => None,
            };
            Stmt::If {
                location: *location,
                condition: copy_expr(condition),
                then_branch: Box::new(copy_stmt(then_branch)),
                else_branch: else_copy,
            }
        },
        Stmt::While { location, condition, body } => Stmt::While {
            location: *location,
            condition: copy_expr(condition),
            body: Box::new(copy_stmt(body)),
        },
        Stmt::For { location, init, condition, update, body } => {
            let init_copy = match init {
                Some(i) => Some(copy_for_init(i)),
                None => None,
            };
            Stmt::For {
                location: *location,
                init: init_copy,
                condition: copy_opt_expr(condition),
                update: copy_opt_expr(update),
                body: Box::new(copy_stmt(body)),
            }
        },
        Stmt::Return { location, expr } => Stmt::Return { location: *location, expr: copy_opt_expr(expr) },
        Stmt::Break { location } => Stmt::Break { location: *location },
        Stmt::Continue { location } => Stmt::Continue { location: *location },
        Stmt::Expr { location, expr } => Stmt::Expr { location: *location, expr: copy_expr(expr) },
        Stmt::Block(b) => Stmt::Block(copy_block(b)),
        Stmt::Empty { location } => Stmt::Empty { location: *location },
    }
}

#[verifier::loop_isolation(false)]
fn copy_block(b: &Block) -> (r: Block)
    ensures
        r@ == b@,
    decreases b,
{
    let mut out: Vec<Stmt> = Vec::new();
    let mut i: usize = 0;
    proof {
        lemma_empty_views();
        assert(b.statements@.take(0) =~= Seq::<Stmt>::empty());
    }
    while i < b.statements.len()
        invariant
            i <= b.statements.len(),
            stmts_view(out@) == stmts_view(b.statements@.take(i as int)),
        decreases b.statements.len() - i,
    {
        proof {
            assert(decreases_to!(b => b.statements@[i as int]));
        }
        let c = copy_stmt(&b.statements[i]);
        proof {
            lemma_stmts_view_push(out@, c);
            lemma_stmts_view_push(b.statements@.take(i as int), b.statements@[i as int]);
            assert(b.statements@.take(i as int).push(b.statements@[i as int]) =~= b.statements@.take(i as int + 1));
        }
        out.push(c);
        i = i + 1;
    }
    proof {
        assert(b.statements@.take(b.statements.len() as int) =~= b.statements@);
    }
    Block { location: b.location, statements: out }
}

fn copy_param(p: &Param) -> (r: Param)
    ensures
        r@ == p@,
{
    Param { location: p.location, ty: p.ty, name: p.name.clone(), dimensions: copy_dims(&p.dimensions) }
}

fn copy_function(f: &FunctionDef) -> (r: FunctionDef)
    ensures
        function_def_view(r) == function_def_view(*f),
{
    let mut params: Vec<Param> = Vec::new();
    let mut i: usize = 0;
    proof {
        lemma_empty_views();
        assert(f.params@.take(0) =~= Seq::<Param>::empty());
    }
    while i < f.params.len()
        invariant
            i <= f.params.len(),
            params_view(params@) == params_view(f.params@.take(i as int)),
        decreases f.params.len() - i,
    {
        let c = copy_param(&f.params[i]);
        proof {
            lemma_params_view_push(params@, c);
            lemma_params_view_push(f.params@.take(i as int), f.params@[i as int]);
            assert(f.params@.take(i as int).push(f.params@[i as int]) =~= f.params@.take(i as int + 1));
        }
        params.push(c);
        i = i + 1;
    }
    proof {
        assert(f.params@.take(f.params.len() as int) =~= f.params@);
    }
    FunctionDef {
        location: f.location,
        return_type: f.return_type,
        name: f.name.clone(),
        params,
        body: copy_block(&f.body),
    }
}

fn copy_item(item: &Item) -> (r: Item)
    ensures
        r@ == item@,
{
    match item {
        Item::Function(f) => Item::Function(copy_function(f)),
        Item::GlobalDecl(ds) => Item::GlobalDecl(copy_decls(ds)),
    }
}

fn copy_program(p: &Program) -> (r: Program)
    ensures
        r@ == p@,
{
    let mut items: Vec<Item> = Vec::new();
    let mut i: usize = 0;
    proof {
        lemma_empty_views();
        assert(p.items@.take(0) =~= Seq::<Item>::empty());
    }
    while i < p.items.len()
        invariant
            i <= p.items.len(),
            items_view(items@) == items_view(p.items@.take(i as int)),
        decreases p.items.len() - i,
    {
        let c = copy_item(&p.items[i]);
        proof {
            lemma_items_view_push(items@, c);
            lemma_items_view_push(p.items@.take(i as int), p.items@[i as int]);
            assert(p.items@.take(i as int).push(p.items@[i as int]) =~= p.items@.take(i as int + 1));
        }
        items.push(c);
        i = i + 1;
    }
    proof {
        assert(p.items@.take(p.items.len() as int) =~= p.items@);
    }
    Program { items }
}

impl Clone for Program {
    fn clone(&self) -> (r: Self)
        ensures
            r@ == self@,
    {
        copy_program(self)
    }
}

impl Clone for Item {
    fn clone(&self) -> (r: Self)
        ensures
            r@ == self@,
    {
        copy_item(self)
    }
}

impl Clone for FunctionDef {
    fn clone(&self) -> (r: Self)
        ensures
            function_def_view(r) == function_def_view(*self),
    {
        copy_function(self)
    }
}

impl Clone for Param {
    fn clone(&self) -> (r: Self)
        ensures
            r@ == self@,
    {
        copy_param(self)
    }
}

impl Clone for Block {
    fn clone(&self) -> (r: Self)
        ensures
            r@ == self@,
    {
        copy_block(self)
    }
}

impl Clone for Stmt {
    fn clone(&self) -> (r: Self)
        ensures
            r@ == self@,
    {
        copy_stmt(self)
    }
}

impl Clone for ForInit {
    fn clone(&self) -> (r: Self)
        ensures
            for_init_view(r) == for_init_view(*self),
    {
        copy_for_init(self)
    }
}

impl Clone for VarDecl {
    fn clone(&self) -> (r: Self)
        ensures
            r@ == self@,
    {
        copy_decl(self)
    }
}

impl Clone for Initializer {
    fn clone(&self) -> (r: Self)
        ensures
            r@ == self@,
    {
        copy_init(self)
    }
}

impl Clone for Expr {
    fn clone(&self) -> (r: Self)
        ensures
            r@ == self@,
    {
        copy_expr(self)
    }
}

impl Clone for ExprKind {
    fn clone(&self) -> (r: Self)
        ensures
            kind_view(r) == kind_view(*self),
    {
        copy_expr_kind(self)
    }
}
} // verus!
