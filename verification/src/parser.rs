//! Recursive-descent parser from tokens to the abstract syntax tree.
//!
//! The grammar is stated by the `sp_*` spec functions: each takes the token
//! sequence and a position and gives either the tree it recognises there with
//! the position after it, or the error the parser reports (its location and
//! message). Each parsing method is proved to agree with its spec function.
//! The second component of every `decreases` clause orders the rules that
//! may call one another without consuming a token.

use vstd::prelude::*;

use crate::ast::{
    BinaryOp, Block, Expr, ExprKind, ForInit, FunctionDef, Initializer, Item, Param, PostfixOp,
    Program, SourceLocation, SpecBlock, SpecExpr, SpecExprKind, SpecForInit, SpecFunctionDef,
    SpecInitializer, SpecItem, SpecParam, SpecProgram, SpecStmt, SpecVarDecl, Stmt, TypeName,
    UnaryOp, VarDecl, decls_view, dims_view, exprs_view, inits_view, items_view, params_view,
    stmts_view, lemma_decls_view_index, lemma_decls_view_push, lemma_empty_views, lemma_dims_view_push, lemma_exprs_view_push,
    lemma_inits_view_push, lemma_items_view_push, lemma_params_view_push, lemma_stmts_view_push,
};
use crate::lexer::{Token, TokenKind};

verus! {

#[derive(Debug, Clone)]
pub struct ParseError {
    pub location: SourceLocation,
    pub message: String,
}

pub struct Parser {
    tokens: Vec<Token>,
    pos: usize,
}

/// An error as the model sees it: location and message text.
pub type SpecError = (SourceLocation, Seq<char>);

/// The outcome of a grammar rule: the recognised value and the position
/// after it, or an error.
pub type SpecParse<T> = Result<(T, int), SpecError>;

// ---------------------------------------------------------------------------
// Token-level helpers
// ---------------------------------------------------------------------------

/// Tokens the parser accepts: a non-empty sequence that ends with `Eof`.
pub open spec fn valid_tokens(toks: Seq<Token>) -> bool {
    toks.len() > 0 && toks.last().kind == TokenKind::Eof
}

pub open spec fn kind_at(toks: Seq<Token>, p: int) -> TokenKind {
    toks[p].kind
}

pub open spec fn loc_at(toks: Seq<Token>, p: int) -> SourceLocation {
    SourceLocation { line: toks[p].line, column: toks[p].column }
}

pub open spec fn kw_at(toks: Seq<Token>, p: int, word: Seq<char>) -> bool {
    toks[p].kind == TokenKind::Keyword && toks[p].lexeme@ == word
}

pub open spec fn is_type_kw_at(toks: Seq<Token>, p: int) -> bool {
    kw_at(toks, p, "int"@) || kw_at(toks, p, "float"@) || kw_at(toks, p, "void"@)
}

pub open spec fn is_decl_start_at(toks: Seq<Token>, p: int) -> bool {
    kw_at(toks, p, "const"@) || is_type_kw_at(toks, p)
}

/// The name that `{:?}` prints for a token kind.
pub open spec fn kind_name(k: TokenKind) -> Seq<char> {
    match k {
        TokenKind::Ident => "Ident"@,
        TokenKind::Keyword => "Keyword"@,
        TokenKind::IntLiteral => "IntLiteral"@,
        TokenKind::FloatLiteral => "FloatLiteral"@,
        TokenKind::Plus => "Plus"@,
        TokenKind::Minus => "Minus"@,
        TokenKind::Star => "Star"@,
        TokenKind::Slash => "Slash"@,
        TokenKind::Percent => "Percent"@,
        TokenKind::Assign => "Assign"@,
        TokenKind::Eq => "Eq"@,
        TokenKind::Neq => "Neq"@,
        TokenKind::Lt => "Lt"@,
        TokenKind::Le => "Le"@,
        TokenKind::Gt => "Gt"@,
        TokenKind::Ge => "Ge"@,
        TokenKind::And => "And"@,
        TokenKind::Or => "Or"@,
        TokenKind::Not => "Not"@,
        TokenKind::Inc => "Inc"@,
        TokenKind::Dec => "Dec"@,
        TokenKind::Semicolon => "Semicolon"@,
        TokenKind::Comma => "Comma"@,
        TokenKind::LParen => "LParen"@,
        TokenKind::RParen => "RParen"@,
        TokenKind::LBracket => "LBracket"@,
        TokenKind::RBracket => "RBracket"@,
        TokenKind::LBrace => "LBrace"@,
        TokenKind::RBrace => "RBrace"@,
        TokenKind::Eof => "Eof"@,
        TokenKind::Unknown => "Unknown"@,
    }
}

/// The error for a missing `expected` token at `p`.
pub open spec fn expect_error(toks: Seq<Token>, p: int, expected: TokenKind) -> SpecError {
    (
        loc_at(toks, p),
        "expected "@ + kind_name(expected) + ", found "@ + kind_name(kind_at(toks, p)) + " '"@
            + toks[p].lexeme@ + "'"@,
    )
}

pub open spec fn error_at<T>(toks: Seq<Token>, p: int, message: Seq<char>) -> SpecParse<T> {
    Err((loc_at(toks, p), message))
}

/// The outcome for a position that cannot occur on valid tokens.
pub open spec fn unreachable_outcome<T>() -> SpecParse<T> {
    Err((SourceLocation { line: 0, column: 0 }, seq![]))
}

/// Binary operator spelled by a token kind.
pub open spec fn binary_op_of(k: TokenKind) -> Result<BinaryOp, SpecError> {
    match k {
        TokenKind::Plus => Ok(BinaryOp::Add),
        TokenKind::Minus => Ok(BinaryOp::Sub),
        TokenKind::Star => Ok(BinaryOp::Mul),
        TokenKind::Slash => Ok(BinaryOp::Div),
        TokenKind::Percent => Ok(BinaryOp::Mod),
        TokenKind::Eq => Ok(BinaryOp::Eq),
        TokenKind::Neq => Ok(BinaryOp::Neq),
        TokenKind::Lt => Ok(BinaryOp::Lt),
        TokenKind::Le => Ok(BinaryOp::Le),
        TokenKind::Gt => Ok(BinaryOp::Gt),
        TokenKind::Ge => Ok(BinaryOp::Ge),
        TokenKind::And => Ok(BinaryOp::And),
        TokenKind::Or => Ok(BinaryOp::Or),
        _ => Err(
            (
                SourceLocation { line: 0, column: 0 },
                "unsupported binary operator: "@ + kind_name(k),
            ),
        ),
    }
}

/// Operators of each binary precedence level, from `*` (1) to `||` (6).
pub open spec fn level_has_op(prec: int, k: TokenKind) -> bool {
    if prec == 6 {
        k == TokenKind::Or
    } else if prec == 5 {
        k == TokenKind::And
    } else if prec == 4 {
        k == TokenKind::Eq || k == TokenKind::Neq
    } else if prec == 3 {
        k == TokenKind::Lt || k == TokenKind::Le || k == TokenKind::Gt || k == TokenKind::Ge
    } else if prec == 2 {
        k == TokenKind::Plus || k == TokenKind::Minus
    } else {
        k == TokenKind::Star || k == TokenKind::Slash || k == TokenKind::Percent
    }
}

pub open spec fn sp_type_name(toks: Seq<Token>, p: int) -> SpecParse<TypeName> {
    if !(0 <= p < toks.len()) {
        unreachable_outcome()
    } else if toks[p].kind != TokenKind::Keyword {
        error_at(toks, p, "expected type keyword"@)
    } else if toks[p].lexeme@ == "int"@ {
        Ok((TypeName::Int, p + 1))
    } else if toks[p].lexeme@ == "float"@ {
        Ok((TypeName::Float, p + 1))
    } else if toks[p].lexeme@ == "void"@ {
        Ok((TypeName::Void, p + 1))
    } else {
        error_at(toks, p, "expected type keyword"@)
    }
}

pub open spec fn sp_decl_specifier(toks: Seq<Token>, p: int) -> SpecParse<(bool, TypeName)> {
    let is_const = 0 <= p < toks.len() && kw_at(toks, p, "const"@);
    let q = if is_const { p + 1 } else { p };
    match sp_type_name(toks, q) {
        Ok((ty, r)) => Ok(((is_const, ty), r)),
        Err(e) => Err(e),
    }
}

// ---------------------------------------------------------------------------
// Expressions
// ---------------------------------------------------------------------------

#[verifier::opaque]
pub open spec fn sp_primary(toks: Seq<Token>, p: int) -> SpecParse<SpecExpr>
    decreases toks.len() - p, 0int,
{
    if !(0 <= p < toks.len()) {
        unreachable_outcome()
    } else {
        let loc = loc_at(toks, p);
        let t = toks[p];
        if t.kind == TokenKind::Ident {
            Ok((SpecExpr { location: loc, kind: SpecExprKind::Ident(t.lexeme@) }, p + 1))
        } else if t.kind == TokenKind::IntLiteral {
            Ok((SpecExpr { location: loc, kind: SpecExprKind::IntLiteral(t.lexeme@) }, p + 1))
        } else if t.kind == TokenKind::FloatLiteral {
            Ok((SpecExpr { location: loc, kind: SpecExprKind::FloatLiteral(t.lexeme@) }, p + 1))
        } else if t.kind == TokenKind::LParen {
            match sp_expr(toks, p + 1) {
                Ok((e, q)) => if kind_at(toks, q) == TokenKind::RParen {
                    Ok((e, q + 1))
                } else {
                    Err(expect_error(toks, q, TokenKind::RParen))
                },
                Err(err) => Err(err),
            }
        } else {
            error_at(toks, p, "expected expression"@)
        }
    }
}

#[verifier::opaque]
pub open spec fn sp_args_items(toks: Seq<Token>, p: int, acc: Seq<SpecExpr>) -> SpecParse<
    Seq<SpecExpr>,
>
    decreases toks.len() - p, 23int,
{
    if !(0 <= p < toks.len()) {
        unreachable_outcome()
    } else {
        match sp_expr(toks, p) {
            Ok((e, q)) => if q < p || q >= toks.len() {
                unreachable_outcome()
            } else if kind_at(toks, q) == TokenKind::Comma {
                sp_args_items(toks, q + 1, acc.push(e))
            } else if kind_at(toks, q) == TokenKind::RParen {
                Ok((acc.push(e), q + 1))
            } else {
                Err(expect_error(toks, q, TokenKind::RParen))
            },
            Err(err) => Err(err),
        }
    }
}

/// Arguments of a call, starting just after its `(`.
#[verifier::opaque]
pub open spec fn sp_args(toks: Seq<Token>, p: int) -> SpecParse<Seq<SpecExpr>>
    decreases toks.len() - p, 24int,
{
    if !(0 <= p < toks.len()) {
        unreachable_outcome()
    } else if kind_at(toks, p) == TokenKind::RParen {
        Ok((seq![], p + 1))
    } else {
        sp_args_items(toks, p, seq![])
    }
}

/// Calls, subscripts and postfix `++`/`--` applied to `e`, which ends at `p`.
#[verifier::opaque]
pub open spec fn sp_postfix_tail(toks: Seq<Token>, e: SpecExpr, p: int) -> SpecParse<SpecExpr>
    decreases toks.len() - p, 1int,
{
    if !(0 <= p < toks.len()) {
        unreachable_outcome()
    } else {
        let k = kind_at(toks, p);
        if k == TokenKind::LParen {
            match sp_args(toks, p + 1) {
                Ok((args, q)) => if q <= p || q >= toks.len() {
                    unreachable_outcome()
                } else {
                    sp_postfix_tail(
                        toks,
                        SpecExpr {
                            location: e.location,
                            kind: SpecExprKind::Call { callee: Box::new(e), args },
                        },
                        q,
                    )
                },
                Err(err) => Err(err),
            }
        } else if k == TokenKind::LBracket {
            match sp_expr(toks, p + 1) {
                Ok((index, q)) => if q <= p || q >= toks.len() {
                    unreachable_outcome()
                } else if kind_at(toks, q) == TokenKind::RBracket {
                    sp_postfix_tail(
                        toks,
                        SpecExpr {
                            location: e.location,
                            kind: SpecExprKind::Index { array: Box::new(e), index: Box::new(index) },
                        },
                        q + 1,
                    )
                } else {
                    Err(expect_error(toks, q, TokenKind::RBracket))
                },
                Err(err) => Err(err),
            }
        } else if k == TokenKind::Inc {
            sp_postfix_tail(
                toks,
                SpecExpr {
                    location: e.location,
                    kind: SpecExprKind::Postfix { op: PostfixOp::PostInc, expr: Box::new(e) },
                },
                p + 1,
            )
        } else if k == TokenKind::Dec {
            sp_postfix_tail(
                toks,
                SpecExpr {
                    location: e.location,
                    kind: SpecExprKind::Postfix { op: PostfixOp::PostDec, expr: Box::new(e) },
                },
                p + 1,
            )
        } else {
            Ok((e, p))
        }
    }
}

#[verifier::opaque]
pub open spec fn sp_postfix(toks: Seq<Token>, p: int) -> SpecParse<SpecExpr>
    decreases toks.len() - p, 1int,
{
    if !(0 <= p < toks.len()) {
        unreachable_outcome()
    } else {
        match sp_primary(toks, p) {
            Ok((e, q)) => if q <= p || q >= toks.len() {
                unreachable_outcome()
            } else {
                sp_postfix_tail(toks, e, q)
            },
            Err(err) => Err(err),
        }
    }
}

pub open spec fn unary_op_of(k: TokenKind) -> Option<UnaryOp> {
    if k == TokenKind::Plus {
        Some(UnaryOp::Plus)
    } else if k == TokenKind::Minus {
        Some(UnaryOp::Minus)
    } else if k == TokenKind::Not {
        Some(UnaryOp::Not)
    } else if k == TokenKind::Inc {
        Some(UnaryOp::PreInc)
    } else if k == TokenKind::Dec {
        Some(UnaryOp::PreDec)
    } else {
        None
    }
}

#[verifier::opaque]
pub open spec fn sp_unary(toks: Seq<Token>, p: int) -> SpecParse<SpecExpr>
    decreases toks.len() - p, 2int,
{
    if !(0 <= p < toks.len()) {
        unreachable_outcome()
    } else {
        match unary_op_of(kind_at(toks, p)) {
            Some(op) => match sp_unary(toks, p + 1) {
                Ok((e, q)) => Ok(
                    (
                        SpecExpr {
                            location: loc_at(toks, p),
                            kind: SpecExprKind::Unary { op, expr: Box::new(e) },
                        },
                        q,
                    ),
                ),
                Err(err) => Err(err),
            },
            None => sp_postfix(toks, p),
        }
    }
}

/// The operand of a precedence level: the next tighter level, or a unary
/// expression below the multiplicative level.
#[verifier::opaque]
pub open spec fn sp_operand(toks: Seq<Token>, p: int, prec: int) -> SpecParse<SpecExpr>
    decreases toks.len() - p, 3 * prec + 1,
{
    if !(0 <= p < toks.len()) || prec < 1 || prec > 6 {
        unreachable_outcome()
    } else if prec == 1 {
        sp_unary(toks, p)
    } else {
        sp_binary(toks, p, prec - 1)
    }
}

/// The rest of a left-associative chain at level `prec` whose left operand
/// `lhs` ends at `p`.
#[verifier::opaque]
pub open spec fn sp_binary_tail(toks: Seq<Token>, lhs: SpecExpr, p: int, prec: int) -> SpecParse<
    SpecExpr,
>
    decreases toks.len() - p, 3 * prec,
{
    if !(0 <= p < toks.len()) || prec < 1 || prec > 6 {
        unreachable_outcome()
    } else if level_has_op(prec, kind_at(toks, p)) {
        match sp_operand(toks, p + 1, prec) {
            Ok((rhs, q)) => if q <= p || q >= toks.len() {
                unreachable_outcome()
            } else {
                match binary_op_of(kind_at(toks, p)) {
                    Ok(op) => sp_binary_tail(
                        toks,
                        SpecExpr {
                            location: loc_at(toks, p),
                            kind: SpecExprKind::Binary {
                                op,
                                left: Box::new(lhs),
                                right: Box::new(rhs),
                            },
                        },
                        q,
                        prec,
                    ),
                    Err(err) => Err(err),
                }
            },
            Err(err) => Err(err),
        }
    } else {
        Ok((lhs, p))
    }
}

/// A left-associative chain of operators of level `prec`.
#[verifier::opaque]
pub open spec fn sp_binary(toks: Seq<Token>, p: int, prec: int) -> SpecParse<SpecExpr>
    decreases toks.len() - p, 3 * prec + 2,
{
    if !(0 <= p < toks.len()) || prec < 1 || prec > 6 {
        unreachable_outcome()
    } else {
        match sp_operand(toks, p, prec) {
            Ok((lhs, q)) => if q < p || q >= toks.len() {
                unreachable_outcome()
            } else {
                sp_binary_tail(toks, lhs, q, prec)
            },
            Err(err) => Err(err),
        }
    }
}

/// Assignment, which is right-associative.
#[verifier::opaque]
pub open spec fn sp_assignment(toks: Seq<Token>, p: int) -> SpecParse<SpecExpr>
    decreases toks.len() - p, 21int,
{
    if !(0 <= p < toks.len()) {
        unreachable_outcome()
    } else {
        match sp_binary(toks, p, 6) {
            Ok((left, q)) => if q < p || q >= toks.len() {
                unreachable_outcome()
            } else if kind_at(toks, q) == TokenKind::Assign {
                match sp_assignment(toks, q + 1) {
                    Ok((value, r)) => Ok(
                        (
                            SpecExpr {
                                location: left.location,
                                kind: SpecExprKind::Assign {
                                    target: Box::new(left),
                                    value: Box::new(value),
                                },
                            },
                            r,
                        ),
                    ),
                    Err(err) => Err(err),
                }
            } else {
                Ok((left, q))
            },
            Err(err) => Err(err),
        }
    }
}

#[verifier::opaque]
pub open spec fn sp_expr(toks: Seq<Token>, p: int) -> SpecParse<SpecExpr>
    decreases toks.len() - p, 22int,
{
    if !(0 <= p < toks.len()) {
        unreachable_outcome()
    } else {
        sp_assignment(toks, p)
    }
}

// ---------------------------------------------------------------------------
// Declarations
// ---------------------------------------------------------------------------

/// An expression, or nothing when the token at `p` is `stop`.
#[verifier::opaque]
pub open spec fn sp_opt_expr_until(toks: Seq<Token>, p: int, stop: TokenKind) -> SpecParse<
    Option<SpecExpr>,
>
    decreases toks.len() - p, 23int,
{
    if !(0 <= p < toks.len()) {
        unreachable_outcome()
    } else if kind_at(toks, p) == stop {
        Ok((None, p))
    } else {
        match sp_expr(toks, p) {
            Ok((e, q)) => Ok((Some(e), q)),
            Err(err) => Err(err),
        }
    }
}

/// Array dimensions `[e]` or `[]`, appended to `acc`.
#[verifier::opaque]
pub open spec fn sp_dims(toks: Seq<Token>, p: int, acc: Seq<Option<SpecExpr>>) -> SpecParse<
    Seq<Option<SpecExpr>>,
>
    decreases toks.len() - p, 25int,
{
    if !(0 <= p < toks.len()) {
        unreachable_outcome()
    } else if kind_at(toks, p) != TokenKind::LBracket {
        Ok((acc, p))
    } else if p + 1 < toks.len() && kind_at(toks, p + 1) == TokenKind::RBracket {
        sp_dims(toks, p + 2, acc.push(None))
    } else {
        match sp_expr(toks, p + 1) {
            Ok((e, q)) => if q <= p || q >= toks.len() {
                unreachable_outcome()
            } else if kind_at(toks, q) == TokenKind::RBracket {
                sp_dims(toks, q + 1, acc.push(Some(e)))
            } else {
                Err(expect_error(toks, q, TokenKind::RBracket))
            },
            Err(err) => Err(err),
        }
    }
}

/// Items of a brace initializer, starting after its `{` and appended to
/// `acc`; a trailing comma before `}` is allowed.
#[verifier::opaque]
pub open spec fn sp_init_items(toks: Seq<Token>, p: int, acc: Seq<SpecInitializer>) -> SpecParse<
    SpecInitializer,
>
    decreases toks.len() - p, 27int,
{
    if !(0 <= p < toks.len()) {
        unreachable_outcome()
    } else {
        match sp_initializer(toks, p) {
            Ok((item, q)) => if q <= p || q >= toks.len() {
                unreachable_outcome()
            } else if kind_at(toks, q) == TokenKind::Comma {
                if q + 1 < toks.len() && kind_at(toks, q + 1) == TokenKind::RBrace {
                    Ok((SpecInitializer::List(acc.push(item)), q + 2))
                } else {
                    sp_init_items(toks, q + 1, acc.push(item))
                }
            } else if kind_at(toks, q) == TokenKind::RBrace {
                Ok((SpecInitializer::List(acc.push(item)), q + 1))
            } else {
                Err(expect_error(toks, q, TokenKind::RBrace))
            },
            Err(err) => Err(err),
        }
    }
}

#[verifier::opaque]
pub open spec fn sp_initializer(toks: Seq<Token>, p: int) -> SpecParse<SpecInitializer>
    decreases toks.len() - p, 26int,
{
    if !(0 <= p < toks.len()) {
        unreachable_outcome()
    } else if kind_at(toks, p) == TokenKind::LBrace {
        if p + 1 < toks.len() && kind_at(toks, p + 1) == TokenKind::RBrace {
            Ok((SpecInitializer::List(seq![]), p + 2))
        } else {
            sp_init_items(toks, p + 1, seq![])
        }
    } else {
        match sp_expr(toks, p) {
            Ok((e, q)) => Ok((SpecInitializer::Expr(e), q)),
            Err(err) => Err(err),
        }
    }
}

/// The rest of one declarator, after its name: dimensions and initializer.
#[verifier::opaque]
pub open spec fn sp_var_decl_after_name(
    toks: Seq<Token>,
    p: int,
    is_const: bool,
    ty: TypeName,
    name: Seq<char>,
    location: SourceLocation,
) -> SpecParse<SpecVarDecl>
    decreases toks.len() - p, 28int,
{
    if !(0 <= p < toks.len()) {
        unreachable_outcome()
    } else {
        match sp_dims(toks, p, seq![]) {
            Ok((dimensions, q)) => if q < p || q >= toks.len() {
                unreachable_outcome()
            } else if kind_at(toks, q) == TokenKind::Assign {
                match sp_initializer(toks, q + 1) {
                    Ok((init, r)) => Ok(
                        (SpecVarDecl { location, is_const, ty, name, dimensions, init: Some(init) }, r),
                    ),
                    Err(err) => Err(err),
                }
            } else {
                Ok((SpecVarDecl { location, is_const, ty, name, dimensions, init: None }, q))
            },
            Err(err) => Err(err),
        }
    }
}

/// Further declarators `, name ...` of one declaration, appended to `acc`.
#[verifier::opaque]
pub open spec fn sp_decl_rest(
    toks: Seq<Token>,
    p: int,
    is_const: bool,
    ty: TypeName,
    acc: Seq<SpecVarDecl>,
) -> SpecParse<Seq<SpecVarDecl>>
    decreases toks.len() - p, 29int,
{
    if !(0 <= p < toks.len()) {
        unreachable_outcome()
    } else if kind_at(toks, p) != TokenKind::Comma {
        Ok((acc, p))
    } else if !(p + 1 < toks.len()) {
        unreachable_outcome()
    } else if kind_at(toks, p + 1) != TokenKind::Ident {
        error_at(toks, p + 1, "expected identifier"@)
    } else {
        match sp_var_decl_after_name(
            toks,
            p + 2,
            is_const,
            ty,
            toks[p + 1].lexeme@,
            loc_at(toks, p + 1),
        ) {
            Ok((d, q)) => if q <= p || q >= toks.len() {
                unreachable_outcome()
            } else {
                sp_decl_rest(toks, q, is_const, ty, acc.push(d))
            },
            Err(err) => Err(err),
        }
    }
}

#[verifier::opaque]
pub open spec fn sp_var_decl_list_after_first(
    toks: Seq<Token>,
    p: int,
    is_const: bool,
    ty: TypeName,
    name: Seq<char>,
    location: SourceLocation,
) -> SpecParse<Seq<SpecVarDecl>>
    decreases toks.len() - p, 30int,
{
    if !(0 <= p < toks.len()) {
        unreachable_outcome()
    } else {
        match sp_var_decl_after_name(toks, p, is_const, ty, name, location) {
            Ok((d, q)) => if q < p || q >= toks.len() {
                unreachable_outcome()
            } else {
                sp_decl_rest(toks, q, is_const, ty, seq![d])
            },
            Err(err) => Err(err),
        }
    }
}

/// A declaration: specifier, then one or more declarators.
#[verifier::opaque]
pub open spec fn sp_var_decl_list(toks: Seq<Token>, p: int) -> SpecParse<Seq<SpecVarDecl>>
    decreases toks.len() - p, 31int,
{
    if !(0 <= p < toks.len()) {
        unreachable_outcome()
    } else {
        match sp_decl_specifier(toks, p) {
            Ok(((is_const, ty), q)) => if q <= p || q >= toks.len() {
                unreachable_outcome()
            } else if kind_at(toks, q) != TokenKind::Ident {
                error_at(toks, q, "expected identifier"@)
            } else {
                sp_var_decl_list_after_first(
                    toks,
                    q + 1,
                    is_const,
                    ty,
                    toks[q].lexeme@,
                    loc_at(toks, q),
                )
            },
            Err(err) => Err(err),
        }
    }
}

// ---------------------------------------------------------------------------
// Statements
// ---------------------------------------------------------------------------

#[verifier::opaque]
pub open spec fn sp_for_init(toks: Seq<Token>, p: int) -> SpecParse<Option<SpecForInit>>
    decreases toks.len() - p, 32int,
{
    if !(0 <= p < toks.len()) {
        unreachable_outcome()
    } else if kind_at(toks, p) == TokenKind::Semicolon {
        Ok((None, p))
    } else if is_decl_start_at(toks, p) {
        match sp_var_decl_list(toks, p) {
            Ok((ds, q)) => Ok((Some(SpecForInit::Decl(ds)), q)),
            Err(err) => Err(err),
        }
    } else {
        match sp_expr(toks, p) {
            Ok((e, q)) => Ok((Some(SpecForInit::Expr(e)), q)),
            Err(err) => Err(err),
        }
    }
}

/// A block `{ ... }` starting at its `{`.
#[verifier::opaque]
pub open spec fn sp_block(toks: Seq<Token>, p: int) -> SpecParse<SpecBlock>
    decreases toks.len() - p, 32int,
{
    if !(0 <= p < toks.len()) {
        unreachable_outcome()
    } else if kind_at(toks, p) != TokenKind::LBrace {
        Err(expect_error(toks, p, TokenKind::LBrace))
    } else {
        match sp_block_items(toks, p + 1, seq![]) {
            Ok((statements, q)) => Ok((SpecBlock { location: loc_at(toks, p), statements }, q)),
            Err(err) => Err(err),
        }
    }
}

/// Statements of a block up to and including its `}`, appended to `acc`.
#[verifier::opaque]
pub open spec fn sp_block_items(toks: Seq<Token>, p: int, acc: Seq<SpecStmt>) -> SpecParse<
    Seq<SpecStmt>,
>
    decreases toks.len() - p, 34int,
{
    if !(0 <= p < toks.len()) {
        unreachable_outcome()
    } else if kind_at(toks, p) == TokenKind::RBrace {
        Ok((acc, p + 1))
    } else if kind_at(toks, p) == TokenKind::Eof {
        error_at(toks, p, "unexpected end of file while parsing block"@)
    } else {
        match sp_stmt(toks, p) {
            Ok((st, q)) => if q <= p || q >= toks.len() {
                unreachable_outcome()
            } else {
                sp_block_items(toks, q, acc.push(st))
            },
            Err(err) => Err(err),
        }
    }
}

/// `kind` at `p` followed by the statement `rest` builds from `p + 1`.
pub open spec fn expect_then<T>(toks: Seq<Token>, p: int, kind: TokenKind, rest: SpecParse<T>) -> SpecParse<T> {
    if kind_at(toks, p) == kind {
        rest
    } else {
        Err(expect_error(toks, p, kind))
    }
}

#[verifier::opaque]
pub open spec fn sp_stmt(toks: Seq<Token>, p: int) -> SpecParse<SpecStmt>
    decreases toks.len() - p, 33int,
{
    if !(0 <= p < toks.len()) {
        unreachable_outcome()
    } else if kind_at(toks, p) == TokenKind::LBrace {
        match sp_block(toks, p) {
            Ok((b, q)) => Ok((SpecStmt::Block(b), q)),
            Err(err) => Err(err),
        }
    } else if kw_at(toks, p, "return"@) {
        sp_return_stmt(toks, p)
    } else if kw_at(toks, p, "if"@) {
        sp_if_stmt(toks, p)
    } else if kw_at(toks, p, "while"@) {
        sp_while_stmt(toks, p)
    } else if kw_at(toks, p, "for"@) {
        sp_for_stmt(toks, p)
    } else if kw_at(toks, p, "break"@) {
        sp_jump_stmt(toks, p, true)
    } else if kw_at(toks, p, "continue"@) {
        sp_jump_stmt(toks, p, false)
    } else if is_decl_start_at(toks, p) {
        sp_decl_stmt(toks, p)
    } else if kind_at(toks, p) == TokenKind::Semicolon {
        Ok((SpecStmt::Empty { location: loc_at(toks, p) }, p + 1))
    } else {
        sp_expr_stmt(toks, p)
    }
}

/// `return;` or `return e;`, from the keyword.
#[verifier::opaque]
pub open spec fn sp_return_stmt(toks: Seq<Token>, p: int) -> SpecParse<SpecStmt>
    decreases toks.len() - p, 32int,
{
    let location = loc_at(toks, p);
    if !(0 <= p && p + 1 < toks.len()) {
        unreachable_outcome()
    } else if kind_at(toks, p + 1) == TokenKind::Semicolon {
        Ok((SpecStmt::Return { location, expr: None }, p + 2))
    } else {
        match sp_expr(toks, p + 1) {
            Ok((e, q)) => expect_then(
                toks,
                q,
                TokenKind::Semicolon,
                Ok((SpecStmt::Return { location, expr: Some(e) }, q + 1)),
            ),
            Err(err) => Err(err),
        }
    }
}

/// `if (c) s` with an optional `else s`, from the keyword.
#[verifier::opaque]
pub open spec fn sp_if_stmt(toks: Seq<Token>, p: int) -> SpecParse<SpecStmt>
    decreases toks.len() - p, 32int,
{
    let location = loc_at(toks, p);
    if !(0 <= p && p + 1 < toks.len()) {
        unreachable_outcome()
    } else if kind_at(toks, p + 1) != TokenKind::LParen {
        Err(expect_error(toks, p + 1, TokenKind::LParen))
    } else if !(p + 2 < toks.len()) {
        unreachable_outcome()
    } else {
        match sp_expr(toks, p + 2) {
            Ok((condition, q)) => if q <= p || q >= toks.len() {
                unreachable_outcome()
            } else if kind_at(toks, q) != TokenKind::RParen {
                Err(expect_error(toks, q, TokenKind::RParen))
            } else {
                match sp_stmt(toks, q + 1) {
                    Ok((then_s, r)) => if r <= p || r >= toks.len() {
                        unreachable_outcome()
                    } else if kw_at(toks, r, "else"@) {
                        match sp_stmt(toks, r + 1) {
                            Ok((else_s, t)) => Ok(
                                (
                                    SpecStmt::If {
                                        location,
                                        condition,
                                        then_branch: Box::new(then_s),
                                        else_branch: Some(Box::new(else_s)),
                                    },
                                    t,
                                ),
                            ),
                            Err(err) => Err(err),
                        }
                    } else {
                        Ok(
                            (
                                SpecStmt::If {
                                    location,
                                    condition,
                                    then_branch: Box::new(then_s),
                                    else_branch: None,
                                },
                                r,
                            ),
                        )
                    },
                    Err(err) => Err(err),
                }
            },
            Err(err) => Err(err),
        }
    }
}

/// `while (c) s`, from the keyword.
#[verifier::opaque]
pub open spec fn sp_while_stmt(toks: Seq<Token>, p: int) -> SpecParse<SpecStmt>
    decreases toks.len() - p, 32int,
{
    let location = loc_at(toks, p);
    if !(0 <= p && p + 1 < toks.len()) {
        unreachable_outcome()
    } else if kind_at(toks, p + 1) != TokenKind::LParen {
        Err(expect_error(toks, p + 1, TokenKind::LParen))
    } else if !(p + 2 < toks.len()) {
        unreachable_outcome()
    } else {
        match sp_expr(toks, p + 2) {
            Ok((condition, q)) => if q <= p || q >= toks.len() {
                unreachable_outcome()
            } else if kind_at(toks, q) != TokenKind::RParen {
                Err(expect_error(toks, q, TokenKind::RParen))
            } else {
                match sp_stmt(toks, q + 1) {
                    Ok((body, r)) => Ok(
                        (SpecStmt::While { location, condition, body: Box::new(body) }, r),
                    ),
                    Err(err) => Err(err),
                }
            },
            Err(err) => Err(err),
        }
    }
}

/// `break;` or `continue;`, from the keyword.
#[verifier::opaque]
pub open spec fn sp_jump_stmt(toks: Seq<Token>, p: int, is_break: bool) -> SpecParse<SpecStmt>
    decreases toks.len() - p, 32int,
{
    let location = loc_at(toks, p);
    if !(0 <= p && p + 1 < toks.len()) {
        unreachable_outcome()
    } else {
        expect_then(
            toks,
            p + 1,
            TokenKind::Semicolon,
            Ok(
                (
                    if is_break {
                        SpecStmt::Break { location }
                    } else {
                        SpecStmt::Continue { location }
                    },
                    p + 2,
                ),
            ),
        )
    }
}

/// A local declaration statement.
#[verifier::opaque]
pub open spec fn sp_decl_stmt(toks: Seq<Token>, p: int) -> SpecParse<SpecStmt>
    decreases toks.len() - p, 32int,
{
    if !(0 <= p < toks.len()) {
        unreachable_outcome()
    } else {
        match sp_var_decl_list(toks, p) {
            Ok((decls, q)) => expect_then(
                toks,
                q,
                TokenKind::Semicolon,
                Ok((SpecStmt::VarDecl { location: decls[0].location, decls }, q + 1)),
            ),
            Err(err) => Err(err),
        }
    }
}

/// An expression statement.
#[verifier::opaque]
pub open spec fn sp_expr_stmt(toks: Seq<Token>, p: int) -> SpecParse<SpecStmt>
    decreases toks.len() - p, 32int,
{
    if !(0 <= p < toks.len()) {
        unreachable_outcome()
    } else {
        match sp_expr(toks, p) {
            Ok((e, q)) => expect_then(
                toks,
                q,
                TokenKind::Semicolon,
                Ok((SpecStmt::Expr { location: e.location, expr: e }, q + 1)),
            ),
            Err(err) => Err(err),
        }
    }
}

/// A `for` statement starting at its keyword.
#[verifier::opaque]
pub open spec fn sp_for_stmt(toks: Seq<Token>, p: int) -> SpecParse<SpecStmt>
    decreases toks.len() - p, 32int,
{
    if !(0 <= p && p + 1 < toks.len()) {
        unreachable_outcome()
    } else if kind_at(toks, p + 1) != TokenKind::LParen {
        Err(expect_error(toks, p + 1, TokenKind::LParen))
    } else if !(p + 2 < toks.len()) {
        unreachable_outcome()
    } else {
        match sp_for_init(toks, p + 2) {
            Ok((init, q)) => if q <= p || q >= toks.len() {
                unreachable_outcome()
            } else if kind_at(toks, q) != TokenKind::Semicolon {
                Err(expect_error(toks, q, TokenKind::Semicolon))
            } else if !(q + 1 < toks.len()) {
                unreachable_outcome()
            } else {
                match sp_opt_expr_until(toks, q + 1, TokenKind::Semicolon) {
                    Ok((condition, r)) => if r <= p || r >= toks.len() {
                        unreachable_outcome()
                    } else if kind_at(toks, r) != TokenKind::Semicolon {
                        Err(expect_error(toks, r, TokenKind::Semicolon))
                    } else if !(r + 1 < toks.len()) {
                        unreachable_outcome()
                    } else {
                        match sp_opt_expr_until(toks, r + 1, TokenKind::RParen) {
                            Ok((update, t)) => if t <= p || t >= toks.len() {
                                unreachable_outcome()
                            } else if kind_at(toks, t) != TokenKind::RParen {
                                Err(expect_error(toks, t, TokenKind::RParen))
                            } else {
                                match sp_stmt(toks, t + 1) {
                                    Ok((body, z)) => Ok(
                                        (
                                            SpecStmt::For {
                                                location: loc_at(toks, p),
                                                init,
                                                condition,
                                                update,
                                                body: Box::new(body),
                                            },
                                            z,
                                        ),
                                    ),
                                    Err(err) => Err(err),
                                }
                            },
                            Err(err) => Err(err),
                        }
                    },
                    Err(err) => Err(err),
                }
            },
            Err(err) => Err(err),
        }
    }
}

// ---------------------------------------------------------------------------
// Top level
// ---------------------------------------------------------------------------

/// Parameters of a function, starting after `(` that is not followed by `)`,
/// appended to `acc`.
#[verifier::opaque]
pub open spec fn sp_params_items(toks: Seq<Token>, p: int, acc: Seq<SpecParam>) -> SpecParse<
    Seq<SpecParam>,
>
    decreases toks.len() - p, 27int,
{
    if !(0 <= p < toks.len()) {
        unreachable_outcome()
    } else {
        match sp_type_name(toks, p) {
            Ok((ty, q)) => if q <= p || q >= toks.len() {
                unreachable_outcome()
            } else if kind_at(toks, q) != TokenKind::Ident {
                error_at(toks, q, "expected identifier"@)
            } else if !(q + 1 < toks.len()) {
                unreachable_outcome()
            } else {
                match sp_dims(toks, q + 1, seq![]) {
                    Ok((dimensions, r)) => if r <= q || r >= toks.len() {
                        unreachable_outcome()
                    } else {
                        let param = SpecParam {
                            location: loc_at(toks, q),
                            ty,
                            name: toks[q].lexeme@,
                            dimensions,
                        };
                        if kind_at(toks, r) == TokenKind::Comma {
                            sp_params_items(toks, r + 1, acc.push(param))
                        } else if kind_at(toks, r) == TokenKind::RParen {
                            Ok((acc.push(param), r + 1))
                        } else {
                            Err(expect_error(toks, r, TokenKind::RParen))
                        }
                    },
                    Err(err) => Err(err),
                }
            },
            Err(err) => Err(err),
        }
    }
}

/// Parameters of a function, starting after its `(`.
#[verifier::opaque]
pub open spec fn sp_params(toks: Seq<Token>, p: int) -> SpecParse<Seq<SpecParam>>
    decreases toks.len() - p, 28int,
{
    if !(0 <= p < toks.len()) {
        unreachable_outcome()
    } else if kind_at(toks, p) == TokenKind::RParen {
        Ok((seq![], p + 1))
    } else {
        sp_params_items(toks, p, seq![])
    }
}

/// A function definition or a global declaration.
#[verifier::opaque]
pub open spec fn sp_item(toks: Seq<Token>, p: int) -> SpecParse<SpecItem>
    decreases toks.len() - p, 35int,
{
    if !(0 <= p < toks.len()) {
        unreachable_outcome()
    } else {
        match sp_decl_specifier(toks, p) {
            Ok(((is_const, ty), q)) => if q <= p || q >= toks.len() {
                unreachable_outcome()
            } else if kind_at(toks, q) != TokenKind::Ident {
                error_at(toks, q, "expected identifier"@)
            } else if !(q + 1 < toks.len()) {
                unreachable_outcome()
            } else {
                let name = toks[q].lexeme@;
                let location = loc_at(toks, q);
                if kind_at(toks, q + 1) == TokenKind::LParen {
                    if !(q + 2 < toks.len()) {
                        unreachable_outcome()
                    } else if is_const {
                        error_at(toks, q + 2, "functions cannot be const-qualified"@)
                    } else {
                        match sp_params(toks, q + 2) {
                            Ok((params, r)) => if r <= p || r >= toks.len() {
                                unreachable_outcome()
                            } else {
                                match sp_block(toks, r) {
                                    Ok((body, t)) => Ok(
                                        (
                                            SpecItem::Function(
                                                SpecFunctionDef {
                                                    location,
                                                    return_type: ty,
                                                    name,
                                                    params,
                                                    body,
                                                },
                                            ),
                                            t,
                                        ),
                                    ),
                                    Err(err) => Err(err),
                                }
                            },
                            Err(err) => Err(err),
                        }
                    }
                } else {
                    match sp_var_decl_list_after_first(toks, q + 1, is_const, ty, name, location) {
                        Ok((decls, r)) => expect_then(
                            toks,
                            r,
                            TokenKind::Semicolon,
                            Ok((SpecItem::GlobalDecl(decls), r + 1)),
                        ),
                        Err(err) => Err(err),
                    }
                }
            },
            Err(err) => Err(err),
        }
    }
}

/// Items up to the first `Eof`, appended to `acc`.
#[verifier::opaque]
pub open spec fn sp_items(toks: Seq<Token>, p: int, acc: Seq<SpecItem>) -> SpecParse<Seq<SpecItem>>
    decreases toks.len() - p, 36int,
{
    if !(0 <= p < toks.len()) {
        unreachable_outcome()
    } else if kind_at(toks, p) == TokenKind::Eof {
        Ok((acc, p))
    } else {
        match sp_item(toks, p) {
            Ok((item, q)) => if q <= p || q >= toks.len() {
                unreachable_outcome()
            } else {
                sp_items(toks, q, acc.push(item))
            },
            Err(err) => Err(err),
        }
    }
}

/// What parsing the tokens from `start` up to the first `Eof` gives: a
/// program and the position of that `Eof`, or the first error.
pub open spec fn spec_parse_program(toks: Seq<Token>, start: int) -> Result<(SpecProgram, int), SpecError> {
    match sp_items(toks, start, seq![]) {
        Ok((items, q)) => Ok((SpecProgram { items }, q)),
        Err(err) => Err(err),
    }
}

// ---------------------------------------------------------------------------
// The parser
// ---------------------------------------------------------------------------

type ParseResult<T> = Result<T, ParseError>;

/// A parsing method's result agrees with the model's outcome, the value
/// compared through `view` and the position with `pos`.
pub open spec fn agrees<T, V>(
    r: Result<T, ParseError>,
    pos: int,
    s: SpecParse<V>,
    view: spec_fn(T) -> V,
) -> bool {
    match r {
        Ok(v) => s == Ok::<(V, int), SpecError>((view(v), pos)),
        Err(e) => s == Err::<(V, int), SpecError>((e.location, e.message@)),
    }
}

fn token_kind_name(k: TokenKind) -> (r: &'static str)
    ensures
        r@ == kind_name(k),
{
    match k {
        TokenKind::Ident => "Ident",
        TokenKind::Keyword => "Keyword",
        TokenKind::IntLiteral => "IntLiteral",
        TokenKind::FloatLiteral => "FloatLiteral",
        TokenKind::Plus => "Plus",
        TokenKind::Minus => "Minus",
        TokenKind::Star => "Star",
        TokenKind::Slash => "Slash",
        TokenKind::Percent => "Percent",
        TokenKind::Assign => "Assign",
        TokenKind::Eq => "Eq",
        TokenKind::Neq => "Neq",
        TokenKind::Lt => "Lt",
        TokenKind::Le => "Le",
        TokenKind::Gt => "Gt",
        TokenKind::Ge => "Ge",
        TokenKind::And => "And",
        TokenKind::Or => "Or",
        TokenKind::Not => "Not",
        TokenKind::Inc => "Inc",
        TokenKind::Dec => "Dec",
        TokenKind::Semicolon => "Semicolon",
        TokenKind::Comma => "Comma",
        TokenKind::LParen => "LParen",
        TokenKind::RParen => "RParen",
        TokenKind::LBracket => "LBracket",
        TokenKind::RBracket => "RBracket",
        TokenKind::LBrace => "LBrace",
        TokenKind::RBrace => "RBrace",
        TokenKind::Eof => "Eof",
        TokenKind::Unknown => "Unknown",
    }
}

impl Parser {
    /// The tokens being parsed.
    pub closed spec fn token_seq(&self) -> Seq<Token> {
        self.tokens@
    }

    /// The index of the current token.
    pub closed spec fn position(&self) -> int {
        self.pos as int
    }

    /// The parser stands on a token of a sequence that ends with `Eof`.
    pub open spec fn wf(&self) -> bool {
        valid_tokens(self.token_seq()) && 0 <= self.position() < self.token_seq().len()
    }

    pub fn new(tokens: Vec<Token>) -> (p: Self)
        ensures
            p.token_seq() == tokens@,
            p.position() == 0,
    {
        Self { tokens, pos: 0 }
    }

    /// Parses the whole token sequence up to its first `Eof`.
    pub fn parse_program(&mut self) -> (r: ParseResult<Program>)
        requires
            old(self).wf(),
        ensures
            final(self).wf(),
            final(self).token_seq() == old(self).token_seq(),
            final(self).position() >= old(self).position(),
            r is Ok ==> kind_at(final(self).token_seq(), final(self).position()) == TokenKind::Eof,
            match r {
                Ok(program) => spec_parse_program(old(self).token_seq(), old(self).position()) == Ok::<
                    (SpecProgram, int),
                    SpecError,
                >((program@, final(self).position())),
                Err(e) => spec_parse_program(old(self).token_seq(), old(self).position()) == Err::<
                    (SpecProgram, int),
                    SpecError,
                >((e.location, e.message@)),
            },
    {
        proof {
            reveal(sp_items);
            reveal(sp_item);
        }
        let ghost toks = self.tokens@;
        let ghost start = self.pos as int;
        let mut items: Vec<Item> = Vec::new();
        proof {
            lemma_empty_views();
        }

        while !self.at_kind(TokenKind::Eof)
            invariant
                self.wf(),
                self.tokens@ == toks,
                toks == old(self).tokens@,
                start == old(self).pos,
                self.pos >= start,
                sp_items(toks, self.pos as int, items_view(items@)) == sp_items(toks, start, seq![]),
            decreases toks.len() - self.pos,
        {
            proof {
                reveal(sp_items);
                reveal(sp_item);
            }
            let ghost p = self.pos as int;
            let item = match self.parse_item() {
            Ok(v) => v,
            Err(e) => return Err(e),
        };
            proof {
                lemma_items_view_push(items@, item);
            }
            items.push(item);
        }

        Ok(Program { items })
    }

    fn parse_item(&mut self) -> (r: ParseResult<Item>)
        requires
            old(self).wf(),
        ensures
            final(self).wf(),
            final(self).tokens@ == old(self).tokens@,
            final(self).pos >= old(self).pos,
            r is Ok ==> final(self).pos > old(self).pos,
            agrees(
                r,
                final(self).pos as int,
                sp_item(old(self).tokens@, old(self).pos as int),
                |v: Item| v@,
            ),
        decreases old(self).tokens@.len() - old(self).pos, 35int,
    {
        proof {
            reveal(sp_item);
            reveal(sp_params);
            reveal(sp_block);
            reveal(sp_var_decl_list_after_first);
        }
        let (is_const, ty) = match self.parse_decl_specifier() {
            Ok(v) => v,
            Err(e) => return Err(e),
        };
        let (name, name_location) = match self.expect_ident() {
            Ok(v) => v,
            Err(e) => return Err(e),
        };

        if self.match_kind(TokenKind::LParen) {
            if is_const {
                return Err(self.error_here("functions cannot be const-qualified"));
            }
            let params = match self.parse_param_list() {
            Ok(v) => v,
            Err(e) => return Err(e),
        };
            let body = match self.parse_block() {
            Ok(v) => v,
            Err(e) => return Err(e),
        };
            Ok(Item::Function(FunctionDef { location: name_location, return_type: ty, name, params, body }))
        } else {
            let decls = match self.parse_var_decl_list_after_first(is_const, ty, name, name_location) {
            Ok(v) => v,
            Err(e) => return Err(e),
        };
            match self.expect_kind(TokenKind::Semicolon) {
            Ok(v) => v,
            Err(e) => return Err(e),
        };
            Ok(Item::GlobalDecl(decls))
        }
    }

    #[verifier::rlimit(100)]
    fn parse_block(&mut self) -> (r: ParseResult<Block>)
        requires
            old(self).wf(),
        ensures
            final(self).wf(),
            final(self).tokens@ == old(self).tokens@,
            final(self).pos >= old(self).pos,
            r is Ok ==> final(self).pos > old(self).pos,
            agrees(
                r,
                final(self).pos as int,
                sp_block(old(self).tokens@, old(self).pos as int),
                |v: Block| v@,
            ),
        decreases old(self).tokens@.len() - old(self).pos, 32int,
    {
        proof {
            reveal(sp_block);
            reveal(sp_block_items);
            reveal(sp_stmt);
        }
        let ghost toks = self.tokens@;
        let ghost p0 = self.pos as int;
        let location = self.current_location();
        match self.expect_kind(TokenKind::LBrace) {
            Ok(v) => v,
            Err(e) => return Err(e),
        };
        let mut statements: Vec<Stmt> = Vec::new();
        proof {
            lemma_empty_views();
        }

        while !self.at_kind(TokenKind::RBrace)
            invariant
                self.wf(),
                self.tokens@ == toks,
                toks == old(self).tokens@,
                self.pos > p0,
                p0 == old(self).pos,
                kind_at(toks, p0) == TokenKind::LBrace,
                location == loc_at(toks, p0),
                sp_block_items(toks, self.pos as int, stmts_view(statements@)) == sp_block_items(
                    toks,
                    p0 + 1,
                    seq![],
                ),
            decreases toks.len() - self.pos,
        {
            proof {
                reveal(sp_block);
                reveal(sp_block_items);
                reveal(sp_stmt);
            }
            if self.at_kind(TokenKind::Eof) {
                return Err(self.error_here("unexpected end of file while parsing block"));
            }
            let stmt = match self.parse_stmt() {
            Ok(v) => v,
            Err(e) => return Err(e),
        };
            proof {
                lemma_stmts_view_push(statements@, stmt);
            }
            statements.push(stmt);
        }

        match self.expect_kind(TokenKind::RBrace) {
            Ok(v) => v,
            Err(e) => return Err(e),
        };
        Ok(Block { location, statements })
    }

    fn parse_stmt(&mut self) -> (r: ParseResult<Stmt>)
        requires
            old(self).wf(),
        ensures
            final(self).wf(),
            final(self).tokens@ == old(self).tokens@,
            final(self).pos >= old(self).pos,
            r is Ok ==> final(self).pos > old(self).pos,
            agrees(
                r,
                final(self).pos as int,
                sp_stmt(old(self).tokens@, old(self).pos as int),
                |v: Stmt| v@,
            ),
        decreases old(self).tokens@.len() - old(self).pos, 33int,
    {
        proof {
            reveal(sp_stmt);
            reveal(sp_block);
            reveal(sp_return_stmt);
            reveal(sp_if_stmt);
            reveal(sp_while_stmt);
            reveal(sp_for_stmt);
            reveal(sp_jump_stmt);
            reveal(sp_decl_stmt);
            reveal(sp_expr_stmt);
        }
        if self.at_kind(TokenKind::LBrace) {
            return match self.parse_block() {
                Ok(block) => Ok(Stmt::Block(block)),
                Err(e) => Err(e),
            };
        }
        if self.check_keyword("return") {
            return self.parse_return_stmt();
        }
        if self.check_keyword("if") {
            return self.parse_if_stmt();
        }
        if self.check_keyword("while") {
            return self.parse_while_stmt();
        }
        if self.check_keyword("for") {
            return self.parse_for_stmt();
        }
        if self.check_keyword("break") {
            return self.parse_jump_stmt(true);
        }
        if self.check_keyword("continue") {
            return self.parse_jump_stmt(false);
        }
        if self.is_decl_start() {
            return self.parse_decl_stmt();
        }
        if self.at_kind(TokenKind::Semicolon) {
            let location = self.current_location();
            self.advance();
            return Ok(Stmt::Empty { location });
        }
        self.parse_expr_stmt()
    }

    /// `return;` or `return e;`, from the keyword.
    fn parse_return_stmt(&mut self) -> (r: ParseResult<Stmt>)
        requires
            old(self).wf(),
            kw_at(old(self).tokens@, old(self).pos as int, "return"@),
        ensures
            final(self).wf(),
            final(self).tokens@ == old(self).tokens@,
            final(self).pos >= old(self).pos,
            r is Ok ==> final(self).pos > old(self).pos,
            agrees(
                r,
                final(self).pos as int,
                sp_return_stmt(old(self).tokens@, old(self).pos as int),
                |v: Stmt| v@,
            ),
        decreases old(self).tokens@.len() - old(self).pos, 32int,
    {
        proof {
            reveal(sp_return_stmt);
            reveal(sp_expr);
        }
        let location = self.current_location();
        self.advance();
        if self.match_kind(TokenKind::Semicolon) {
            return Ok(Stmt::Return { location, expr: None });
        }
        let expr = match self.parse_expr() {
            Ok(v) => v,
            Err(e) => return Err(e),
        };
        match self.expect_kind(TokenKind::Semicolon) {
            Ok(v) => v,
            Err(e) => return Err(e),
        };
        Ok(Stmt::Return { location, expr: Some(expr) })
    }

    /// `if (c) s [else s]`, from the keyword.
    fn parse_if_stmt(&mut self) -> (r: ParseResult<Stmt>)
        requires
            old(self).wf(),
            kw_at(old(self).tokens@, old(self).pos as int, "if"@),
        ensures
            final(self).wf(),
            final(self).tokens@ == old(self).tokens@,
            final(self).pos >= old(self).pos,
            r is Ok ==> final(self).pos > old(self).pos,
            agrees(
                r,
                final(self).pos as int,
                sp_if_stmt(old(self).tokens@, old(self).pos as int),
                |v: Stmt| v@,
            ),
        decreases old(self).tokens@.len() - old(self).pos, 32int,
    {
        proof {
            reveal(sp_if_stmt);
            reveal(sp_expr);
            reveal(sp_stmt);
        }
        let location = self.current_location();
        self.advance();
        match self.expect_kind(TokenKind::LParen) {
            Ok(v) => v,
            Err(e) => return Err(e),
        };
        let condition = match self.parse_expr() {
            Ok(v) => v,
            Err(e) => return Err(e),
        };
        match self.expect_kind(TokenKind::RParen) {
            Ok(v) => v,
            Err(e) => return Err(e),
        };
        let then_branch = match self.parse_stmt() {
            Ok(v) => Box::new(v),
            Err(e) => return Err(e),
        };
        let else_branch = if self.check_keyword("else") {
            self.advance();
            match self.parse_stmt() {
                Ok(v) => Some(Box::new(v)),
                Err(e) => return Err(e),
            }
        } else {
            None
        };
        Ok(Stmt::If { location, condition, then_branch, else_branch })
    }

    /// `while (c) s`, from the keyword.
    fn parse_while_stmt(&mut self) -> (r: ParseResult<Stmt>)
        requires
            old(self).wf(),
            kw_at(old(self).tokens@, old(self).pos as int, "while"@),
        ensures
            final(self).wf(),
            final(self).tokens@ == old(self).tokens@,
            final(self).pos >= old(self).pos,
            r is Ok ==> final(self).pos > old(self).pos,
            agrees(
                r,
                final(self).pos as int,
                sp_while_stmt(old(self).tokens@, old(self).pos as int),
                |v: Stmt| v@,
            ),
        decreases old(self).tokens@.len() - old(self).pos, 32int,
    {
        proof {
            reveal(sp_while_stmt);
            reveal(sp_expr);
            reveal(sp_stmt);
        }
        let location = self.current_location();
        self.advance();
        match self.expect_kind(TokenKind::LParen) {
            Ok(v) => v,
            Err(e) => return Err(e),
        };
        let condition = match self.parse_expr() {
            Ok(v) => v,
            Err(e) => return Err(e),
        };
        match self.expect_kind(TokenKind::RParen) {
            Ok(v) => v,
            Err(e) => return Err(e),
        };
        let body = match self.parse_stmt() {
            Ok(v) => Box::new(v),
            Err(e) => return Err(e),
        };
        Ok(Stmt::While { location, condition, body })
    }

    /// `break;` or `continue;`, from the keyword.
    fn parse_jump_stmt(&mut self, is_break: bool) -> (r: ParseResult<Stmt>)
        requires
            old(self).wf(),
            old(self).tokens@[old(self).pos as int].kind == TokenKind::Keyword,
        ensures
            final(self).wf(),
            final(self).tokens@ == old(self).tokens@,
            final(self).pos >= old(self).pos,
            r is Ok ==> final(self).pos > old(self).pos,
            agrees(
                r,
                final(self).pos as int,
                sp_jump_stmt(old(self).tokens@, old(self).pos as int, is_break),
                |v: Stmt| v@,
            ),
        decreases old(self).tokens@.len() - old(self).pos, 32int,
    {
        proof {
            reveal(sp_jump_stmt);
        }
        let location = self.current_location();
        self.advance();
        match self.expect_kind(TokenKind::Semicolon) {
            Ok(v) => v,
            Err(e) => return Err(e),
        };
        if is_break {
            Ok(Stmt::Break { location })
        } else {
            Ok(Stmt::Continue { location })
        }
    }

    /// A local declaration statement.
    fn parse_decl_stmt(&mut self) -> (r: ParseResult<Stmt>)
        requires
            old(self).wf(),
        ensures
            final(self).wf(),
            final(self).tokens@ == old(self).tokens@,
            final(self).pos >= old(self).pos,
            r is Ok ==> final(self).pos > old(self).pos,
            agrees(
                r,
                final(self).pos as int,
                sp_decl_stmt(old(self).tokens@, old(self).pos as int),
                |v: Stmt| v@,
            ),
        decreases old(self).tokens@.len() - old(self).pos, 32int,
    {
        proof {
            reveal(sp_decl_stmt);
            reveal(sp_var_decl_list);
        }
        let decl = match self.parse_var_decl_list() {
            Ok(v) => v,
            Err(e) => return Err(e),
        };
        let location = decl[0].location;
        proof {
            lemma_decls_view_index(decl@, 0);
        }
        match self.expect_kind(TokenKind::Semicolon) {
            Ok(v) => v,
            Err(e) => return Err(e),
        };
        Ok(Stmt::VarDecl { location, decls: decl })
    }

    /// An expression statement.
    fn parse_expr_stmt(&mut self) -> (r: ParseResult<Stmt>)
        requires
            old(self).wf(),
        ensures
            final(self).wf(),
            final(self).tokens@ == old(self).tokens@,
            final(self).pos >= old(self).pos,
            r is Ok ==> final(self).pos > old(self).pos,
            agrees(
                r,
                final(self).pos as int,
                sp_expr_stmt(old(self).tokens@, old(self).pos as int),
                |v: Stmt| v@,
            ),
        decreases old(self).tokens@.len() - old(self).pos, 32int,
    {
        proof {
            reveal(sp_expr_stmt);
            reveal(sp_expr);
        }
        let expr = match self.parse_expr() {
            Ok(v) => v,
            Err(e) => return Err(e),
        };
        match self.expect_kind(TokenKind::Semicolon) {
            Ok(v) => v,
            Err(e) => return Err(e),
        };
        Ok(Stmt::Expr { location: expr.location, expr })
    }

    /// A `for` statement, from its keyword.
    fn parse_for_stmt(&mut self) -> (r: ParseResult<Stmt>)
        requires
            old(self).wf(),
            kw_at(old(self).tokens@, old(self).pos as int, "for"@),
        ensures
            final(self).wf(),
            final(self).tokens@ == old(self).tokens@,
            final(self).pos >= old(self).pos,
            r is Ok ==> final(self).pos > old(self).pos,
            agrees(
                r,
                final(self).pos as int,
                sp_for_stmt(old(self).tokens@, old(self).pos as int),
                |v: Stmt| v@,
            ),
        decreases old(self).tokens@.len() - old(self).pos, 32int,
    {
        proof {
            reveal(sp_for_stmt);
            reveal(sp_for_init);
            reveal(sp_opt_expr_until);
            reveal(sp_var_decl_list);
            reveal(sp_expr);
            reveal(sp_stmt);
        }
        let location = self.current_location();
        self.advance();
        match self.expect_kind(TokenKind::LParen) {
            Ok(v) => v,
            Err(e) => return Err(e),
        };

        let init = if self.at_kind(TokenKind::Semicolon) {
            None
        } else if self.is_decl_start() {
            Some(ForInit::Decl(match self.parse_var_decl_list() {
            Ok(v) => v,
            Err(e) => return Err(e),
        }))
        } else {
            Some(ForInit::Expr(match self.parse_expr() {
            Ok(v) => v,
            Err(e) => return Err(e),
        }))
        };
        match self.expect_kind(TokenKind::Semicolon) {
            Ok(v) => v,
            Err(e) => return Err(e),
        };

        let condition = if self.at_kind(TokenKind::Semicolon) {
            None
        } else {
            Some(match self.parse_expr() {
            Ok(v) => v,
            Err(e) => return Err(e),
        })
        };
        match self.expect_kind(TokenKind::Semicolon) {
            Ok(v) => v,
            Err(e) => return Err(e),
        };

        let update = if self.at_kind(TokenKind::RParen) {
            None
        } else {
            Some(match self.parse_expr() {
            Ok(v) => v,
            Err(e) => return Err(e),
        })
        };
        match self.expect_kind(TokenKind::RParen) {
            Ok(v) => v,
            Err(e) => return Err(e),
        };

        let body = Box::new(match self.parse_stmt() {
            Ok(v) => v,
            Err(e) => return Err(e),
        });
        Ok(Stmt::For { location, init, condition, update, body })
    }

    fn parse_var_decl_list(&mut self) -> (r: ParseResult<Vec<VarDecl>>)
        requires
            old(self).wf(),
        ensures
            final(self).wf(),
            final(self).tokens@ == old(self).tokens@,
            final(self).pos >= old(self).pos,
            r is Ok ==> final(self).pos > old(self).pos,
            r matches Ok(v) ==> v@.len() >= 1,
            agrees(
                r,
                final(self).pos as int,
                sp_var_decl_list(old(self).tokens@, old(self).pos as int),
                |v: Vec<VarDecl>| decls_view(v@),
            ),
        decreases old(self).tokens@.len() - old(self).pos, 31int,
    {
        proof {
            reveal(sp_var_decl_list);
            reveal(sp_var_decl_list_after_first);
        }
        let (is_const, ty) = match self.parse_decl_specifier() {
            Ok(v) => v,
            Err(e) => return Err(e),
        };
        let (name, name_location) = match self.expect_ident() {
            Ok(v) => v,
            Err(e) => return Err(e),
        };
        self.parse_var_decl_list_after_first(is_const, ty, name, name_location)
    }

    fn parse_var_decl_list_after_first(
        &mut self,
        is_const: bool,
        ty: TypeName,
        first_name: String,
        first_location: SourceLocation,
    ) -> (r: ParseResult<Vec<VarDecl>>)
        requires
            old(self).wf(),
        ensures
            final(self).wf(),
            final(self).tokens@ == old(self).tokens@,
            final(self).pos >= old(self).pos,
            r matches Ok(v) ==> v@.len() >= 1,
            agrees(
                r,
                final(self).pos as int,
                sp_var_decl_list_after_first(
                    old(self).tokens@,
                    old(self).pos as int,
                    is_const,
                    ty,
                    first_name@,
                    first_location,
                ),
                |v: Vec<VarDecl>| decls_view(v@),
            ),
        decreases old(self).tokens@.len() - old(self).pos, 30int,
    {
        proof {
            reveal(sp_var_decl_list_after_first);
            reveal(sp_decl_rest);
            reveal(sp_var_decl_after_name);
        }
        let ghost toks = self.tokens@;
        let first = match self.parse_var_decl_after_name(is_const, ty, first_name, first_location) {
            Ok(v) => v,
            Err(e) => return Err(e),
        };
        let mut decls: Vec<VarDecl> = Vec::new();
        proof {
            lemma_empty_views();
        }
        proof {
            lemma_decls_view_push(decls@, first);
        }
        decls.push(first);

        while self.match_kind(TokenKind::Comma)
            invariant
                self.wf(),
                self.tokens@ == toks,
                toks == old(self).tokens@,
                self.pos >= old(self).pos,
                decls@.len() >= 1,
                sp_decl_rest(toks, self.pos as int, is_const, ty, decls_view(decls@))
                    == sp_var_decl_list_after_first(
                    toks,
                    old(self).pos as int,
                    is_const,
                    ty,
                    first_name@,
                    first_location,
                ),
            decreases toks.len() - self.pos,
        {
            proof {
                reveal(sp_var_decl_list_after_first);
                reveal(sp_decl_rest);
                reveal(sp_var_decl_after_name);
            }
            let (name, name_location) = match self.expect_ident() {
            Ok(v) => v,
            Err(e) => return Err(e),
        };
            let decl = match self.parse_var_decl_after_name(is_const, ty, name, name_location) {
            Ok(v) => v,
            Err(e) => return Err(e),
        };
            proof {
                lemma_decls_view_push(decls@, decl);
            }
            decls.push(decl);
        }

        Ok(decls)
    }

    fn parse_var_decl_after_name(
        &mut self,
        is_const: bool,
        ty: TypeName,
        name: String,
        location: SourceLocation,
    ) -> (r: ParseResult<VarDecl>)
        requires
            old(self).wf(),
        ensures
            final(self).wf(),
            final(self).tokens@ == old(self).tokens@,
            final(self).pos >= old(self).pos,
            agrees(
                r,
                final(self).pos as int,
                sp_var_decl_after_name(
                    old(self).tokens@,
                    old(self).pos as int,
                    is_const,
                    ty,
                    name@,
                    location,
                ),
                |v: VarDecl| v@,
            ),
        decreases old(self).tokens@.len() - old(self).pos, 28int,
    {
        proof {
            reveal(sp_var_decl_after_name);
            reveal(sp_dims);
            reveal(sp_initializer);
        }
        let dimensions = match self.parse_dimensions() {
            Ok(v) => v,
            Err(e) => return Err(e),
        };
        let init = if self.match_kind(TokenKind::Assign) {
            Some(match self.parse_initializer() {
            Ok(v) => v,
            Err(e) => return Err(e),
        })
        } else {
            None
        };

        Ok(VarDecl { location, is_const, ty, name, dimensions, init })
    }

    fn parse_decl_specifier(&mut self) -> (r: ParseResult<(bool, TypeName)>)
        requires
            old(self).wf(),
        ensures
            final(self).wf(),
            final(self).tokens@ == old(self).tokens@,
            final(self).pos >= old(self).pos,
            r is Ok ==> final(self).pos > old(self).pos,
            agrees(
                r,
                final(self).pos as int,
                sp_decl_specifier(old(self).tokens@, old(self).pos as int),
                |v: (bool, TypeName)| v,
            ),
    {
        let is_const = self.match_keyword("const");
        let ty = match self.parse_type_name() {
            Ok(v) => v,
            Err(e) => return Err(e),
        };
        Ok((is_const, ty))
    }

    #[verifier::rlimit(100)]
    fn parse_initializer(&mut self) -> (r: ParseResult<Initializer>)
        requires
            old(self).wf(),
        ensures
            final(self).wf(),
            final(self).tokens@ == old(self).tokens@,
            final(self).pos >= old(self).pos,
            r is Ok ==> final(self).pos > old(self).pos,
            agrees(
                r,
                final(self).pos as int,
                sp_initializer(old(self).tokens@, old(self).pos as int),
                |v: Initializer| v@,
            ),
        decreases old(self).tokens@.len() - old(self).pos, 26int,
    {
        proof {
            reveal(sp_initializer);
            reveal(sp_init_items);
            reveal(sp_expr);
        }
        let ghost toks = self.tokens@;
        if self.match_kind(TokenKind::LBrace) {
            let ghost p1 = self.pos as int;
            let mut items: Vec<Initializer> = Vec::new();
            proof {
                lemma_empty_views();
            }

            if !self.at_kind(TokenKind::RBrace) {
                loop
                    invariant_except_break
                        sp_init_items(toks, self.pos as int, inits_view(items@)) == sp_init_items(
                            toks,
                            p1,
                            seq![],
                        ),
                    invariant
                        self.wf(),
                        self.tokens@ == toks,
                        toks == old(self).tokens@,
                        self.pos >= p1,
                        p1 == old(self).pos + 1,
                        kind_at(toks, old(self).pos as int) == TokenKind::LBrace,
                        kind_at(toks, p1) != TokenKind::RBrace,
                    ensures
                        self.wf(),
                        self.tokens@ == toks,
                        self.pos >= p1,
                        sp_init_items(toks, p1, seq![]) == expect_then(
                            toks,
                            self.pos as int,
                            TokenKind::RBrace,
                            Ok::<(SpecInitializer, int), SpecError>(
                                (SpecInitializer::List(inits_view(items@)), self.pos + 1),
                            ),
                        ),
                    decreases toks.len() - self.pos,
                {
                    proof {
                        reveal(sp_initializer);
                        reveal(sp_init_items);
                    }
                    let ghost pb = self.pos as int;
                    let ghost acc = inits_view(items@);
                    let item = match self.parse_initializer() {
                        Ok(v) => v,
                        Err(e) => return Err(e),
                    };
                    proof {
                        lemma_inits_view_push(items@, item);
                    }
                    items.push(item);
                    let ghost q = self.pos as int;
                    assert(sp_init_items(toks, pb, acc) == if kind_at(toks, q) == TokenKind::Comma {
                        if q + 1 < toks.len() && kind_at(toks, q + 1) == TokenKind::RBrace {
                            Ok((SpecInitializer::List(acc.push(item@)), q + 2))
                        } else {
                            sp_init_items(toks, q + 1, acc.push(item@))
                        }
                    } else if kind_at(toks, q) == TokenKind::RBrace {
                        Ok((SpecInitializer::List(acc.push(item@)), q + 1))
                    } else {
                        Err(expect_error(toks, q, TokenKind::RBrace))
                    });
                    if !self.match_kind(TokenKind::Comma) {
                        break;
                    }
                    if self.at_kind(TokenKind::RBrace) {
                        break;
                    }
                }
            }

            match self.expect_kind(TokenKind::RBrace) {
                Ok(v) => v,
                Err(e) => return Err(e),
            };
            return Ok(Initializer::List(items));
        }

        match self.parse_expr() {
            Ok(v) => Ok(Initializer::Expr(v)),
            Err(e) => Err(e),
        }
    }

    // -----------------------------------------------------------------------
    // Expressions
    // -----------------------------------------------------------------------

    fn parse_expr(&mut self) -> (r: ParseResult<Expr>)
        requires
            old(self).wf(),
        ensures
            final(self).wf(),
            final(self).tokens@ == old(self).tokens@,
            final(self).pos >= old(self).pos,
            r is Ok ==> final(self).pos > old(self).pos,
            agrees(
                r,
                final(self).pos as int,
                sp_expr(old(self).tokens@, old(self).pos as int),
                |v: Expr| v@,
            ),
        decreases old(self).tokens@.len() - old(self).pos, 23int,
    {
        proof {
            reveal(sp_expr);
            reveal(sp_assignment);
        }
        self.parse_assignment()
    }

    fn parse_assignment(&mut self) -> (r: ParseResult<Expr>)
        requires
            old(self).wf(),
        ensures
            final(self).wf(),
            final(self).tokens@ == old(self).tokens@,
            final(self).pos >= old(self).pos,
            r is Ok ==> final(self).pos > old(self).pos,
            agrees(
                r,
                final(self).pos as int,
                sp_assignment(old(self).tokens@, old(self).pos as int),
                |v: Expr| v@,
            ),
        decreases old(self).tokens@.len() - old(self).pos, 22int,
    {
        proof {
            reveal(sp_assignment);
            reveal(sp_binary);
        }
        let left = match self.parse_logical_or() {
            Ok(v) => v,
            Err(e) => return Err(e),
        };

        if self.match_kind(TokenKind::Assign) {
            let value = match self.parse_assignment() {
            Ok(v) => v,
            Err(e) => return Err(e),
        };
            return Ok(
                Expr {
                    location: left.location,
                    kind: ExprKind::Assign { target: Box::new(left), value: Box::new(value) },
                },
            );
        }

        Ok(left)
    }

    fn parse_logical_or(&mut self) -> (r: ParseResult<Expr>)
        requires
            old(self).wf(),
        ensures
            final(self).wf(),
            final(self).tokens@ == old(self).tokens@,
            final(self).pos >= old(self).pos,
            r is Ok ==> final(self).pos > old(self).pos,
            agrees(
                r,
                final(self).pos as int,
                sp_binary(old(self).tokens@, old(self).pos as int, 6),
                |v: Expr| v@,
            ),
        decreases old(self).tokens@.len() - old(self).pos, 21int,
    {
        self.parse_binary_left_assoc(6)
    }

    fn parse_logical_and(&mut self) -> (r: ParseResult<Expr>)
        requires
            old(self).wf(),
        ensures
            final(self).wf(),
            final(self).tokens@ == old(self).tokens@,
            final(self).pos >= old(self).pos,
            r is Ok ==> final(self).pos > old(self).pos,
            agrees(
                r,
                final(self).pos as int,
                sp_binary(old(self).tokens@, old(self).pos as int, 5),
                |v: Expr| v@,
            ),
        decreases old(self).tokens@.len() - old(self).pos, 18int,
    {
        self.parse_binary_left_assoc(5)
    }

    fn parse_equality(&mut self) -> (r: ParseResult<Expr>)
        requires
            old(self).wf(),
        ensures
            final(self).wf(),
            final(self).tokens@ == old(self).tokens@,
            final(self).pos >= old(self).pos,
            r is Ok ==> final(self).pos > old(self).pos,
            agrees(
                r,
                final(self).pos as int,
                sp_binary(old(self).tokens@, old(self).pos as int, 4),
                |v: Expr| v@,
            ),
        decreases old(self).tokens@.len() - old(self).pos, 15int,
    {
        self.parse_binary_left_assoc(4)
    }

    fn parse_relational(&mut self) -> (r: ParseResult<Expr>)
        requires
            old(self).wf(),
        ensures
            final(self).wf(),
            final(self).tokens@ == old(self).tokens@,
            final(self).pos >= old(self).pos,
            r is Ok ==> final(self).pos > old(self).pos,
            agrees(
                r,
                final(self).pos as int,
                sp_binary(old(self).tokens@, old(self).pos as int, 3),
                |v: Expr| v@,
            ),
        decreases old(self).tokens@.len() - old(self).pos, 12int,
    {
        self.parse_binary_left_assoc(3)
    }

    fn parse_additive(&mut self) -> (r: ParseResult<Expr>)
        requires
            old(self).wf(),
        ensures
            final(self).wf(),
            final(self).tokens@ == old(self).tokens@,
            final(self).pos >= old(self).pos,
            r is Ok ==> final(self).pos > old(self).pos,
            agrees(
                r,
                final(self).pos as int,
                sp_binary(old(self).tokens@, old(self).pos as int, 2),
                |v: Expr| v@,
            ),
        decreases old(self).tokens@.len() - old(self).pos, 9int,
    {
        self.parse_binary_left_assoc(2)
    }

    fn parse_multiplicative(&mut self) -> (r: ParseResult<Expr>)
        requires
            old(self).wf(),
        ensures
            final(self).wf(),
            final(self).tokens@ == old(self).tokens@,
            final(self).pos >= old(self).pos,
            r is Ok ==> final(self).pos > old(self).pos,
            agrees(
                r,
                final(self).pos as int,
                sp_binary(old(self).tokens@, old(self).pos as int, 1),
                |v: Expr| v@,
            ),
        decreases old(self).tokens@.len() - old(self).pos, 6int,
    {
        self.parse_binary_left_assoc(1)
    }

    /// The operand of level `prec`: the next tighter level, or a unary
    /// expression below the multiplicative level.
    fn parse_operand(&mut self, prec: u8) -> (r: ParseResult<Expr>)
        requires
            old(self).wf(),
            1 <= prec <= 6,
        ensures
            final(self).wf(),
            final(self).tokens@ == old(self).tokens@,
            final(self).pos >= old(self).pos,
            r is Ok ==> final(self).pos > old(self).pos,
            agrees(
                r,
                final(self).pos as int,
                sp_operand(old(self).tokens@, old(self).pos as int, prec as int),
                |v: Expr| v@,
            ),
        decreases old(self).tokens@.len() - old(self).pos, 3 * prec + 1,
    {
        proof {
            reveal(sp_operand);
            reveal(sp_unary);
            reveal(sp_binary);
        }
        if prec == 1 {
            self.parse_unary()
        } else if prec == 2 {
            self.parse_multiplicative()
        } else if prec == 3 {
            self.parse_additive()
        } else if prec == 4 {
            self.parse_relational()
        } else if prec == 5 {
            self.parse_equality()
        } else {
            self.parse_logical_and()
        }
    }

    /// Whether the current token is an operator of level `prec`.
    fn at_level_op(&self, prec: u8) -> (r: bool)
        requires
            self.wf(),
        ensures
            r == level_has_op(prec as int, kind_at(self.tokens@, self.pos as int)),
    {
        let k = self.current().kind;
        if prec == 6 {
            k == TokenKind::Or
        } else if prec == 5 {
            k == TokenKind::And
        } else if prec == 4 {
            k == TokenKind::Eq || k == TokenKind::Neq
        } else if prec == 3 {
            k == TokenKind::Lt || k == TokenKind::Le || k == TokenKind::Gt || k == TokenKind::Ge
        } else if prec == 2 {
            k == TokenKind::Plus || k == TokenKind::Minus
        } else {
            k == TokenKind::Star || k == TokenKind::Slash || k == TokenKind::Percent
        }
    }

    /// A left-associative chain of level-`prec` operators.
    fn parse_binary_left_assoc(&mut self, prec: u8) -> (r: ParseResult<Expr>)
        requires
            old(self).wf(),
            1 <= prec <= 6,
        ensures
            final(self).wf(),
            final(self).tokens@ == old(self).tokens@,
            final(self).pos >= old(self).pos,
            r is Ok ==> final(self).pos > old(self).pos,
            agrees(
                r,
                final(self).pos as int,
                sp_binary(old(self).tokens@, old(self).pos as int, prec as int),
                |v: Expr| v@,
            ),
        decreases old(self).tokens@.len() - old(self).pos, 3 * prec + 2,
    {
        proof {
            reveal(sp_binary);
            reveal(sp_binary_tail);
            reveal(sp_operand);
        }
        let ghost toks = self.tokens@;
        let mut expr = match self.parse_operand(prec) {
            Ok(v) => v,
            Err(e) => return Err(e),
        };
        let ghost p1 = self.pos as int;
        let ghost e1 = expr@;

        while self.at_level_op(prec)
            invariant
                self.wf(),
                self.tokens@ == toks,
                toks == old(self).tokens@,
                1 <= prec <= 6,
                self.pos >= p1,
                p1 > old(self).pos,
                sp_binary_tail(toks, expr@, self.pos as int, prec as int) == sp_binary_tail(
                    toks,
                    e1,
                    p1,
                    prec as int,
                ),
                sp_binary(toks, old(self).pos as int, prec as int) == sp_binary_tail(
                    toks,
                    e1,
                    p1,
                    prec as int,
                ),
            decreases toks.len() - self.pos,
        {
            proof {
                reveal(sp_binary);
                reveal(sp_binary_tail);
                reveal(sp_operand);
            }
            let op_kind = self.current().kind;
            let location = self.current_location();
            self.advance();
            let rhs = match self.parse_operand(prec) {
            Ok(v) => v,
            Err(e) => return Err(e),
        };
            let op = match Self::binary_op_from_token(&op_kind) {
            Ok(v) => v,
            Err(e) => return Err(e),
        };
            expr = Expr {
                location,
                kind: ExprKind::Binary { op, left: Box::new(expr), right: Box::new(rhs) },
            };
        }

        Ok(expr)
    }

    fn parse_unary(&mut self) -> (r: ParseResult<Expr>)
        requires
            old(self).wf(),
        ensures
            final(self).wf(),
            final(self).tokens@ == old(self).tokens@,
            final(self).pos >= old(self).pos,
            r is Ok ==> final(self).pos > old(self).pos,
            agrees(
                r,
                final(self).pos as int,
                sp_unary(old(self).tokens@, old(self).pos as int),
                |v: Expr| v@,
            ),
        decreases old(self).tokens@.len() - old(self).pos, 2int,
    {
        proof {
            reveal(sp_unary);
            reveal(sp_postfix);
        }
        if self.match_kind(TokenKind::Plus) {
            let location = self.previous_location();
            return Ok(Expr { location, kind: ExprKind::Unary { op: UnaryOp::Plus, expr: Box::new(match self.parse_unary() {
            Ok(v) => v,
            Err(e) => return Err(e),
        }) } });
        }
        if self.match_kind(TokenKind::Minus) {
            let location = self.previous_location();
            return Ok(Expr { location, kind: ExprKind::Unary { op: UnaryOp::Minus, expr: Box::new(match self.parse_unary() {
            Ok(v) => v,
            Err(e) => return Err(e),
        }) } });
        }
        if self.match_kind(TokenKind::Not) {
            let location = self.previous_location();
            return Ok(Expr { location, kind: ExprKind::Unary { op: UnaryOp::Not, expr: Box::new(match self.parse_unary() {
            Ok(v) => v,
            Err(e) => return Err(e),
        }) } });
        }
        if self.match_kind(TokenKind::Inc) {
            let location = self.previous_location();
            return Ok(Expr { location, kind: ExprKind::Unary { op: UnaryOp::PreInc, expr: Box::new(match self.parse_unary() {
            Ok(v) => v,
            Err(e) => return Err(e),
        }) } });
        }
        if self.match_kind(TokenKind::Dec) {
            let location = self.previous_location();
            return Ok(Expr { location, kind: ExprKind::Unary { op: UnaryOp::PreDec, expr: Box::new(match self.parse_unary() {
            Ok(v) => v,
            Err(e) => return Err(e),
        }) } });
        }

        self.parse_postfix()
    }

    #[verifier::spinoff_prover]
    fn parse_postfix(&mut self) -> (r: ParseResult<Expr>)
        requires
            old(self).wf(),
        ensures
            final(self).wf(),
            final(self).tokens@ == old(self).tokens@,
            final(self).pos >= old(self).pos,
            r is Ok ==> final(self).pos > old(self).pos,
            agrees(
                r,
                final(self).pos as int,
                sp_postfix(old(self).tokens@, old(self).pos as int),
                |v: Expr| v@,
            ),
        decreases old(self).tokens@.len() - old(self).pos, 1int,
    {
        proof {
            reveal(sp_postfix);
            reveal(sp_primary);
        }
        let expr = match self.parse_primary() {
            Ok(v) => v,
            Err(e) => return Err(e),
        };
        self.parse_postfix_rest(expr)
    }

    /// Applies the calls, subscripts and postfix `++`/`--` that follow to
    /// `expr`.
    fn parse_postfix_rest(&mut self, expr: Expr) -> (r: ParseResult<Expr>)
        requires
            old(self).wf(),
        ensures
            final(self).wf(),
            final(self).tokens@ == old(self).tokens@,
            final(self).pos >= old(self).pos,
            agrees(
                r,
                final(self).pos as int,
                sp_postfix_tail(old(self).tokens@, expr@, old(self).pos as int),
                |v: Expr| v@,
            ),
        decreases old(self).tokens@.len() - old(self).pos, 1int,
    {
        let (next, more) = match self.parse_postfix_step(expr) {
            Ok(v) => v,
            Err(e) => return Err(e),
        };
        if more {
            self.parse_postfix_rest(next)
        } else {
            Ok(next)
        }
    }

    /// Applies one call, subscript or postfix `++`/`--` to `expr` if one
    /// follows; the flag says whether one did.
    fn parse_postfix_step(&mut self, expr: Expr) -> (r: ParseResult<(Expr, bool)>)
        requires
            old(self).wf(),
        ensures
            final(self).wf(),
            final(self).tokens@ == old(self).tokens@,
            final(self).pos >= old(self).pos,
            match r {
                Ok((next, more)) => if more {
                    &&& final(self).pos > old(self).pos
                    &&& sp_postfix_tail(old(self).tokens@, expr@, old(self).pos as int)
                        == sp_postfix_tail(old(self).tokens@, next@, final(self).pos as int)
                } else {
                    &&& final(self).pos == old(self).pos
                    &&& next@ == expr@
                    &&& sp_postfix_tail(old(self).tokens@, expr@, old(self).pos as int) == Ok::<
                        (SpecExpr, int),
                        SpecError,
                    >((expr@, old(self).pos as int))
                },
                Err(e) => sp_postfix_tail(old(self).tokens@, expr@, old(self).pos as int) == Err::<
                    (SpecExpr, int),
                    SpecError,
                >((e.location, e.message@)),
            },
        decreases old(self).tokens@.len() - old(self).pos, 0int,
    {
        proof {
            reveal(sp_postfix_tail);
            reveal(sp_args);
            reveal(sp_expr);
        }
        let location = expr.location;
        if self.match_kind(TokenKind::LParen) {
            let args = match self.parse_argument_list() {
                Ok(v) => v,
                Err(e) => return Err(e),
            };
            return Ok((Expr { location, kind: ExprKind::Call { callee: Box::new(expr), args } }, true));
        }
        if self.match_kind(TokenKind::LBracket) {
            let index = match self.parse_expr() {
                Ok(v) => v,
                Err(e) => return Err(e),
            };
            match self.expect_kind(TokenKind::RBracket) {
                Ok(v) => v,
                Err(e) => return Err(e),
            };
            return Ok(
                (
                    Expr {
                        location,
                        kind: ExprKind::Index { array: Box::new(expr), index: Box::new(index) },
                    },
                    true,
                ),
            );
        }
        if self.match_kind(TokenKind::Inc) {
            return Ok(
                (
                    Expr {
                        location,
                        kind: ExprKind::Postfix { op: PostfixOp::PostInc, expr: Box::new(expr) },
                    },
                    true,
                ),
            );
        }
        if self.match_kind(TokenKind::Dec) {
            return Ok(
                (
                    Expr {
                        location,
                        kind: ExprKind::Postfix { op: PostfixOp::PostDec, expr: Box::new(expr) },
                    },
                    true,
                ),
            );
        }
        Ok((expr, false))
    }

    fn parse_primary(&mut self) -> (r: ParseResult<Expr>)
        requires
            old(self).wf(),
        ensures
            final(self).wf(),
            final(self).tokens@ == old(self).tokens@,
            final(self).pos >= old(self).pos,
            r is Ok ==> final(self).pos > old(self).pos,
            agrees(
                r,
                final(self).pos as int,
                sp_primary(old(self).tokens@, old(self).pos as int),
                |v: Expr| v@,
            ),
        decreases old(self).tokens@.len() - old(self).pos, 0int,
    {
        proof {
            reveal(sp_primary);
            reveal(sp_expr);
        }
        let kind = self.current().kind;
        let lexeme = self.current().lexeme.clone();
        let location = self.current_location();

        match kind {
            TokenKind::Ident => {
                self.advance();
                Ok(Expr { location, kind: ExprKind::Ident(lexeme) })
            },
            TokenKind::IntLiteral => {
                self.advance();
                Ok(Expr { location, kind: ExprKind::IntLiteral(lexeme) })
            },
            TokenKind::FloatLiteral => {
                self.advance();
                Ok(Expr { location, kind: ExprKind::FloatLiteral(lexeme) })
            },
            TokenKind::LParen => {
                self.advance();
                let expr = match self.parse_expr() {
                    Ok(v) => v,
                    Err(e) => return Err(e),
                };
                match self.expect_kind(TokenKind::RParen) {
            Ok(v) => v,
            Err(e) => return Err(e),
        };
                Ok(expr)
            },
            _ => Err(self.error_here("expected expression")),
        }
    }

    fn parse_param_list(&mut self) -> (r: ParseResult<Vec<Param>>)
        requires
            old(self).wf(),
        ensures
            final(self).wf(),
            final(self).tokens@ == old(self).tokens@,
            final(self).pos >= old(self).pos,
            agrees(
                r,
                final(self).pos as int,
                sp_params(old(self).tokens@, old(self).pos as int),
                |v: Vec<Param>| params_view(v@),
            ),
        decreases old(self).tokens@.len() - old(self).pos, 28int,
    {
        proof {
            reveal(sp_params);
            reveal(sp_params_items);
            reveal(sp_dims);
        }
        let ghost toks = self.tokens@;
        let mut params: Vec<Param> = Vec::new();
        proof {
            lemma_empty_views();
        }

        if self.match_kind(TokenKind::RParen) {
            return Ok(params);
        }

        loop
            invariant_except_break
                sp_params_items(toks, self.pos as int, params_view(params@)) == sp_params(
                    toks,
                    old(self).pos as int,
                ),
            invariant
                self.wf(),
                self.tokens@ == toks,
                toks == old(self).tokens@,
                self.pos >= old(self).pos,
            ensures
                self.wf(),
                self.tokens@ == toks,
                toks == old(self).tokens@,
                self.pos >= old(self).pos,
                sp_params(toks, old(self).pos as int) == expect_then(
                    toks,
                    self.pos as int,
                    TokenKind::RParen,
                    Ok::<(Seq<SpecParam>, int), SpecError>((params_view(params@), self.pos + 1)),
                ),
            decreases toks.len() - self.pos,
        {
            proof {
                reveal(sp_params);
                reveal(sp_params_items);
                reveal(sp_dims);
            }
            let ty = match self.parse_type_name() {
            Ok(v) => v,
            Err(e) => return Err(e),
        };
            let (name, location) = match self.expect_ident() {
            Ok(v) => v,
            Err(e) => return Err(e),
        };
            let dimensions = match self.parse_dimensions() {
            Ok(v) => v,
            Err(e) => return Err(e),
        };
            let param = Param { location, ty, name, dimensions };
            proof {
                lemma_params_view_push(params@, param);
            }
            params.push(param);

            if !self.match_kind(TokenKind::Comma) {
                break;
            }
        }

        match self.expect_kind(TokenKind::RParen) {
            Ok(v) => v,
            Err(e) => return Err(e),
        };
        Ok(params)
    }

    /// Arguments of a call, after its `(`.
    fn parse_argument_list(&mut self) -> (r: ParseResult<Vec<Expr>>)
        requires
            old(self).wf(),
        ensures
            final(self).wf(),
            final(self).tokens@ == old(self).tokens@,
            final(self).pos >= old(self).pos,
            agrees(
                r,
                final(self).pos as int,
                sp_args(old(self).tokens@, old(self).pos as int),
                |v: Vec<Expr>| exprs_view(v@),
            ),
        decreases old(self).tokens@.len() - old(self).pos, 24int,
    {
        proof {
            reveal(sp_args);
            reveal(sp_args_items);
            reveal(sp_expr);
        }
        let ghost toks = self.tokens@;
        let mut args: Vec<Expr> = Vec::new();
        proof {
            lemma_empty_views();
        }

        if self.match_kind(TokenKind::RParen) {
            return Ok(args);
        }

        loop
            invariant_except_break
                sp_args_items(toks, self.pos as int, exprs_view(args@)) == sp_args(
                    toks,
                    old(self).pos as int,
                ),
            invariant
                self.wf(),
                self.tokens@ == toks,
                toks == old(self).tokens@,
                self.pos >= old(self).pos,
            ensures
                self.wf(),
                self.tokens@ == toks,
                toks == old(self).tokens@,
                self.pos >= old(self).pos,
                sp_args(toks, old(self).pos as int) == expect_then(
                    toks,
                    self.pos as int,
                    TokenKind::RParen,
                    Ok::<(Seq<SpecExpr>, int), SpecError>((exprs_view(args@), self.pos + 1)),
                ),
            decreases toks.len() - self.pos,
        {
            proof {
                reveal(sp_args);
                reveal(sp_args_items);
                reveal(sp_expr);
            }
            let arg = match self.parse_expr() {
            Ok(v) => v,
            Err(e) => return Err(e),
        };
            proof {
                lemma_exprs_view_push(args@, arg);
            }
            args.push(arg);
            if !self.match_kind(TokenKind::Comma) {
                break;
            }
        }

        match self.expect_kind(TokenKind::RParen) {
            Ok(v) => v,
            Err(e) => return Err(e),
        };
        Ok(args)
    }

    fn parse_dimensions(&mut self) -> (r: ParseResult<Vec<Option<Expr>>>)
        requires
            old(self).wf(),
        ensures
            final(self).wf(),
            final(self).tokens@ == old(self).tokens@,
            final(self).pos >= old(self).pos,
            agrees(
                r,
                final(self).pos as int,
                sp_dims(old(self).tokens@, old(self).pos as int, seq![]),
                |v: Vec<Option<Expr>>| dims_view(v@),
            ),
        decreases old(self).tokens@.len() - old(self).pos, 25int,
    {
        proof {
            reveal(sp_dims);
            reveal(sp_expr);
        }
        let ghost toks = self.tokens@;
        let mut dimensions: Vec<Option<Expr>> = Vec::new();
        proof {
            lemma_empty_views();
        }

        while self.match_kind(TokenKind::LBracket)
            invariant
                self.wf(),
                self.tokens@ == toks,
                toks == old(self).tokens@,
                self.pos >= old(self).pos,
                sp_dims(toks, self.pos as int, dims_view(dimensions@)) == sp_dims(
                    toks,
                    old(self).pos as int,
                    seq![],
                ),
            decreases toks.len() - self.pos,
        {
            proof {
                reveal(sp_dims);
                reveal(sp_expr);
            }
            let size = if self.at_kind(TokenKind::RBracket) {
                None
            } else {
                Some(match self.parse_expr() {
            Ok(v) => v,
            Err(e) => return Err(e),
        })
            };
            match self.expect_kind(TokenKind::RBracket) {
            Ok(v) => v,
            Err(e) => return Err(e),
        };
            proof {
                lemma_dims_view_push(dimensions@, size);
            }
            dimensions.push(size);
        }

        Ok(dimensions)
    }

    fn parse_type_name(&mut self) -> (r: ParseResult<TypeName>)
        requires
            old(self).wf(),
        ensures
            final(self).wf(),
            final(self).tokens@ == old(self).tokens@,
            final(self).pos >= old(self).pos,
            r is Ok ==> final(self).pos > old(self).pos,
            agrees(
                r,
                final(self).pos as int,
                sp_type_name(old(self).tokens@, old(self).pos as int),
                |v: TypeName| v,
            ),
    {
        let token = self.current();
        if token.kind != TokenKind::Keyword {
            return Err(self.error_here("expected type keyword"));
        }

        let ty = if token.lexeme == String::from_str("int") {
            TypeName::Int
        } else if token.lexeme == String::from_str("float") {
            TypeName::Float
        } else if token.lexeme == String::from_str("void") {
            TypeName::Void
        } else {
            return Err(self.error_here("expected type keyword"));
        };

        self.advance();
        Ok(ty)
    }

    fn expect_ident(&mut self) -> (r: ParseResult<(String, SourceLocation)>)
        requires
            old(self).wf(),
        ensures
            final(self).wf(),
            final(self).tokens@ == old(self).tokens@,
            match r {
                Ok((name, location)) => {
                    &&& kind_at(old(self).tokens@, old(self).pos as int) == TokenKind::Ident
                    &&& name@ == old(self).tokens@[old(self).pos as int].lexeme@
                    &&& location == loc_at(old(self).tokens@, old(self).pos as int)
                    &&& final(self).pos == old(self).pos + 1
                },
                Err(e) => {
                    &&& kind_at(old(self).tokens@, old(self).pos as int) != TokenKind::Ident
                    &&& e.location == loc_at(old(self).tokens@, old(self).pos as int)
                    &&& e.message@ == "expected identifier"@
                    &&& final(self).pos == old(self).pos
                },
            },
    {
        if self.current().kind != TokenKind::Ident {
            return Err(self.error_here("expected identifier"));
        }
        let lexeme = self.current().lexeme.clone();
        let location = self.current_location();
        self.advance();
        Ok((lexeme, location))
    }

    fn expect_kind(&mut self, expected: TokenKind) -> (r: ParseResult<()>)
        requires
            old(self).wf(),
            expected != TokenKind::Eof,
        ensures
            final(self).wf(),
            final(self).tokens@ == old(self).tokens@,
            match r {
                Ok(()) => {
                    &&& kind_at(old(self).tokens@, old(self).pos as int) == expected
                    &&& final(self).pos == old(self).pos + 1
                },
                Err(e) => {
                    &&& kind_at(old(self).tokens@, old(self).pos as int) != expected
                    &&& (e.location, e.message@) == expect_error(
                        old(self).tokens@,
                        old(self).pos as int,
                        expected,
                    )
                    &&& final(self).pos == old(self).pos
                },
            },
    {
        if self.match_kind(expected) {
            return Ok(());
        }
        let token = self.current();
        let mut message = String::from_str("expected ");
        message.append(token_kind_name(expected));
        message.append(", found ");
        message.append(token_kind_name(token.kind));
        message.append(" '");
        message.append(token.lexeme.as_str());
        message.append("'");
        Err(ParseError { location: self.current_location(), message })
    }

    fn match_kind(&mut self, expected: TokenKind) -> (r: bool)
        requires
            old(self).wf(),
            expected != TokenKind::Eof,
        ensures
            final(self).wf(),
            final(self).tokens@ == old(self).tokens@,
            r == (kind_at(old(self).tokens@, old(self).pos as int) == expected),
            final(self).pos == if r { old(self).pos + 1 } else { old(self).pos as int },
    {
        if self.at_kind(expected) {
            self.advance();
            true
        } else {
            false
        }
    }

    fn at_kind(&self, expected: TokenKind) -> (r: bool)
        requires
            self.wf(),
        ensures
            r == (kind_at(self.tokens@, self.pos as int) == expected),
    {
        self.current().kind == expected
    }

    fn check_keyword(&self, keyword: &str) -> (r: bool)
        requires
            self.wf(),
        ensures
            r == kw_at(self.tokens@, self.pos as int, keyword@),
    {
        self.current().kind == TokenKind::Keyword && self.current().lexeme == String::from_str(
            keyword,
        )
    }

    fn match_keyword(&mut self, keyword: &str) -> (r: bool)
        requires
            old(self).wf(),
        ensures
            final(self).wf(),
            final(self).tokens@ == old(self).tokens@,
            r == kw_at(old(self).tokens@, old(self).pos as int, keyword@),
            final(self).pos == if r { old(self).pos + 1 } else { old(self).pos as int },
    {
        if self.check_keyword(keyword) {
            self.advance();
            true
        } else {
            false
        }
    }

    fn is_type_keyword(&self) -> (r: bool)
        requires
            self.wf(),
        ensures
            r == is_type_kw_at(self.tokens@, self.pos as int),
    {
        self.check_keyword("int") || self.check_keyword("float") || self.check_keyword("void")
    }

    fn is_decl_start(&self) -> (r: bool)
        requires
            self.wf(),
        ensures
            r == is_decl_start_at(self.tokens@, self.pos as int),
    {
        self.check_keyword("const") || self.is_type_keyword()
    }

    fn current(&self) -> (t: &Token)
        requires
            self.wf(),
        ensures
            *t == self.tokens@[self.pos as int],
    {
        &self.tokens[self.pos]
    }

    fn current_location(&self) -> (l: SourceLocation)
        requires
            self.wf(),
        ensures
            l == loc_at(self.tokens@, self.pos as int),
    {
        SourceLocation { line: self.current().line, column: self.current().column }
    }

    fn previous_location(&self) -> (l: SourceLocation)
        requires
            self.wf(),
        ensures
            l == loc_at(self.tokens@, if self.pos > 0 { self.pos - 1 } else { 0 }),
    {
        let index = self.pos.saturating_sub(1);
        SourceLocation { line: self.tokens[index].line, column: self.tokens[index].column }
    }

    /// Moves to the next token; it never moves past the last one.
    fn advance(&mut self)
        requires
            old(self).wf(),
        ensures
            final(self).wf(),
            final(self).tokens@ == old(self).tokens@,
            final(self).pos == if old(self).pos + 1 < old(self).tokens@.len() {
                old(self).pos + 1
            } else {
                old(self).pos as int
            },
            kind_at(old(self).tokens@, old(self).pos as int) != TokenKind::Eof ==> final(self).pos
                == old(self).pos + 1,
    {
        if self.pos < self.tokens.len() - 1 {
            self.pos += 1;
        }
    }

    fn binary_op_from_token(kind: &TokenKind) -> (r: ParseResult<BinaryOp>)
        ensures
            match r {
                Ok(op) => binary_op_of(*kind) == Ok::<BinaryOp, SpecError>(op),
                Err(e) => binary_op_of(*kind) == Err::<BinaryOp, SpecError>(
                    (e.location, e.message@),
                ),
            },
    {
        let op = match kind {
            TokenKind::Plus => BinaryOp::Add,
            TokenKind::Minus => BinaryOp::Sub,
            TokenKind::Star => BinaryOp::Mul,
            TokenKind::Slash => BinaryOp::Div,
            TokenKind::Percent => BinaryOp::Mod,
            TokenKind::Eq => BinaryOp::Eq,
            TokenKind::Neq => BinaryOp::Neq,
            TokenKind::Lt => BinaryOp::Lt,
            TokenKind::Le => BinaryOp::Le,
            TokenKind::Gt => BinaryOp::Gt,
            TokenKind::Ge => BinaryOp::Ge,
            TokenKind::And => BinaryOp::And,
            TokenKind::Or => BinaryOp::Or,
            _ => {
                let mut message = String::from_str("unsupported binary operator: ");
                message.append(token_kind_name(*kind));
                return Err(ParseError { location: SourceLocation { line: 0, column: 0 }, message });
            },
        };
        Ok(op)
    }

    fn error_here(&self, message: &str) -> (e: ParseError)
        requires
            self.wf(),
        ensures
            e.location == loc_at(self.tokens@, self.pos as int),
            e.message@ == message@,
    {
        ParseError { location: self.current_location(), message: String::from_str(message) }
    }
}

} // verus!
