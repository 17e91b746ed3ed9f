//! Laws of operator precedence in the expression grammar.

use vstd::prelude::*;
use crate::ast::{BinaryOp, SourceLocation, SpecExpr, SpecExprKind, UnaryOp};
use crate::lexer::{Token, TokenKind};
use crate::parser::{
    SpecError, binary_op_of, kind_at, level_has_op, loc_at, sp_assignment, sp_binary, sp_binary_tail,
    sp_args, sp_args_items, sp_expr, sp_operand, sp_postfix, sp_postfix_tail, sp_primary, sp_unary,
    unary_op_of,
};

verus! {

/// A token that is a whole operand by itself: a name or a number.
pub open spec fn is_atom_token(k: TokenKind) -> bool {
    k == TokenKind::Ident || k == TokenKind::IntLiteral || k == TokenKind::FloatLiteral
}

/// The expression a name or number token stands for.
pub open spec fn atom_at(toks: Seq<Token>, p: int) -> SpecExpr {
    SpecExpr {
        location: loc_at(toks, p),
        kind: if kind_at(toks, p) == TokenKind::Ident {
            SpecExprKind::Ident(toks[p].lexeme@)
        } else if kind_at(toks, p) == TokenKind::IntLiteral {
            SpecExprKind::IntLiteral(toks[p].lexeme@)
        } else {
            SpecExprKind::FloatLiteral(toks[p].lexeme@)
        },
    }
}

/// `+` and `-`, the additive operators.
pub open spec fn additive_op(k: TokenKind) -> Option<BinaryOp> {
    if k == TokenKind::Plus {
        Some(BinaryOp::Add)
    } else if k == TokenKind::Minus {
        Some(BinaryOp::Sub)
    } else {
        None
    }
}

/// `*`, `/` and `%`, the multiplicative operators.
pub open spec fn multiplicative_op(k: TokenKind) -> Option<BinaryOp> {
    if k == TokenKind::Star {
        Some(BinaryOp::Mul)
    } else if k == TokenKind::Slash {
        Some(BinaryOp::Div)
    } else if k == TokenKind::Percent {
        Some(BinaryOp::Mod)
    } else {
        None
    }
}

pub open spec fn binary_node(location: SourceLocation, op: BinaryOp, left: SpecExpr, right: SpecExpr) -> SpecExpr {
    SpecExpr { location, kind: SpecExprKind::Binary { op, left: Box::new(left), right: Box::new(right) } }
}

/// A token that may follow an operand in `a + b % c;`.
pub open spec fn arith_follower(k: TokenKind) -> bool {
    additive_op(k) is Some || multiplicative_op(k) is Some || k == TokenKind::Semicolon
}

proof fn lemma_atom_unary(toks: Seq<Token>, p: int)
    requires
        0 <= p,
        p + 1 < toks.len(),
        is_atom_token(kind_at(toks, p)),
        arith_follower(kind_at(toks, p + 1)),
    ensures
        sp_unary(toks, p) == Ok::<(SpecExpr, int), SpecError>((atom_at(toks, p), p + 1)),
{
    reveal(sp_primary);
    reveal(sp_args_items);
    reveal(sp_args);
    reveal(sp_postfix_tail);
    reveal(sp_postfix);
    reveal(sp_unary);
    reveal(sp_operand);
    reveal(sp_binary_tail);
    reveal(sp_binary);
    reveal(sp_assignment);
    reveal(sp_expr);
    assert(sp_primary(toks, p) == Ok::<(SpecExpr, int), SpecError>((atom_at(toks, p), p + 1)));
    assert(sp_postfix_tail(toks, atom_at(toks, p), p + 1) == Ok::<(SpecExpr, int), SpecError>((atom_at(toks, p), p + 1)));
    assert(sp_postfix(toks, p) == Ok::<(SpecExpr, int), SpecError>((atom_at(toks, p), p + 1)));
    assert(unary_op_of(kind_at(toks, p)) is None);
}

proof fn lemma_tail_stops(toks: Seq<Token>, lhs: SpecExpr, p: int, prec: int)
    requires
        0 <= p < toks.len(),
        1 <= prec <= 6,
        !level_has_op(prec, kind_at(toks, p)),
    ensures
        sp_binary_tail(toks, lhs, p, prec) == Ok::<(SpecExpr, int), SpecError>((lhs, p)),
{
    reveal(sp_binary_tail);
    reveal(sp_primary);
    reveal(sp_args_items);
    reveal(sp_args);
    reveal(sp_postfix_tail);
    reveal(sp_postfix);
    reveal(sp_unary);
    reveal(sp_operand);
    reveal(sp_binary);
    reveal(sp_assignment);
    reveal(sp_expr);
}

/// An expression parsed at the additive level and followed by `;` is the
/// whole expression at every looser level.
proof fn lemma_lift_from_additive(toks: Seq<Token>, p: int, e: SpecExpr, q: int, k: int)
    requires
        0 <= p < q < toks.len(),
        2 <= k <= 6,
        kind_at(toks, q) == TokenKind::Semicolon,
        sp_binary(toks, p, 2) == Ok::<(SpecExpr, int), SpecError>((e, q)),
    ensures
        sp_binary(toks, p, k) == Ok::<(SpecExpr, int), SpecError>((e, q)),
    decreases k,
{
    if k > 2 {
        lemma_lift_from_additive(toks, p, e, q, k - 1);
        reveal(sp_primary);
        reveal(sp_args_items);
        reveal(sp_args);
        reveal(sp_postfix_tail);
        reveal(sp_postfix);
        reveal(sp_unary);
        reveal(sp_operand);
        reveal(sp_binary_tail);
        reveal(sp_binary);
        reveal(sp_assignment);
        reveal(sp_expr);
        lemma_tail_stops(toks, e, q, k);
    }
}

proof fn lemma_expr_from_additive(toks: Seq<Token>, p: int, e: SpecExpr, q: int)
    requires
        0 <= p < q < toks.len(),
        kind_at(toks, q) == TokenKind::Semicolon,
        sp_binary(toks, p, 2) == Ok::<(SpecExpr, int), SpecError>((e, q)),
    ensures
        sp_expr(toks, p) == Ok::<(SpecExpr, int), SpecError>((e, q)),
{
    lemma_lift_from_additive(toks, p, e, q, 6);
    reveal(sp_primary);
    reveal(sp_args_items);
    reveal(sp_args);
    reveal(sp_postfix_tail);
    reveal(sp_postfix);
    reveal(sp_unary);
    reveal(sp_operand);
    reveal(sp_binary_tail);
    reveal(sp_binary);
    reveal(sp_assignment);
    reveal(sp_expr);
}

/// `*`, `/` and `%` bind tighter than `+` and `-`: for any operands `a`, `b`,
/// `c` (names or numbers), an additive operator `o1` and a multiplicative
/// operator `o2`, the expression `a o1 b o2 c;` parses as `a o1 (b o2 c)`.
pub proof fn law_multiplicative_binds_tighter_right(toks: Seq<Token>, p: int)
    requires
        0 <= p,
        p + 5 < toks.len(),
        is_atom_token(kind_at(toks, p)),
        is_atom_token(kind_at(toks, p + 2)),
        is_atom_token(kind_at(toks, p + 4)),
        additive_op(kind_at(toks, p + 1)) is Some,
        multiplicative_op(kind_at(toks, p + 3)) is Some,
        kind_at(toks, p + 5) == TokenKind::Semicolon,
    ensures
        sp_expr(toks, p) == Ok::<(SpecExpr, int), SpecError>((
            binary_node(
                loc_at(toks, p + 1),
                additive_op(kind_at(toks, p + 1))->0,
                atom_at(toks, p),
                binary_node(
                    loc_at(toks, p + 3),
                    multiplicative_op(kind_at(toks, p + 3))->0,
                    atom_at(toks, p + 2),
                    atom_at(toks, p + 4),
                ),
            ),
            p + 5,
        )),
{
    reveal(sp_primary);
    reveal(sp_args_items);
    reveal(sp_args);
    reveal(sp_postfix_tail);
    reveal(sp_postfix);
    reveal(sp_unary);
    reveal(sp_operand);
    reveal(sp_binary_tail);
    reveal(sp_binary);
    reveal(sp_assignment);
    reveal(sp_expr);
    let a = atom_at(toks, p);
    let b = atom_at(toks, p + 2);
    let c = atom_at(toks, p + 4);
    let o1 = additive_op(kind_at(toks, p + 1))->0;
    let o2 = multiplicative_op(kind_at(toks, p + 3))->0;
    lemma_atom_unary(toks, p);
    lemma_atom_unary(toks, p + 2);
    lemma_atom_unary(toks, p + 4);
    lemma_tail_stops(toks, a, p + 1, 1);
    assert(sp_binary(toks, p, 1) == Ok::<(SpecExpr, int), SpecError>((a, p + 1)));
    assert(sp_operand(toks, p + 4, 1) == Ok::<(SpecExpr, int), SpecError>((c, p + 5)));
    assert(level_has_op(1, kind_at(toks, p + 3)));
    let bc = binary_node(loc_at(toks, p + 3), o2, b, c);
    lemma_tail_stops(toks, bc, p + 5, 1);
    assert(binary_op_of(kind_at(toks, p + 3)) == Ok::<BinaryOp, SpecError>(o2));
    assert(sp_binary_tail(toks, b, p + 3, 1) == Ok::<(SpecExpr, int), SpecError>((bc, p + 5)));
    assert(sp_operand(toks, p + 2, 1) == Ok::<(SpecExpr, int), SpecError>((b, p + 3)));
    assert(sp_binary(toks, p + 2, 1) == Ok::<(SpecExpr, int), SpecError>((bc, p + 5)));
    assert(sp_operand(toks, p + 2, 2) == Ok::<(SpecExpr, int), SpecError>((bc, p + 5)));
    assert(level_has_op(2, kind_at(toks, p + 1)));
    let e = binary_node(loc_at(toks, p + 1), o1, a, bc);
    lemma_tail_stops(toks, e, p + 5, 2);
    assert(binary_op_of(kind_at(toks, p + 1)) == Ok::<BinaryOp, SpecError>(o1));
    assert(sp_binary_tail(toks, a, p + 1, 2) == Ok::<(SpecExpr, int), SpecError>((e, p + 5)));
    assert(sp_binary(toks, p, 2) == Ok::<(SpecExpr, int), SpecError>((e, p + 5)));
    lemma_expr_from_additive(toks, p, e, p + 5);
}

/// `*`, `/` and `%` bind tighter than `+` and `-` on the left too: the
/// expression `a o2 b o1 c;` parses as `(a o2 b) o1 c`.
pub proof fn law_multiplicative_binds_tighter_left(toks: Seq<Token>, p: int)
    requires
        0 <= p,
        p + 5 < toks.len(),
        is_atom_token(kind_at(toks, p)),
        is_atom_token(kind_at(toks, p + 2)),
        is_atom_token(kind_at(toks, p + 4)),
        multiplicative_op(kind_at(toks, p + 1)) is Some,
        additive_op(kind_at(toks, p + 3)) is Some,
        kind_at(toks, p + 5) == TokenKind::Semicolon,
    ensures
        sp_expr(toks, p) == Ok::<(SpecExpr, int), SpecError>((
            binary_node(
                loc_at(toks, p + 3),
                additive_op(kind_at(toks, p + 3))->0,
                binary_node(
                    loc_at(toks, p + 1),
                    multiplicative_op(kind_at(toks, p + 1))->0,
                    atom_at(toks, p),
                    atom_at(toks, p + 2),
                ),
                atom_at(toks, p + 4),
            ),
            p + 5,
        )),
{
    reveal(sp_primary);
    reveal(sp_args_items);
    reveal(sp_args);
    reveal(sp_postfix_tail);
    reveal(sp_postfix);
    reveal(sp_unary);
    reveal(sp_operand);
    reveal(sp_binary_tail);
    reveal(sp_binary);
    reveal(sp_assignment);
    reveal(sp_expr);
    let a = atom_at(toks, p);
    let b = atom_at(toks, p + 2);
    let c = atom_at(toks, p + 4);
    let o2 = multiplicative_op(kind_at(toks, p + 1))->0;
    let o1 = additive_op(kind_at(toks, p + 3))->0;
    lemma_atom_unary(toks, p);
    lemma_atom_unary(toks, p + 2);
    lemma_atom_unary(toks, p + 4);
    assert(sp_operand(toks, p + 2, 1) == Ok::<(SpecExpr, int), SpecError>((b, p + 3)));
    assert(level_has_op(1, kind_at(toks, p + 1)));
    let ab = binary_node(loc_at(toks, p + 1), o2, a, b);
    lemma_tail_stops(toks, ab, p + 3, 1);
    assert(binary_op_of(kind_at(toks, p + 1)) == Ok::<BinaryOp, SpecError>(o2));
    assert(sp_binary_tail(toks, a, p + 1, 1) == Ok::<(SpecExpr, int), SpecError>((ab, p + 3)));
    assert(sp_binary(toks, p, 1) == Ok::<(SpecExpr, int), SpecError>((ab, p + 3)));
    lemma_tail_stops(toks, c, p + 5, 1);
    assert(sp_operand(toks, p + 4, 1) == Ok::<(SpecExpr, int), SpecError>((c, p + 5)));
    assert(sp_binary(toks, p + 4, 1) == Ok::<(SpecExpr, int), SpecError>((c, p + 5)));
    assert(sp_operand(toks, p + 4, 2) == Ok::<(SpecExpr, int), SpecError>((c, p + 5)));
    assert(level_has_op(2, kind_at(toks, p + 3)));
    let e = binary_node(loc_at(toks, p + 3), o1, ab, c);
    lemma_tail_stops(toks, e, p + 5, 2);
    assert(binary_op_of(kind_at(toks, p + 3)) == Ok::<BinaryOp, SpecError>(o1));
    assert(sp_binary_tail(toks, ab, p + 3, 2) == Ok::<(SpecExpr, int), SpecError>((e, p + 5)));
    assert(sp_binary(toks, p, 2) == Ok::<(SpecExpr, int), SpecError>((e, p + 5)));
    lemma_expr_from_additive(toks, p, e, p + 5);
}


/// The binary operators by precedence level, tightest first: `* / %` (1),
/// `+ -` (2), `< <= > >=` (3), `== !=` (4), `&&` (5), `||` (6).  No other
/// token is a binary operator, and each operator token spells its own
/// operation.
pub proof fn law_precedence_levels(k: TokenKind)
    ensures
        level_has_op(1, k) <==> (k == TokenKind::Star || k == TokenKind::Slash || k == TokenKind::Percent),
        level_has_op(2, k) <==> (k == TokenKind::Plus || k == TokenKind::Minus),
        level_has_op(3, k) <==> (k == TokenKind::Lt || k == TokenKind::Le || k == TokenKind::Gt || k == TokenKind::Ge),
        level_has_op(4, k) <==> (k == TokenKind::Eq || k == TokenKind::Neq),
        level_has_op(5, k) <==> k == TokenKind::And,
        level_has_op(6, k) <==> k == TokenKind::Or,
        k == TokenKind::Plus ==> binary_op_of(k) == Ok::<BinaryOp, SpecError>(BinaryOp::Add),
        k == TokenKind::Minus ==> binary_op_of(k) == Ok::<BinaryOp, SpecError>(BinaryOp::Sub),
        k == TokenKind::Star ==> binary_op_of(k) == Ok::<BinaryOp, SpecError>(BinaryOp::Mul),
        k == TokenKind::Slash ==> binary_op_of(k) == Ok::<BinaryOp, SpecError>(BinaryOp::Div),
        k == TokenKind::Percent ==> binary_op_of(k) == Ok::<BinaryOp, SpecError>(BinaryOp::Mod),
        k == TokenKind::Lt ==> binary_op_of(k) == Ok::<BinaryOp, SpecError>(BinaryOp::Lt),
        k == TokenKind::Le ==> binary_op_of(k) == Ok::<BinaryOp, SpecError>(BinaryOp::Le),
        k == TokenKind::Gt ==> binary_op_of(k) == Ok::<BinaryOp, SpecError>(BinaryOp::Gt),
        k == TokenKind::Ge ==> binary_op_of(k) == Ok::<BinaryOp, SpecError>(BinaryOp::Ge),
        k == TokenKind::Eq ==> binary_op_of(k) == Ok::<BinaryOp, SpecError>(BinaryOp::Eq),
        k == TokenKind::Neq ==> binary_op_of(k) == Ok::<BinaryOp, SpecError>(BinaryOp::Neq),
        k == TokenKind::And ==> binary_op_of(k) == Ok::<BinaryOp, SpecError>(BinaryOp::And),
        k == TokenKind::Or ==> binary_op_of(k) == Ok::<BinaryOp, SpecError>(BinaryOp::Or),
{
}

/// `+` and `-` associate to the left: `a o1 b o2 c;` with both operators
/// additive parses as `(a o1 b) o2 c`.
pub proof fn law_additive_left_associative(toks: Seq<Token>, p: int)
    requires
        0 <= p,
        p + 5 < toks.len(),
        is_atom_token(kind_at(toks, p)),
        is_atom_token(kind_at(toks, p + 2)),
        is_atom_token(kind_at(toks, p + 4)),
        additive_op(kind_at(toks, p + 1)) is Some,
        additive_op(kind_at(toks, p + 3)) is Some,
        kind_at(toks, p + 5) == TokenKind::Semicolon,
    ensures
        sp_expr(toks, p) == Ok::<(SpecExpr, int), SpecError>((
            binary_node(
                loc_at(toks, p + 3),
                additive_op(kind_at(toks, p + 3))->0,
                binary_node(
                    loc_at(toks, p + 1),
                    additive_op(kind_at(toks, p + 1))->0,
                    atom_at(toks, p),
                    atom_at(toks, p + 2),
                ),
                atom_at(toks, p + 4),
            ),
            p + 5,
        )),
{
    reveal(sp_primary);
    reveal(sp_args_items);
    reveal(sp_args);
    reveal(sp_postfix_tail);
    reveal(sp_postfix);
    reveal(sp_unary);
    reveal(sp_operand);
    reveal(sp_binary_tail);
    reveal(sp_binary);
    reveal(sp_assignment);
    reveal(sp_expr);
    let a = atom_at(toks, p);
    let b = atom_at(toks, p + 2);
    let c = atom_at(toks, p + 4);
    let o1 = additive_op(kind_at(toks, p + 1))->0;
    let o2 = additive_op(kind_at(toks, p + 3))->0;
    lemma_atom_unary(toks, p);
    lemma_atom_unary(toks, p + 2);
    lemma_atom_unary(toks, p + 4);
    lemma_tail_stops(toks, a, p + 1, 1);
    assert(sp_binary(toks, p, 1) == Ok::<(SpecExpr, int), SpecError>((a, p + 1)));
    assert(sp_operand(toks, p, 2) == Ok::<(SpecExpr, int), SpecError>((a, p + 1)));
    lemma_tail_stops(toks, b, p + 3, 1);
    assert(sp_binary(toks, p + 2, 1) == Ok::<(SpecExpr, int), SpecError>((b, p + 3)));
    assert(sp_operand(toks, p + 2, 2) == Ok::<(SpecExpr, int), SpecError>((b, p + 3)));
    lemma_tail_stops(toks, c, p + 5, 1);
    assert(sp_binary(toks, p + 4, 1) == Ok::<(SpecExpr, int), SpecError>((c, p + 5)));
    assert(sp_operand(toks, p + 4, 2) == Ok::<(SpecExpr, int), SpecError>((c, p + 5)));
    let ab = binary_node(loc_at(toks, p + 1), o1, a, b);
    let e = binary_node(loc_at(toks, p + 3), o2, ab, c);
    lemma_tail_stops(toks, e, p + 5, 2);
    assert(level_has_op(2, kind_at(toks, p + 3)));
    assert(binary_op_of(kind_at(toks, p + 3)) == Ok::<BinaryOp, SpecError>(o2));
    assert(sp_binary_tail(toks, ab, p + 3, 2) == Ok::<(SpecExpr, int), SpecError>((e, p + 5)));
    assert(level_has_op(2, kind_at(toks, p + 1)));
    assert(binary_op_of(kind_at(toks, p + 1)) == Ok::<BinaryOp, SpecError>(o1));
    assert(sp_binary_tail(toks, a, p + 1, 2) == Ok::<(SpecExpr, int), SpecError>((e, p + 5)));
    assert(sp_binary(toks, p, 2) == Ok::<(SpecExpr, int), SpecError>((e, p + 5)));
    lemma_expr_from_additive(toks, p, e, p + 5);
}

/// `*`, `/` and `%` associate to the left: `a o1 b o2 c;` with both
/// operators multiplicative parses as `(a o1 b) o2 c`.
pub proof fn law_multiplicative_left_associative(toks: Seq<Token>, p: int)
    requires
        0 <= p,
        p + 5 < toks.len(),
        is_atom_token(kind_at(toks, p)),
        is_atom_token(kind_at(toks, p + 2)),
        is_atom_token(kind_at(toks, p + 4)),
        multiplicative_op(kind_at(toks, p + 1)) is Some,
        multiplicative_op(kind_at(toks, p + 3)) is Some,
        kind_at(toks, p + 5) == TokenKind::Semicolon,
    ensures
        sp_expr(toks, p) == Ok::<(SpecExpr, int), SpecError>((
            binary_node(
                loc_at(toks, p + 3),
                multiplicative_op(kind_at(toks, p + 3))->0,
                binary_node(
                    loc_at(toks, p + 1),
                    multiplicative_op(kind_at(toks, p + 1))->0,
                    atom_at(toks, p),
                    atom_at(toks, p + 2),
                ),
                atom_at(toks, p + 4),
            ),
            p + 5,
        )),
{
    reveal(sp_primary);
    reveal(sp_args_items);
    reveal(sp_args);
    reveal(sp_postfix_tail);
    reveal(sp_postfix);
    reveal(sp_unary);
    reveal(sp_operand);
    reveal(sp_binary_tail);
    reveal(sp_binary);
    reveal(sp_assignment);
    reveal(sp_expr);
    let a = atom_at(toks, p);
    let b = atom_at(toks, p + 2);
    let c = atom_at(toks, p + 4);
    let o1 = multiplicative_op(kind_at(toks, p + 1))->0;
    let o2 = multiplicative_op(kind_at(toks, p + 3))->0;
    lemma_atom_unary(toks, p);
    lemma_atom_unary(toks, p + 2);
    lemma_atom_unary(toks, p + 4);
    assert(sp_operand(toks, p + 2, 1) == Ok::<(SpecExpr, int), SpecError>((b, p + 3)));
    assert(sp_operand(toks, p + 4, 1) == Ok::<(SpecExpr, int), SpecError>((c, p + 5)));
    let ab = binary_node(loc_at(toks, p + 1), o1, a, b);
    let e = binary_node(loc_at(toks, p + 3), o2, ab, c);
    lemma_tail_stops(toks, e, p + 5, 1);
    assert(level_has_op(1, kind_at(toks, p + 3)));
    assert(binary_op_of(kind_at(toks, p + 3)) == Ok::<BinaryOp, SpecError>(o2));
    assert(sp_binary_tail(toks, ab, p + 3, 1) == Ok::<(SpecExpr, int), SpecError>((e, p + 5)));
    assert(level_has_op(1, kind_at(toks, p + 1)));
    assert(binary_op_of(kind_at(toks, p + 1)) == Ok::<BinaryOp, SpecError>(o1));
    assert(sp_binary_tail(toks, a, p + 1, 1) == Ok::<(SpecExpr, int), SpecError>((e, p + 5)));
    assert(sp_binary(toks, p, 1) == Ok::<(SpecExpr, int), SpecError>((e, p + 5)));
    assert(sp_operand(toks, p, 2) == Ok::<(SpecExpr, int), SpecError>((e, p + 5)));
    lemma_tail_stops(toks, e, p + 5, 2);
    assert(sp_binary(toks, p, 2) == Ok::<(SpecExpr, int), SpecError>((e, p + 5)));
    lemma_expr_from_additive(toks, p, e, p + 5);
}


/// The prefix operators: `+`, `-`, `!`, `++` and `--` spell unary plus,
/// negation, logical not, pre-increment and pre-decrement; no other token
/// starts a prefix expression.
pub proof fn law_prefix_operators(k: TokenKind)
    ensures
        k == TokenKind::Plus ==> unary_op_of(k) == Some(UnaryOp::Plus),
        k == TokenKind::Minus ==> unary_op_of(k) == Some(UnaryOp::Minus),
        k == TokenKind::Not ==> unary_op_of(k) == Some(UnaryOp::Not),
        k == TokenKind::Inc ==> unary_op_of(k) == Some(UnaryOp::PreInc),
        k == TokenKind::Dec ==> unary_op_of(k) == Some(UnaryOp::PreDec),
        !(k == TokenKind::Plus || k == TokenKind::Minus || k == TokenKind::Not || k == TokenKind::Inc
            || k == TokenKind::Dec) ==> unary_op_of(k) is None,
{
}

} // verus!
