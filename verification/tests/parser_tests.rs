use sysy::ast::{
    BinaryOp, Expr, ExprKind, ForInit, Initializer, Item, PostfixOp, Program, Stmt, TypeName, UnaryOp,
};
use sysy::lexer::tokenize;
use sysy::parser::{ParseError, Parser};

fn parse(src: &str) -> Result<Program, ParseError> {
    let mut parser = Parser::new(tokenize(src));
    parser.parse_program()
}

fn parse_ok(src: &str) -> Program {
    parse(src).expect("program should parse")
}

fn parse_err(src: &str) -> ParseError {
    match parse(src) {
        Ok(_) => panic!("program should not parse"),
        Err(e) => e,
    }
}

/// The expression of the first statement of the first function, which must
/// be an expression statement or a return with a value.
fn first_expr(program: &Program) -> &Expr {
    match &program.items[0] {
        Item::Function(f) => match &f.body.statements[0] {
            Stmt::Expr { expr, .. } => expr,
            Stmt::Return { expr: Some(expr), .. } => expr,
            other => panic!("unexpected statement {:?}", other),
        },
        other => panic!("unexpected item {:?}", other),
    }
}

fn ident_name(e: &Expr) -> &str {
    match &e.kind {
        ExprKind::Ident(name) => name,
        other => panic!("expected identifier, found {:?}", other),
    }
}

fn int_value(e: &Expr) -> &str {
    match &e.kind {
        ExprKind::IntLiteral(v) => v,
        other => panic!("expected integer literal, found {:?}", other),
    }
}

#[test]
fn parse_simple_function() {
    let program = parse_ok("int main() { return 0; }");
    assert_eq!(program.items.len(), 1);
    match &program.items[0] {
        Item::Function(f) => {
            assert_eq!(f.name, "main");
            assert_eq!(f.return_type, TypeName::Int);
            assert!(f.params.is_empty());
            assert_eq!((f.location.line, f.location.column), (1, 5));
            assert_eq!((f.body.location.line, f.body.location.column), (1, 12));
            assert_eq!(f.body.statements.len(), 1);
            match &f.body.statements[0] {
                Stmt::Return { location, expr: Some(e) } => {
                    assert_eq!((location.line, location.column), (1, 14));
                    assert_eq!(int_value(e), "0");
                }
                other => panic!("unexpected statement {:?}", other),
            }
        }
        other => panic!("unexpected item {:?}", other),
    }
}

#[test]
fn parse_empty_program() {
    let program = parse_ok("");
    assert!(program.items.is_empty());
}

#[test]
fn parse_multiplication_binds_tighter() {
    let program = parse_ok("int main() { return 1 + 2 * 3; }");
    let e = first_expr(&program);
    match &e.kind {
        ExprKind::Binary { op: BinaryOp::Add, left, right } => {
            assert_eq!(int_value(left), "1");
            assert_eq!((e.location.line, e.location.column), (1, 23));
            match &right.kind {
                ExprKind::Binary { op: BinaryOp::Mul, left, right } => {
                    assert_eq!(int_value(left), "2");
                    assert_eq!(int_value(right), "3");
                }
                other => panic!("unexpected {:?}", other),
            }
        }
        other => panic!("unexpected {:?}", other),
    }
}

#[test]
fn parse_subtraction_is_left_associative() {
    let program = parse_ok("int main() { a - b - c; }");
    match &first_expr(&program).kind {
        ExprKind::Binary { op: BinaryOp::Sub, left, right } => {
            assert_eq!(ident_name(right), "c");
            match &left.kind {
                ExprKind::Binary { op: BinaryOp::Sub, left, right } => {
                    assert_eq!(ident_name(left), "a");
                    assert_eq!(ident_name(right), "b");
                }
                other => panic!("unexpected {:?}", other),
            }
        }
        other => panic!("unexpected {:?}", other),
    }
}

#[test]
fn parse_assignment_is_right_associative() {
    let program = parse_ok("int main() { a = b = 1; }");
    match &first_expr(&program).kind {
        ExprKind::Assign { target, value } => {
            assert_eq!(ident_name(target), "a");
            match &value.kind {
                ExprKind::Assign { target, value } => {
                    assert_eq!(ident_name(target), "b");
                    assert_eq!(int_value(value), "1");
                }
                other => panic!("unexpected {:?}", other),
            }
        }
        other => panic!("unexpected {:?}", other),
    }
}

#[test]
fn parse_logical_and_relational_levels() {
    let program = parse_ok("int main() { a < b && c == d || !e; }");
    match &first_expr(&program).kind {
        ExprKind::Binary { op: BinaryOp::Or, left, right } => {
            match &right.kind {
                ExprKind::Unary { op: UnaryOp::Not, expr } => assert_eq!(ident_name(expr), "e"),
                other => panic!("unexpected {:?}", other),
            }
            match &left.kind {
                ExprKind::Binary { op: BinaryOp::And, left, right } => {
                    assert!(matches!(left.kind, ExprKind::Binary { op: BinaryOp::Lt, .. }));
                    assert!(matches!(right.kind, ExprKind::Binary { op: BinaryOp::Eq, .. }));
                }
                other => panic!("unexpected {:?}", other),
            }
        }
        other => panic!("unexpected {:?}", other),
    }
}

#[test]
fn parse_postfix_chain() {
    let program = parse_ok("int main() { f(a[1], 2)++; }");
    let e = first_expr(&program);
    assert_eq!((e.location.line, e.location.column), (1, 14));
    match &e.kind {
        ExprKind::Postfix { op: PostfixOp::PostInc, expr } => match &expr.kind {
            ExprKind::Call { callee, args } => {
                assert_eq!(ident_name(callee), "f");
                assert_eq!(args.len(), 2);
                match &args[0].kind {
                    ExprKind::Index { array, index } => {
                        assert_eq!(ident_name(array), "a");
                        assert_eq!(int_value(index), "1");
                    }
                    other => panic!("unexpected {:?}", other),
                }
                assert_eq!(int_value(&args[1]), "2");
            }
            other => panic!("unexpected {:?}", other),
        },
        other => panic!("unexpected {:?}", other),
    }
}

#[test]
fn parse_prefix_operators() {
    let program = parse_ok("int main() { -+--x; }");
    let e = first_expr(&program);
    assert_eq!((e.location.line, e.location.column), (1, 14));
    match &e.kind {
        ExprKind::Unary { op: UnaryOp::Minus, expr } => match &expr.kind {
            ExprKind::Unary { op: UnaryOp::Plus, expr } => match &expr.kind {
                ExprKind::Unary { op: UnaryOp::PreDec, expr } => assert_eq!(ident_name(expr), "x"),
                other => panic!("unexpected {:?}", other),
            },
            other => panic!("unexpected {:?}", other),
        },
        other => panic!("unexpected {:?}", other),
    }
}

#[test]
fn parse_global_declarations() {
    let program = parse_ok("const int N = 10, a[2][3] = {{1}, {2, 3,}};");
    match &program.items[0] {
        Item::GlobalDecl(decls) => {
            assert_eq!(decls.len(), 2);
            assert!(decls[0].is_const && decls[1].is_const);
            assert_eq!(decls[0].name, "N");
            assert!(decls[0].dimensions.is_empty());
            assert!(matches!(&decls[0].init, Some(Initializer::Expr(e)) if int_value(e) == "10"));
            assert_eq!(decls[1].name, "a");
            assert_eq!(decls[1].dimensions.len(), 2);
            match &decls[1].init {
                Some(Initializer::List(rows)) => {
                    assert_eq!(rows.len(), 2);
                    assert!(matches!(&rows[0], Initializer::List(items) if items.len() == 1));
                    assert!(matches!(&rows[1], Initializer::List(items) if items.len() == 2));
                }
                other => panic!("unexpected {:?}", other),
            }
        }
        other => panic!("unexpected {:?}", other),
    }
}

#[test]
fn parse_parameters_with_array_dimensions() {
    let program = parse_ok("void f(int a[], float b[][4], int n) {}");
    match &program.items[0] {
        Item::Function(f) => {
            assert_eq!(f.return_type, TypeName::Void);
            assert_eq!(f.params.len(), 3);
            assert_eq!(f.params[0].dimensions.len(), 1);
            assert!(f.params[0].dimensions[0].is_none());
            assert_eq!(f.params[1].ty, TypeName::Float);
            assert_eq!(f.params[1].dimensions.len(), 2);
            assert!(f.params[1].dimensions[1].is_some());
            assert!(f.params[2].dimensions.is_empty());
        }
        other => panic!("unexpected {:?}", other),
    }
}

#[test]
fn parse_control_flow_statements() {
    let src = "void f() { for (int i = 0; i < 10; i++) { if (i) continue; else break; } while (1) ; for (;;) ; }";
    let program = parse_ok(src);
    match &program.items[0] {
        Item::Function(f) => {
            assert_eq!(f.body.statements.len(), 3);
            match &f.body.statements[0] {
                Stmt::For { init: Some(ForInit::Decl(decls)), condition: Some(_), update: Some(_), body, .. } => {
                    assert_eq!(decls[0].name, "i");
                    match body.as_ref() {
                        Stmt::Block(b) => {
                            assert!(matches!(
                                &b.statements[0],
                                Stmt::If { else_branch: Some(_), .. }
                            ));
                        }
                        other => panic!("unexpected {:?}", other),
                    }
                }
                other => panic!("unexpected {:?}", other),
            }
            assert!(matches!(&f.body.statements[1], Stmt::While { .. }));
            assert!(matches!(
                &f.body.statements[2],
                Stmt::For { init: None, condition: None, update: None, .. }
            ));
        }
        other => panic!("unexpected {:?}", other),
    }
}

#[test]
fn parse_error_missing_semicolon() {
    let e = parse_err("int a = 1");
    assert_eq!(e.message, "expected Semicolon, found Eof ''");
    assert_eq!((e.location.line, e.location.column), (1, 10));
}

#[test]
fn parse_error_const_function() {
    let e = parse_err("const int f() {}");
    assert_eq!(e.message, "functions cannot be const-qualified");
    assert_eq!((e.location.line, e.location.column), (1, 13));
}

#[test]
fn parse_error_unterminated_block() {
    let e = parse_err("int main() { return 0;");
    assert_eq!(e.message, "unexpected end of file while parsing block");
    assert_eq!((e.location.line, e.location.column), (1, 23));
}

#[test]
fn parse_error_expected_expression() {
    let e = parse_err("int x = ;");
    assert_eq!(e.message, "expected expression");
    assert_eq!((e.location.line, e.location.column), (1, 9));
}

#[test]
fn parse_error_expected_type_keyword() {
    let e = parse_err("x = 1;");
    assert_eq!(e.message, "expected type keyword");
    assert_eq!((e.location.line, e.location.column), (1, 1));
    let e = parse_err("const return;");
    assert_eq!(e.message, "expected type keyword");
    assert_eq!((e.location.line, e.location.column), (1, 7));
}

#[test]
fn parse_error_expected_identifier() {
    let e = parse_err("int 3;");
    assert_eq!(e.message, "expected identifier");
    assert_eq!((e.location.line, e.location.column), (1, 5));
}

#[test]
fn parse_error_mismatched_bracket() {
    let e = parse_err("int main() { a[1; }");
    assert_eq!(e.message, "expected RBracket, found Semicolon ';'");
    assert_eq!((e.location.line, e.location.column), (1, 17));
}

#[test]
fn parse_program_resumes_where_it_stopped() {
    let mut parser = Parser::new(tokenize("int a; int b;"));
    let first = parser.parse_program().expect("program should parse");
    assert_eq!(first.items.len(), 2);
    let second = parser.parse_program().expect("nothing is left to parse");
    assert!(second.items.is_empty());
}

#[test]
fn program_clone_is_equal() {
    let program = parse_ok("const int a[2] = {1, 2}; int f(int x[]) { for (int i = 0; i < 2; i++) { if (x[i]) return f(x); else { x[i] = -x[i]; } } while (1) break; return 0; }");
    let copy = program.clone();
    assert_eq!(format!("{:?}", copy), format!("{:?}", program));
    let e = first_expr(&parse_ok("int main() { a = g(1, b[2]++) * !c; }")).clone();
    assert!(matches!(e.kind, ExprKind::Assign { .. }));
}
