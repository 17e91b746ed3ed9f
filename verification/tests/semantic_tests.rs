use sysy::ast::{TypeName, UnaryOp};
use sysy::lexer::tokenize;
use sysy::parser::Parser;
use sysy::semantic::{
    analyze, SemanticAnalysis, SemanticExprKind, SemanticForInit, SemanticItem, SemanticProgram,
    SemanticStmt, SemanticType, SemanticVarDecl, SymbolId, SymbolKind,
};

fn analyze_src(src: &str) -> SemanticAnalysis {
    let mut parser = Parser::new(tokenize(src));
    let program = parser.parse_program().expect("program should parse");
    analyze(&program)
}

fn errors(analysis: &SemanticAnalysis) -> Vec<(usize, usize, String)> {
    analysis
        .errors
        .iter()
        .map(|e| (e.location.line, e.location.column, e.message.clone()))
        .collect()
}

fn err(line: usize, column: usize, message: &str) -> (usize, usize, String) {
    (line, column, message.to_string())
}

const BUILTINS: [&str; 12] = [
    "getint", "getch", "getfloat", "getarray", "getfarray", "putint", "putch", "putfloat",
    "putarray", "putfarray", "starttime", "stoptime",
];

#[test]
fn runtime_library_is_declared_first() {
    let analysis = analyze_src("");
    assert!(analysis.errors.is_empty());
    assert!(analysis.program.items.is_empty());
    assert_eq!(analysis.program.scopes.len(), 1);
    assert_eq!(analysis.program.symbols.len(), 12);
    for (i, name) in BUILTINS.iter().enumerate() {
        let symbol = &analysis.program.symbols[i];
        assert_eq!(symbol.name, *name);
        assert_eq!(symbol.id, SymbolId(i));
        assert_eq!(symbol.kind, SymbolKind::Function);
        assert!(!symbol.is_const);
        assert_eq!(symbol.scope_id.0, 0);
    }
    match &analysis.program.symbols[8].ty {
        SemanticType::Function { return_type, params } => {
            assert_eq!(*return_type, TypeName::Void);
            assert_eq!(params.len(), 2);
            assert!(matches!(params[0], SemanticType::Int));
            assert!(matches!(params[1], SemanticType::Array { element: TypeName::Int, rank: 1 }));
        }
        other => panic!("unexpected {:?}", other),
    }
}

#[test]
fn valid_program_has_no_errors() {
    let src = "int g = 1;\nint add(int a, int b) { return a + b; }\nint main() { int x = add(g, 2); putint(x); return 0; }";
    let analysis = analyze_src(src);
    assert!(analysis.errors.is_empty(), "{:?}", errors(&analysis));
    let names: Vec<&str> = analysis.program.symbols[12..].iter().map(|s| s.name.as_str()).collect();
    assert_eq!(names, vec!["g", "add", "main", "a", "b", "x"]);
    assert_eq!(analysis.program.scopes.len(), 3);
    assert_eq!(analysis.program.symbols[15].kind, SymbolKind::Parameter);
    assert_eq!(analysis.program.symbols[15].scope_id.0, 1);
    match &analysis.program.items[2] {
        SemanticItem::Function(f) => {
            assert_eq!(f.symbol_id, Some(SymbolId(14)));
            assert_eq!(f.scope_id.0, 2);
            match &f.body.statements[0] {
                SemanticStmt::VarDecl(decls) => match &decls[0].init {
                    Some(sysy::semantic::SemanticInitializer::Expr(e)) => {
                        assert!(matches!(e.ty, SemanticType::Int));
                        match &e.kind {
                            SemanticExprKind::Call { function_symbol, args, .. } => {
                                assert_eq!(*function_symbol, Some(SymbolId(13)));
                                assert!(matches!(
                                    &args[0].kind,
                                    SemanticExprKind::Ident { symbol_id: Some(SymbolId(12)), .. }
                                ));
                            }
                            other => panic!("unexpected {:?}", other),
                        }
                    }
                    other => panic!("unexpected {:?}", other),
                },
                other => panic!("unexpected {:?}", other),
            }
        }
        other => panic!("unexpected {:?}", other),
    }
}

#[test]
fn functions_may_be_called_before_their_definition() {
    let analysis = analyze_src("int main() { return later(); } int later() { return 1; }");
    assert!(analysis.errors.is_empty(), "{:?}", errors(&analysis));
}

#[test]
fn undeclared_identifier() {
    let analysis = analyze_src("int main() { return y; }");
    assert_eq!(errors(&analysis), vec![err(1, 21, "use of undeclared identifier")]);
}

#[test]
fn duplicate_declaration_in_one_scope() {
    let analysis = analyze_src("int main() { int a; int a; return 0; }");
    assert_eq!(errors(&analysis), vec![err(1, 25, "duplicate declaration of 'a'")]);
}

#[test]
fn parameters_share_the_function_body_scope() {
    let analysis = analyze_src("int f(int a) { int a; return 0; }");
    assert_eq!(errors(&analysis), vec![err(1, 20, "duplicate declaration of 'a'")]);
}

#[test]
fn shadowing_in_nested_scopes_is_allowed() {
    let analysis = analyze_src("int a; int main() { float a = 1.0; { int a = 2; } return 0; }");
    assert!(analysis.errors.is_empty(), "{:?}", errors(&analysis));
    assert_eq!(analysis.program.scopes.len(), 3);
    let locals: Vec<(usize, bool)> = analysis.program.symbols[14..]
        .iter()
        .map(|s| (s.scope_id.0, matches!(s.ty, SemanticType::Float)))
        .collect();
    assert_eq!(locals, vec![(1, true), (2, false)]);
    assert_eq!(analysis.program.scopes[2].parent.map(|p| p.0), Some(1));
    assert_eq!(analysis.program.scopes[1].parent.map(|p| p.0), Some(0));
    assert!(analysis.program.scopes[0].parent.is_none());
}

#[test]
fn for_loops_with_declarations_open_a_scope() {
    let src = "int main() { for (int i = 0; i < 3; i++) { } for (int i = 0; i < 3; i = i + 1) ; return 0; }";
    let analysis = analyze_src(src);
    assert!(analysis.errors.is_empty(), "{:?}", errors(&analysis));
    assert_eq!(analysis.program.scopes.len(), 5);
}

#[test]
fn break_and_continue_outside_a_loop() {
    let analysis = analyze_src("void f() { break; continue; }");
    assert_eq!(
        errors(&analysis),
        vec![
            err(1, 12, "break can only appear inside a loop"),
            err(1, 19, "continue can only appear inside a loop"),
        ]
    );
    let analysis = analyze_src("void f() { while (1) { break; continue; } for (;;) { if (1) break; } }");
    assert!(analysis.errors.is_empty(), "{:?}", errors(&analysis));
}

#[test]
fn return_checks() {
    let analysis = analyze_src("void f() { return 1; }");
    assert_eq!(errors(&analysis), vec![err(1, 12, "void function cannot return a value of type int")]);
    let analysis = analyze_src("int f() { return; }");
    assert_eq!(errors(&analysis), vec![err(1, 11, "missing return value for function returning int")]);
    let analysis = analyze_src("int g[2]; float f() { return g; }");
    assert_eq!(errors(&analysis), vec![err(1, 23, "expected return type float, found int[]")]);
    let analysis = analyze_src("float f() { return 1; } void h() { return; }");
    assert!(analysis.errors.is_empty(), "{:?}", errors(&analysis));
}

#[test]
fn assignment_to_constant() {
    let analysis = analyze_src("int main() { const int c = 1; c = 2; return 0; }");
    assert_eq!(errors(&analysis), vec![err(1, 31, "left-hand side must be a modifiable lvalue")]);
}

#[test]
fn assignment_type_mismatch() {
    let analysis = analyze_src("int main() { int a[2]; int b; b = a; return 0; }");
    assert_eq!(errors(&analysis), vec![err(1, 31, "cannot assign int[] to int")]);
}

#[test]
fn modulo_requires_int_operands() {
    let analysis = analyze_src("int main() { float f = 1.0; int x = f % 2; return 0; }");
    assert_eq!(errors(&analysis), vec![err(1, 39, "operator % requires int operands, found float and int")]);
}

#[test]
fn arithmetic_on_functions_names_their_types() {
    let analysis = analyze_src("int main() { putarray + 1; return 0; }");
    assert_eq!(
        errors(&analysis),
        vec![err(1, 23, "operator requires numeric scalars, found fn(int, int[]) -> void and int")]
    );
    let analysis = analyze_src("int main() { getint < 1; return 0; }");
    assert_eq!(
        errors(&analysis),
        vec![err(1, 21, "comparison requires numeric scalars, found fn() -> int and int")]
    );
}

#[test]
fn logical_operators_require_scalars() {
    let analysis = analyze_src("int a[2]; int main() { return a && 1; }");
    assert_eq!(
        errors(&analysis),
        vec![err(1, 33, "logical operator requires scalar operands, found int[] and int")]
    );
}

#[test]
fn numeric_promotion() {
    let analysis = analyze_src("float f() { return 1 + 2.0; } int g() { return 1 * 2; }");
    assert!(analysis.errors.is_empty(), "{:?}", errors(&analysis));
    let types: Vec<bool> = analysis
        .program
        .items
        .iter()
        .map(|item| match item {
            SemanticItem::Function(f) => match &f.body.statements[0] {
                SemanticStmt::Return(Some(e)) => matches!(e.ty, SemanticType::Float),
                other => panic!("unexpected {:?}", other),
            },
            other => panic!("unexpected {:?}", other),
        })
        .collect();
    assert_eq!(types, vec![true, false]);
}

#[test]
fn call_arity_and_argument_types() {
    let analysis = analyze_src("int main() { putint(); return 0; }");
    assert_eq!(errors(&analysis), vec![err(1, 14, "expected 1 arguments, found 0")]);
    let analysis = analyze_src("int main() { int a[3]; putint(a); return 0; }");
    assert_eq!(errors(&analysis), vec![err(1, 31, "expected int, found int[]")]);
    let analysis = analyze_src(
        "int f(int a, int b, int c, int d, int e, int g, int h, int i, int j, int k) { return 0; } int main() { return f(1); }",
    );
    assert_eq!(errors(&analysis), vec![err(1, 111, "expected 10 arguments, found 1")]);
}

#[test]
fn calling_a_non_function() {
    let analysis = analyze_src("int main() { int a; a(); return 0; }");
    assert_eq!(errors(&analysis), vec![err(1, 21, "callee is not a function, found int")]);
}

#[test]
fn indexing_checks() {
    let analysis = analyze_src("int main() { int a; a[0] = 1; return 0; }");
    assert_eq!(errors(&analysis), vec![err(1, 21, "cannot index into int")]);
    let analysis = analyze_src("int main() { int a[2]; a[1.5] = 1; return 0; }");
    assert_eq!(errors(&analysis), vec![err(1, 26, "array index must be int, found float")]);
    let analysis = analyze_src("int main() { int a[2][3]; a[1] = 1; return 0; }");
    assert_eq!(errors(&analysis), vec![err(1, 27, "cannot assign int to int[]")]);
}

#[test]
fn constant_declarations() {
    let analysis = analyze_src("const int c;");
    assert_eq!(errors(&analysis), vec![err(1, 11, "const declarations require an initializer")]);
    let analysis = analyze_src("int g = 1; const int c = g;");
    assert_eq!(errors(&analysis), vec![err(1, 22, "const initializer must be a constant expression")]);
    let analysis = analyze_src("const int n = 2; const int a[2] = {n * 2, -n}; int main() { const int m = a[0] + !n; return m; }");
    assert!(analysis.errors.is_empty(), "{:?}", errors(&analysis));
}

#[test]
fn void_globals_are_reported_by_both_passes() {
    let analysis = analyze_src("void v;");
    assert_eq!(
        errors(&analysis),
        vec![err(1, 6, "variables cannot have type void"), err(1, 6, "variables cannot have type void")]
    );
}

#[test]
fn void_parameters_and_locals() {
    let analysis = analyze_src("int f(void p) { void q; return 0; }");
    assert_eq!(
        errors(&analysis),
        vec![err(1, 12, "parameters cannot have type void"), err(1, 22, "variables cannot have type void")]
    );
}

#[test]
fn conditions_must_be_scalar() {
    let analysis = analyze_src("int main() { int a[2]; if (a) return 1; return 0; }");
    assert_eq!(errors(&analysis), vec![err(1, 28, "condition must be a scalar expression, found int[]")]);
}

#[test]
fn unary_errors_are_reported_at_the_operand() {
    let analysis = analyze_src("int main() { int a[2]; -a; !a; return 0; }");
    assert_eq!(
        errors(&analysis),
        vec![
            err(1, 25, "operator requires a numeric operand, found int[]"),
            err(1, 29, "operator requires a scalar operand, found int[]"),
        ]
    );
}

#[test]
fn increments_require_modifiable_numeric_lvalues() {
    let analysis = analyze_src("int main() { const int c = 1; c++; ++c; return 0; }");
    assert_eq!(
        errors(&analysis),
        vec![
            err(1, 31, "operand must be a modifiable lvalue"),
            err(1, 38, "operand must be a modifiable lvalue"),
        ]
    );
    let analysis = analyze_src("int main() { int a[2]; a++; return 0; }");
    assert_eq!(errors(&analysis), vec![err(1, 24, "operand must be a numeric scalar, found int[]")]);
    let analysis = analyze_src("int main() { 1++; return 0; }");
    assert_eq!(errors(&analysis), vec![err(1, 14, "operand must be a modifiable lvalue")]);
}

#[test]
fn initializer_checks() {
    let analysis = analyze_src("int x = {1};");
    assert_eq!(errors(&analysis), vec![err(1, 5, "brace initializer requires an array type, found int")]);
    let analysis = analyze_src("int a[2] = 1;");
    assert_eq!(errors(&analysis), vec![err(1, 5, "cannot initialize int[] with int")]);
    let analysis = analyze_src("float m[2][2] = {{1, 2.5}, {3}};");
    assert!(analysis.errors.is_empty(), "{:?}", errors(&analysis));
}

#[test]
fn array_dimensions_must_be_int() {
    let analysis = analyze_src("int a[1.5];");
    assert_eq!(errors(&analysis), vec![err(1, 7, "array dimension must be int, found float")]);
}

#[test]
fn undeclared_names_take_the_error_type() {
    let analysis = analyze_src("int main() { int x = y + 1; x = y; return y; }");
    assert_eq!(
        errors(&analysis),
        vec![
            err(1, 22, "use of undeclared identifier"),
            err(1, 24, "operator requires numeric scalars, found <error> and int"),
            err(1, 33, "use of undeclared identifier"),
            err(1, 43, "use of undeclared identifier"),
        ]
    );
}

#[test]
fn symbol_table_is_consistent() {
    let src = "int g; int f(int a, float b[]) { int c; { int d; } for (int i = 0; i < 2; i++) { int e; } return 0; } int main() { int a; return f(a, 0); }";
    let analysis = analyze_src(src);
    let program = &analysis.program;
    for (i, symbol) in program.symbols.iter().enumerate() {
        assert_eq!(symbol.id.0, i);
        assert!(symbol.scope_id.0 < program.scopes.len());
    }
    for (i, scope) in program.scopes.iter().enumerate() {
        assert_eq!(scope.id.0, i);
        match scope.parent {
            Some(p) => assert!(p.0 < i),
            None => assert_eq!(i, 0),
        }
        for (j, (name, id)) in scope.symbols.iter().enumerate() {
            assert_eq!(&program.symbols[id.0].name, name);
            assert_eq!(program.symbols[id.0].scope_id.0, i);
            for (other, _) in &scope.symbols[j + 1..] {
                assert_ne!(other, name);
            }
        }
    }
}

#[test]
fn unary_plus_keeps_the_operand_type() {
    let analysis = analyze_src("float f() { return -1.5; }");
    match &analysis.program.items[0] {
        SemanticItem::Function(f) => match &f.body.statements[0] {
            SemanticStmt::Return(Some(e)) => {
                assert!(matches!(e.ty, SemanticType::Float));
                assert!(matches!(e.kind, SemanticExprKind::Unary { op: UnaryOp::Minus, .. }));
            }
            other => panic!("unexpected {:?}", other),
        },
        other => panic!("unexpected {:?}", other),
    }
}

#[test]
fn semantic_type_clone_is_equal() {
    let t = SemanticType::Function {
        return_type: TypeName::Float,
        params: vec![SemanticType::Int, SemanticType::Array { element: TypeName::Float, rank: 3 }],
    };
    let c = t.clone();
    assert_eq!(format!("{:?}", c), format!("{:?}", t));
}

#[test]
fn int_and_float_convert_both_ways() {
    let analysis = analyze_src("int x = 1.5; float y = 2; int main() { x = y; y = x; return 1.0; }");
    assert!(analysis.errors.is_empty(), "{:?}", errors(&analysis));
}

fn assigned_symbol(stmt: &SemanticStmt) -> Option<SymbolId> {
    match stmt {
        SemanticStmt::Expr(e) => match &e.kind {
            SemanticExprKind::Assign { target, .. } => match &target.kind {
                SemanticExprKind::Ident { symbol_id, .. } => *symbol_id,
                other => panic!("unexpected {:?}", other),
            },
            other => panic!("unexpected {:?}", other),
        },
        other => panic!("unexpected {:?}", other),
    }
}

#[test]
fn uses_resolve_to_the_innermost_visible_declaration() {
    let src = "int a; int main() { a = 0; int a; a = 1; { float a; a = 2.0; } a = 3; return 0; }";
    let analysis = analyze_src(src);
    assert!(analysis.errors.is_empty(), "{:?}", errors(&analysis));
    match &analysis.program.items[1] {
        SemanticItem::Function(f) => {
            let s = &f.body.statements;
            assert_eq!(assigned_symbol(&s[0]), Some(SymbolId(12)));
            assert_eq!(assigned_symbol(&s[2]), Some(SymbolId(14)));
            match &s[3] {
                SemanticStmt::Block(b) => assert_eq!(assigned_symbol(&b.statements[1]), Some(SymbolId(15))),
                other => panic!("unexpected {:?}", other),
            }
            assert_eq!(assigned_symbol(&s[4]), Some(SymbolId(14)));
        }
        other => panic!("unexpected {:?}", other),
    }
}

#[test]
fn leaving_a_loop_restores_the_loop_depth() {
    let analysis = analyze_src("void f() { while (1) { while (1) break; continue; } break; }");
    assert_eq!(errors(&analysis), vec![err(1, 53, "break can only appear inside a loop")]);
}

fn expr_is_complete(e: &sysy::semantic::SemanticExpr) -> bool {
    if matches!(e.ty, SemanticType::Error) {
        return false;
    }
    match &e.kind {
        SemanticExprKind::Ident { symbol_id, .. } => symbol_id.is_some(),
        SemanticExprKind::Unary { expr, .. } | SemanticExprKind::Postfix { expr, .. } => expr_is_complete(expr),
        SemanticExprKind::Binary { left, right, .. } => expr_is_complete(left) && expr_is_complete(right),
        SemanticExprKind::Assign { target, value } => expr_is_complete(target) && expr_is_complete(value),
        SemanticExprKind::Index { array, index } => expr_is_complete(array) && expr_is_complete(index),
        SemanticExprKind::Call { callee, args, .. } => expr_is_complete(callee) && args.iter().all(expr_is_complete),
        _ => true,
    }
}

fn stmt_is_complete(s: &SemanticStmt) -> bool {
    match s {
        SemanticStmt::Expr(e) => expr_is_complete(e),
        SemanticStmt::Return(Some(e)) => expr_is_complete(e),
        SemanticStmt::If { condition, then_branch, else_branch } => {
            expr_is_complete(condition)
                && stmt_is_complete(then_branch)
                && else_branch.as_ref().map_or(true, |b| stmt_is_complete(b))
        }
        SemanticStmt::While { condition, body } => expr_is_complete(condition) && stmt_is_complete(body),
        SemanticStmt::For { condition, update, body, .. } => {
            condition.as_ref().map_or(true, expr_is_complete)
                && update.as_ref().map_or(true, expr_is_complete)
                && stmt_is_complete(body)
        }
        SemanticStmt::Block(b) => b.statements.iter().all(stmt_is_complete),
        _ => true,
    }
}

#[test]
fn an_accepted_program_is_fully_resolved_and_typed() {
    let src = "int n = 3; float scale(float x) { return x * 2; } int main() { int i; float s = 0; for (i = 0; i < n; i++) { if (i % 2 == 0) s = s + scale(i); else { while (s > 10.0) s = s - 1; } } putfloat(s); return !i; }";
    let analysis = analyze_src(src);
    assert!(analysis.errors.is_empty(), "{:?}", errors(&analysis));
    for item in &analysis.program.items {
        if let SemanticItem::Function(f) = item {
            assert!(f.body.statements.iter().all(stmt_is_complete));
        }
    }
    for symbol in &analysis.program.symbols {
        assert!(!matches!(symbol.ty, SemanticType::Error));
    }
}

#[test]
fn analysis_clone_is_equal() {
    let analysis = analyze_src("int g[2] = {1}; int main() { int x = g[0] + getint(); if (x) { float y = x; } return y; }");
    let copy = analysis.clone();
    assert_eq!(format!("{:?}", copy), format!("{:?}", analysis));
    assert_eq!(copy.errors.len(), 1);
}

fn check_decls(program: &SemanticProgram, decls: &[SemanticVarDecl]) {
    for d in decls {
        if let Some(id) = d.symbol_id {
            assert_eq!(program.symbols[id.0].name, d.name);
        }
    }
}

fn check_stmt_ids(program: &SemanticProgram, stmt: &SemanticStmt) {
    match stmt {
        SemanticStmt::VarDecl(ds) => check_decls(program, ds),
        SemanticStmt::If { then_branch, else_branch, .. } => {
            check_stmt_ids(program, then_branch);
            if let Some(e) = else_branch {
                check_stmt_ids(program, e);
            }
        }
        SemanticStmt::While { body, .. } => check_stmt_ids(program, body),
        SemanticStmt::For { scope_id, init, body, .. } => {
            if let Some(s) = scope_id {
                assert!(s.0 < program.scopes.len());
            }
            if let Some(SemanticForInit::Decl(ds)) = init {
                check_decls(program, ds);
            }
            check_stmt_ids(program, body);
        }
        SemanticStmt::Block(b) => {
            assert!(b.scope_id.0 < program.scopes.len());
            for s in &b.statements {
                check_stmt_ids(program, s);
            }
        }
        _ => {}
    }
}

#[test]
fn every_symbol_is_entered_in_its_own_scope_and_stored_ids_are_in_range() {
    let src = "int g[2] = {1, 2}; int f(int a, float b[]) { int c; { int d; if (a) { int e; } } for (int i = 0; i < 2; i++) { int e; } while (a) { int h; break; } return 0; } int main() { int a; float x[3]; return f(a, x); }";
    let analysis = analyze_src(src);
    assert_eq!(errors(&analysis), vec![]);
    let program = &analysis.program;
    for symbol in &program.symbols {
        let scope = &program.scopes[symbol.scope_id.0];
        let entry = scope.symbols.iter().find(|(name, _)| *name == symbol.name);
        assert_eq!(entry.map(|(_, id)| *id), Some(symbol.id));
    }
    for item in &program.items {
        match item {
            SemanticItem::Function(f) => {
                let id = f.symbol_id.expect("functions are declared ahead");
                assert_eq!(program.symbols[id.0].name, f.name);
                assert!(f.scope_id.0 < program.scopes.len());
                assert!(f.body.scope_id.0 < program.scopes.len());
                for p in &f.params {
                    let pid = p.symbol_id.expect("parameters are declared");
                    assert_eq!(program.symbols[pid.0].name, p.name);
                }
                for s in &f.body.statements {
                    check_stmt_ids(program, s);
                }
            }
            SemanticItem::GlobalDecl(ds) => check_decls(program, ds),
        }
    }
}
