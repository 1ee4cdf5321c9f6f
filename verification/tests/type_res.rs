use std::collections::HashMap;

use ayuc::ast::{self, BinExpr, Binding, CallExpr, Expr, ExprKind, Ident, LetStmt, Literal, Operator, Pat, PatKind, Path, PathSegment};
use ayuc::resolve::def::{Def, LocalId};
use ayuc::session::item::{ItemInfo, ItemKind as SessionItemKind, Visibility};
use ayuc::session::local::LocalInfo;
use ayuc::session::Session;
use ayuc::hir::NodeId;
use ayuc::resolve::resolver::ResolutionContext;
use ayuc::resolve::type_res::{TypeResolutionPhase, UnableToInfer};
use ayuc::span::Span;
use ayuc::symbol::{Symbol, SymbolTable};
use ayuc::types::interner::TypeInterner;
use ayuc::types::ty::{PrimTy, TyId, TyKind};

fn span(start: usize, end: usize) -> Span {
    Span { start, end }
}

fn bind(id: usize, sym: Symbol, start: usize) -> Pat {
    Pat { id: NodeId(id), span: span(start, start + 1), kind: PatKind::Binding(Binding { sym, mutable: false }) }
}

fn tuple(id: usize, start: usize, end: usize, elements: Vec<Pat>) -> Pat {
    Pat { id: NodeId(id), span: span(start, end), kind: PatKind::Tuple(elements) }
}

struct Types {
    int: TyId,
    boolean: TyId,
    err: TyId,
    pair: TyId,
    nested: TyId,
}

/// A phase whose interner holds `int`, `bool`, a kind standing for the error type,
/// `(int, bool)` and `(int, (int, bool))`.
fn phase() -> (TypeResolutionPhase, Types) {
    let mut interner = TypeInterner::default();
    let int = interner.intern(TyKind::Prim(PrimTy::Int));
    let boolean = interner.intern(TyKind::Prim(PrimTy::Bool));
    let err = interner.intern(TyKind::Tuple(vec![]));
    let pair = interner.intern(TyKind::Tuple(vec![int, boolean]));
    let nested = interner.intern(TyKind::Tuple(vec![int, pair]));
    let phase = TypeResolutionPhase { rcx: ResolutionContext::new(err), interner, file_id: 5, diagnostics: Vec::new() };
    (phase, Types { int, boolean, err, pair, nested })
}

fn init(id: usize) -> Expr {
    Expr { id: NodeId(id), span: span(20, 30), kind: ExprKind::Lit(Literal::Integer) }
}

#[test]
fn a_tuple_pattern_gets_the_types_of_the_tuple() {
    let mut table = SymbolTable::new();
    let x = Symbol::intern(&mut table, "x");
    let (mut p, t) = phase();
    p.rcx.tys_by_node.insert(9, t.nested);
    // let (a, (b, c)) = ...;
    let pat = tuple(20, 4, 14, vec![bind(21, x, 5), tuple(22, 8, 13, vec![bind(23, x, 9), bind(24, x, 12)])]);
    let stmt = LetStmt { pat, ty: None, init: init(9) };
    p.visit_let_stmt(NodeId(1), span(0, 31), &stmt);
    assert!(p.diagnostics.is_empty());
    assert_eq!(p.rcx.tys_by_node[&1], t.nested);
    assert_eq!(p.rcx.tys_by_node[&20], t.nested);
    assert_eq!(p.rcx.tys_by_node[&21], t.int);
    assert_eq!(p.rcx.tys_by_node[&22], t.pair);
    assert_eq!(p.rcx.tys_by_node[&23], t.int);
    assert_eq!(p.rcx.tys_by_node[&24], t.boolean);
}

#[test]
fn a_shorter_pattern_types_only_its_elements() {
    let mut table = SymbolTable::new();
    let x = Symbol::intern(&mut table, "x");
    let (mut p, t) = phase();
    p.rcx.tys_by_node.insert(9, t.pair);
    let pat = tuple(20, 4, 7, vec![bind(21, x, 5)]);
    p.tr_walk_pat_expr_pair(&pat, &init(9));
    assert_eq!(p.rcx.tys_by_node.len(), 3);
    assert_eq!(p.rcx.tys_by_node[&21], t.int);
    assert_eq!(p.rcx.tys_by_node[&20], t.pair);
}

#[test]
fn a_written_type_is_the_statement_type() {
    let mut table = SymbolTable::new();
    let x = Symbol::intern(&mut table, "x");
    let (mut p, t) = phase();
    p.rcx.tys_by_node.insert(9, t.boolean);
    p.rcx.tys_by_node.insert(3, t.int);
    let stmt = LetStmt { pat: bind(21, x, 4), ty: Some(ast::Ty { id: NodeId(3), span: span(7, 10) }), init: init(9) };
    p.visit_let_stmt(NodeId(1), span(0, 31), &stmt);
    assert_eq!(p.rcx.tys_by_node[&1], t.int);
    assert_eq!(p.rcx.tys_by_node[&21], t.boolean);
    assert!(p.diagnostics.is_empty());
}

#[test]
fn an_expression_without_type_cannot_be_inferred() {
    let mut table = SymbolTable::new();
    let x = Symbol::intern(&mut table, "x");
    let (mut p, t) = phase();
    let stmt = LetStmt { pat: bind(21, x, 4), ty: None, init: init(9) };
    p.visit_let_stmt(NodeId(1), span(0, 31), &stmt);
    assert_eq!(
        p.diagnostics,
        vec![UnableToInfer { file_id: 5, stmt_span: span(0, 31), label_span: span(0, 5), init_span: span(20, 30) }]
    );
    assert_eq!(p.rcx.tys_by_node[&1], t.err);
    assert_eq!(p.rcx.tys_by_node[&21], t.err);
}

fn expr(id: usize, kind: ExprKind) -> Expr {
    Expr { id: NodeId(id), span: span(0, 1), kind }
}

fn path_expr(id: usize, sym: Symbol) -> Expr {
    expr(
        id,
        ExprKind::Path(Path {
            id: NodeId(id + 1),
            span: span(0, 1),
            segments: vec![PathSegment { id: NodeId(id + 2), ident: Ident { sym, span: span(0, 1) } }],
        }),
    )
}

#[test]
fn literals_and_operators_get_primitive_types() {
    let (mut p, t) = phase();
    let sess = Session::new();
    let locals = Vec::new();
    assert_eq!(p.evaluate_type_of_expr(&expr(1, ExprKind::Lit(Literal::Bool)), &sess, &locals), t.boolean);
    assert_eq!(p.evaluate_type_of_expr(&expr(1, ExprKind::Lit(Literal::Integer)), &sess, &locals), t.int);
    let sum = ExprKind::Binary(BinExpr {
        left: Box::new(expr(2, ExprKind::Lit(Literal::Integer))),
        operator: Operator::Add,
        right: Box::new(expr(3, ExprKind::Lit(Literal::Integer))),
    });
    assert_eq!(p.evaluate_type_of_expr(&expr(1, sum), &sess, &locals), t.int);
    let less = ExprKind::Binary(BinExpr {
        left: Box::new(expr(2, ExprKind::Lit(Literal::Integer))),
        operator: Operator::Lt,
        right: Box::new(expr(3, ExprKind::Lit(Literal::Integer))),
    });
    assert_eq!(p.evaluate_type_of_expr(&expr(1, less), &sess, &locals), t.boolean);
    let inner = ExprKind::Parenthesized(Box::new(expr(2, ExprKind::Lit(Literal::Bool))));
    assert_eq!(p.evaluate_type_of_expr(&expr(1, inner), &sess, &locals), t.boolean);
    assert_eq!(p.interner.len(), 5);
}

#[test]
fn a_tuple_gets_the_tuple_of_its_element_types() {
    let (mut p, t) = phase();
    let sess = Session::new();
    let locals = Vec::new();
    let known = ExprKind::Tuple(vec![expr(2, ExprKind::Lit(Literal::Integer)), expr(3, ExprKind::Lit(Literal::Bool))]);
    assert_eq!(p.evaluate_type_of_expr(&expr(1, known), &sess, &locals), t.pair);
    assert_eq!(p.interner.len(), 5);
    let fresh = ExprKind::Tuple(vec![expr(2, ExprKind::Lit(Literal::Str))]);
    let id = p.evaluate_type_of_expr(&expr(1, fresh), &sess, &locals);
    assert_eq!(p.interner.len(), 7);
    match p.interner.get(id) {
        TyKind::Tuple(elements) => {
            assert_eq!(elements.len(), 1);
            assert_eq!(p.interner.get(elements[0]), &TyKind::Prim(PrimTy::Str));
        }
        other => panic!("{:?}", other),
    }
}

#[test]
fn paths_get_the_types_of_what_they_name() {
    let mut table = SymbolTable::new();
    let f = Symbol::intern(&mut table, "f");
    let m = Symbol::intern(&mut table, "m");
    let x = Symbol::intern(&mut table, "x");
    let (mut p, t) = phase();
    let fn_ty = p.interner.intern(TyKind::Fn(vec![t.int], t.boolean));
    let mut sess = Session::new();
    let df = sess.register_item(ItemInfo {
        name: f,
        kind: SessionItemKind::Fn { signature_span: span(0, 5) },
        id: NodeId(50),
        vis: Visibility::Public,
    });
    let dm = sess.register_item(ItemInfo {
        name: m,
        kind: SessionItemKind::InlineMod { signature_span: span(0, 5), items: HashMap::new() },
        id: NodeId(51),
        vis: Visibility::Public,
    });
    p.rcx.tys_by_node.insert(50, fn_ty);
    p.rcx.tys_by_node.insert(40, t.pair);
    let locals = vec![LocalInfo { name: x, defined_where: span(0, 1), id: NodeId(40), mutable: false }];
    p.rcx.name_resolutions.insert(11, Def::Def(df));
    p.rcx.name_resolutions.insert(21, Def::Def(dm));
    p.rcx.name_resolutions.insert(31, Def::Local(LocalId(0)));
    assert_eq!(p.evaluate_type_of_expr(&path_expr(10, f), &sess, &locals), fn_ty);
    assert_eq!(p.evaluate_type_of_expr(&path_expr(20, m), &sess, &locals), t.err);
    assert_eq!(p.evaluate_type_of_expr(&path_expr(30, x), &sess, &locals), t.pair);
    assert_eq!(p.evaluate_type_of_expr(&path_expr(60, x), &sess, &locals), t.err);
}

#[test]
fn a_call_gets_the_return_type_of_its_callee() {
    let (mut p, t) = phase();
    let fn_ty = p.interner.intern(TyKind::Fn(vec![t.int], t.boolean));
    p.rcx.tys_by_node.insert(2, fn_ty);
    p.rcx.tys_by_node.insert(3, t.int);
    let sess = Session::new();
    let locals = Vec::new();
    let call = |callee: usize| {
        expr(1, ExprKind::Call(CallExpr { callee: Box::new(expr(callee, ExprKind::Lit(Literal::Integer))), args: vec![] }))
    };
    assert_eq!(p.evaluate_type_of_expr(&call(2), &sess, &locals), t.boolean);
    assert_eq!(p.evaluate_type_of_expr(&call(3), &sess, &locals), t.err);
    assert_eq!(p.evaluate_type_of_expr(&call(4), &sess, &locals), t.err);
}
