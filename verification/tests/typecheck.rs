use ayuc::ast::{Literal, self, Binding, Expr, ExprKind, LetStmt, Pat, PatKind};
use ayuc::symbol::{Symbol, SymbolTable};
use ayuc::hir::NodeId;
use ayuc::resolve::ty::{PrimTy, Ty, TyKind};
use ayuc::sema::typecheck::{
    check_assign, check_condition, check_let, check_return, missing_types, AssignMismatch, CallArguments, CallMessage,
    LetDiagnostics, ReturnMismatch, TupleMismatch,
};
use ayuc::session::local::LocalInfo;
use ayuc::span::Span;
use ayuc::types::ty::TyId;

fn prim(p: PrimTy) -> Ty {
    Ty { id: TyId::null(), kind: TyKind::Prim(p) }
}

fn integer() -> Ty {
    prim(PrimTy::Integer)
}

fn boolean() -> Ty {
    prim(PrimTy::Boolean)
}

fn string() -> Ty {
    prim(PrimTy::Str)
}

#[test]
fn fitting_arguments_need_no_report() {
    let params = vec![integer(), boolean()];
    let check = CallArguments::check(&params, &vec![integer(), boolean()]);
    assert!(check.missing.is_empty() && check.unexpected.is_empty() && check.incorrect.is_empty());
    assert_eq!(check.message(2, 2), None);
}

#[test]
fn wrongly_typed_arguments() {
    let params = vec![integer(), boolean()];
    let check = CallArguments::check(&params, &vec![integer(), string()]);
    assert_eq!(check.incorrect, vec![1]);
    assert!(check.missing.is_empty() && check.unexpected.is_empty());
    assert_eq!(check.message(2, 2), Some(CallMessage::IncorrectArguments));
}

#[test]
fn missing_arguments() {
    let params = vec![integer(), boolean(), string()];
    let check = CallArguments::check(&params, &vec![string()]);
    assert_eq!(check.incorrect, vec![0]);
    assert_eq!(check.missing, vec![1, 2]);
    assert!(check.unexpected.is_empty());
    assert_eq!(check.message(3, 1), Some(CallMessage::ArgumentCount { params: 3, args: 1 }));
    assert_eq!(missing_types(&params, &check.missing), "`bool` and `str`");
    assert_eq!(missing_types(&params, &vec![0, 1, 2]), "`int`, `bool` and `str`");
}

#[test]
fn unexpected_arguments_hide_missing_ones() {
    let params = vec![integer()];
    let check = CallArguments::check(&params, &vec![integer(), boolean(), string()]);
    assert_eq!(check.unexpected, vec![1, 2]);
    assert!(check.missing.is_empty());
    assert!(check.incorrect.is_empty());
    assert_eq!(check.message(1, 3), Some(CallMessage::ArgumentCount { params: 1, args: 3 }));
}

#[test]
fn compound_argument_types_are_compared_by_shape() {
    let pair = Ty { id: TyId::null(), kind: TyKind::Tuple(vec![integer(), string()]) };
    let same_pair = Ty { id: TyId::null(), kind: TyKind::Tuple(vec![integer(), string()]) };
    let other_pair = Ty { id: TyId::null(), kind: TyKind::Tuple(vec![string(), integer()]) };
    let check = CallArguments::check(&vec![pair.clone(), pair], &vec![same_pair, other_pair]);
    assert_eq!(check.incorrect, vec![1]);
}

fn span(start: usize, end: usize) -> Span {
    Span { start, end }
}

fn leaf(id: usize, start: usize, end: usize) -> Expr {
    Expr { id: NodeId(id), span: span(start, end), kind: ExprKind::Lit(Literal::Integer) }
}

fn tuple(id: usize, start: usize, end: usize, elements: Vec<Expr>) -> Expr {
    Expr { id: NodeId(id), span: span(start, end), kind: ExprKind::Tuple(elements) }
}

fn bind(start: usize, end: usize) -> Pat {
    let mut table = SymbolTable::new();
    let sym = Symbol::intern(&mut table, "x");
    Pat { id: NodeId(0), span: span(start, end), kind: PatKind::Binding(Binding { sym, mutable: false }) }
}

fn tuple_pat(start: usize, end: usize, elements: Vec<Pat>) -> Pat {
    Pat { id: NodeId(0), span: span(start, end), kind: PatKind::Tuple(elements) }
}

#[test]
fn let_with_an_error_type_reports_nothing() {
    let stmt = LetStmt { pat: bind(4, 5), ty: None, init: leaf(1, 8, 9) };
    match check_let(span(0, 10), &stmt, &Ty::error(), &integer()) {
        LetDiagnostics::Tuples(v) => assert!(v.is_empty()),
        other => panic!("unexpected {:?}", other),
    }
    match check_let(span(0, 10), &stmt, &integer(), &Ty::error()) {
        LetDiagnostics::Tuples(v) => assert!(v.is_empty()),
        other => panic!("unexpected {:?}", other),
    }
}

#[test]
fn let_type_mismatch_spans_declaration_and_expression() {
    let stmt = LetStmt { pat: bind(4, 5), ty: Some(ast::Ty { id: NodeId(9), span: span(7, 10) }), init: leaf(1, 13, 17) };
    match check_let(span(0, 18), &stmt, &integer(), &boolean()) {
        LetDiagnostics::TypeMismatch { stmt_span, declared_span, init_span } => {
            assert_eq!(stmt_span, span(0, 18));
            assert_eq!(declared_span, span(0, 10));
            assert_eq!(init_span, span(13, 17));
        }
        other => panic!("unexpected {:?}", other),
    }
    let untyped = LetStmt { pat: bind(4, 5), ty: None, init: leaf(1, 8, 12) };
    match check_let(span(0, 13), &untyped, &integer(), &string()) {
        LetDiagnostics::TypeMismatch { declared_span, .. } => assert_eq!(declared_span, span(0, 5)),
        other => panic!("unexpected {:?}", other),
    }
}

#[test]
fn let_tuple_patterns_of_the_right_size_pass() {
    let stmt = LetStmt {
        pat: tuple_pat(4, 10, vec![bind(5, 6), bind(8, 9)]),
        ty: None,
        init: tuple(1, 13, 19, vec![leaf(2, 14, 15), leaf(3, 17, 18)]),
    };
    match check_let(span(0, 20), &stmt, &integer(), &integer()) {
        LetDiagnostics::Tuples(v) => assert!(v.is_empty()),
        other => panic!("unexpected {:?}", other),
    }
}

#[test]
fn let_tuple_mismatches_outer_then_nested_in_order() {
    // let (a, (b, c, d), (e)) = (1, (2, 3), (4, 5));
    let pat = tuple_pat(
        4,
        30,
        vec![bind(5, 6), tuple_pat(8, 17, vec![bind(9, 10), bind(12, 13), bind(15, 16)]), tuple_pat(19, 22, vec![bind(20, 21)])],
    );
    let init = tuple(
        1,
        33,
        60,
        vec![
            leaf(2, 34, 35),
            tuple(3, 37, 43, vec![leaf(4, 38, 39), leaf(5, 41, 42)]),
            tuple(6, 45, 51, vec![leaf(7, 46, 47), leaf(8, 49, 50)]),
        ],
    );
    let stmt = LetStmt { pat, ty: None, init };
    match check_let(span(0, 61), &stmt, &integer(), &integer()) {
        LetDiagnostics::Tuples(v) => assert_eq!(
            v,
            vec![
                TupleMismatch { pat_span: span(8, 17), tuple_span: span(37, 43), tuple_id: NodeId(3), matched: 2, existing: 3 },
                TupleMismatch { pat_span: span(19, 22), tuple_span: span(45, 51), tuple_id: NodeId(6), matched: 2, existing: 1 },
            ]
        ),
        other => panic!("unexpected {:?}", other),
    }
}

#[test]
fn let_outer_tuple_mismatch_counts_the_pattern_first() {
    // let (a, b, c) = (1, 2);
    let stmt = LetStmt {
        pat: tuple_pat(4, 13, vec![bind(5, 6), bind(8, 9), bind(11, 12)]),
        ty: None,
        init: tuple(1, 16, 22, vec![leaf(2, 17, 18), leaf(3, 20, 21)]),
    };
    match check_let(span(0, 23), &stmt, &integer(), &integer()) {
        LetDiagnostics::Tuples(v) => assert_eq!(
            v,
            vec![TupleMismatch { pat_span: span(4, 13), tuple_span: span(16, 22), tuple_id: NodeId(1), matched: 3, existing: 2 }]
        ),
        other => panic!("unexpected {:?}", other),
    }
}

#[test]
fn conditions_must_be_boolean() {
    assert_eq!(check_condition(span(3, 7), &boolean()), None);
    assert_eq!(check_condition(span(3, 7), &integer()), Some(span(3, 7)));
    assert_eq!(check_condition(span(3, 7), &Ty::error()), Some(span(3, 7)));
}

#[test]
fn a_return_of_another_type_is_reported_at_the_value() {
    assert_eq!(check_return(span(0, 10), span(7, 9), false, &integer(), &integer()), None);
    assert_eq!(
        check_return(span(0, 10), span(7, 9), false, &integer(), &string()),
        Some(ReturnMismatch { stmt_span: span(0, 10), label_span: span(7, 9) })
    );
    assert_eq!(
        check_return(span(0, 10), span(7, 9), true, &integer(), &string()),
        Some(ReturnMismatch { stmt_span: span(0, 10), label_span: span(0, 10) })
    );
}

#[test]
fn an_assignment_of_another_type_is_reported_unless_a_type_is_unknown() {
    let mut table = SymbolTable::new();
    let x = Symbol::intern(&mut table, "x");
    let local = LocalInfo { name: x, defined_where: span(4, 5), id: NodeId(1), mutable: true };
    assert_eq!(check_assign(span(20, 26), &local, span(24, 25), &integer(), &integer()), None);
    assert_eq!(
        check_assign(span(20, 26), &local, span(24, 25), &integer(), &boolean()),
        Some(AssignMismatch { stmt_span: span(20, 26), defined_where: span(4, 5), value_span: span(24, 25) })
    );
    assert_eq!(check_assign(span(20, 26), &local, span(24, 25), &Ty::error(), &boolean()), None);
}
