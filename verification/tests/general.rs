use ayuc::ast::{Literal, Binding, ExternModItem, FnItem, Ident, LetStmt, Pat, PatKind, Ty as AstTy, Expr, ExprKind};
use ayuc::hir::NodeId;
use ayuc::sema::flow::{BreakOutsideLoop, FlowAnalysisPhase};
use ayuc::sema::general::{check_let_bindings, DuplicateBinding, GeneralDiagnostic, GeneralPhase, NonExternItem};
use ayuc::resolve::def::{Def, LocalId};
use ayuc::resolve::resolver::ResolutionContext;
use ayuc::sema::mutability::{check_mutability, ImmutableAssign, MutabilityAnalysisPhase};
use ayuc::types::ty::TyId;
use ayuc::session::local::LocalInfo;
use ayuc::span::Span;
use ayuc::symbol::{Symbol, SymbolTable};

fn span(start: usize, end: usize) -> Span {
    Span { start, end }
}

fn bind(sym: Symbol, start: usize) -> Pat {
    Pat { id: NodeId(0), span: span(start, start + 1), kind: PatKind::Binding(Binding { sym, mutable: false }) }
}

fn tuple(start: usize, end: usize, elements: Vec<Pat>) -> Pat {
    Pat { id: NodeId(0), span: span(start, end), kind: PatKind::Tuple(elements) }
}

#[test]
fn a_name_bound_twice_is_reported_against_the_first() {
    let mut table = SymbolTable::new();
    let a = Symbol::intern(&mut table, "a");
    let b = Symbol::intern(&mut table, "b");
    // (a, b, a)
    let pat = tuple(0, 9, vec![bind(a, 1), bind(b, 4), bind(a, 7)]);
    assert_eq!(
        check_let_bindings(&pat, &table),
        vec![DuplicateBinding { pat_span: span(0, 9), name: a, first: span(1, 2), second: span(7, 8) }]
    );
}

#[test]
fn nested_bindings_are_reported_in_the_order_they_start() {
    let mut table = SymbolTable::new();
    let a = Symbol::intern(&mut table, "a");
    // (a, (a, a))
    let pat = tuple(0, 12, vec![bind(a, 1), tuple(4, 11, vec![bind(a, 5), bind(a, 8)])]);
    assert_eq!(
        check_let_bindings(&pat, &table),
        vec![
            DuplicateBinding { pat_span: span(0, 12), name: a, first: span(1, 2), second: span(5, 6) },
            DuplicateBinding { pat_span: span(0, 12), name: a, first: span(1, 2), second: span(8, 9) },
        ]
    );
}

#[test]
fn each_name_is_reported_once_the_last_bound_first() {
    let mut table = SymbolTable::new();
    let a = Symbol::intern(&mut table, "a");
    let b = Symbol::intern(&mut table, "b");
    // (a, b, a, b)
    let pat = tuple(0, 12, vec![bind(a, 1), bind(b, 4), bind(a, 7), bind(b, 10)]);
    assert_eq!(
        check_let_bindings(&pat, &table),
        vec![
            DuplicateBinding { pat_span: span(0, 12), name: b, first: span(4, 5), second: span(10, 11) },
            DuplicateBinding { pat_span: span(0, 12), name: a, first: span(1, 2), second: span(7, 8) },
        ]
    );
}

#[test]
fn the_underscore_and_single_bindings_are_never_reported() {
    let mut table = SymbolTable::new();
    let discard = Symbol::intern(&mut table, "_");
    let a = Symbol::intern(&mut table, "a");
    let pat = tuple(0, 9, vec![bind(discard, 1), bind(a, 4), bind(discard, 7)]);
    assert!(check_let_bindings(&pat, &table).is_empty());
    assert!(check_let_bindings(&bind(a, 0), &table).is_empty());
}

#[test]
fn the_phase_reports_duplicates_of_a_let() {
    let mut table = SymbolTable::new();
    let a = Symbol::intern(&mut table, "a");
    let mut phase = GeneralPhase::new(2);
    let stmt = LetStmt {
        pat: tuple(4, 10, vec![bind(a, 5), bind(a, 8)]),
        ty: None,
        init: Expr { id: NodeId(1), span: span(13, 14), kind: ExprKind::Lit(Literal::Integer) },
    };
    phase.visit_let_stmt(&stmt, &table);
    assert_eq!(
        phase.diagnostics,
        vec![GeneralDiagnostic::DuplicateBinding(DuplicateBinding { pat_span: span(4, 10), name: a, first: span(5, 6), second: span(8, 9) })]
    );
}

fn fun(sym: Symbol) -> FnItem {
    FnItem { ident: Ident { sym, span: span(33, 34) }, return_ty: AstTy { id: NodeId(0), span: span(38, 41) } }
}

#[test]
fn a_function_with_a_body_in_an_extern_module_is_reported() {
    let mut table = SymbolTable::new();
    let host = Symbol::intern(&mut table, "host");
    let f = Symbol::intern(&mut table, "f");
    let module = ExternModItem { ident: Ident { sym: host, span: span(11, 15) }, ffi_name: None, block_span: span(16, 60), items: vec![] };
    let mut phase = GeneralPhase::new(2);
    let outer = phase.enter_item(span(0, 60));
    let previous = phase.enter_extern_mod(&module);
    assert_eq!(phase.extern_mod, Some((span(0, 17), span(59, 60))));
    let module_item = phase.enter_item(span(30, 50));
    phase.visit_fn_item(&fun(f));
    phase.leave_item(module_item);
    phase.leave_extern_mod(previous);
    phase.leave_item(outer);
    assert_eq!(
        phase.diagnostics,
        vec![GeneralDiagnostic::NonExternItem(NonExternItem {
            signature_span: span(30, 41),
            name: f,
            block_start: span(0, 17),
            block_end: span(59, 60),
        })]
    );
    assert_eq!(phase.extern_mod, None);
    assert_eq!(phase.item_span, None);
}

#[test]
fn a_function_outside_extern_modules_passes() {
    let mut table = SymbolTable::new();
    let f = Symbol::intern(&mut table, "f");
    let mut phase = GeneralPhase::new(2);
    phase.enter_item(span(30, 50));
    phase.visit_fn_item(&fun(f));
    assert!(phase.diagnostics.is_empty());
}

#[test]
fn assigning_an_immutable_variable_is_reported() {
    let mut table = SymbolTable::new();
    let x = Symbol::intern(&mut table, "x");
    let fixed = LocalInfo { name: x, defined_where: span(4, 5), id: NodeId(1), mutable: false };
    assert_eq!(
        check_mutability(span(20, 26), &fixed),
        Some(ImmutableAssign { stmt_span: span(20, 26), name: x, defined_where: span(4, 5) })
    );
    let free = LocalInfo { name: x, defined_where: span(4, 5), id: NodeId(1), mutable: true };
    assert_eq!(check_mutability(span(20, 26), &free), None);
}

#[test]
fn a_break_outside_loops_is_reported_and_inside_one_is_not() {
    let mut flow = FlowAnalysisPhase::new(3);
    flow.visit_break_stmt();
    assert!(flow.diagnostics.is_empty());
    let outer = flow.enter_stmt(span(0, 6));
    flow.visit_break_stmt();
    assert_eq!(flow.diagnostics, vec![BreakOutsideLoop { file_id: 3, span: span(0, 6) }]);
    flow.leave_stmt(outer);
    flow.enter_loop();
    let inner = flow.enter_stmt(span(10, 16));
    flow.visit_break_stmt();
    flow.leave_stmt(inner);
    flow.leave_loop();
    assert_eq!(flow.diagnostics.len(), 1);
    let after = flow.enter_stmt(span(20, 26));
    flow.visit_break_stmt();
    flow.leave_stmt(after);
    assert_eq!(flow.diagnostics.len(), 2);
    assert_eq!(flow.flow_depth, 0);
}

#[test]
fn the_phase_reports_assignments_to_immutable_locals_only() {
    let mut table = SymbolTable::new();
    let x = Symbol::intern(&mut table, "x");
    let y = Symbol::intern(&mut table, "y");
    let locals = vec![
        LocalInfo { name: x, defined_where: span(4, 5), id: NodeId(1), mutable: false },
        LocalInfo { name: y, defined_where: span(14, 15), id: NodeId(2), mutable: true },
    ];
    let mut rcx = ResolutionContext::new(TyId::null());
    rcx.name_resolutions.insert(30, Def::Local(LocalId(0)));
    rcx.name_resolutions.insert(31, Def::Local(LocalId(1)));
    let mut phase = MutabilityAnalysisPhase::new(&rcx, &locals, 6);
    let outer = phase.enter_stmt(span(20, 26));
    phase.visit_assign_stmt(NodeId(30));
    phase.visit_assign_stmt(NodeId(31));
    phase.visit_assign_stmt(NodeId(32));
    phase.leave_stmt(outer);
    assert_eq!(phase.diagnostics, vec![ImmutableAssign { stmt_span: span(20, 26), name: x, defined_where: span(4, 5) }]);
    assert_eq!(phase.stmt_span, None);
}
