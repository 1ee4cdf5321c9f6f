use ayuc::ast::{Ast, FnItem, Ident, Item, ItemKind, ModItem, Path, PathSegment, Ty, Visibility};
use ayuc::hir::NodeId;
use ayuc::resolve::def::{Def, LocalId};
use ayuc::resolve::name_res::FirstPass;
use ayuc::resolve::path_res::{PathError, SecondPass};
use ayuc::resolve::resolver::ResolutionContext;
use ayuc::resolve::scope::ScopeStack;
use ayuc::session::Session;
use ayuc::span::Span;
use ayuc::symbol::{Symbol, SymbolTable};
use ayuc::types::ty::TyId;

fn ident(sym: Symbol, start: usize) -> Ident {
    Ident { sym, span: Span { start, end: start + 1 } }
}

fn function(id: usize, sym: Symbol, start: usize, vis: Visibility) -> Item {
    Item {
        id: NodeId(id),
        span: Span { start, end: start + 20 },
        vis,
        kind: ItemKind::Fn(FnItem { ident: ident(sym, start + 3), return_ty: Ty { id: NodeId(0), span: Span { start: start + 8, end: start + 11 } } }),
    }
}

struct Names {
    m: Symbol,
    open: Symbol,
    hidden: Symbol,
    missing: Symbol,
    local: Symbol,
}

/// A file with a module `m` holding a public `open` and a private `hidden`, after the
/// first pass.
fn resolved() -> (SecondPass, Names) {
    let mut table = SymbolTable::new();
    let names = Names {
        m: Symbol::intern(&mut table, "m"),
        open: Symbol::intern(&mut table, "open"),
        hidden: Symbol::intern(&mut table, "hidden"),
        missing: Symbol::intern(&mut table, "missing"),
        local: Symbol::intern(&mut table, "local"),
    };
    let module = Item {
        id: NodeId(10),
        span: Span { start: 0, end: 100 },
        vis: Visibility::Public,
        kind: ItemKind::InlineMod(ModItem {
            ident: ident(names.m, 4),
            items: vec![function(11, names.open, 10, Visibility::Public), function(12, names.hidden, 40, Visibility::Private)],
        }),
    };
    let mut first = FirstPass {
        stack: ScopeStack::new(),
        sess: Session::new(),
        rcx: ResolutionContext::new(TyId::null()),
        file_id: 7,
        diagnostics: Vec::new(),
    };
    first.visit_ast(&Ast { items: vec![module] });
    assert!(first.diagnostics.is_empty());
    let second = SecondPass::new(first);
    assert_eq!(second.file_id, 7);
    assert!(second.diagnostics.is_empty());
    (second, names)
}

fn path(id: usize, syms: &[Symbol]) -> Path {
    let segments = syms
        .iter()
        .enumerate()
        .map(|(i, s)| PathSegment { id: NodeId(id + 1 + i), ident: ident(*s, 200 + 10 * i) })
        .collect();
    Path { id: NodeId(id), span: Span { start: 200, end: 200 + 10 * syms.len() }, segments }
}

#[test]
fn a_public_member_resolves_with_its_qualified_path() {
    let (mut p, n) = resolved();
    let dm = match p.stack.lookup(n.m) {
        Some(Def::Def(d)) => d,
        other => panic!("{:?}", other),
    };
    p.visit_path(&path(100, &[n.m, n.open]));
    assert!(p.diagnostics.is_empty());
    let target = p.rcx.name_resolutions[&102];
    let d_open = match target {
        Def::Def(d) => d,
        other => panic!("{:?}", other),
    };
    assert!(p.sess.item(d_open).name == n.open);
    assert_eq!(p.rcx.name_resolutions[&101], Def::Def(dm));
    assert_eq!(p.rcx.name_resolutions[&100], target);
    assert_eq!(p.rcx.qualified_paths[&100], vec![Def::Def(dm), target]);
}

#[test]
fn a_private_member_is_refused_outside_its_module() {
    let (mut p, n) = resolved();
    p.visit_path(&path(100, &[n.m, n.hidden]));
    assert_eq!(p.diagnostics.len(), 1);
    match p.diagnostics[0] {
        PathError::PrivateMember { file_id, span, member, module, definition } => {
            assert_eq!(file_id, 7);
            assert_eq!(span, Span { start: 210, end: 211 });
            assert!(member == n.hidden && module == n.m);
            assert_eq!(definition, Span { start: 40, end: 51 });
        }
        other => panic!("{:?}", other),
    }
    assert_eq!(p.rcx.name_resolutions[&102], Def::Error);
    assert_eq!(p.rcx.name_resolutions[&100], Def::Error);
    assert!(p.rcx.qualified_paths.get(&100).is_none());
}

#[test]
fn a_private_member_in_scope_resolves() {
    let (mut p, n) = resolved();
    let dm = match p.stack.lookup(n.m) {
        Some(Def::Def(d)) => d,
        other => panic!("{:?}", other),
    };
    let hidden = match p.sess.item(dm).kind {
        ayuc::session::item::ItemKind::InlineMod { ref items, .. } => items[&n.hidden.as_index()],
        _ => panic!("not a module"),
    };
    p.stack.enter(Some(dm));
    p.stack.register_def(n.hidden, hidden);
    assert!(p.stack.is_in_scope(&Def::Def(hidden)));
    p.visit_path(&path(100, &[n.m, n.hidden]));
    assert!(p.diagnostics.is_empty());
    assert_eq!(p.rcx.name_resolutions[&100], Def::Def(hidden));
}

#[test]
fn an_unknown_member_is_reported_and_the_walk_stops() {
    let (mut p, n) = resolved();
    p.visit_path(&path(100, &[n.m, n.missing, n.open]));
    assert_eq!(p.diagnostics.len(), 1);
    match p.diagnostics[0] {
        PathError::UnknownMember { file_id, span, member, module } => {
            assert_eq!(file_id, 7);
            assert_eq!(span, Span { start: 210, end: 211 });
            assert!(member == n.missing && module == n.m);
        }
        other => panic!("{:?}", other),
    }
    assert_eq!(p.rcx.name_resolutions[&102], Def::Error);
    assert!(p.rcx.name_resolutions.get(&103).is_none());
    assert_eq!(p.rcx.name_resolutions[&100], Def::Error);
}

#[test]
fn a_member_of_a_function_is_an_error_without_report() {
    let (mut p, n) = resolved();
    p.visit_path(&path(100, &[n.m, n.open, n.open]));
    assert!(p.diagnostics.is_empty());
    assert_eq!(p.rcx.name_resolutions[&103], Def::Error);
    assert_eq!(p.rcx.name_resolutions[&100], Def::Error);
    assert!(p.rcx.qualified_paths.get(&100).is_none());
}

#[test]
fn an_unknown_first_segment_is_unresolved() {
    let (mut p, n) = resolved();
    p.visit_path(&path(100, &[n.missing]));
    match p.diagnostics[..] {
        [PathError::Unresolved { file_id: 7, span, sym }] => {
            assert_eq!(span, Span { start: 200, end: 201 });
            assert!(sym == n.missing);
        }
        ref other => panic!("{:?}", other),
    }
    assert!(p.rcx.name_resolutions.is_empty());
}

#[test]
fn a_local_resolves_without_qualified_path() {
    let (mut p, n) = resolved();
    p.stack.enter(None);
    p.stack.register_local(n.local, LocalId(3));
    p.visit_path(&path(100, &[n.local]));
    assert_eq!(p.rcx.name_resolutions[&101], Def::Local(LocalId(3)));
    assert_eq!(p.rcx.name_resolutions[&100], Def::Local(LocalId(3)));
    assert!(p.rcx.qualified_paths.is_empty());
    assert!(p.diagnostics.is_empty());
}

#[test]
fn identifiers_resolve_in_scope_or_are_reported() {
    let (mut p, n) = resolved();
    let dm = p.stack.lookup(n.m).unwrap();
    p.visit_identifier(NodeId(300), &ident(n.m, 50));
    assert_eq!(p.rcx.name_resolutions[&300], dm);
    assert!(p.diagnostics.is_empty());
    p.visit_identifier(NodeId(301), &ident(n.missing, 60));
    assert_eq!(p.rcx.name_resolutions[&301], Def::Error);
    match p.diagnostics[..] {
        [PathError::Unresolved { file_id: 7, span, sym }] => {
            assert_eq!(span, Span { start: 60, end: 61 });
            assert!(sym == n.missing);
        }
        ref other => panic!("{:?}", other),
    }
}
