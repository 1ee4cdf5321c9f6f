use ayuc::ast::{Ast, ExternFnItem, FnItem, Ident, Item, ItemKind, ModItem, Ty, Visibility};
use ayuc::hir::NodeId;
use ayuc::resolve::def::Def;
use ayuc::resolve::name_res::FirstPass;
use ayuc::resolve::resolver::ResolutionContext;
use ayuc::resolve::scope::ScopeStack;
use ayuc::session::item::{ItemKind as SessionItemKind, Visibility as SessionVisibility};
use ayuc::session::Session;
use ayuc::span::Span;
use ayuc::symbol::{Symbol, SymbolTable};
use ayuc::types::ty::TyId;

fn pass() -> FirstPass {
    FirstPass {
        stack: ScopeStack::new(),
        sess: Session::new(),
        rcx: ResolutionContext::new(TyId::null()),
        file_id: 4,
        diagnostics: Vec::new(),
    }
}

fn ident(sym: Symbol, start: usize) -> Ident {
    Ident { sym, span: Span { start, end: start + 1 } }
}

fn function(id: usize, sym: Symbol, start: usize) -> Item {
    Item {
        id: NodeId(id),
        span: Span { start, end: start + 20 },
        vis: Visibility::Private,
        kind: ItemKind::Fn(FnItem { ident: ident(sym, start + 3), return_ty: Ty { id: NodeId(0), span: Span { start: start + 8, end: start + 11 } } }),
    }
}

#[test]
fn items_are_registered_and_bound() {
    let mut table = SymbolTable::new();
    let a = Symbol::intern(&mut table, "a");
    let b = Symbol::intern(&mut table, "b");
    let mut p = pass();
    p.visit_ast(&Ast { items: vec![function(1, a, 0), function(2, b, 30)] });
    let da = match p.stack.lookup(a) {
        Some(Def::Def(d)) => d,
        other => panic!("{:?}", other),
    };
    let db = match p.stack.lookup(b) {
        Some(Def::Def(d)) => d,
        other => panic!("{:?}", other),
    };
    assert_ne!(da, db);
    assert!(p.sess.item(da).name == a);
    assert_eq!(p.sess.item(da).id, NodeId(1));
    assert_eq!(p.sess.item(db).signature_span(), Span { start: 30, end: 41 });
    assert!(p.sess.item(db).vis == SessionVisibility::Private);
    assert_eq!(p.rcx.defs_by_node.get(&2), Some(&db));
    assert!(p.diagnostics.is_empty());
}

#[test]
fn a_second_definition_is_reported() {
    let mut table = SymbolTable::new();
    let a = Symbol::intern(&mut table, "a");
    let mut p = pass();
    let first = p.visit_item(&function(1, a, 0));
    assert!(first.is_some());
    let second = p.visit_item(&function(2, a, 40));
    assert!(second.is_none());
    assert_eq!(p.diagnostics.len(), 1);
    let diag = p.diagnostics[0];
    assert_eq!(diag.file_id, 4);
    assert!(diag.name == a);
    assert_eq!(diag.span, Span { start: 43, end: 44 });
    assert_eq!(diag.first_definition, Some(Span { start: 0, end: 11 }));
    assert_eq!(p.stack.lookup(a), Some(Def::Def(first.unwrap())));
    assert!(p.rcx.defs_by_node.get(&2).is_none());
}

#[test]
fn a_local_of_the_same_name_is_reported_without_a_first_definition() {
    let mut table = SymbolTable::new();
    let a = Symbol::intern(&mut table, "a");
    let mut p = pass();
    p.stack.register_local(a, ayuc::resolve::def::LocalId(0));
    assert!(p.visit_item(&function(1, a, 0)).is_none());
    assert_eq!(p.diagnostics[0].first_definition, None);
}

#[test]
fn module_members_get_a_scope_of_their_own() {
    let mut table = SymbolTable::new();
    let m = Symbol::intern(&mut table, "m");
    let x = Symbol::intern(&mut table, "x");
    let y = Symbol::intern(&mut table, "y");
    let module = Item {
        id: NodeId(10),
        span: Span { start: 0, end: 100 },
        vis: Visibility::Public,
        kind: ItemKind::InlineMod(ModItem {
            ident: ident(m, 4),
            items: vec![function(11, x, 10), function(12, y, 40), function(13, x, 70)],
        }),
    };
    let mut p = pass();
    let dm = p.visit_item(&module).unwrap();
    assert_eq!(p.stack.lookup(m), Some(Def::Def(dm)));
    assert_eq!(p.stack.lookup(x), None);
    let info = p.sess.item(dm);
    assert_eq!(info.signature_span(), Span { start: 0, end: 5 });
    assert!(info.vis == SessionVisibility::Public);
    let members = match &info.kind {
        SessionItemKind::InlineMod { items, .. } => items.clone(),
        _ => panic!("not a module"),
    };
    assert_eq!(members.len(), 2);
    let dx = members[&x.as_index()];
    assert_eq!(p.sess.item(dx).id, NodeId(11));
    assert_eq!(p.sess.item(members[&y.as_index()]).id, NodeId(12));
    assert_eq!(p.diagnostics.len(), 1);
    assert_eq!(p.diagnostics[0].first_definition, Some(Span { start: 10, end: 21 }));
}

#[test]
fn extern_functions_keep_their_host_names() {
    let mut table = SymbolTable::new();
    let to_string = Symbol::intern(&mut table, "to_string");
    let tostring = Symbol::intern(&mut table, "tostring");
    let item = Item {
        id: NodeId(1),
        span: Span { start: 0, end: 40 },
        vis: Visibility::Private,
        kind: ItemKind::ExternFn(ExternFnItem {
            name: ident(to_string, 10),
            ffi_name: Some(ident(tostring, 3)),
            return_ty: Ty { id: NodeId(0), span: Span { start: 30, end: 33 } },
        }),
    };
    let mut p = pass();
    let d = p.visit_item(&item).unwrap();
    match &p.sess.item(d).kind {
        SessionItemKind::ExternFn { ffi_name, signature_span } => {
            assert!(*ffi_name == Some(tostring));
            assert_eq!(*signature_span, Span { start: 0, end: 33 });
        }
        _ => panic!("not an extern function"),
    }
}
