use ayuc::hir::{NodeId, Package, PackageId};
use ayuc::resolve::def::{Def, DefId};
use ayuc::resolve::resolver::ResolutionContext;
use ayuc::session::item::{ItemInfo, ItemKind, Visibility};
use ayuc::session::Session;
use ayuc::span::Span;
use ayuc::symbol::{Symbol, SymbolTable};
use ayuc::tyctx::TyCtx;
use ayuc::types::interner::TypeInterner;
use ayuc::types::ty::{PrimTy, TyId, TyKind};
use std::collections::HashMap;

#[test]
fn items_keep_their_signature_spans() {
    let mut table = SymbolTable::new();
    let name = Symbol::intern(&mut table, "m");
    let kinds = vec![
        ItemKind::Fn { signature_span: Span { start: 0, end: 5 } },
        ItemKind::ExternFn { ffi_name: Some(name), signature_span: Span { start: 1, end: 6 } },
        ItemKind::InlineMod { signature_span: Span { start: 2, end: 7 }, items: HashMap::new() },
        ItemKind::ExternMod { ffi_name: None, signature_span: Span { start: 3, end: 8 }, items: HashMap::new() },
    ];
    for (i, kind) in kinds.into_iter().enumerate() {
        let info = ItemInfo { name, kind, id: NodeId(i), vis: Visibility::Public };
        assert_eq!(info.signature_span(), Span { start: i, end: i + 5 });
    }
}

#[test]
fn sessions_hand_out_fresh_item_ids() {
    let mut table = SymbolTable::new();
    let a = Symbol::intern(&mut table, "a");
    let b = Symbol::intern(&mut table, "b");
    let mut sess = Session::default();
    let ia = sess.register_item(ItemInfo { name: a, kind: ItemKind::Fn { signature_span: Span { start: 0, end: 1 } }, id: NodeId(0), vis: Visibility::Private });
    let ib = sess.register_item(ItemInfo { name: b, kind: ItemKind::Fn { signature_span: Span { start: 2, end: 3 } }, id: NodeId(1), vis: Visibility::Public });
    assert_ne!(ia, ib);
    assert!(sess.item(ia).name == a);
    assert!(sess.item(ib).name == b);
    assert!(sess.item(ib).vis == Visibility::Public);
    assert!(sess.item(ia).vis == Visibility::Private);
}

#[test]
fn packages_and_package_ids() {
    let mut tcx = TyCtx { packages: Vec::new(), next_package_id: 0 };
    let p0 = tcx.mint_package_id();
    let p1 = tcx.mint_package_id();
    assert_eq!((p0.get(), p1.get()), (0, 1));
    assert_eq!(tcx.next_package_id, 2);
    let id = tcx.register_package(Package { id: p0, items: vec![] });
    assert_eq!(id, p0);
    assert_eq!(tcx.package(PackageId::new(0)).id, p0);
}

#[test]
fn resolution_context_defaults() {
    let mut interner = TypeInterner::default();
    let int_id = interner.intern(TyKind::Prim(PrimTy::Int));
    let mut rcx = ResolutionContext::new(TyId::null());
    assert_eq!(rcx.ty_id_of(NodeId(4)), TyId::null());
    assert!(rcx.is_error(rcx.ty_id_of(NodeId(4))));
    rcx.tys_by_node.insert(4, int_id);
    assert_eq!(rcx.ty_id_of(NodeId(4)), int_id);
    assert!(!rcx.is_error(int_id));
    assert_eq!(rcx.ty_of(NodeId(4), &interner), &TyKind::Prim(PrimTy::Int));
    assert_eq!(rcx.get_name_res(NodeId(2)), Def::Error);
    rcx.name_resolutions.insert(2, Def::Def(DefId(3)));
    assert_eq!(rcx.get_name_res(NodeId(2)), Def::Def(DefId(3)));
}
