use ayuc::hir::{Block, Expression, ExternFn, Function, HirId, Item, Package, PackageId, Statement};
use ayuc::resolve::def::DefId;
use ayuc::sema::build_scope::BuildScopePass;
use ayuc::sema::resolve_names::ResolveNamesPass;
use ayuc::sema::scope::ScopeCtx;
use ayuc::symbol::{Symbol, SymbolTable};

struct Names {
    print: Symbol,
    main: Symbol,
    helper: Symbol,
    missing: Symbol,
    other: Symbol,
}

fn names(table: &mut SymbolTable) -> Names {
    Names {
        print: Symbol::intern(table, "print"),
        main: Symbol::intern(table, "main"),
        helper: Symbol::intern(table, "helper"),
        missing: Symbol::intern(table, "missing"),
        other: Symbol::intern(table, "other"),
    }
}

fn package(n: &Names) -> Package {
    let call = Expression::Call {
        callee: Box::new(Expression::Ident(n.print)),
        args: vec![Expression::Lit, Expression::Ident(n.missing), Expression::Ident(n.helper)],
    };
    Package {
        id: PackageId::new(0),
        items: vec![
            Item::ExternFn(ExternFn { name: n.print, id: DefId(0) }),
            Item::Fn(Function { name: n.main, id: DefId(1), hir_id: HirId(10), block: Block { stmts: vec![Statement::Expr(call)] } }),
            Item::Fn(Function {
                name: n.helper,
                id: DefId(2),
                hir_id: HirId(11),
                block: Block { stmts: vec![Statement::Expr(Expression::Ident(n.other)), Statement::Expr(Expression::Ident(n.main))] },
            }),
        ],
    }
}

#[test]
fn building_binds_items_at_top_level() {
    let mut table = SymbolTable::new();
    let n = names(&mut table);
    let pkg = package(&n);
    let mut pass = BuildScopePass::new(ScopeCtx::default());
    assert!(pass.run(&pkg));
    let ctx = pass.scope_ctx;
    let top = ctx.top_level_scope(PackageId::new(0)).unwrap().id;
    assert_eq!(ctx.lookup(top, n.print), Some(DefId(0)));
    assert_eq!(ctx.lookup(top, n.main), Some(DefId(1)));
    assert_eq!(ctx.lookup(top, n.helper), Some(DefId(2)));
    assert_eq!(ctx.lookup(top, n.missing), None);
    assert!(ctx.top_level_scope(PackageId::new(1)).is_none());
}

#[test]
fn function_scopes_see_the_top_level() {
    let mut table = SymbolTable::new();
    let n = names(&mut table);
    let pkg = package(&n);
    let mut pass = BuildScopePass::new(ScopeCtx::default());
    pass.run(&pkg);
    let ctx = pass.scope_ctx;
    let body = ctx.hir_scope_id(HirId(10)).unwrap();
    assert_eq!(ctx.lookup(body, n.helper), Some(DefId(2)));
    assert_eq!(ctx.lookup(body, n.other), None);
    let scope = ctx.hir_scope(HirId(11)).unwrap();
    let parent = scope.parent(&ctx).unwrap();
    assert_eq!(Some(parent.id), ctx.top_level_scope(PackageId::new(0)).map(|s| s.id));
    assert!(ctx.hir_scope(HirId(12)).is_none());
}

#[test]
fn building_twice_changes_nothing() {
    let mut table = SymbolTable::new();
    let n = names(&mut table);
    let pkg = package(&n);
    let mut pass = BuildScopePass::new(ScopeCtx::default());
    assert!(pass.run(&pkg));
    assert!(!pass.run(&pkg));
    let ctx = pass.scope_ctx;
    let top = ctx.top_level_scope(PackageId::new(0)).unwrap().id;
    assert_eq!(ctx.lookup(top, n.main), Some(DefId(1)));
}

#[test]
fn unresolved_identifiers_are_reported_in_order() {
    let mut table = SymbolTable::new();
    let n = names(&mut table);
    let pkg = package(&n);
    let mut pass = BuildScopePass::new(ScopeCtx::default());
    pass.run(&pkg);
    let ctx = pass.scope_ctx;
    let unresolved = ResolveNamesPass::new(&ctx).run(&pkg);
    assert_eq!(unresolved, vec![n.missing, n.other]);
}

#[test]
fn later_items_shadow_earlier_ones() {
    let mut table = SymbolTable::new();
    let n = names(&mut table);
    let pkg = Package {
        id: PackageId::new(3),
        items: vec![
            Item::ExternFn(ExternFn { name: n.print, id: DefId(4) }),
            Item::ExternFn(ExternFn { name: n.print, id: DefId(5) }),
        ],
    };
    let mut pass = BuildScopePass::new(ScopeCtx::default());
    pass.run(&pkg);
    let ctx = pass.scope_ctx;
    let top = ctx.top_level_scope(PackageId::new(3)).unwrap().id;
    assert_eq!(ctx.lookup(top, n.print), Some(DefId(5)));
}

#[test]
fn scopes_by_hand() {
    let mut table = SymbolTable::new();
    let n = names(&mut table);
    let mut ctx = ScopeCtx::default();
    let top = ctx.enter_top_level_scope(PackageId::new(0));
    let inner = ctx.enter_scope(top);
    let innermost = ctx.enter_scope(inner);
    assert_eq!(ctx.register(top, n.main, DefId(1)), None);
    assert_eq!(ctx.register(inner, n.main, DefId(2)), None);
    assert_eq!(ctx.register(inner, n.main, DefId(3)), Some(DefId(2)));
    assert_eq!(ctx.lookup(innermost, n.main), Some(DefId(3)));
    assert_eq!(ctx.lookup(top, n.main), Some(DefId(1)));
    ctx.attach_scope(innermost, HirId(1));
    assert_eq!(ctx.hir_scope_id(HirId(1)), Some(innermost));
    assert_eq!(ctx.scope(inner).parent, Some(top));
    assert!(ctx.scope(top).parent.is_none());
    ctx.scope_mut(innermost).definitions.insert(n.main.as_index(), DefId(9));
    assert_eq!(ctx.lookup(innermost, n.main), Some(DefId(9)));
}
