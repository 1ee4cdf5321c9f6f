use ayuc::resolve::def::{Def, DefId, LocalId};
use ayuc::resolve::scope::{Scope, ScopeStack};
use ayuc::resolve::ty::{PrimTy, Ty, TyKind};
use ayuc::symbol::{Symbol, SymbolTable};
use ayuc::types::ty::TyId;

#[test]
fn interning_gives_one_symbol_per_string() {
    let mut table = SymbolTable::new();
    assert_eq!(table.len(), 0);
    let a = Symbol::intern(&mut table, "alpha");
    let b = Symbol::intern(&mut table, "beta");
    let a2 = Symbol::intern(&mut table, "alpha");
    assert_eq!(a, a2);
    assert_ne!(a, b);
    assert_eq!(a.as_index(), 0);
    assert_eq!(b.as_index(), 1);
    assert_eq!(a.as_str(&table), "alpha");
    assert_eq!(b.as_str(&table), "beta");
    let empty = Symbol::intern(&mut table, "");
    assert_eq!(empty.as_str(&table), "");
    assert_eq!(empty.as_index(), 2);
    assert_eq!(table.len(), 3);
}

#[test]
fn scope_stack_shadows_and_unwinds() {
    let mut table = SymbolTable::new();
    let x = Symbol::intern(&mut table, "x");
    let y = Symbol::intern(&mut table, "y");
    let mut stack = ScopeStack::default();
    assert_eq!(stack.lookup(x), None);
    stack.register_def(x, DefId(1));
    assert_eq!(stack.lookup(x), Some(Def::Def(DefId(1))));
    stack.enter(Some(DefId(1)));
    assert_eq!(stack.lookup(x), Some(Def::Def(DefId(1))));
    stack.register_local(x, LocalId(7));
    stack.register_local(y, LocalId(8));
    assert_eq!(stack.lookup(x), Some(Def::Local(LocalId(7))));
    assert_eq!(stack.current().lookup(y), Some(Def::Local(LocalId(8))));
    stack.leave();
    assert_eq!(stack.lookup(x), Some(Def::Def(DefId(1))));
    assert_eq!(stack.lookup(y), None);
    // Leaving the top-level scope does nothing.
    stack.leave();
    assert_eq!(stack.lookup(x), Some(Def::Def(DefId(1))));
}

#[test]
fn lookup_path_gives_the_definitions_entered() {
    let mut table = SymbolTable::new();
    let f = Symbol::intern(&mut table, "f");
    let g = Symbol::intern(&mut table, "g");
    let mut stack = ScopeStack::new();
    stack.register_def(f, DefId(0));
    stack.enter(Some(DefId(0)));
    stack.enter(None);
    stack.enter(Some(DefId(5)));
    stack.register_def(g, DefId(9));
    let (def, path) = stack.lookup_path(g).unwrap();
    assert_eq!(def, Def::Def(DefId(9)));
    assert_eq!(path, vec![Def::Def(DefId(0)), Def::Def(DefId(5)), Def::Def(DefId(9))]);
    let (def, path) = stack.lookup_path(f).unwrap();
    assert_eq!(def, Def::Def(DefId(0)));
    assert_eq!(path, vec![Def::Def(DefId(0))]);
    assert!(stack.lookup_path(Symbol::intern(&mut table, "h")).is_none());
}

#[test]
fn scopes_build_paths() {
    let scope = Scope::with_path(vec![Some(DefId(1)), None, Some(DefId(2))]);
    assert_eq!(scope.build_path(Def::Error), vec![Def::Def(DefId(1)), Def::Def(DefId(2)), Def::Error]);
    assert_eq!(Scope::default().build_path(Def::Local(LocalId(3))), vec![Def::Local(LocalId(3))]);
}

#[test]
fn primitive_types_by_name() {
    let mut table = SymbolTable::new();
    let names = ["bool", "int", "str", "float", "Int"];
    let syms: Vec<Symbol> = names.iter().map(|n| Symbol::intern(&mut table, n)).collect();
    assert_eq!(PrimTy::from_name(syms[0], &table), Some(PrimTy::Boolean));
    assert_eq!(PrimTy::from_name(syms[1], &table), Some(PrimTy::Integer));
    assert_eq!(PrimTy::from_name(syms[2], &table), Some(PrimTy::Str));
    assert_eq!(PrimTy::from_name(syms[3], &table), None);
    assert_eq!(PrimTy::from_name(syms[4], &table), None);
}

fn prim(p: PrimTy) -> Ty {
    Ty { id: TyId::null(), kind: TyKind::Prim(p) }
}

#[test]
fn resolved_types_print() {
    let pair = Ty { id: TyId::null(), kind: TyKind::Tuple(vec![prim(PrimTy::Integer), prim(PrimTy::Boolean)]) };
    let f = Ty { id: TyId::null(), kind: TyKind::Fn(vec![prim(PrimTy::Str)], Box::new(pair.clone())) };
    assert_eq!(f.to_string(), "(str) -> (int, bool)");
    assert_eq!(Ty::error().to_string(), "<error>");
    assert_eq!(Ty { id: TyId::null(), kind: TyKind::Tuple(vec![]) }.to_string(), "()");
    assert_eq!(pair.kind.to_string(), "(int, bool)");
}

#[test]
fn resolved_type_predicates() {
    let unit = Ty { id: TyId::null(), kind: TyKind::Tuple(vec![]) };
    assert!(unit.is_unit());
    assert!(!prim(PrimTy::Integer).is_unit());
    assert!(Ty::error().is_error());
    assert!(Ty::default().is_error());
    assert!(TyKind::Error.is_error());
    assert!(!unit.is_error());
}

#[test]
fn type_equality_looks_at_kinds_only() {
    let mut interner = ayuc::types::interner::TypeInterner::default();
    let some_id = interner.intern(ayuc::types::ty::TyKind::Prim(ayuc::types::ty::PrimTy::Int));
    let a = Ty { id: some_id, kind: TyKind::Prim(PrimTy::Integer) };
    let b = prim(PrimTy::Integer);
    assert!(a == b);
    assert!(a != prim(PrimTy::Str));
    let f1 = Ty { id: some_id, kind: TyKind::Fn(vec![a.clone()], Box::new(b.clone())) };
    let f2 = Ty { id: TyId::null(), kind: TyKind::Fn(vec![b.clone()], Box::new(a.clone())) };
    let f3 = Ty { id: TyId::null(), kind: TyKind::Fn(vec![b.clone(), b.clone()], Box::new(a.clone())) };
    assert!(f1 == f2);
    assert!(f1 != f3);
    assert!(f1 == f1.clone());
    assert!(f2 == f1);
    assert_eq!(f1.clone().to_string(), f1.to_string());
    assert!(TyKind::Error == TyKind::Error);
    assert!(TyKind::Tuple(vec![]) != TyKind::Error);
}
