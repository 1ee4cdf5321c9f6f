use ayuc::types::interner::TypeInterner;
use ayuc::types::ty::{IsUnitExt, PrimTy, TyId, TyKind};

#[test]
fn test_primitives() {
    let mut interner = TypeInterner::default();

    let int_id1 = interner.intern(TyKind::Prim(PrimTy::Int));
    let int_id2 = interner.intern(TyKind::Prim(PrimTy::Int));
    let bool_id = interner.intern(TyKind::Prim(PrimTy::Bool));

    assert_eq!(int_id1, int_id2);
    assert_ne!(int_id1, bool_id);

    assert_eq!(interner.get(int_id1), &TyKind::Prim(PrimTy::Int));
    assert_eq!(interner.get(bool_id), &TyKind::Prim(PrimTy::Bool));
}

#[test]
fn test_tuple() {
    let mut interner = TypeInterner::default();

    let int_id = interner.intern(TyKind::Prim(PrimTy::Int));
    let bool_id = interner.intern(TyKind::Prim(PrimTy::Bool));

    let tuple_id1 = interner.intern(TyKind::Tuple(vec![int_id, bool_id]));
    let tuple_id2 = interner.intern(TyKind::Tuple(vec![int_id, bool_id]));
    let different_tuple = interner.intern(TyKind::Tuple(vec![bool_id, int_id]));

    assert_eq!(tuple_id1, tuple_id2);
    assert_ne!(tuple_id1, different_tuple);

    assert_eq!(
        interner.get(tuple_id1),
        &TyKind::Tuple(vec![int_id, bool_id])
    );
}

#[test]
fn test_fn() {
    let mut interner = TypeInterner::default();

    let int_id = interner.intern(TyKind::Prim(PrimTy::Int));
    let str_id = interner.intern(TyKind::Prim(PrimTy::Str));

    let fn_id1 = interner.intern(TyKind::Fn(vec![int_id], str_id));
    let fn_id2 = interner.intern(TyKind::Fn(vec![int_id], str_id));
    let fn_id3 = interner.intern(TyKind::Fn(vec![str_id, int_id], int_id));
    let fn_id4 = interner.intern(TyKind::Fn(vec![str_id, int_id], int_id));

    assert_eq!(fn_id1, fn_id2);
    assert_ne!(fn_id1, fn_id3);
    assert_eq!(fn_id3, fn_id4);

    assert_eq!(interner.get(fn_id1), &TyKind::Fn(vec![int_id], str_id));
}

#[test]
fn interning_hands_out_ids_in_order() {
    let mut interner = TypeInterner::default();
    assert_eq!(interner.len(), 0);
    let a = interner.intern(TyKind::Prim(PrimTy::Bool));
    let b = interner.intern(TyKind::Prim(PrimTy::Int));
    let a2 = interner.intern(TyKind::Prim(PrimTy::Bool));
    assert_eq!(a, a2);
    assert_ne!(a, b);
    assert_eq!(interner.len(), 2);
    assert_eq!(interner.get(b), &TyKind::Prim(PrimTy::Int));
}

#[test]
fn unit_is_the_empty_tuple() {
    let mut interner = TypeInterner::default();
    let unit = interner.intern(TyKind::Tuple(vec![]));
    let int_id = interner.intern(TyKind::Prim(PrimTy::Int));
    let pair = interner.intern(TyKind::Tuple(vec![int_id]));
    assert!(interner.get(unit).is_unit());
    assert!(!interner.get(pair).is_unit());
    assert!(!interner.get(int_id).is_unit());
    assert!(unit.is_unit(&interner));
    assert!(!int_id.is_unit(&interner));
}

#[test]
fn same_kind_compares_structurally() {
    let a = TyKind::Fn(vec![TyId::null()], TyId::null());
    let b = TyKind::Fn(vec![TyId::null()], TyId::null());
    let c = TyKind::Tuple(vec![TyId::null()]);
    assert!(a.same_kind(&b));
    assert!(!a.same_kind(&c));
    assert!(TyKind::Prim(PrimTy::Str).same_kind(&TyKind::Prim(PrimTy::Str)));
    assert!(!TyKind::Prim(PrimTy::Str).same_kind(&TyKind::Prim(PrimTy::Int)));
}

#[test]
fn ids_stay_and_match_exactly_the_equal_kinds() {
    let mut interner = TypeInterner::default();
    let int_id = interner.intern(TyKind::Prim(PrimTy::Int));
    let pair = interner.intern(TyKind::Tuple(vec![int_id, int_id]));
    interner.intern(TyKind::Prim(PrimTy::Str));
    interner.intern(TyKind::Fn(vec![int_id], pair));
    assert_eq!(interner.get(int_id), &TyKind::Prim(PrimTy::Int));
    assert_eq!(interner.get(pair), &TyKind::Tuple(vec![int_id, int_id]));
    let len = interner.len();
    assert_eq!(interner.intern(TyKind::Prim(PrimTy::Int)), int_id);
    assert_eq!(interner.len(), len);
    assert_ne!(interner.intern(TyKind::Prim(PrimTy::Bool)), int_id);
}
