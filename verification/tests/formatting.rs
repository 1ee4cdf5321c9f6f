use ayuc::types::format::{FormatExt, FormatTy};
use ayuc::types::interner::TypeInterner;
use ayuc::types::ty::{PrimTy, TyKind};

#[test]
fn test_formatting() {
    let mut interner = TypeInterner::default();

    let str_id = interner.intern(TyKind::Prim(PrimTy::Str));
    let int_id = interner.intern(TyKind::Prim(PrimTy::Int));
    let bool_id = interner.intern(TyKind::Prim(PrimTy::Bool));

    let tuple_id = interner.intern(TyKind::Tuple(vec![int_id, bool_id]));

    let fun = interner.intern(TyKind::Fn(vec![str_id], tuple_id));
    let fun2 = interner.intern(TyKind::Fn(vec![str_id], str_id));

    assert_eq!(fun.format(&interner).to_string(), "(str) -> (int, bool)");
    assert_eq!(fun2.format(&interner).to_string(), "(str) -> str");
}

#[test]
fn formats_primitives_and_unit() {
    let mut interner = TypeInterner::default();
    let unit = interner.intern(TyKind::Tuple(vec![]));
    let b = interner.intern(TyKind::Prim(PrimTy::Bool));
    assert_eq!(unit.format(&interner).to_string(), "()");
    assert_eq!(b.format(&interner).to_string(), "bool");
    let nested = interner.intern(TyKind::Tuple(vec![unit, b, unit]));
    assert_eq!(nested.format(&interner).to_string(), "((), bool, ())");
    let f = interner.intern(TyKind::Fn(vec![], unit));
    assert_eq!(f.format(&interner).to_string(), "() -> ()");
}

#[test]
fn kind_and_id_format_alike() {
    let mut interner = TypeInterner::default();
    let i = interner.intern(TyKind::Prim(PrimTy::Int));
    let kind = TyKind::Fn(vec![i, i], i);
    let id = interner.intern(TyKind::Fn(vec![i, i], i));
    assert_eq!(kind.format(&interner).to_string(), "(int, int) -> int");
    assert_eq!(id.format(&interner).to_string(), kind.format(&interner).to_string());
    assert_eq!(FormatTy::new(&kind, &interner).to_string(), "(int, int) -> int");
}

#[test]
fn primitive_names() {
    assert_eq!(PrimTy::Bool.to_string(), "bool");
    assert_eq!(PrimTy::Int.to_string(), "int");
    assert_eq!(PrimTy::Str.to_string(), "str");
}

#[test]
fn formatting_is_refused_for_dangling_references() {
    let mut interner = TypeInterner::default();
    let int_id = interner.intern(TyKind::Prim(PrimTy::Int));
    let pair = interner.intern(TyKind::Tuple(vec![int_id, int_id]));
    assert!(interner.is_well_founded());
    assert_eq!(pair.format(&interner).try_to_string(), Some("(int, int)".to_string()));
    let dangling = TyKind::Fn(vec![int_id], ayuc::types::ty::TyId::null());
    assert!(!dangling.refers_below_exec(interner.len()));
    assert!(dangling.format(&interner).try_to_string().is_none());
    interner.intern(TyKind::Tuple(vec![ayuc::types::ty::TyId::null()]));
    assert!(!interner.is_well_founded());
    assert!(pair.format(&interner).try_to_string().is_none());
}
