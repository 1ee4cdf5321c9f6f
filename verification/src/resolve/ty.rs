use vstd::prelude::*;
use vstd::string::{StrSliceExecFns, StringExecFns};

use crate::symbol::{Symbol, SymbolTable};
use crate::types::ty::TyId;

verus! {

/// A resolved type, with the id of its interned form.
#[derive(Debug)]
pub struct Ty {
    pub id: TyId,
    pub kind: TyKind,
}

/// The kind of a resolved type.
#[derive(Debug)]
pub enum TyKind {
    Tuple(Vec<Ty>),
    Prim(PrimTy),
    Fn(Vec<Ty>, Box<Ty>),
    Error,
}

/// A primitive type.
#[derive(Debug, Clone, Copy, PartialEq, Eq, Structural)]
pub enum PrimTy {
    Boolean,
    Integer,
    Str,
}

impl Ty {
    /// Whether this is the error type.
    pub fn is_error(&self) -> (r: bool)
        ensures
            r == (self.kind is Error),
    {
        self.kind.is_error()
    }

    /// The error type, which has the null id.
    pub fn error() -> (r: Self)
        ensures
            r.kind is Error,
            r.id == TyId::null_spec(),
    {
        Ty { id: TyId::null(), kind: TyKind::Error }
    }

    /// Whether this is the unit type, the empty tuple.
    #[inline]
    pub fn is_unit(&self) -> (r: bool)
        ensures
            r == (self.kind matches TyKind::Tuple(v) && v@.len() == 0),
    {
        match &self.kind {
            TyKind::Tuple(v) => v.len() == 0,
            _ => false,
        }
    }

    /// The text of the type (see [TyKind::to_string]).
    pub fn to_string(&self) -> (r: String)
        ensures
            r@ == res_kind_text(self.kind),
    {
        self.kind.to_string()
    }
}

impl Default for Ty {
    /// The error type.
    fn default() -> (r: Self)
        ensures
            r.kind is Error,
            r.id == TyId::null_spec(),
    {
        Self::error()
    }
}

/// `"bool"`, `"int"` or `"str"`.
pub open spec fn res_prim_text(p: PrimTy) -> Seq<char> {
    match p {
        PrimTy::Boolean => seq!['b', 'o', 'o', 'l'],
        PrimTy::Integer => seq!['i', 'n', 't'],
        PrimTy::Str => seq!['s', 't', 'r'],
    }
}

/// The text of a resolved type kind: a primitive's name, `(a, b)` for a tuple,
/// `(a, b) -> r` for a function and `<error>` for the error type.
pub open spec fn res_kind_text(k: TyKind) -> Seq<char>
    decreases k,
{
    match k {
        TyKind::Prim(p) => res_prim_text(p),
        TyKind::Tuple(inner) => seq!['('] + res_list_text(inner@) + seq![')'],
        TyKind::Fn(params, ret) => seq!['('] + res_list_text(params@) + seq![')', ' ', '-', '>', ' '] + res_kind_text(ret.kind),
        TyKind::Error => seq!['<', 'e', 'r', 'r', 'o', 'r', '>'],
    }
}

/// The texts of `ts`, separated by `", "`.
pub open spec fn res_list_text(ts: Seq<Ty>) -> Seq<char>
    decreases ts,
{
    if ts.len() == 0 {
        Seq::empty()
    } else {
        res_list_text(ts.drop_last()) + (if ts.len() > 1 { seq![',', ' '] } else { Seq::empty() }) + res_kind_text(ts.last().kind)
    }
}

impl TyKind {
    /// Whether this is the error type.
    pub fn is_error(&self) -> (r: bool)
        ensures
            r == (*self is Error),
    {
        matches!(self, TyKind::Error)
    }

    /// The text of the type (see [res_kind_text]).
    pub fn to_string(&self) -> (r: String)
        ensures
            r@ == res_kind_text(*self),
    {
        let mut buf = String::new();
        self.write_to(&mut buf);
        assert(buf@ =~= res_kind_text(*self));
        buf
    }

    fn write_to(&self, buf: &mut String)
        ensures
            final(buf)@ == old(buf)@ + res_kind_text(*self),
        decreases *self,
    {
        proof {
            reveal_strlit("bool");
            reveal_strlit("int");
            reveal_strlit("str");
            reveal_strlit("(");
            reveal_strlit(")");
            reveal_strlit(") -> ");
            reveal_strlit("<error>");
        }
        match self {
            TyKind::Prim(ty) => match ty {
                PrimTy::Boolean => buf.append("bool"),
                PrimTy::Integer => buf.append("int"),
                PrimTy::Str => buf.append("str"),
            },
            TyKind::Tuple(inner) => {
                buf.append("(");
                proof {
                    assert(decreases_to!(*self => self->Tuple_0));
                }
                Self::write_list(inner, buf);
                buf.append(")");
                assert(buf@ =~= old(buf)@ + res_kind_text(*self));
            },
            TyKind::Fn(params, ret) => {
                buf.append("(");
                Self::write_list(params, buf);
                buf.append(") -> ");
                proof {
                    assert(decreases_to!(*self => *self->Fn_1));
                    assert(decreases_to!(*self->Fn_1 => self->Fn_1.kind));
                }
                ret.kind.write_to(buf);
                assert(buf@ =~= old(buf)@ + res_kind_text(*self));
            },
            TyKind::Error => buf.append("<error>"),
        }
    }

    fn write_list(ts: &Vec<Ty>, buf: &mut String)
        ensures
            final(buf)@ == old(buf)@ + res_list_text(ts@),
        decreases ts@,
    {
        let mut i: usize = 0;
        assert(ts@.take(0) =~= Seq::<Ty>::empty());
        while i < ts.len()
            invariant
                0 <= i <= ts@.len(),
                buf@ == old(buf)@ + res_list_text(ts@.take(i as int)),
            decreases ts@.len() - i,
        {
            proof {
                reveal_strlit(", ");
                assert(ts@.take(i + 1).drop_last() =~= ts@.take(i as int));
                assert(ts@.take(i + 1).last() == ts@[i as int]);
                assert(decreases_to!(ts@ => ts@[i as int]));
                assert(decreases_to!(ts@[i as int] => ts@[i as int].kind));
            }
            if i != 0 {
                buf.append(", ");
            }
            ts[i].kind.write_to(buf);
            i = i + 1;
            assert(buf@ =~= old(buf)@ + res_list_text(ts@.take(i as int)));
        }
        assert(ts@.take(i as int) =~= ts@);
    }
}

/// Whether two type kinds have the same shape: what `==` on types compares, which looks
/// at the kinds alone and never at the ids.
pub open spec fn same_ty_kind(a: TyKind, b: TyKind) -> bool
    decreases a,
{
    match a {
        TyKind::Prim(p) => b matches TyKind::Prim(q) && p == q,
        TyKind::Tuple(va) => match b {
            TyKind::Tuple(vb) => same_tys(va@, vb@),
            _ => false,
        },
        TyKind::Fn(pa, ra) => match b {
            TyKind::Fn(pb, rb) => same_tys(pa@, pb@) && same_ty_kind(ra.kind, rb.kind),
            _ => false,
        },
        TyKind::Error => b is Error,
    }
}

/// Whether two lists of types have the same length and, place by place, the same shape.
pub open spec fn same_tys(a: Seq<Ty>, b: Seq<Ty>) -> bool
    decreases a,
{
    if a.len() == 0 {
        b.len() == 0
    } else {
        b.len() > 0 && same_tys(a.drop_last(), b.drop_last()) && same_ty_kind(a.last().kind, b.last().kind)
    }
}

fn kinds_eq(a: &TyKind, b: &TyKind) -> (r: bool)
    ensures
        r == same_ty_kind(*a, *b),
    decreases *a,
{
    match a {
        TyKind::Prim(p) => match b {
            TyKind::Prim(q) => *p == *q,
            _ => false,
        },
        TyKind::Tuple(va) => match b {
            TyKind::Tuple(vb) => {
                proof {
                    assert(decreases_to!(*a => a->Tuple_0));
                }
                tys_eq(va, vb)
            },
            _ => false,
        },
        TyKind::Fn(pa, ra) => match b {
            TyKind::Fn(pb, rb) => {
                proof {
                    assert(decreases_to!(*a => a->Fn_0));
                    assert(decreases_to!(*a => *a->Fn_1));
                    assert(decreases_to!(*a->Fn_1 => a->Fn_1.kind));
                }
                tys_eq(pa, pb) && kinds_eq(&ra.kind, &rb.kind)
            },
            _ => false,
        },
        TyKind::Error => matches!(b, TyKind::Error),
    }
}

fn tys_eq(a: &Vec<Ty>, b: &Vec<Ty>) -> (r: bool)
    ensures
        r == same_tys(a@, b@),
    decreases a@,
{
    if a.len() != b.len() {
        proof {
            lemma_same_tys_len(a@, b@);
        }
        return false;
    }
    let mut i: usize = 0;
    assert(a@.take(0) =~= Seq::<Ty>::empty());
    assert(b@.take(0) =~= Seq::<Ty>::empty());
    while i < a.len()
        invariant
            a@.len() == b@.len(),
            0 <= i <= a@.len(),
            same_tys(a@.take(i as int), b@.take(i as int)),
        decreases a@.len() - i,
    {
        proof {
            assert(a@.take(i + 1).drop_last() =~= a@.take(i as int));
            assert(b@.take(i + 1).drop_last() =~= b@.take(i as int));
            assert(decreases_to!(a@ => a@[i as int]));
            assert(decreases_to!(a@[i as int] => a@[i as int].kind));
        }
        if !kinds_eq(&a[i].kind, &b[i].kind) {
            proof {
                lemma_same_tys_prefix(a@, b@, i as int);
            }
            return false;
        }
        i = i + 1;
    }
    assert(a@.take(i as int) =~= a@);
    assert(b@.take(i as int) =~= b@);
    true
}

/// Lists of the same shape have the same length.
proof fn lemma_same_tys_len(a: Seq<Ty>, b: Seq<Ty>)
    ensures
        same_tys(a, b) ==> a.len() == b.len(),
    decreases a.len(),
{
    if a.len() > 0 && b.len() > 0 {
        lemma_same_tys_len(a.drop_last(), b.drop_last());
    }
}

/// Lists of the same shape agree in shape at each place.
proof fn lemma_same_tys_prefix(a: Seq<Ty>, b: Seq<Ty>, i: int)
    requires
        0 <= i < a.len(),
        a.len() == b.len(),
    ensures
        same_tys(a, b) ==> same_ty_kind(a[i].kind, b[i].kind),
    decreases a.len(),
{
    if i < a.len() - 1 {
        lemma_same_tys_prefix(a.drop_last(), b.drop_last(), i);
    }
}

/// Every type has its own shape: `==` on types is reflexive, as `Eq` promises.
pub proof fn law_same_ty_kind_reflexive(a: TyKind)
    ensures
        same_ty_kind(a, a),
    decreases a,
{
    match a {
        TyKind::Tuple(va) => law_same_tys_reflexive(va@),
        TyKind::Fn(pa, ra) => {
            law_same_tys_reflexive(pa@);
            law_same_ty_kind_reflexive(ra.kind);
        },
        _ => {},
    }
}

/// Every list of types has its own shape.
pub proof fn law_same_tys_reflexive(a: Seq<Ty>)
    ensures
        same_tys(a, a),
    decreases a,
{
    if a.len() > 0 {
        law_same_tys_reflexive(a.drop_last());
        law_same_ty_kind_reflexive(a.last().kind);
    }
}

/// Having the same shape is symmetric: `==` on types is symmetric, as `Eq` promises.
pub proof fn law_same_ty_kind_symmetric(a: TyKind, b: TyKind)
    ensures
        same_ty_kind(a, b) == same_ty_kind(b, a),
    decreases a,
{
    match a {
        TyKind::Tuple(va) => {
            if let TyKind::Tuple(vb) = b {
                law_same_tys_symmetric(va@, vb@);
            }
        },
        TyKind::Fn(pa, ra) => {
            if let TyKind::Fn(pb, rb) = b {
                law_same_tys_symmetric(pa@, pb@);
                law_same_ty_kind_symmetric(ra.kind, rb.kind);
            }
        },
        _ => {},
    }
}

/// Having the same shape is symmetric for lists of types.
pub proof fn law_same_tys_symmetric(a: Seq<Ty>, b: Seq<Ty>)
    ensures
        same_tys(a, b) == same_tys(b, a),
    decreases a,
{
    if a.len() > 0 && b.len() > 0 {
        law_same_tys_symmetric(a.drop_last(), b.drop_last());
        law_same_ty_kind_symmetric(a.last().kind, b.last().kind);
    }
}

/// Having the same shape is transitive: `==` on types is transitive, as `Eq` promises.
pub proof fn law_same_ty_kind_transitive(a: TyKind, b: TyKind, c: TyKind)
    requires
        same_ty_kind(a, b),
        same_ty_kind(b, c),
    ensures
        same_ty_kind(a, c),
    decreases a,
{
    match (a, b, c) {
        (TyKind::Tuple(va), TyKind::Tuple(vb), TyKind::Tuple(vc)) => law_same_tys_transitive(va@, vb@, vc@),
        (TyKind::Fn(pa, ra), TyKind::Fn(pb, rb), TyKind::Fn(pc, rc)) => {
            law_same_tys_transitive(pa@, pb@, pc@);
            law_same_ty_kind_transitive(ra.kind, rb.kind, rc.kind);
        },
        _ => {},
    }
}

/// Having the same shape is transitive for lists of types.
pub proof fn law_same_tys_transitive(a: Seq<Ty>, b: Seq<Ty>, c: Seq<Ty>)
    requires
        same_tys(a, b),
        same_tys(b, c),
    ensures
        same_tys(a, c),
    decreases a,
{
    if a.len() > 0 {
        law_same_tys_transitive(a.drop_last(), b.drop_last(), c.drop_last());
        law_same_ty_kind_transitive(a.last().kind, b.last().kind, c.last().kind);
    }
}

/// Two lists of types have the same shape exactly when they have the same length and the
/// types at each place have the same shape.
pub proof fn law_same_tys_pointwise(a: Seq<Ty>, b: Seq<Ty>)
    ensures
        same_tys(a, b) <==> (a.len() == b.len() && forall|i: int|
            0 <= i < a.len() ==> #[trigger] same_ty_kind(a[i].kind, b[i].kind)),
    decreases a.len(),
{
    if a.len() != b.len() {
        lemma_same_tys_len(a, b);
    } else if a.len() > 0 {
        let a1 = a.drop_last();
        let b1 = b.drop_last();
        law_same_tys_pointwise(a1, b1);
        assert forall|i: int| 0 <= i < a1.len() implies #[trigger] a1[i] == a[i] && b1[i] == b[i] by {}
        assert(a.last() == a[a.len() - 1]);
        assert(b.last() == b[b.len() - 1]);
        if same_tys(a, b) {
            assert forall|i: int| 0 <= i < a.len() implies #[trigger] same_ty_kind(a[i].kind, b[i].kind) by {
                if i < a1.len() {
                    assert(a1[i] == a[i] && b1[i] == b[i]);
                    assert(same_ty_kind(a1[i].kind, b1[i].kind));
                }
            }
        }
        if forall|i: int| 0 <= i < a.len() ==> #[trigger] same_ty_kind(a[i].kind, b[i].kind) {
            assert forall|i: int| 0 <= i < a1.len() implies #[trigger] same_ty_kind(a1[i].kind, b1[i].kind) by {
                assert(a1[i] == a[i] && b1[i] == b[i]);
                assert(same_ty_kind(a[i].kind, b[i].kind));
            }
            assert(same_ty_kind(a[a.len() - 1].kind, b[b.len() - 1].kind));
        }
    }
}

/// `==` on resolved types is structural equality of their kinds: a primitive equals only the
/// same primitive, the error type only the error type, a tuple a tuple of as many elements
/// that are equal place by place, and a function type a function type whose parameters are
/// equal place by place and whose return type is equal; kinds of different variants differ.
pub proof fn law_same_ty_kind_structural(a: TyKind, b: TyKind)
    ensures
        a matches TyKind::Prim(p) ==> (same_ty_kind(a, b) <==> (b matches TyKind::Prim(q) && p == q)),
        a is Error ==> (same_ty_kind(a, b) <==> b is Error),
        a matches TyKind::Tuple(va) ==> (b matches TyKind::Tuple(vb) ==> (same_ty_kind(a, b) <==> (
            va@.len() == vb@.len() && forall|i: int|
                0 <= i < va@.len() ==> #[trigger] same_ty_kind(va@[i].kind, vb@[i].kind)))),
        a matches TyKind::Fn(pa, ra) ==> (b matches TyKind::Fn(pb, rb) ==> (same_ty_kind(a, b) <==> (
            pa@.len() == pb@.len() && (forall|i: int|
                0 <= i < pa@.len() ==> #[trigger] same_ty_kind(pa@[i].kind, pb@[i].kind))
                && same_ty_kind(ra.kind, rb.kind)))),
        same_ty_kind(a, b) ==> ((a is Prim <==> b is Prim) && (a is Tuple <==> b is Tuple) && (a is Fn
            <==> b is Fn) && (a is Error <==> b is Error)),
{
    match (a, b) {
        (TyKind::Tuple(va), TyKind::Tuple(vb)) => law_same_tys_pointwise(va@, vb@),
        (TyKind::Fn(pa, ra), TyKind::Fn(pb, rb)) => law_same_tys_pointwise(pa@, pb@),
        _ => {},
    }
}

/// Two function types are equal only if their return types are equal.
pub proof fn law_equal_fn_types_have_equal_returns(pa: Vec<Ty>, ra: Box<Ty>, pb: Vec<Ty>, rb: Box<Ty>)
    ensures
        same_ty_kind(TyKind::Fn(pa, ra), TyKind::Fn(pb, rb)) ==> same_ty_kind(ra.kind, rb.kind),
{
    law_same_ty_kind_structural(TyKind::Fn(pa, ra), TyKind::Fn(pb, rb));
}

/// Types that compare equal have the same text.
pub proof fn law_equal_types_print_alike(a: TyKind, b: TyKind)
    ensures
        same_ty_kind(a, b) ==> res_kind_text(a) == res_kind_text(b),
    decreases a,
{
    match (a, b) {
        (TyKind::Tuple(va), TyKind::Tuple(vb)) => law_equal_type_lists_print_alike(va@, vb@),
        (TyKind::Fn(pa, ra), TyKind::Fn(pb, rb)) => {
            law_equal_type_lists_print_alike(pa@, pb@);
            law_equal_types_print_alike(ra.kind, rb.kind);
        },
        _ => {},
    }
}

/// Lists of types that compare equal place by place have the same text.
pub proof fn law_equal_type_lists_print_alike(a: Seq<Ty>, b: Seq<Ty>)
    ensures
        same_tys(a, b) ==> res_list_text(a) == res_list_text(b),
    decreases a,
{
    if a.len() > 0 && b.len() > 0 {
        law_equal_type_lists_print_alike(a.drop_last(), b.drop_last());
        law_equal_types_print_alike(a.last().kind, b.last().kind);
        lemma_same_tys_len(a, b);
    }
}

fn copy_kind(k: &TyKind) -> (r: TyKind)
    ensures
        same_ty_kind(r, *k),
        res_kind_text(r) == res_kind_text(*k),
    decreases *k,
{
    match k {
        TyKind::Tuple(inner) => {
            proof {
                assert(decreases_to!(*k => k->Tuple_0));
            }
            TyKind::Tuple(copy_tys(inner))
        },
        TyKind::Prim(p) => TyKind::Prim(*p),
        TyKind::Fn(params, ret) => {
            proof {
                assert(decreases_to!(*k => k->Fn_0));
                assert(decreases_to!(*k => *k->Fn_1));
                assert(decreases_to!(*k->Fn_1 => k->Fn_1.kind));
            }
            let params = copy_tys(params);
            let ret_kind = copy_kind(&ret.kind);
            TyKind::Fn(params, Box::new(Ty { id: ret.id, kind: ret_kind }))
        },
        TyKind::Error => TyKind::Error,
    }
}

fn copy_tys(ts: &Vec<Ty>) -> (r: Vec<Ty>)
    ensures
        same_tys(r@, ts@),
        res_list_text(r@) == res_list_text(ts@),
    decreases ts@,
{
    let mut out: Vec<Ty> = Vec::new();
    let mut i: usize = 0;
    assert(ts@.take(0) =~= Seq::<Ty>::empty());
    while i < ts.len()
        invariant
            0 <= i <= ts@.len(),
            out@.len() == i,
            same_tys(out@, ts@.take(i as int)),
            res_list_text(out@) == res_list_text(ts@.take(i as int)),
        decreases ts@.len() - i,
    {
        proof {
            assert(decreases_to!(ts@ => ts@[i as int]));
            assert(decreases_to!(ts@[i as int] => ts@[i as int].kind));
        }
        let ghost before = out@;
        let kind = copy_kind(&ts[i].kind);
        out.push(Ty { id: ts[i].id, kind });
        i = i + 1;
        proof {
            assert(out@.drop_last() =~= before);
            assert(ts@.take(i as int).drop_last() =~= ts@.take(i - 1));
            assert(ts@.take(i as int).last() == ts@[i - 1]);
        }
    }
    assert(ts@.take(i as int) =~= ts@);
    out
}

impl Clone for Ty {
    /// A copy with the same id, the same shape and the same text.
    fn clone(&self) -> (r: Self)
        ensures
            r.id == self.id,
            same_ty_kind(r.kind, self.kind),
            res_kind_text(r.kind) == res_kind_text(self.kind),
    {
        Ty { id: self.id, kind: copy_kind(&self.kind) }
    }
}

impl Clone for TyKind {
    /// A copy with the same shape and the same text.
    fn clone(&self) -> (r: Self)
        ensures
            same_ty_kind(r, *self),
            res_kind_text(r) == res_kind_text(*self),
    {
        copy_kind(self)
    }
}

impl PartialEq for Ty {
    /// Two types are equal when their kinds are, whatever their ids.
    fn eq(&self, other: &Self) -> (r: bool) {
        kinds_eq(&self.kind, &other.kind)
    }
}

impl vstd::std_specs::cmp::PartialEqSpecImpl for Ty {
    open spec fn obeys_eq_spec() -> bool {
        true
    }

    open spec fn eq_spec(&self, other: &Self) -> bool {
        same_ty_kind(self.kind, other.kind)
    }
}

impl Eq for Ty {
}

impl PartialEq for TyKind {
    /// Two kinds are equal when they have the same shape.
    fn eq(&self, other: &Self) -> (r: bool) {
        kinds_eq(self, other)
    }
}

impl vstd::std_specs::cmp::PartialEqSpecImpl for TyKind {
    open spec fn obeys_eq_spec() -> bool {
        true
    }

    open spec fn eq_spec(&self, other: &Self) -> bool {
        same_ty_kind(*self, *other)
    }
}

impl Eq for TyKind {
}

/// Whether the two strings hold the same characters.
fn str_eq(a: &str, b: &str) -> (r: bool)
    ensures
        r == (a@ == b@),
{
    let n = a.unicode_len();
    if n != b.unicode_len() {
        return false;
    }
    let mut i: usize = 0;
    while i < n
        invariant
            0 <= i <= n,
            n == a@.len(),
            n == b@.len(),
            a@.take(i as int) == b@.take(i as int),
        decreases n - i,
    {
        if a.get_char(i) != b.get_char(i) {
            assert(a@[i as int] != b@[i as int]);
            return false;
        }
        assert(a@.take(i + 1) =~= a@.take(i as int).push(a@[i as int]));
        assert(b@.take(i + 1) =~= b@.take(i as int).push(b@[i as int]));
        i = i + 1;
    }
    assert(a@.take(n as int) =~= a@);
    assert(b@.take(n as int) =~= b@);
    true
}

impl PrimTy {
    /// The primitive type named by `sym`: `bool`, `int` or `str`.
    pub fn from_name(sym: Symbol, table: &SymbolTable) -> (r: Option<Self>)
        requires
            table.wf(),
            0 <= sym.index() < table@.len(),
        ensures
            r == (if table@[sym.index()] == seq!['b', 'o', 'o', 'l'] {
                Some(PrimTy::Boolean)
            } else if table@[sym.index()] == seq!['i', 'n', 't'] {
                Some(PrimTy::Integer)
            } else if table@[sym.index()] == seq!['s', 't', 'r'] {
                Some(PrimTy::Str)
            } else {
                None
            }),
    {
        proof {
            reveal_strlit("bool");
            reveal_strlit("int");
            reveal_strlit("str");
            assert("bool"@ =~= seq!['b', 'o', 'o', 'l']);
            assert("int"@ =~= seq!['i', 'n', 't']);
            assert("str"@ =~= seq!['s', 't', 'r']);
        }
        let name = sym.as_str(table);
        if str_eq(name, "bool") {
            Some(PrimTy::Boolean)
        } else if str_eq(name, "int") {
            Some(PrimTy::Integer)
        } else if str_eq(name, "str") {
            Some(PrimTy::Str)
        } else {
            None
        }
    }
}

} // verus!
