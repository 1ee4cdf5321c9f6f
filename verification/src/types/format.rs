use vstd::prelude::*;
use vstd::string::StringExecFns;

use crate::types::interner::{children, refers_below, TypeInterner};
use crate::types::ty::{PrimTy, SpecTyKind, TyId, TyKind};

verus! {

/// The name of a primitive type.
pub open spec fn prim_text(p: PrimTy) -> Seq<char> {
    match p {
        PrimTy::Bool => seq!['b', 'o', 'o', 'l'],
        PrimTy::Int => seq!['i', 'n', 't'],
        PrimTy::Str => seq!['s', 't', 'r'],
    }
}

/// `", "`
pub open spec fn comma_text() -> Seq<char> {
    seq![',', ' ']
}

/// `") -> "`
pub open spec fn arrow_text() -> Seq<char> {
    seq![')', ' ', '-', '>', ' ']
}

/// The text of type `id` in `pool`: a primitive's name, `(a, b)` for a tuple, and
/// `(a, b) -> r` for a function.
pub open spec fn ty_text(pool: Seq<SpecTyKind>, id: int) -> Seq<char>
    decreases id, 2int, 0int,
{
    if 0 <= id < pool.len() {
        kind_text(pool, pool[id], id)
    } else {
        Seq::empty()
    }
}

/// The text of kind `k`, whose referenced types are looked up in `pool` below `bound`.
pub open spec fn kind_text(pool: Seq<SpecTyKind>, k: SpecTyKind, bound: int) -> Seq<char>
    decreases bound, 1int, 0int,
{
    match k {
        SpecTyKind::Prim(p) => prim_text(p),
        SpecTyKind::Tuple(es) => seq!['('] + list_text(pool, es, bound) + seq![')'],
        SpecTyKind::Fn(ps, r) => seq!['('] + list_text(pool, ps, bound) + arrow_text() + (if 0 <= r.index() < bound {
            ty_text(pool, r.index())
        } else {
            Seq::empty()
        }),
    }
}

/// The texts of `ids`, separated by `", "`.
pub open spec fn list_text(pool: Seq<SpecTyKind>, ids: Seq<TyId>, bound: int) -> Seq<char>
    decreases bound, 0int, ids.len(),
{
    if ids.len() == 0 {
        Seq::empty()
    } else {
        let c = ids.last().index();
        let elem = if 0 <= c < bound { ty_text(pool, c) } else { Seq::empty() };
        list_text(pool, ids.drop_last(), bound) + (if ids.len() > 1 { comma_text() } else { Seq::empty() }) + elem
    }
}

proof fn lemma_list_text_bound(pool: Seq<SpecTyKind>, ids: Seq<TyId>, b1: int, b2: int)
    requires
        forall|c: int| 0 <= c < ids.len() ==> 0 <= #[trigger] ids[c].index() < b1,
        b1 <= b2,
    ensures
        list_text(pool, ids, b1) == list_text(pool, ids, b2),
    decreases ids.len(),
{
    if ids.len() > 0 {
        lemma_list_text_bound(pool, ids.drop_last(), b1, b2);
        assert(0 <= ids[ids.len() - 1].index() < b1);
    }
}

/// The text of a kind does not depend on the bound, as long as every referenced id is
/// below it.
pub proof fn lemma_kind_text_bound(pool: Seq<SpecTyKind>, k: SpecTyKind, b1: int, b2: int)
    requires
        refers_below(k, b1),
        b1 <= b2,
    ensures
        kind_text(pool, k, b1) == kind_text(pool, k, b2),
{
    match k {
        SpecTyKind::Prim(_) => {},
        SpecTyKind::Tuple(es) => {
            assert forall|c: int| 0 <= c < es.len() implies 0 <= #[trigger] es[c].index() < b1 by {
                assert(children(k)[c] == es[c]);
            }
            lemma_list_text_bound(pool, es, b1, b2);
        },
        SpecTyKind::Fn(ps, r) => {
            assert forall|c: int| 0 <= c < ps.len() implies 0 <= #[trigger] ps[c].index() < b1 by {
                assert(children(k)[c] == ps[c]);
            }
            assert(children(k)[ps.len() as int] == r);
            lemma_list_text_bound(pool, ps, b1, b2);
        },
    }
}

fn write_id(interner: &TypeInterner, id: TyId, buf: &mut String)
    requires
        interner.well_founded(),
        0 <= id.index() < interner@.len(),
    ensures
        final(buf)@ == old(buf)@ + ty_text(interner@, id.index()),
    decreases id.index(), 2int, 0int,
{
    let kind = interner.get(id);
    proof {
        assert(refers_below(interner@[id.index()], id.index()));
    }
    write_kind(interner, kind, id.get_index(), buf);
}

fn write_kind(interner: &TypeInterner, kind: &TyKind, bound: usize, buf: &mut String)
    requires
        interner.well_founded(),
        bound <= interner@.len(),
        refers_below(kind@, bound as int),
    ensures
        final(buf)@ == old(buf)@ + kind_text(interner@, kind@, bound as int),
    decreases bound, 1int, 0int,
{
    proof {
        reveal_strlit("(");
        reveal_strlit(")");
        reveal_strlit(") -> ");
        reveal_strlit("bool");
        reveal_strlit("int");
        reveal_strlit("str");
    }
    match kind {
        TyKind::Prim(prim) => match prim {
            PrimTy::Bool => buf.append("bool"),
            PrimTy::Int => buf.append("int"),
            PrimTy::Str => buf.append("str"),
        },
        TyKind::Fn(params, ret) => {
            proof {
                assert forall|c: int| 0 <= c < params@.len() implies 0 <= #[trigger] params@[c].index() < bound by {
                    assert(children(kind@)[c] == params@[c]);
                }
                assert(children(kind@)[params@.len() as int] == *ret);
            }
            buf.append("(");
            write_list(interner, params, bound, buf);
            buf.append(") -> ");
            write_id(interner, *ret, buf);
            assert(buf@ =~= old(buf)@ + kind_text(interner@, kind@, bound as int));
        },
        TyKind::Tuple(elements) => {
            proof {
                assert forall|c: int| 0 <= c < elements@.len() implies 0 <= #[trigger] elements@[c].index() < bound by {
                    assert(children(kind@)[c] == elements@[c]);
                }
            }
            buf.append("(");
            write_list(interner, elements, bound, buf);
            buf.append(")");
            assert(buf@ =~= old(buf)@ + kind_text(interner@, kind@, bound as int));
        },
    }
}

fn write_list(interner: &TypeInterner, ids: &Vec<TyId>, bound: usize, buf: &mut String)
    requires
        interner.well_founded(),
        bound <= interner@.len(),
        forall|c: int| 0 <= c < ids@.len() ==> 0 <= #[trigger] ids@[c].index() < bound,
    ensures
        final(buf)@ == old(buf)@ + list_text(interner@, ids@, bound as int),
    decreases bound, 0int, ids@.len(),
{
    let mut i: usize = 0;
    assert(ids@.take(0) =~= Seq::<TyId>::empty());
    while i < ids.len()
        invariant
            interner.well_founded(),
            bound <= interner@.len(),
            forall|c: int| 0 <= c < ids@.len() ==> 0 <= #[trigger] ids@[c].index() < bound,
            0 <= i <= ids@.len(),
            buf@ == old(buf)@ + list_text(interner@, ids@.take(i as int), bound as int),
        decreases ids@.len() - i,
    {
        proof {
            reveal_strlit(", ");
            assert(ids@.take(i + 1).drop_last() =~= ids@.take(i as int));
            assert(ids@.take(i + 1).last() == ids@[i as int]);
            assert(0 <= ids@[i as int].index() < bound);
        }
        if i != 0 {
            buf.append(", ");
        }
        write_id(interner, ids[i], buf);
        i = i + 1;
        assert(buf@ =~= old(buf)@ + list_text(interner@, ids@.take(i as int), bound as int));
    }
    assert(ids@.take(i as int) =~= ids@);
}

/// A [TyKind] together with the [TypeInterner] that resolves the types it refers to, for
/// turning it into text.
pub struct FormatTy<'a> {
    ty: &'a TyKind,
    interner: &'a TypeInterner,
}

impl<'a> FormatTy<'a> {
    pub fn new(ty: &'a TyKind, interner: &'a TypeInterner) -> (r: Self)
        ensures
            r.kind() == ty@,
            r.interner() == interner,
    {
        FormatTy { ty, interner }
    }

    /// The kind to format.
    pub closed spec fn kind(&self) -> SpecTyKind {
        self.ty@
    }

    /// The interner that resolves referenced types.
    pub closed spec fn interner(&self) -> &'a TypeInterner {
        self.interner
    }

    /// The text of the type.
    pub fn to_string(&self) -> (r: String)
        requires
            self.interner().well_founded(),
            refers_below(self.kind(), self.interner()@.len() as int),
        ensures
            r@ == kind_text(self.interner()@, self.kind(), self.interner()@.len() as int),
    {
        let mut buf = String::new();
        write_kind(self.interner, self.ty, self.interner.len(), &mut buf);
        assert(buf@ =~= kind_text(self.interner()@, self.kind(), self.interner()@.len() as int));
        buf
    }
}

impl<'a> FormatTy<'a> {
    /// The text of the type, where the interner's references all point back to earlier
    /// kinds and the kind's references point into the interner; `None` otherwise, where
    /// following the references might go on forever or leave the interner.
    pub fn try_to_string(&self) -> (r: Option<String>)
        ensures
            r is Some <==> (self.interner().well_founded() && refers_below(self.kind(), self.interner()@.len() as int)),
            r matches Some(t) ==> t@ == kind_text(self.interner()@, self.kind(), self.interner()@.len() as int),
    {
        if self.interner.is_well_founded() && self.ty.refers_below_exec(self.interner.len()) {
            Some(self.to_string())
        } else {
            None
        }
    }
}

impl PrimTy {
    /// The name of the primitive type: `bool`, `int` or `str`.
    pub fn to_string(&self) -> (r: String)
        ensures
            r@ == prim_text(*self),
    {
        proof {
            reveal_strlit("bool");
            reveal_strlit("int");
            reveal_strlit("str");
        }
        let mut buf = String::new();
        match self {
            PrimTy::Bool => buf.append("bool"),
            PrimTy::Int => buf.append("int"),
            PrimTy::Str => buf.append("str"),
        }
        assert(buf@ =~= prim_text(*self));
        buf
    }
}

impl TyKind {
    /// This kind, ready to be turned into text with `interner`.
    #[inline]
    pub fn format<'a>(&'a self, interner: &'a TypeInterner) -> (r: FormatTy<'a>)
        ensures
            r.kind() == self@,
            r.interner() == interner,
    {
        FormatTy::new(self, interner)
    }
}

/// Formatting of interned types.
pub trait FormatExt {
    /// Whether the type is held by `interner`.
    spec fn formattable_in(&self, interner: &TypeInterner) -> bool;

    /// The kind of the type, as `interner` holds it.
    spec fn kind_in(&self, interner: &TypeInterner) -> SpecTyKind;

    fn format<'a>(&'a self, interner: &'a TypeInterner) -> (r: FormatTy<'a>)
        requires
            self.formattable_in(interner),
        ensures
            r.kind() == self.kind_in(interner),
            r.interner() == interner,
    ;
}

impl FormatExt for TyId {
    open spec fn formattable_in(&self, interner: &TypeInterner) -> bool {
        0 <= self.index() < interner@.len()
    }

    open spec fn kind_in(&self, interner: &TypeInterner) -> SpecTyKind {
        interner@[self.index()]
    }

    fn format<'a>(&'a self, interner: &'a TypeInterner) -> (r: FormatTy<'a>) {
        FormatTy::new(interner.get(*self), interner)
    }
}

/// The text of an interned type is that of its kind, as [FormatTy::to_string] writes it:
/// formatting through the type's id or through its kind gives the same text.
pub proof fn law_id_text_is_kind_text(interner: &TypeInterner, id: TyId)
    requires
        interner.well_founded(),
        0 <= id.index() < interner@.len(),
    ensures
        refers_below(interner@[id.index()], interner@.len() as int),
        kind_text(interner@, interner@[id.index()], interner@.len() as int) == ty_text(interner@, id.index()),
{
    let k = interner@[id.index()];
    assert(refers_below(k, id.index()));
    assert forall|c: int| 0 <= c < children(k).len() implies 0 <= #[trigger] children(k)[c].index() < interner@.len() by {}
    lemma_kind_text_bound(interner@, k, id.index(), interner@.len() as int);
}

} // verus!
