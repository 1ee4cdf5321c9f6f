use vstd::prelude::*;

use crate::types::interner::{children, refers_below, TypeInterner};

verus! {

/// The id of an interned type: its index in the interner that created it.
#[derive(Clone, Copy, PartialEq, Eq, Hash, Debug, Structural)]
pub struct TyId(usize);

impl TyId {
    /// The index of the type in its interner.
    pub closed spec fn index(&self) -> int {
        self.0 as int
    }

    /// The id with index `i`.
    pub closed spec fn with_index(i: int) -> TyId {
        TyId(i as usize)
    }

    /// An id is the id with its index, and an index that fits in `usize` is the index of
    /// the id with it.
    pub proof fn lemma_with_index(t: TyId, i: int)
        ensures
            TyId::with_index(t.index()) == t,
            0 <= i <= usize::MAX ==> TyId::with_index(i).index() == i,
    {
    }

    /// The id that no interner hands out.
    pub closed spec fn null_spec() -> TyId {
        TyId(usize::MAX)
    }

    /// An id that no interner hands out: interners hold fewer than `usize::MAX` kinds.
    pub fn null() -> (r: Self)
        ensures
            r == Self::null_spec(),
            r.index() == usize::MAX,
    {
        TyId(usize::MAX)
    }

    pub(crate) fn from_index(i: usize) -> (r: Self)
        ensures
            r.index() == i,
    {
        TyId(i)
    }

    pub(crate) fn get_index(&self) -> (r: usize)
        ensures
            r == self.index(),
    {
        self.0
    }
}

/// A primitive or built-in type.
#[derive(Clone, Copy, PartialEq, Eq, Hash, Debug, Structural)]
pub enum PrimTy {
    Bool,
    Int,
    Str,
}

/// A kind of type. This can be a single primitive, a tuple, or a function.
#[derive(Debug, Clone, PartialEq, Eq, Hash)]
pub enum TyKind {
    Prim(PrimTy),
    Tuple(Vec<TyId>),
    Fn(Vec<TyId>, TyId),
}

/// The mathematical form of a [TyKind].
pub enum SpecTyKind {
    Prim(PrimTy),
    Tuple(Seq<TyId>),
    Fn(Seq<TyId>, TyId),
}

impl View for TyKind {
    type V = SpecTyKind;

    open spec fn view(&self) -> SpecTyKind {
        match self {
            TyKind::Prim(p) => SpecTyKind::Prim(*p),
            TyKind::Tuple(es) => SpecTyKind::Tuple(es@),
            TyKind::Fn(ps, r) => SpecTyKind::Fn(ps@, *r),
        }
    }
}

/// Whether a kind is the unit type, the empty tuple.
pub open spec fn is_unit_kind(k: SpecTyKind) -> bool {
    k matches SpecTyKind::Tuple(es) && es.len() == 0
}

/// Structural equality of two sequences of ids.
fn ids_eq(a: &Vec<TyId>, b: &Vec<TyId>) -> (r: bool)
    ensures
        r == (a@ == b@),
{
    if a.len() != b.len() {
        return false;
    }
    let mut i: usize = 0;
    while i < a.len()
        invariant
            a@.len() == b@.len(),
            0 <= i <= a@.len(),
            forall|k: int| 0 <= k < i ==> a@[k] == b@[k],
        decreases a@.len() - i,
    {
        if a[i] != b[i] {
            return false;
        }
        i = i + 1;
    }
    assert(a@ =~= b@);
    true
}

impl TyKind {
    /// Whether this is the unit type, the empty tuple.
    #[inline]
    pub fn is_unit(&self) -> (r: bool)
        ensures
            r == is_unit_kind(self@),
    {
        match self {
            TyKind::Tuple(v) => v.len() == 0,
            _ => false,
        }
    }

    /// Whether every id the kind refers to is below `bound` (see [refers_below]).
    pub fn refers_below_exec(&self, bound: usize) -> (r: bool)
        ensures
            r == refers_below(self@, bound as int),
    {
        let ids = match self {
            TyKind::Prim(_) => {
                return true;
            },
            TyKind::Tuple(es) => es,
            TyKind::Fn(ps, ret) => {
                if ret.get_index() >= bound {
                    assert(children(self@)[ps@.len() as int] == *ret);
                    return false;
                }
                ps
            },
        };
        let ghost ch = children(self@);
        assert(ids@.len() <= ch.len());
        assert(forall|c: int| 0 <= c < ids@.len() ==> #[trigger] ch[c] == ids@[c]);
        assert(forall|c: int| ids@.len() <= c < ch.len() ==> 0 <= #[trigger] ch[c].index() < bound);
        let mut j: usize = 0;
        while j < ids.len()
            invariant
                ch == children(self@),
                0 <= j <= ids@.len(),
                ids@.len() <= ch.len(),
                forall|c: int| 0 <= c < ids@.len() ==> #[trigger] ch[c] == ids@[c],
                forall|c: int| ids@.len() <= c < ch.len() ==> 0 <= #[trigger] ch[c].index() < bound,
                forall|c: int| 0 <= c < j ==> 0 <= #[trigger] ids@[c].index() < bound,
            decreases ids@.len() - j,
        {
            if ids[j].get_index() >= bound {
                assert(ch[j as int] == ids@[j as int]);
                assert(children(self@)[j as int].index() >= bound);
                return false;
            }
            j = j + 1;
        }
        assert forall|c: int| 0 <= c < ch.len() implies 0 <= #[trigger] ch[c].index() < bound by {
            if c < ids@.len() {
                assert(ch[c] == ids@[c]);
            }
        }
        true
    }

    /// Structural equality of two kinds.
    pub fn same_kind(&self, other: &TyKind) -> (r: bool)
        ensures
            r == (self@ == other@),
    {
        match (self, other) {
            (TyKind::Prim(a), TyKind::Prim(b)) => *a == *b,
            (TyKind::Tuple(a), TyKind::Tuple(b)) => ids_eq(a, b),
            (TyKind::Fn(pa, ra), TyKind::Fn(pb, rb)) => *ra == *rb && ids_eq(pa, pb),
            _ => false,
        }
    }
}

/// Whether an interned type is the unit type.
pub trait IsUnitExt {
    /// Whether the type is held by `interner`.
    spec fn interned_in(&self, interner: &TypeInterner) -> bool;

    /// Whether the type, as `interner` holds it, is the unit type.
    spec fn unit_in(&self, interner: &TypeInterner) -> bool;

    fn is_unit(&self, interner: &TypeInterner) -> (r: bool)
        requires
            self.interned_in(interner),
        ensures
            r == self.unit_in(interner),
    ;
}

impl IsUnitExt for TyId {
    open spec fn interned_in(&self, interner: &TypeInterner) -> bool {
        0 <= self.index() < interner@.len()
    }

    open spec fn unit_in(&self, interner: &TypeInterner) -> bool {
        is_unit_kind(interner@[self.index()])
    }

    #[inline]
    fn is_unit(&self, interner: &TypeInterner) -> (r: bool) {
        interner.get(*self).is_unit()
    }
}

} // verus!
