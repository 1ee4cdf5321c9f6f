use slotmap::Key;
use vstd::prelude::*;

use crate::interning::{distinct, intern_spec};
use crate::types::ty::{SpecTyKind, TyId, TyKind};

verus! {

/// The slot map that holds the interned kinds, keyed by slot-map keys.
#[verifier::external_body]
pub struct KindSlots {
    map: slotmap::SlotMap<slotmap::DefaultKey, TyKind>,
}

/// The kinds that a [KindSlots] holds, by the integer form (`KeyData::as_ffi`) of their keys.
pub uninterp spec fn kind_slots(slots: KindSlots) -> Map<u64, SpecTyKind>;

/// `slotmap::SlotMap::new`: a slot map holding nothing.
#[verifier::external_body]
fn kind_slots_new() -> (r: KindSlots)
    ensures
        (kind_slots(r) == Map::<u64, SpecTyKind>::empty()),
{
    KindSlots { map: slotmap::SlotMap::new() }
}

/// `slotmap::SlotMap::insert`, with the key turned into its integer form
/// (`KeyData::as_ffi`). As the crate documents, the new key is not the key of any kind held
/// before, and it gives back `kind`. The call panics once the map has `u32::MAX` slots; the
/// first slot is never used, so that is ruled out below `u32::MAX - 1` kinds.
#[verifier::external_body]
fn kind_slots_insert(slots: &mut KindSlots, kind: TyKind) -> (r: u64)
    requires
        kind_slots(*old(slots)).dom().finite(),
        kind_slots(*old(slots)).len() < u32::MAX - 1,
    ensures
        !kind_slots(*old(slots)).contains_key(r),
        kind_slots(*final(slots)) == kind_slots(*old(slots)).insert(r, kind@),
{
    slots.map.insert(kind).data().as_ffi()
}

/// `Index<K> for slotmap::SlotMap`, with the key rebuilt from its integer form
/// (`KeyData::from_ffi`): the kind held under that key. The index panics on a key that
/// holds nothing, which `requires` rules out.
#[verifier::external_body]
fn kind_slots_get(slots: &KindSlots, key: u64) -> (r: &TyKind)
    requires
        kind_slots(*slots).contains_key(key),
    ensures
        r@ == kind_slots(*slots)[key],
{
    &slots.map[slotmap::DefaultKey::from(slotmap::KeyData::from_ffi(key))]
}

/// An interner used to intern [TyKind]s and get a [TyId] back for reference.
/// Equal kinds get the same id; the id of a kind is the position at which it was first
/// interned. The kinds are held in a slot map, and the keys of their slots in the order of
/// interning.
pub struct TypeInterner {
    pool: KindSlots,
    keys: Vec<u64>,
}

/// The ids that a kind refers to.
pub open spec fn children(k: SpecTyKind) -> Seq<TyId> {
    match k {
        SpecTyKind::Prim(_) => Seq::empty(),
        SpecTyKind::Tuple(es) => es,
        SpecTyKind::Fn(ps, r) => ps.push(r),
    }
}

/// Whether every id that `k` refers to is below `bound`.
pub open spec fn refers_below(k: SpecTyKind, bound: int) -> bool {
    forall|c: int| 0 <= c < children(k).len() ==> 0 <= #[trigger] children(k)[c].index() < bound
}

impl View for TypeInterner {
    type V = Seq<SpecTyKind>;

    closed spec fn view(&self) -> Seq<SpecTyKind> {
        self.keys@.map_values(|k: u64| kind_slots(self.pool)[k])
    }
}

impl TypeInterner {
    /// Each key in the order is the key of a slot, each slot's key is in the order once, and
    /// the slot map has not run out of slots.
    #[verifier::type_invariant]
    closed spec fn slots_match(&self) -> bool {
        &&& distinct(self.keys@)
        &&& kind_slots(self.pool).dom().finite()
        &&& kind_slots(self.pool).dom() == self.keys@.to_set()
        &&& self.keys@.len() < u32::MAX
    }

    /// No kind is held twice.
    pub open spec fn wf(&self) -> bool {
        distinct(self@)
    }

    /// Every kind refers only to kinds interned before it, so that following the references
    /// of a type always ends.
    pub open spec fn well_founded(&self) -> bool {
        forall|i: int| 0 <= i < self@.len() ==> refers_below(#[trigger] self@[i], i)
    }

    /// The number of interned kinds.
    pub fn len(&self) -> (r: usize)
        ensures
            r == self@.len(),
    {
        self.keys.len()
    }

    proof fn lemma_slots_len(&self)
        requires
            self.slots_match(),
        ensures
            kind_slots(self.pool).len() == self.keys@.len(),
            self@.len() == self.keys@.len(),
    {
        assert(self.keys@.no_duplicates());
        self.keys@.unique_seq_to_set();
    }

    /// Interns `ty`: returns the id of the equal kind if one is held, and otherwise adds
    /// `ty` under the next id. A new kind needs a free slot (the slot map holds fewer than
    /// `u32::MAX` slots).
    pub fn intern(&mut self, ty: TyKind) -> (r: TyId)
        requires
            old(self).wf(),
            old(self)@.len() < u32::MAX - 1 || old(self)@.contains(ty@),
        ensures
            final(self).wf(),
            (final(self)@, r.index()) == intern_spec(old(self)@, ty@),
            old(self).well_founded() && refers_below(ty@, old(self)@.len() as int) ==> final(self).well_founded(),
    {
        proof {
            use_type_invariant(&*self);
        }
        let mut i: usize = 0;
        while i < self.keys.len()
            invariant
                self.slots_match(),
                *self == *old(self),
                old(self).wf(),
                0 <= i <= self@.len(),
                self@.len() == self.keys@.len(),
                forall|k: int| 0 <= k < i ==> self@[k] != ty@,
            decreases self@.len() - i,
        {
            proof {
                assert(self.keys@.to_set().contains(self.keys@[i as int]));
            }
            if kind_slots_get(&self.pool, self.keys[i]).same_kind(&ty) {
                assert(self@[i as int] == ty@);
                proof {
                    let c = choose|j: int| 0 <= j < self@.len() && self@[j] == ty@;
                    assert(c == i);
                }
                return TyId::from_index(i);
            }
            i = i + 1;
        }
        proof {
            assert(!self@.contains(ty@));
            self.lemma_slots_len();
        }
        let ghost k = ty@;
        let mut this = TypeInterner::default();
        std::mem::swap(&mut this, self);
        let TypeInterner { mut pool, mut keys } = this;
        let key = kind_slots_insert(&mut pool, ty);
        keys.push(key);
        proof {
            let old_keys = old(self).keys@;
            assert(!old_keys.contains(key)) by {
                assert(!old_keys.to_set().contains(key));
            }
            assert(distinct(keys@)) by {
                assert forall|a: int, b: int| 0 <= a < b < keys@.len() implies keys@[a] != keys@[b] by {
                    if b == old_keys.len() {
                        assert(old_keys.contains(keys@[a]));
                    }
                }
            }
            assert(keys@.to_set() =~= old_keys.to_set().insert(key)) by {
                old_keys.lemma_push_to_set_commute(key);
            }
            assert(kind_slots(pool).dom() =~= keys@.to_set());
        }
        *self = TypeInterner { pool, keys };
        proof {
            let old_keys = old(self).keys@;
            assert(!old_keys.contains(key)) by {
                assert(!old_keys.to_set().contains(key));
            }
            assert(self@ =~= old(self)@.push(k)) by {
                assert forall|a: int| 0 <= a < old_keys.len() implies #[trigger] self@[a] == old(self)@[a] by {
                    assert(old_keys.contains(old_keys[a]));
                    assert(old_keys[a] != key);
                }
            }
        }
        TyId::from_index(self.keys.len() - 1)
    }

    /// Whether every kind refers only to kinds interned before it (see
    /// [Self::well_founded]).
    pub fn is_well_founded(&self) -> (r: bool)
        ensures
            r == self.well_founded(),
    {
        let mut i: usize = 0;
        while i < self.len()
            invariant
                0 <= i <= self@.len(),
                forall|k: int| 0 <= k < i ==> refers_below(#[trigger] self@[k], k),
            decreases self@.len() - i,
        {
            if !self.get(TyId::from_index(i)).refers_below_exec(i) {
                return false;
            }
            i = i + 1;
        }
        true
    }

    /// The kind with id `id`.
    pub fn get(&self, id: TyId) -> (r: &TyKind)
        requires
            0 <= id.index() < self@.len(),
        ensures
            r@ == self@[id.index()],
    {
        proof {
            use_type_invariant(self);
            assert(self.keys@.to_set().contains(self.keys@[id.index()]));
        }
        kind_slots_get(&self.pool, self.keys[id.get_index()])
    }
}

impl Default for TypeInterner {
    /// An interner holding no kinds.
    fn default() -> (r: Self)
        ensures
            r@ == Seq::<SpecTyKind>::empty(),
            r.wf(),
            r.well_founded(),
    {
        let pool = kind_slots_new();
        let keys: Vec<u64> = Vec::new();
        proof {
            assert(keys@.to_set() =~= Set::<u64>::empty());
            assert(kind_slots(pool).dom() =~= Set::<u64>::empty());
        }
        let r = TypeInterner { pool, keys };
        assert(r@ =~= Seq::<SpecTyKind>::empty());
        r
    }
}

} // verus!
