use lasso::Key;
use vstd::prelude::*;

use crate::interning::{distinct, intern_spec};

verus! {

#[verifier::external_type_specification]
#[verifier::external_body]
#[verifier::reject_recursive_types(K)]
#[verifier::reject_recursive_types(S)]
pub struct ExRodeo<K, S>(lasso::Rodeo<K, S>);

#[verifier::external_type_specification]
#[verifier::external_body]
pub struct ExSpur(lasso::Spur);

/// The strings that a `lasso::Rodeo` holds, in the order of their keys.
pub uninterp spec fn rodeo_strings(rodeo: lasso::Rodeo) -> Seq<Seq<char>>;

/// `lasso::Rodeo::new`: an interner holding no strings.
#[verifier::external_body]
fn rodeo_new() -> (r: lasso::Rodeo)
    ensures
        rodeo_strings(r) == Seq::<Seq<char>>::empty(),
{
    lasso::Rodeo::new()
}

/// `lasso::Rodeo::get_or_intern`, with the key turned into its index (`Key::into_usize`).
/// As the crate's source shows, an already held string gives the index it is held at and
/// leaves the interner unchanged; a new string is appended and gets the next index. The key
/// space of `Spur` ends below `u32::MAX`, where the call would panic.
#[verifier::external_body]
fn rodeo_get_or_intern(rodeo: &mut lasso::Rodeo, s: &str) -> (r: usize)
    requires
        rodeo_strings(*old(rodeo)).len() < u32::MAX,
    ensures
        rodeo_strings(*old(rodeo)).contains(s@) ==> rodeo_strings(*final(rodeo)) == rodeo_strings(*old(rodeo))
            && 0 <= r < rodeo_strings(*old(rodeo)).len() && rodeo_strings(*old(rodeo))[r as int] == s@,
        !rodeo_strings(*old(rodeo)).contains(s@) ==> rodeo_strings(*final(rodeo)) == rodeo_strings(*old(rodeo)).push(s@)
            && r == rodeo_strings(*old(rodeo)).len(),
{
    rodeo.get_or_intern(s).into_usize()
}

/// `lasso::Rodeo::len`: the number of strings held.
#[verifier::external_body]
fn rodeo_len(rodeo: &lasso::Rodeo) -> (r: usize)
    ensures
        r == rodeo_strings(*rodeo).len(),
{
    rodeo.len()
}

/// `lasso::Rodeo::resolve` of the key with the given index (`Key::try_from_usize`): the
/// string held at that index.
#[verifier::external_body]
fn rodeo_resolve(rodeo: &lasso::Rodeo, index: usize) -> (r: &str)
    requires
        index < rodeo_strings(*rodeo).len(),
        rodeo_strings(*rodeo).len() < u32::MAX,
    ensures
        r@ == rodeo_strings(*rodeo)[index as int],
{
    rodeo.resolve(&lasso::Spur::try_from_usize(index).unwrap())
}

/// An interned string: its index in the [SymbolTable] that interned it.
#[derive(Clone, Copy, PartialEq, Eq, Hash, Debug, Structural)]
pub struct Symbol(usize);

/// The strings interned for a compilation.
pub struct SymbolTable {
    rodeo: lasso::Rodeo,
}

impl View for SymbolTable {
    type V = Seq<Seq<char>>;

    closed spec fn view(&self) -> Seq<Seq<char>> {
        rodeo_strings(self.rodeo)
    }
}

impl SymbolTable {
    /// No string is held twice, and the key space is not exhausted.
    pub open spec fn wf(&self) -> bool {
        &&& distinct(self@)
        &&& self@.len() < u32::MAX
    }

    /// The number of strings held.
    pub fn len(&self) -> (r: usize)
        ensures
            r == self@.len(),
    {
        rodeo_len(&self.rodeo)
    }

    /// A table holding no strings.
    pub fn new() -> (r: Self)
        ensures
            r.wf(),
            r@ == Seq::<Seq<char>>::empty(),
    {
        SymbolTable { rodeo: rodeo_new() }
    }
}

impl Symbol {
    /// The index of the symbol in its table.
    pub closed spec fn key(&self) -> usize {
        self.0
    }

    /// The index of the symbol in its table.
    pub open spec fn index(&self) -> int {
        self.key() as int
    }

    /// Two symbols are equal exactly when their indices are.
    pub proof fn lemma_key_injective(a: Symbol, b: Symbol)
        ensures
            a.key() == b.key() <==> a == b,
    {
    }

    /// The index of the symbol in its table.
    pub fn as_index(&self) -> (r: usize)
        ensures
            r == self.index(),
    {
        self.0
    }

    /// Interns `s` into `table`: the symbol of the equal string if it is held, and otherwise
    /// a new symbol for `s`.
    pub fn intern(table: &mut SymbolTable, s: &str) -> (r: Self)
        requires
            old(table).wf(),
            old(table)@.len() + 1 < u32::MAX,
        ensures
            final(table).wf(),
            (final(table)@, r.index()) == intern_spec(old(table)@, s@),
    {
        let i = rodeo_get_or_intern(&mut table.rodeo, s);
        proof {
            if old(table)@.contains(s@) {
                let c = choose|j: int| 0 <= j < old(table)@.len() && old(table)@[j] == s@;
                assert(c == i);
            }
        }
        Symbol(i)
    }

    /// The string of this symbol.
    #[inline]
    pub fn as_str<'a>(&self, table: &'a SymbolTable) -> (r: &'a str)
        requires
            table.wf(),
            0 <= self.index() < table@.len(),
        ensures
            r@ == table@[self.index()],
    {
        rodeo_resolve(&table.rodeo, self.0)
    }
}

} // verus!
