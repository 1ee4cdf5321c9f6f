//! What a compilation session knows of the items it has seen.

pub mod item;
pub mod local;

use slotmap::Key;
use vstd::prelude::*;

use crate::resolve::def::DefId;
use crate::session::item::ItemInfo;

verus! {

/// The slot map that holds the items of a session, keyed by slot-map keys.
#[verifier::external_body]
pub struct ItemSlots {
    map: slotmap::SlotMap<slotmap::DefaultKey, ItemInfo>,
}

/// The items that an [ItemSlots] holds, by the integer form (`KeyData::as_ffi`) of their keys.
pub uninterp spec fn item_slots(slots: ItemSlots) -> Map<u64, ItemInfo>;

/// `slotmap::SlotMap::new`: a slot map holding nothing.
#[verifier::external_body]
fn item_slots_new() -> (r: ItemSlots)
    ensures
        (item_slots(r) == Map::<u64, ItemInfo>::empty()),
{
    ItemSlots { map: slotmap::SlotMap::new() }
}

/// `slotmap::SlotMap::insert`, with the key turned into its integer form
/// (`KeyData::as_ffi`). As the crate documents, the new key is not the key of any item held
/// before, and it gives back `info`. The call panics once the map has `u32::MAX` slots; the
/// first slot is never used, so that is ruled out below `u32::MAX - 1` items.
#[verifier::external_body]
fn item_slots_insert(slots: &mut ItemSlots, info: ItemInfo) -> (r: u64)
    requires
        item_slots(*old(slots)).dom().finite(),
        item_slots(*old(slots)).len() < u32::MAX - 1,
    ensures
        !item_slots(*old(slots)).contains_key(r),
        item_slots(*final(slots)) == item_slots(*old(slots)).insert(r, info),
{
    slots.map.insert(info).data().as_ffi()
}

/// `Index<K> for slotmap::SlotMap`, with the key rebuilt from its integer form
/// (`KeyData::from_ffi`): the item held under that key. The index panics on a key that
/// holds nothing, which `requires` rules out.
#[verifier::external_body]
fn item_slots_get(slots: &ItemSlots, key: u64) -> (r: &ItemInfo)
    requires
        item_slots(*slots).contains_key(key),
    ensures
        *r == item_slots(*slots)[key],
{
    &slots.map[slotmap::DefaultKey::from(slotmap::KeyData::from_ffi(key))]
}

/// The items of a compilation, each under the [DefId] it was registered with.
pub struct Session {
    items: ItemSlots,
}

impl Session {
    /// The registered items, by the index of their [DefId].
    pub closed spec fn items(&self) -> Map<u64, ItemInfo> {
        item_slots(self.items)
    }

    /// The registered items are finitely many.
    pub open spec fn wf(&self) -> bool {
        self.items().dom().finite()
    }

    /// A session with no items.
    pub fn new() -> (r: Self)
        ensures
            r.wf(),
            r.items() == Map::<u64, ItemInfo>::empty(),
    {
        Session { items: item_slots_new() }
    }

    /// Registers `info`, giving back the fresh id it is now found under.
    pub fn register_item(&mut self, info: ItemInfo) -> (r: DefId)
        requires
            old(self).wf(),
            old(self).items().len() < u32::MAX - 1,
        ensures
            final(self).wf(),
            !old(self).items().contains_key(r.0),
            final(self).items() == old(self).items().insert(r.0, info),
    {
        DefId(item_slots_insert(&mut self.items, info))
    }

    /// The item registered under `id`.
    pub fn item(&self, id: DefId) -> (r: &ItemInfo)
        requires
            self.items().contains_key(id.0),
        ensures
            *r == self.items()[id.0],
    {
        item_slots_get(&self.items, id.0)
    }
}

impl Default for Session {
    /// A session with no items.
    fn default() -> (r: Self)
        ensures
            r.wf(),
            r.items() == Map::<u64, ItemInfo>::empty(),
    {
        Session::new()
    }
}

/// Registering an item keeps the items registered before, and the id it hands out gives
/// back the item: [Session::register_item] followed by [Session::item] on the new id.
pub proof fn law_item_after_register(items: Map<u64, ItemInfo>, id: u64, info: ItemInfo)
    requires
        !items.contains_key(id),
    ensures
        items.insert(id, info)[id] == info,
        forall|k: u64| #[trigger] items.contains_key(k) ==> items.insert(id, info).contains_key(k)
            && items.insert(id, info)[k] == items[k],
{
}

} // verus!
