//! The slot maps that hold a scene's meshes, declared for verification.
//!
//! A slot map hands out a key per inserted value. Keys travel through this crate as the
//! 64-bit integers of `KeyData::as_ffi`: the slot index in the low 32 bits and the slot's
//! version, which is odd while the slot is occupied, in the high 32 bits.

use vstd::prelude::*;

use slotmap::{DefaultKey, Key, KeyData, SlotMap};

verus! {

/// A `SlotMap<DefaultKey, u64>`, kept opaque: verified code sees it only through
/// [`slot_map_contents`] and the functions below.
#[verifier::external_body]
pub struct MeshSlots {
    slots: SlotMap<DefaultKey, u64>,
}

/// What a slot map holds: the key (as `as_ffi` gives it) of each occupied slot, mapped
/// to the value stored there.
pub uninterp spec fn slot_map_contents(m: MeshSlots) -> Map<u64, u64>;

/// The slot index of a key: its low 32 bits.
pub open spec fn key_slot(key: u64) -> int {
    key as int % 0x1_0000_0000
}

/// Whether a key's version (its high 32 bits) is odd, as the version of every key that a
/// slot map hands out is.
pub open spec fn key_is_occupied_version(key: u64) -> bool {
    (key as int / 0x1_0000_0000) % 2 == 1
}

/// The facts that hold of the contents of every slot map: finitely many keys, each with
/// an odd version, no two in the same slot.
pub open spec fn contents_wf(contents: Map<u64, u64>) -> bool {
    &&& contents.dom().finite()
    &&& forall|k: u64| #[trigger] contents.dom().contains(k) ==> key_is_occupied_version(k)
    &&& forall|k1: u64, k2: u64|
        #![trigger contents.dom().contains(k1), contents.dom().contains(k2)]
        contents.dom().contains(k1) && contents.dom().contains(k2) && k1 != k2 ==> key_slot(k1)
            != key_slot(k2)
}

/// `entries` lists the contents of a slot map in slot order, as its iterator yields them.
pub open spec fn entries_in_slot_order(contents: Map<u64, u64>, entries: Seq<(u64, u64)>) -> bool {
    &&& forall|i: int|
        0 <= i < entries.len() ==> #[trigger] contents.dom().contains(entries[i].0)
            && contents[entries[i].0] == entries[i].1
    &&& forall|k: u64| #[trigger]
        contents.dom().contains(k) ==> exists|i: int| 0 <= i < entries.len() && entries[i].0 == k
    &&& forall|i: int, j: int|
        0 <= i < j < entries.len() ==> key_slot(#[trigger] entries[i].0) < key_slot(
            #[trigger] entries[j].0,
        )
}

/// `SlotMap::new`: creates an empty slot map.
#[verifier::external_body]
pub(crate) fn slot_map_new() -> (r: MeshSlots)
    ensures
        slot_map_contents(r).dom() =~= Set::empty(),
{
    MeshSlots { slots: SlotMap::new() }
}

/// `SlotMap::insert`: stores `value` in a free slot and returns its key, which no stored
/// value had; the map panics when it already holds `u32::MAX - 1` values, hence the
/// bound.
#[verifier::external_body]
pub(crate) fn slot_map_insert(m: &mut MeshSlots, value: u64) -> (key: u64)
    requires
        contents_wf(slot_map_contents(*old(m))),
        slot_map_contents(*old(m)).len() < u32::MAX - 1,
    ensures
        !slot_map_contents(*old(m)).dom().contains(key),
        slot_map_contents(*final(m)) == slot_map_contents(*old(m)).insert(key, value),
        contents_wf(slot_map_contents(*final(m))),
{
    m.slots.insert(value).data().as_ffi()
}

/// `SlotMap::remove`: removes the value stored under `key`, if any, and returns it.
#[verifier::external_body]
pub(crate) fn slot_map_remove(m: &mut MeshSlots, key: u64) -> (r: Option<u64>)
    requires
        contents_wf(slot_map_contents(*old(m))),
        key_is_occupied_version(key),
    ensures
        slot_map_contents(*old(m)).dom().contains(key) ==> r == Some(
            slot_map_contents(*old(m))[key],
        ) && slot_map_contents(*final(m)) == slot_map_contents(*old(m)).remove(key),
        !slot_map_contents(*old(m)).dom().contains(key) ==> r is None && slot_map_contents(
            *final(m),
        ) == slot_map_contents(*old(m)),
        contents_wf(slot_map_contents(*final(m))),
{
    m.slots.remove(DefaultKey::from(KeyData::from_ffi(key)))
}

/// `SlotMap::contains_key`: whether a value is stored under `key`.
#[verifier::external_body]
pub(crate) fn slot_map_contains_key(m: &MeshSlots, key: u64) -> (r: bool)
    requires
        key_is_occupied_version(key),
    ensures
        r == slot_map_contents(*m).dom().contains(key),
{
    m.slots.contains_key(DefaultKey::from(KeyData::from_ffi(key)))
}

/// `SlotMap::len`: the number of stored values.
#[verifier::external_body]
pub(crate) fn slot_map_len(m: &MeshSlots) -> (r: usize)
    requires
        contents_wf(slot_map_contents(*m)),
    ensures
        r == slot_map_contents(*m).len(),
{
    m.slots.len()
}

/// `SlotMap::iter`: the stored keys and values, in slot order.
#[verifier::external_body]
pub(crate) fn slot_map_entries(m: &MeshSlots) -> (r: Vec<(u64, u64)>)
    requires
        contents_wf(slot_map_contents(*m)),
    ensures
        entries_in_slot_order(slot_map_contents(*m), r@),
{
    m.slots.iter().map(|(k, v)| (k.data().as_ffi(), *v)).collect()
}

} // verus!
