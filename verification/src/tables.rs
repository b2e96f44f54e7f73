//! The concurrent maps that an engine keeps, and what is trusted of them.
//!
//! A map is changed only through the functions here, which take it by exclusive reference, so
//! that what it holds can be spoken of.
use dashmap::DashMap;
use vstd::prelude::*;

use crate::cuda_compat::Device;
use crate::transfer_engine::callbacks::CallbackEntry;

verus! {

/// A map that many threads may use at once.
#[verifier::external_type_specification]
#[verifier::external_body]
#[verifier::reject_recursive_types(K)]
#[verifier::reject_recursive_types(V)]
#[verifier::reject_recursive_types(S)]
pub struct ExDashMap<K, V, S>(dashmap::DashMap<K, V, S>);

/// What a map from regions to devices holds.
pub uninterp spec fn devices_in(table: DashMap<u64, Device>) -> Map<u64, Device>;

/// `dashmap::DashMap::new`: the map is empty.
#[verifier::external_body]
pub(crate) fn new_devices() -> (table: DashMap<u64, Device>)
    ensures
        devices_in(table) == (Map::<u64, Device>::empty()),
{
    DashMap::new()
}

/// `dashmap::DashMap::insert`: the key is bound to the value, whatever it was bound to before,
/// and the other keys are as they were.
#[verifier::external_body]
pub(crate) fn put_device(table: &mut DashMap<u64, Device>, key: u64, value: Device)
    ensures
        devices_in(*final(table)) == devices_in(*old(table)).insert(key, value),
{
    table.insert(key, value);
}

/// `dashmap::DashMap::get`: a copy of the value that the key is bound to, if it is bound.
#[verifier::external_body]
pub(crate) fn get_device(table: &DashMap<u64, Device>, key: u64) -> (value: Option<Device>)
    ensures
        value == if devices_in(*table).contains_key(key) {
            Some(devices_in(*table)[key])
        } else {
            None
        },
{
    table.get(&key).map(|entry| *entry)
}

/// `dashmap::DashMap::remove`: the key is no longer bound, and the other keys are as they were.
#[verifier::external_body]
pub(crate) fn remove_device(table: &mut DashMap<u64, Device>, key: u64)
    ensures
        devices_in(*final(table)) == devices_in(*old(table)).remove(key),
{
    table.remove(&key);
}

/// What a map from operations to callbacks holds.
pub uninterp spec fn callbacks_in(table: DashMap<u64, CallbackEntry>) -> Map<u64, CallbackEntry>;

/// `dashmap::DashMap::new`: the map is empty.
#[verifier::external_body]
pub(crate) fn new_callbacks() -> (table: DashMap<u64, CallbackEntry>)
    ensures
        callbacks_in(table) == (Map::<u64, CallbackEntry>::empty()),
{
    DashMap::new()
}

/// `dashmap::DashMap::insert`: the key is bound to the value, whatever it was bound to before,
/// and the other keys are as they were.
#[verifier::external_body]
pub(crate) fn put_callback(table: &mut DashMap<u64, CallbackEntry>, key: u64, value: CallbackEntry)
    ensures
        callbacks_in(*final(table)) == callbacks_in(*old(table)).insert(key, value),
{
    table.insert(key, value);
}

/// `dashmap::DashMap::get`: a copy of the value that the key is bound to, if it is bound.
#[verifier::external_body]
pub(crate) fn get_callback(table: &DashMap<u64, CallbackEntry>, key: u64) -> (value: Option<
    CallbackEntry,
>)
    ensures
        value == if callbacks_in(*table).contains_key(key) {
            Some(callbacks_in(*table)[key])
        } else {
            None
        },
{
    table.get(&key).map(|entry| *entry)
}

/// `dashmap::DashMap::remove`: the value that the key was bound to, if it was bound; the key is
/// no longer bound, and the other keys are as they were.
#[verifier::external_body]
pub(crate) fn take_callback(table: &mut DashMap<u64, CallbackEntry>, key: u64) -> (value: Option<
    CallbackEntry,
>)
    ensures
        callbacks_in(*final(table)) == callbacks_in(*old(table)).remove(key),
        value == if callbacks_in(*old(table)).contains_key(key) {
            Some(callbacks_in(*old(table))[key])
        } else {
            None
        },
{
    table.remove(&key).map(|entry| entry.1)
}

} // verus!
