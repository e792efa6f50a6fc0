//! A field that holds a map: values are read, written and removed by key,
//! one at a time. The entries are not counted and cannot be listed.

use crate::codec::Codec;
use crate::error::Error;
use crate::key::{entry_key, lemma_fields_disjoint, Prefixed};
use crate::traits::byte_store::{lookup, ByteStore};
use crate::traits::data_store::{decoded, get, insert, remove};
use core::marker::PhantomData;
use vstd::prelude::*;

verus! {

/// The handle of a map field.
#[derive(Debug)]
pub struct AssociativeMap<K, V> {
    /// The identifier of the field.
    pub prefix: u8,
    pub phantom: PhantomData<(K, V)>,
}

impl<K: Codec, V: Codec> AssociativeMap<K, V> {
    /// The handle of the field `prefix`.
    pub fn new(prefix: u8) -> (r: Self)
        ensures
            r.prefix == prefix,
    {
        AssociativeMap { prefix, phantom: PhantomData }
    }

    /// The store key of the entry for `key`.
    pub open spec fn key_for(&self, key: K) -> Seq<u8> {
        entry_key(self.prefix, key.encoding())
    }

    /// The value stored for `key`, if any.
    pub fn get<BS: ByteStore>(&self, store: &BS, key: K) -> (r: Result<Option<V>, Error<BS::Error>>)
        ensures
            !key.encodable() ==> r matches Err(Error::SerializingKey),
            key.encodable() ==> r matches Err(Error::Backend(_)) || r == decoded::<V, BS::Error>(
                lookup(store.entries(), self.key_for(key)),
            ),
    {
        let full = Prefixed { prefix: self.prefix, key };
        get::<Prefixed<K>, V, BS>(store, &full)
    }

    /// Stores `value` for `key` and hands back the value that was stored
    /// for it before.
    pub fn insert<BS: ByteStore>(&self, store: &mut BS, key: K, value: &V) -> (r: Result<
        Option<V>,
        Error<BS::Error>,
    >)
        ensures
            !key.encodable() ==> {
                &&& r matches Err(Error::SerializingKey)
                &&& final(store).entries() == old(store).entries()
            },
            key.encodable() && !value.encodable() ==> {
                &&& r matches Err(Error::SerializingValue)
                &&& final(store).entries() == old(store).entries()
            },
            key.encodable() && value.encodable() ==> r matches Err(Error::Backend(_)) || {
                &&& r == decoded::<V, BS::Error>(lookup(old(store).entries(), self.key_for(key)))
                &&& final(store).entries() == old(store).entries().insert(
                    self.key_for(key),
                    value.encoding(),
                )
            },
    {
        let full = Prefixed { prefix: self.prefix, key };
        insert::<Prefixed<K>, V, BS>(store, &full, value)
    }

    /// Removes the entry for `key` and hands back the value it held.
    pub fn remove<BS: ByteStore>(&self, store: &mut BS, key: K) -> (r: Result<
        Option<V>,
        Error<BS::Error>,
    >)
        ensures
            !key.encodable() ==> {
                &&& r matches Err(Error::SerializingKey)
                &&& final(store).entries() == old(store).entries()
            },
            key.encodable() ==> r matches Err(Error::Backend(_)) || {
                &&& r == decoded::<V, BS::Error>(lookup(old(store).entries(), self.key_for(key)))
                &&& final(store).entries() == old(store).entries().remove(self.key_for(key))
            },
    {
        let full = Prefixed { prefix: self.prefix, key };
        remove::<Prefixed<K>, V, BS>(store, &full)
    }
}

/// Map isolation: entries of maps in two different fields never share a
/// store key, whatever their map keys are.
pub proof fn lemma_maps_isolated<K: Codec, V: Codec, L: Codec, W: Codec>(
    one: AssociativeMap<K, V>,
    other: AssociativeMap<L, W>,
    key: K,
    other_key: L,
)
    requires
        one.prefix != other.prefix,
    ensures
        one.key_for(key) != other.key_for(other_key),
{
    lemma_fields_disjoint(one.prefix, other.prefix, key.encoding(), other_key.encoding());
}

/// Within one map, two different keys never share a store key.
pub proof fn lemma_map_keys_distinct<K: Codec, V: Codec>(map: AssociativeMap<K, V>, a: K, b: K)
    requires
        a.encodable(),
        b.encodable(),
        a != b,
    ensures
        map.key_for(a) != map.key_for(b),
{
    if map.key_for(a) == map.key_for(b) {
        assert(map.key_for(a).skip(1) =~= a.encoding());
        assert(map.key_for(b).skip(1) =~= b.encoding());
        K::lemma_round_trip(a);
        K::lemma_round_trip(b);
    }
}

} // verus!
