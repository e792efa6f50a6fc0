//! Fields that hold a single value. They differ in what no entry means.

use crate::codec::Codec;
use crate::error::{CompareAndSwapError, Error};
use crate::key::{field_key, same_bytes};
use crate::traits::byte_store::{
    commit, lookup, opt_slice_view, opt_view, Atomic, ByteStore, Entries,
};
use crate::traits::data_store::{
    conditional_update, decode_found, decoded, expected_raw, mismatch, swap_encodable, transform,
    transformed, updated, Outcome,
};
use core::marker::PhantomData;
use vstd::prelude::*;

verus! {

/// What a read reports for the raw value `raw` where no entry stands for `default`.
pub open spec fn read_or<V: Codec, E>(default: V, raw: Option<Seq<u8>>) -> Result<V, Error<E>> {
    match raw {
        None => Ok(default),
        Some(bytes) => match V::decoding(bytes) {
            Some(v) => Ok(v),
            None => Err(Error::DeSerializing),
        },
    }
}

/// The value of the field `key`, where no entry stands for `default`.
pub open spec fn value_in<V: Codec, E>(
    entries: Entries,
    key: u8,
    default: V,
) -> Result<V, Error<E>> {
    read_or(default, lookup(entries, field_key(key)))
}

/// The entries after `value` is set for the field `key`.
pub open spec fn after_set<V: Codec>(entries: Entries, key: u8, value: V) -> Entries {
    entries.insert(field_key(key), value.encoding())
}

/// The raw state in which a swap from `old` goes through: no entry where
/// `old` is the default, which is never stored for its own sake, and the
/// encoding of `old` otherwise.
pub open spec fn swap_expects<V: Codec>(default: V, old: V) -> Option<Seq<u8>> {
    if old == default {
        None
    } else {
        Some(old.encoding())
    }
}

/// Whether a swap from `old` goes through on the field `key`.
pub open spec fn swap_succeeds<V: Codec>(
    entries: Entries,
    key: u8,
    default: V,
    old: V,
) -> bool {
    lookup(entries, field_key(key)) == swap_expects(default, old)
}

/// What a swap that does not go through reports: the value of the field.
pub open spec fn swap_refused<V: Codec, E>(
    entries: Entries,
    key: u8,
    default: V,
) -> Result<Result<(), CompareAndSwapError<V>>, Error<E>> {
    match value_in::<V, E>(entries, key, default) {
        Ok(actual) => Ok(Err(CompareAndSwapError { actual })),
        Err(e) => Err(e),
    }
}

/// What a swap from `old_value` to `new_value` does where the store
/// answers: it writes `new_value` where the field is as expected, and else
/// changes nothing and reports the value of the field.
pub open spec fn swapped<V: Codec, E>(
    before: Entries,
    after: Entries,
    r: Result<Result<(), CompareAndSwapError<V>>, Error<E>>,
    key: u8,
    default: V,
    old_value: V,
    new_value: V,
) -> bool {
    if swap_succeeds(before, key, default, old_value) {
        r matches Ok(Ok(_)) && after == after_set(before, key, new_value)
    } else {
        r == swap_refused::<V, E>(before, key, default) && after == before
    }
}

/// The key of a single-value field is the one byte of its identifier.
pub fn scalar_key(key: u8) -> (r: Vec<u8>)
    ensures
        r@ == field_key(key),
{
    let mut bytes: Vec<u8> = Vec::new();
    bytes.push(key);
    assert(bytes@ =~= field_key(key));
    bytes
}

/// Values with the same encoding are the same value.
pub proof fn lemma_encoding_injective<V: Codec>(a: V, b: V)
    requires
        a.encodable(),
        b.encodable(),
        a.encoding() == b.encoding(),
    ensures
        a == b,
{
    V::lemma_round_trip(a);
    V::lemma_round_trip(b);
}

/// Reads the field `key`; no entry reads as `default`.
pub fn get_or<V: Codec, BS: ByteStore>(store: &BS, key: u8, default: V) -> (r: Result<
    V,
    Error<BS::Error>,
>)
    ensures
        r matches Err(Error::Backend(_)) || r == value_in::<V, BS::Error>(
            store.entries(),
            key,
            default,
        ),
{
    let key_bytes = scalar_key(key);
    match store.get(key_bytes.as_slice()) {
        Ok(found) => match decode_found::<V, BS::Error>(found) {
            Ok(Some(v)) => Ok(v),
            Ok(None) => Ok(default),
            Err(e) => Err(e),
        },
        Err(e) => Err(Error::Backend(e)),
    }
}

/// Writes `value` to the field `key`, whether or not it is the field's default.
pub fn set_value<V: Codec, BS: ByteStore>(store: &mut BS, key: u8, value: &V) -> (r: Result<
    (),
    Error<BS::Error>,
>)
    ensures
        !value.encodable() ==> {
            &&& r matches Err(Error::SerializingValue)
            &&& final(store).entries() == old(store).entries()
        },
        value.encodable() ==> {
            ||| r matches Err(Error::Backend(_))
            ||| r is Ok && final(store).entries() == after_set(
                old(store).entries(),
                key,
                *value,
            )
        },
{
    let key_bytes = scalar_key(key);
    let val_bytes = match value.encode() {
        Some(bytes) => bytes,
        None => return Err(Error::SerializingValue),
    };
    match store.insert(key_bytes.as_slice(), val_bytes.as_slice()) {
        Ok(_) => Ok(()),
        Err(e) => Err(Error::Backend(e)),
    }
}

/// Replaces the value of the field `key` by what `op` makes of it, as one
/// step of the store. No entry is transformed as `absent`, or left alone
/// where `absent` is `None`.
pub fn update_or<V: Codec + Copy, BS: Atomic, F: Fn(V) -> V>(
    store: &mut BS,
    key: u8,
    absent: Option<V>,
    op: F,
) -> (r: Result<(), Error<BS::Error>>)
    requires
        forall|v: V| op.requires((v,)),
    ensures
        r matches Err(Error::Backend(_)) || updated(
            &op,
            absent,
            old(store).entries(),
            final(store).entries(),
            field_key(key),
            r,
        ),
{
    let key_bytes = scalar_key(key);
    let op_ref = &op;
    let absent_ref = &absent;
    let bytes_op = |cur: Option<&[u8]>| -> (out: (Option<Vec<u8>>, Outcome))
        ensures
            transformed(op_ref, *absent_ref, opt_slice_view(cur), opt_view(out.0), out.1),
        { transform(op_ref, *absent_ref, cur) };
    match store.atomic_update(key_bytes.as_slice(), bytes_op) {
        Ok(outcome) => {
            proof {
                let (cur, next) = choose|cur: Option<&[u8]>, next: Option<Vec<u8>>|
                    {
                        &&& opt_slice_view(cur) == lookup(old(store).entries(), key_bytes@)
                        &&& #[trigger] bytes_op.ensures((cur,), (next, outcome))
                        &&& store.entries() == commit(
                            old(store).entries(),
                            key_bytes@,
                            opt_view(next),
                        )
                    };
                assert(transformed(
                    op_ref,
                    absent,
                    lookup(old(store).entries(), field_key(key)),
                    opt_view(next),
                    outcome,
                ));
            }
            match outcome {
                Outcome::Applied => Ok(()),
                Outcome::Undecodable => Err(Error::DeSerializing),
                Outcome::Unencodable => Err(Error::SerializingValue),
            }
        },
        Err(e) => Err(Error::Backend(e)),
    }
}

/// The encoding of a field identifier as a key is the one byte itself.
pub proof fn lemma_identifier_encoding(key: u8)
    ensures
        key.encoding() == field_key(key),
{
    reveal_with_fuel(crate::codec::le_bytes, 2);
    assert(key.encoding() =~= field_key(key));
}

/// Writes `new_value` to the field `key` if its value is `old_value`, as one step of the
/// store, and reports the value found otherwise.
///
/// The default is never stored for its own sake, so where `old_value` is the
/// default the swap goes through only on a field without an entry. `new_value` is
/// always written out, the default too. The values are compared by their
/// encodings, so all three need one.
pub fn swap_or<V: Codec + Copy, BS: Atomic>(
    store: &mut BS,
    key: u8,
    default: V,
    old_value: V,
    new_value: V,
) -> (r: Result<Result<(), CompareAndSwapError<V>>, Error<BS::Error>>)
    ensures
        !(default.encodable() && old_value.encodable() && new_value.encodable()) ==> {
            &&& r matches Err(Error::SerializingValue)
            &&& final(store).entries() == old(store).entries()
        },
        default.encodable() && old_value.encodable() && new_value.encodable() ==> {
            ||| r matches Err(Error::Backend(_))
            ||| swapped(
                old(store).entries(),
                final(store).entries(),
                r,
                key,
                default,
                old_value,
                new_value,
            )
        },
{
    let default_bytes = match default.encode() {
        Some(bytes) => bytes,
        None => return Err(Error::SerializingValue),
    };
    let old_bytes = match old_value.encode() {
        Some(bytes) => bytes,
        None => return Err(Error::SerializingValue),
    };
    if new_value.encode().is_none() {
        return Err(Error::SerializingValue);
    }
    let is_default = same_bytes(old_bytes.as_slice(), default_bytes.as_slice());
    proof {
        lemma_identifier_encoding(key);
        if is_default {
            lemma_encoding_injective(old_value, default);
        }
    }
    let answer = if is_default {
        conditional_update::<u8, V, BS>(store, &key, &new_value, None)
    } else {
        conditional_update::<u8, V, BS>(store, &key, &new_value, Some(old_value))
    };
    match answer {
        Ok(Ok(_)) => Ok(Ok(())),
        Ok(Err(found)) => match found.actual {
            Some(actual) => Ok(Err(CompareAndSwapError { actual })),
            None => Ok(Err(CompareAndSwapError { actual: default })),
        },
        Err(e) => Err(e),
    }
}

/// A single value; no entry stands for a default given by the caller.
#[derive(Debug)]
pub struct DefaultValue<V> {
    /// The identifier of the field.
    pub key: u8,
    /// The value that no entry stands for.
    pub default_value: V,
}

impl<V: Codec + Copy> DefaultValue<V> {
    /// The view of the field `key` with the default `default_value`.
    pub fn new(key: u8, default_value: V) -> (r: Self)
        ensures
            r.key == key,
            r.default_value == default_value,
    {
        DefaultValue { key, default_value }
    }

    /// The value of the field; the default where nothing is stored.
    pub fn get<BS: ByteStore>(&self, store: &BS) -> (r: Result<V, Error<BS::Error>>)
        ensures
            r matches Err(Error::Backend(_)) || r == value_in::<V, BS::Error>(
                store.entries(),
                self.key,
                self.default_value,
            ),
    {
        get_or(store, self.key, self.default_value)
    }

    /// Stores `value`, also where it is the default.
    pub fn set<BS: ByteStore>(&self, store: &mut BS, value: &V) -> (r: Result<
        (),
        Error<BS::Error>,
    >)
        ensures
            !value.encodable() ==> {
                &&& r matches Err(Error::SerializingValue)
                &&& final(store).entries() == old(store).entries()
            },
            value.encodable() ==> {
                ||| r matches Err(Error::Backend(_))
                ||| r is Ok && final(store).entries() == after_set(
                    old(store).entries(),
                    self.key,
                    *value,
                )
            },
    {
        set_value(store, self.key, value)
    }

    /// Replaces the value by what `op` makes of it, as one step of the
    /// store. Where nothing is stored `op` is applied to the default.
    pub fn update<BS: Atomic, F: Fn(V) -> V>(&self, store: &mut BS, op: F) -> (r: Result<
        (),
        Error<BS::Error>,
    >)
        requires
            forall|v: V| op.requires((v,)),
        ensures
            r matches Err(Error::Backend(_)) || updated(
                &op,
                Some(self.default_value),
                old(store).entries(),
                final(store).entries(),
                field_key(self.key),
                r,
            ),
    {
        update_or(store, self.key, Some(self.default_value), op)
    }

    /// Stores `new_value` if the value is `old_value`, and reports the value
    /// found otherwise. An `old_value` that is the default matches only a
    /// field without an entry.
    pub fn compare_and_swap<BS: Atomic>(&self, store: &mut BS, old_value: V, new_value: V) -> (r:
        Result<Result<(), CompareAndSwapError<V>>, Error<BS::Error>>)
        ensures
            !(self.default_value.encodable() && old_value.encodable()
                && new_value.encodable()) ==> {
                &&& r matches Err(Error::SerializingValue)
                &&& final(store).entries() == old(store).entries()
            },
            self.default_value.encodable() && old_value.encodable() && new_value.encodable() ==> {
                ||| r matches Err(Error::Backend(_))
                ||| swapped(
                    old(store).entries(),
                    final(store).entries(),
                    r,
                    self.key,
                    self.default_value,
                    old_value,
                    new_value,
                )
            },
    {
        swap_or(store, self.key, self.default_value, old_value, new_value)
    }
}

/// A single value; no entry stands for the default value of its type.
#[derive(Debug)]
pub struct DefaultTrait<V> {
    /// The identifier of the field.
    pub key: u8,
    /// The value that no entry stands for.
    pub default_value: V,
}

impl<V: Codec + Copy + Default> DefaultTrait<V> {
    /// The view of the field `key`; the default is the one of the type.
    pub fn new(key: u8) -> (r: Self)
        ensures
            r.key == key,
            call_ensures(V::default, (), r.default_value),
    {
        DefaultTrait { key, default_value: V::default() }
    }

    /// The value of the field; the default where nothing is stored.
    pub fn get<BS: ByteStore>(&self, store: &BS) -> (r: Result<V, Error<BS::Error>>)
        ensures
            r matches Err(Error::Backend(_)) || r == value_in::<V, BS::Error>(
                store.entries(),
                self.key,
                self.default_value,
            ),
    {
        get_or(store, self.key, self.default_value)
    }

    /// Stores `value`, also where it is the default.
    pub fn set<BS: ByteStore>(&self, store: &mut BS, value: &V) -> (r: Result<
        (),
        Error<BS::Error>,
    >)
        ensures
            !value.encodable() ==> {
                &&& r matches Err(Error::SerializingValue)
                &&& final(store).entries() == old(store).entries()
            },
            value.encodable() ==> {
                ||| r matches Err(Error::Backend(_))
                ||| r is Ok && final(store).entries() == after_set(
                    old(store).entries(),
                    self.key,
                    *value,
                )
            },
    {
        set_value(store, self.key, value)
    }

    /// Replaces the value by what `op` makes of it, as one step of the
    /// store. Where nothing is stored `op` is applied to the default.
    pub fn update<BS: Atomic, F: Fn(V) -> V>(&self, store: &mut BS, op: F) -> (r: Result<
        (),
        Error<BS::Error>,
    >)
        requires
            forall|v: V| op.requires((v,)),
        ensures
            r matches Err(Error::Backend(_)) || updated(
                &op,
                Some(self.default_value),
                old(store).entries(),
                final(store).entries(),
                field_key(self.key),
                r,
            ),
    {
        update_or(store, self.key, Some(self.default_value), op)
    }

    /// Stores `new_value` if the value is `old_value`, and reports the value
    /// found otherwise. An `old_value` that is the default matches only a
    /// field without an entry.
    pub fn compare_and_swap<BS: Atomic>(&self, store: &mut BS, old_value: V, new_value: V) -> (r:
        Result<Result<(), CompareAndSwapError<V>>, Error<BS::Error>>)
        ensures
            !(self.default_value.encodable() && old_value.encodable()
                && new_value.encodable()) ==> {
                &&& r matches Err(Error::SerializingValue)
                &&& final(store).entries() == old(store).entries()
            },
            self.default_value.encodable() && old_value.encodable() && new_value.encodable() ==> {
                ||| r matches Err(Error::Backend(_))
                ||| swapped(
                    old(store).entries(),
                    final(store).entries(),
                    r,
                    self.key,
                    self.default_value,
                    old_value,
                    new_value,
                )
            },
    {
        swap_or(store, self.key, self.default_value, old_value, new_value)
    }
}

/// A single value that may be absent: no entry is no value.
#[derive(Debug)]
pub struct OptionValue<V> {
    /// The identifier of the field.
    pub key: u8,
    pub phantom: PhantomData<V>,
}

impl<V: Codec + Copy> OptionValue<V> {
    /// The view of the field `key`.
    pub fn new(key: u8) -> (r: Self)
        ensures
            r.key == key,
    {
        OptionValue { key, phantom: PhantomData }
    }

    /// The value of the field, if one is stored.
    pub fn get<BS: ByteStore>(&self, store: &BS) -> (r: Result<Option<V>, Error<BS::Error>>)
        ensures
            r matches Err(Error::Backend(_)) || r == decoded::<V, BS::Error>(
                lookup(store.entries(), field_key(self.key)),
            ),
    {
        let key_bytes = scalar_key(self.key);
        match store.get(key_bytes.as_slice()) {
            Ok(found) => decode_found(found),
            Err(e) => Err(Error::Backend(e)),
        }
    }

    /// Stores `value`.
    pub fn set<BS: ByteStore>(&self, store: &mut BS, value: &V) -> (r: Result<
        (),
        Error<BS::Error>,
    >)
        ensures
            !value.encodable() ==> {
                &&& r matches Err(Error::SerializingValue)
                &&& final(store).entries() == old(store).entries()
            },
            value.encodable() ==> {
                ||| r matches Err(Error::Backend(_))
                ||| r is Ok && final(store).entries() == after_set(
                    old(store).entries(),
                    self.key,
                    *value,
                )
            },
    {
        set_value(store, self.key, value)
    }

    /// Replaces the value by what `op` makes of it, as one step of the
    /// store. Where nothing is stored nothing is done.
    pub fn update<BS: Atomic, F: Fn(V) -> V>(&self, store: &mut BS, op: F) -> (r: Result<
        (),
        Error<BS::Error>,
    >)
        requires
            forall|v: V| op.requires((v,)),
        ensures
            r matches Err(Error::Backend(_)) || updated(
                &op,
                None::<V>,
                old(store).entries(),
                final(store).entries(),
                field_key(self.key),
                r,
            ),
    {
        update_or(store, self.key, None, op)
    }

    /// Stores `new_value` if the value is `old_value`, where `None` stands
    /// for a field without an entry, and reports the value found otherwise.
    pub fn compare_and_swap<BS: Atomic>(
        &self,
        store: &mut BS,
        old_value: Option<V>,
        new_value: V,
    ) -> (r: Result<Result<(), CompareAndSwapError<Option<V>>>, Error<BS::Error>>)
        ensures
            !swap_encodable(&new_value, old_value) ==> {
                &&& r matches Err(Error::SerializingValue)
                &&& final(store).entries() == old(store).entries()
            },
            swap_encodable(&new_value, old_value) ==> r matches Err(Error::Backend(_))
                || {
                let cur = lookup(old(store).entries(), field_key(self.key));
                if cur == expected_raw(old_value) {
                    &&& r matches Ok(Ok(_))
                    &&& final(store).entries() == after_set(
                        old(store).entries(),
                        self.key,
                        new_value,
                    )
                } else {
                    &&& r == mismatch::<V, BS::Error>(cur)
                    &&& final(store).entries() == old(store).entries()
                }
            },
    {
        proof {
            lemma_identifier_encoding(self.key);
        }
        conditional_update::<u8, V, BS>(store, &self.key, &new_value, old_value)
    }
}

/// Default elision: a value that was set is the value that is read, whether
/// or not it is the default.
pub proof fn lemma_set_then_get<V: Codec, E>(
    entries: Entries,
    key: u8,
    default: V,
    value: V,
)
    requires
        value.encodable(),
    ensures
        value_in::<V, E>(after_set(entries, key, value), key, default) == Ok::<V, Error<E>>(value),
{
    V::lemma_round_trip(value);
}

/// Default elision: a field that was never written reads as its default.
pub proof fn lemma_unwritten_reads_default<V: Codec, E>(
    entries: Entries,
    key: u8,
    default: V,
)
    requires
        !entries.dom().contains(field_key(key)),
    ensures
        value_in::<V, E>(entries, key, default) == Ok::<V, Error<E>>(default),
{
}

/// Default elision: a swap from the default goes through on a field that
/// was never written.
pub proof fn lemma_swap_from_default<V: Codec>(entries: Entries, key: u8, default: V)
    requires
        !entries.dom().contains(field_key(key)),
    ensures
        swap_succeeds(entries, key, default, default),
{
}

/// Of two swaps from the same value, one after the other, the second is
/// refused and is told the value that the first one wrote.
///
/// The first must change the value or start from the default: a swap from a
/// stored value to itself leaves the field as the second expects it.
pub proof fn lemma_second_swap_refused<V: Codec, E>(
    entries: Entries,
    key: u8,
    default: V,
    old_value: V,
    first: V,
)
    requires
        old_value.encodable(),
        first.encodable(),
        swap_succeeds(entries, key, default, old_value),
        old_value == default || first != old_value,
    ensures
        !swap_succeeds(after_set(entries, key, first), key, default, old_value),
        swap_refused::<V, E>(after_set(entries, key, first), key, default) == Ok::<
            Result<(), CompareAndSwapError<V>>,
            Error<E>,
        >(Err(CompareAndSwapError { actual: first })),
{
    V::lemma_round_trip(first);
    if old_value != default && first.encoding() == old_value.encoding() {
        lemma_encoding_injective(first, old_value);
    }
}

} // verus!
