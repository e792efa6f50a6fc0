//! The typed layer: keys and values are encoded on the way into a byte store
//! and decoded on the way out.

use crate::codec::Codec;
use crate::error::{CompareAndSwapError, Error};
use crate::traits::byte_store::{
    commit, lookup, opt_slice_view, opt_view, Atomic, ByteStore, Entries,
};
use vstd::prelude::*;

verus! {

/// What a raw value read from the store stands for: no entry is no value, and
/// bytes that do not decode are an error.
pub open spec fn decoded<V: Codec, E>(raw: Option<Seq<u8>>) -> Result<Option<V>, Error<E>> {
    match raw {
        None => Ok(None),
        Some(bytes) => match V::decoding(bytes) {
            Some(v) => Ok(Some(v)),
            None => Err(Error::DeSerializing),
        },
    }
}

/// Decodes what a backend handed back.
pub fn decode_found<V: Codec, E>(raw: Option<Vec<u8>>) -> (r: Result<Option<V>, Error<E>>)
    ensures
        r == decoded::<V, E>(opt_view(raw)),
{
    match raw {
        None => Ok(None),
        Some(bytes) => match V::decode(bytes.as_slice()) {
            Some(v) => Ok(Some(v)),
            None => Err(Error::DeSerializing),
        },
    }
}

/// Reads the value stored under `key`.
pub fn get<K: Codec, V: Codec, BS: ByteStore>(store: &BS, key: &K) -> (r: Result<
    Option<V>,
    Error<BS::Error>,
>)
    ensures
        !key.encodable() ==> r matches Err(Error::SerializingKey),
        key.encodable() ==> r matches Err(Error::Backend(_)) || r == decoded::<V, BS::Error>(
            lookup(store.entries(), key.encoding()),
        ),
{
    let key_bytes = match key.encode() {
        Some(bytes) => bytes,
        None => return Err(Error::SerializingKey),
    };
    match store.get(key_bytes.as_slice()) {
        Ok(found) => decode_found(found),
        Err(e) => Err(Error::Backend(e)),
    }
}

/// Removes the entry under `key` and hands back the value it held.
///
/// The entry is gone even where the value it held does not decode.
pub fn remove<K: Codec, V: Codec, BS: ByteStore>(store: &mut BS, key: &K) -> (r: Result<
    Option<V>,
    Error<BS::Error>,
>)
    ensures
        !key.encodable() ==> {
            &&& r matches Err(Error::SerializingKey)
            &&& final(store).entries() == old(store).entries()
        },
        key.encodable() ==> r matches Err(Error::Backend(_)) || {
            &&& r == decoded::<V, BS::Error>(lookup(old(store).entries(), key.encoding()))
            &&& final(store).entries() == old(store).entries().remove(key.encoding())
        },
{
    let key_bytes = match key.encode() {
        Some(bytes) => bytes,
        None => return Err(Error::SerializingKey),
    };
    match store.remove(key_bytes.as_slice()) {
        Ok(prev) => decode_found(prev),
        Err(e) => Err(Error::Backend(e)),
    }
}

/// Stores `val` under `key` and hands back the value that was there before.
///
/// The new value is stored even where the previous one does not decode.
pub fn insert<K: Codec, V: Codec, BS: ByteStore>(store: &mut BS, key: &K, val: &V) -> (r: Result<
    Option<V>,
    Error<BS::Error>,
>)
    ensures
        !key.encodable() ==> {
            &&& r matches Err(Error::SerializingKey)
            &&& final(store).entries() == old(store).entries()
        },
        key.encodable() && !val.encodable() ==> {
            &&& r matches Err(Error::SerializingValue)
            &&& final(store).entries() == old(store).entries()
        },
        key.encodable() && val.encodable() ==> r matches Err(Error::Backend(_)) || {
            &&& r == decoded::<V, BS::Error>(lookup(old(store).entries(), key.encoding()))
            &&& final(store).entries() == old(store).entries().insert(
                key.encoding(),
                val.encoding(),
            )
        },
{
    let key_bytes = match key.encode() {
        Some(bytes) => bytes,
        None => return Err(Error::SerializingKey),
    };
    let val_bytes = match val.encode() {
        Some(bytes) => bytes,
        None => return Err(Error::SerializingValue),
    };
    match store.insert(key_bytes.as_slice(), val_bytes.as_slice()) {
        Ok(prev) => decode_found(prev),
        Err(e) => Err(Error::Backend(e)),
    }
}

/// How one application of a transformation to a raw value ended.
#[derive(Clone, Copy, Debug, PartialEq, Eq, Structural)]
pub enum Outcome {
    /// The raw value was replaced by the encoded result, or there was nothing to transform.
    Applied,
    /// The raw value does not decode; it was left as it is.
    Undecodable,
    /// The result has no encoding; the raw value was left as it is.
    Unencodable,
}

/// The raw value `next` and the outcome that the result `new` of a
/// transformation gives: its encoding, or the raw value `cur` as it was where
/// it has none.
pub open spec fn replaced<V: Codec>(
    new: V,
    cur: Option<Seq<u8>>,
    next: Option<Seq<u8>>,
    outcome: Outcome,
) -> bool {
    if new.encodable() {
        next == Some(new.encoding()) && outcome == Outcome::Applied
    } else {
        next == cur && outcome == Outcome::Unencodable
    }
}

/// Some result of `op` on `input` gives the raw value `next` and the outcome.
pub open spec fn applied<V: Codec, F: Fn(V) -> V>(
    op: &F,
    input: V,
    cur: Option<Seq<u8>>,
    next: Option<Seq<u8>>,
    outcome: Outcome,
) -> bool {
    exists|new: V|
        {
            &&& #[trigger] op.ensures((input,), new)
            &&& replaced(new, cur, next, outcome)
        }
}

/// The relation between a raw value `cur`, and the raw value `next` and the
/// outcome that applying `op` to it gives. No entry stands for `absent`; where
/// `absent` is `None`, no entry stays no entry.
pub open spec fn transformed<V: Codec, F: Fn(V) -> V>(
    op: &F,
    absent: Option<V>,
    cur: Option<Seq<u8>>,
    next: Option<Seq<u8>>,
    outcome: Outcome,
) -> bool {
    let input = match cur {
        Some(bytes) => V::decoding(bytes),
        None => absent,
    };
    if cur is None && absent is None {
        next is None && outcome == Outcome::Applied
    } else if input is None {
        next == cur && outcome == Outcome::Undecodable
    } else {
        applied(op, input->Some_0, cur, next, outcome)
    }
}

/// Applies `op` to the value that the raw value `cur` stands for and encodes
/// the result. Where that cannot be done the raw value is handed back as it
/// is, with the reason.
pub fn transform<V: Codec, F: Fn(V) -> V>(op: &F, absent: Option<V>, cur: Option<&[u8]>) -> (out: (
    Option<Vec<u8>>,
    Outcome,
))
    requires
        forall|v: V| op.requires((v,)),
    ensures
        transformed(op, absent, opt_slice_view(cur), opt_view(out.0), out.1),
{
    let input = match cur {
        Some(bytes) => match V::decode(bytes) {
            Some(v) => v,
            None => {
                let same = vstd::slice::slice_to_vec(bytes);
                return (Some(same), Outcome::Undecodable);
            },
        },
        None => match absent {
            Some(v) => v,
            None => return (None, Outcome::Applied),
        },
    };
    let new = op(input);
    match new.encode() {
        Some(bytes) => (Some(bytes), Outcome::Applied),
        None => match cur {
            Some(bytes) => (Some(vstd::slice::slice_to_vec(bytes)), Outcome::Unencodable),
            None => (None, Outcome::Unencodable),
        },
    }
}

/// What an update reports for an outcome.
pub open spec fn outcome_result<E>(outcome: Outcome) -> Result<(), Error<E>> {
    match outcome {
        Outcome::Applied => Ok(()),
        Outcome::Undecodable => Err(Error::DeSerializing),
        Outcome::Unencodable => Err(Error::SerializingValue),
    }
}

/// What an update of the entry under `key` does where the store answers:
/// the entry is replaced as `op` transforms it, and the result says how the
/// transformation ended.
pub open spec fn updated<V: Codec, F: Fn(V) -> V, E>(
    op: &F,
    absent: Option<V>,
    before: Entries,
    after: Entries,
    key: Seq<u8>,
    r: Result<(), Error<E>>,
) -> bool {
    exists|next: Option<Seq<u8>>, outcome: Outcome|
        {
            &&& #[trigger] transformed(op, absent, lookup(before, key), next, outcome)
            &&& after == commit(before, key, next)
            &&& r == outcome_result::<E>(outcome)
        }
}

/// Replaces the value stored under `key` by what `op` makes of it, as one
/// step of the store. Where there is no entry nothing is done. Where the
/// stored bytes do not decode, or the result has no encoding, the stored
/// bytes stay as they are and the error is reported.
pub fn atomic_update<K: Codec, V: Codec, BS: Atomic, F: Fn(V) -> V>(
    store: &mut BS,
    key: &K,
    op: F,
) -> (r: Result<(), Error<BS::Error>>)
    requires
        forall|v: V| op.requires((v,)),
    ensures
        !key.encodable() ==> {
            &&& r matches Err(Error::SerializingKey)
            &&& final(store).entries() == old(store).entries()
        },
        key.encodable() ==> {
            ||| r matches Err(Error::Backend(_))
            ||| updated(
                &op,
                None::<V>,
                old(store).entries(),
                final(store).entries(),
                key.encoding(),
                r,
            )
        },
{
    let key_bytes = match key.encode() {
        Some(bytes) => bytes,
        None => return Err(Error::SerializingKey),
    };
    let op_ref = &op;
    let bytes_op = |cur: Option<&[u8]>| -> (out: (Option<Vec<u8>>, Outcome))
        ensures
            transformed(op_ref, None::<V>, opt_slice_view(cur), opt_view(out.0), out.1),
        { transform(op_ref, None, cur) };
    match store.atomic_update(key_bytes.as_slice(), bytes_op) {
        Ok(outcome) => {
            proof {
                let (cur, next) = choose|cur: Option<&[u8]>, next: Option<Vec<u8>>|
                    {
                        &&& opt_slice_view(cur) == lookup(old(store).entries(), key_bytes@)
                        &&& #[trigger] bytes_op.ensures((cur,), (next, outcome))
                        &&& store.entries() == commit(
                            old(store).entries(),
                            key_bytes@,
                            opt_view(next),
                        )
                    };
                assert(transformed(
                    op_ref,
                    None::<V>,
                    lookup(old(store).entries(), key.encoding()),
                    opt_view(next),
                    outcome,
                ));
            }
            match outcome {
                Outcome::Applied => Ok(()),
                Outcome::Undecodable => Err(Error::DeSerializing),
                Outcome::Unencodable => Err(Error::SerializingValue),
            }
        },
        Err(e) => Err(Error::Backend(e)),
    }
}

/// What a compare-and-swap reports when the store found `actual` in place of
/// the expected value: the decoded value, or an error where it does not decode.
pub open spec fn mismatch<V: Codec, E>(actual: Option<Seq<u8>>) -> Result<
    Result<(), CompareAndSwapError<Option<V>>>,
    Error<E>,
> {
    match decoded::<V, E>(actual) {
        Ok(value) => Ok(Err(CompareAndSwapError { actual: value })),
        Err(e) => Err(e),
    }
}

/// Turns the answer of a byte-level compare-and-swap into a typed one.
pub fn swap_result<V: Codec, E>(answer: Result<(), Option<Vec<u8>>>) -> (r: Result<
    Result<(), CompareAndSwapError<Option<V>>>,
    Error<E>,
>)
    ensures
        answer is Ok ==> r matches Ok(Ok(_)),
        answer matches Err(actual) ==> r == mismatch::<V, E>(opt_view(actual)),
{
    match answer {
        Ok(_) => Ok(Ok(())),
        Err(actual) => match decode_found::<V, E>(actual) {
            Ok(value) => Ok(Err(CompareAndSwapError { actual: value })),
            Err(e) => Err(e),
        },
    }
}

/// The raw state that a compare-and-swap expects: the encoding of the
/// expected value, or no entry.
pub open spec fn expected_raw<V: Codec>(expected: Option<V>) -> Option<Seq<u8>> {
    match expected {
        Some(v) => Some(v.encoding()),
        None => None,
    }
}

/// Whether every value handed to a compare-and-swap has an encoding.
pub open spec fn swap_encodable<V: Codec>(new: &V, expected: Option<V>) -> bool {
    new.encodable() && (expected matches Some(v) ==> v.encodable())
}

/// Stores `new` under `key` if the stored bytes are the encoding of
/// `expected`, where `None` expects that there is no entry. Otherwise nothing
/// is written, and the value found is reported.
pub fn conditional_update<K: Codec, V: Codec, BS: Atomic>(
    store: &mut BS,
    key: &K,
    new: &V,
    expected: Option<V>,
) -> (r: Result<Result<(), CompareAndSwapError<Option<V>>>, Error<BS::Error>>)
    ensures
        !key.encodable() ==> {
            &&& r matches Err(Error::SerializingKey)
            &&& final(store).entries() == old(store).entries()
        },
        key.encodable() && !swap_encodable(new, expected) ==> {
            &&& r matches Err(Error::SerializingValue)
            &&& final(store).entries() == old(store).entries()
        },
        key.encodable() && swap_encodable(new, expected) ==> r matches Err(Error::Backend(_)) || {
            let cur = lookup(old(store).entries(), key.encoding());
            if cur == expected_raw(expected) {
                &&& r matches Ok(Ok(_))
                &&& final(store).entries() == old(store).entries().insert(
                    key.encoding(),
                    new.encoding(),
                )
            } else {
                &&& r == mismatch::<V, BS::Error>(cur)
                &&& final(store).entries() == old(store).entries()
            }
        },
{
    let key_bytes = match key.encode() {
        Some(bytes) => bytes,
        None => return Err(Error::SerializingKey),
    };
    let new_bytes = match new.encode() {
        Some(bytes) => bytes,
        None => return Err(Error::SerializingValue),
    };
    let answer = match expected {
        Some(v) => {
            let expected_bytes = match v.encode() {
                Some(bytes) => bytes,
                None => return Err(Error::SerializingValue),
            };
            store.conditional_update(
                key_bytes.as_slice(),
                new_bytes.as_slice(),
                Some(expected_bytes.as_slice()),
            )
        },
        None => store.conditional_update(key_bytes.as_slice(), new_bytes.as_slice(), None),
    };
    match answer {
        Ok(answer) => swap_result(answer),
        Err(e) => Err(Error::Backend(e)),
    }
}

} // verus!
