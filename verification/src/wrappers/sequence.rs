//! A field that holds a sequence: elements are appended at the tail and
//! removed from the tail.
//!
//! The element at index `i` is stored under the field's identifier followed
//! by `i`. The handle counts the elements; the count is never ahead of the
//! store, and can be recovered from the store alone.

use crate::codec::Codec;
use crate::error::Error;
use crate::key::{
    index_key, indexed_of, lemma_below_upper_bound, lemma_index_keys_ordered,
    lemma_lex_lt_irreflexive, lemma_upper_bound_closes, lex_lt, upper_bound, Indexed,
};
use crate::traits::byte_store::{
    greatest_below, lookup, opt_entry_view, opt_slice_view, ByteStore, Entries, Ordered,
};
use crate::traits::data_store::{decode_found, decoded};
use core::marker::PhantomData;
use vstd::prelude::*;

verus! {

/// The entries of the field `prefix` are exactly the elements `0` to `len - 1`.
pub open spec fn holds_sequence(entries: Entries, prefix: u8, len: u64) -> bool {
    &&& forall|i: u64| i < len ==> entries.dom().contains(#[trigger] index_key(prefix, i))
    &&& forall|key: Seq<u8>|
        #![trigger entries.dom().contains(key)]
        entries.dom().contains(key) && key.len() > 0 && key[0] == prefix ==> exists|i: u64|
            i < len && key == #[trigger] index_key(prefix, i)
}

/// The length that the greatest key below the field's upper bound tells: one
/// more than its index where it is an element of the field, nothing where it
/// belongs to a lower field or there is none. A key of the field that is no
/// element key of a sequence is an error.
pub open spec fn recovered<E>(found: Option<Seq<u8>>, prefix: u8) -> Result<u64, Error<E>> {
    match found {
        None => Ok(0),
        Some(key) => if key.len() == 0 || key[0] != prefix {
            Ok(0)
        } else {
            match indexed_of(key) {
                Some(k) => if k.index < u64::MAX {
                    Ok((k.index + 1) as u64)
                } else {
                    Err(Error::DeSerializing)
                },
                None => Err(Error::DeSerializing),
            }
        },
    }
}

/// The key of an optional entry.
pub open spec fn key_of(entry: Option<(Seq<u8>, Seq<u8>)>) -> Option<Seq<u8>> {
    match entry {
        Some((key, _)) => Some(key),
        None => None,
    }
}

/// The store and the count after `value` is pushed.
pub open spec fn push_step(
    state: (Entries, u64),
    prefix: u8,
    value: Seq<u8>,
) -> (Entries, u64)
    recommends
        state.1 < u64::MAX,
{
    (state.0.insert(index_key(prefix, state.1), value), (state.1 + 1) as u64)
}

/// The store and the count after the last element is popped, and the raw
/// value that was removed. An empty sequence stays as it is.
pub open spec fn pop_step(state: (Entries, u64), prefix: u8) -> (
    (Entries, u64),
    Option<Seq<u8>>,
) {
    if state.1 == 0 {
        (state, None)
    } else {
        let last = index_key(prefix, (state.1 - 1) as u64);
        ((state.0.remove(last), (state.1 - 1) as u64), lookup(state.0, last))
    }
}

/// The length of a sequence from the key that was found below its field's upper bound.
pub fn recovered_len<E>(found: Option<&[u8]>, prefix: u8) -> (r: Result<u64, Error<E>>)
    ensures
        r == recovered::<E>(opt_slice_view(found), prefix),
{
    match found {
        None => Ok(0),
        Some(key) => {
            if key.len() == 0 || key[0] != prefix {
                return Ok(0);
            }
            match Indexed::decode(key) {
                Some(k) => if k.index < u64::MAX {
                    Ok(k.index + 1)
                } else {
                    Err(Error::DeSerializing)
                },
                None => Err(Error::DeSerializing),
            }
        },
    }
}

/// The keys of two different indices of a field differ.
pub proof fn lemma_index_keys_differ(prefix: u8, i: u64, j: u64)
    requires
        i != j,
    ensures
        index_key(prefix, i) != index_key(prefix, j),
{
    lemma_index_keys_ordered(prefix, i, j);
    lemma_index_keys_ordered(prefix, j, i);
    lemma_lex_lt_irreflexive(index_key(prefix, i));
}

/// The first byte of an element key is the field's identifier.
pub proof fn lemma_index_key_head(prefix: u8, i: u64)
    ensures
        index_key(prefix, i).len() == 9,
        index_key(prefix, i)[0] == prefix,
{
    crate::key::lemma_be_bytes_len(i as nat, 8);
}

/// A push onto a well-formed sequence leaves a well-formed sequence.
pub proof fn lemma_push_keeps_sequence(
    entries: Entries,
    prefix: u8,
    len: u64,
    value: Seq<u8>,
)
    requires
        holds_sequence(entries, prefix, len),
        len < u64::MAX,
    ensures
        holds_sequence(
            push_step((entries, len), prefix, value).0,
            prefix,
            push_step((entries, len), prefix, value).1,
        ),
{
    let after = push_step((entries, len), prefix, value).0;
    let grown = (len + 1) as u64;
    assert forall|i: u64| i < grown implies after.dom().contains(
        #[trigger] index_key(prefix, i),
    ) by {
        if i < len {
            assert(entries.dom().contains(index_key(prefix, i)));
        }
    }
    assert forall|key: Seq<u8>|
        #![trigger after.dom().contains(key)]
        after.dom().contains(key) && key.len() > 0 && key[0] == prefix implies exists|i: u64|
        i < grown && key == #[trigger] index_key(prefix, i) by {
        if key == index_key(prefix, len) {
        } else {
            assert(entries.dom().contains(key));
            let i = choose|i: u64| i < len && key == #[trigger] index_key(prefix, i);
            assert(i < grown && key == index_key(prefix, i));
        }
    }
}

/// A pop from a well-formed sequence leaves a well-formed sequence.
pub proof fn lemma_pop_keeps_sequence(entries: Entries, prefix: u8, len: u64)
    requires
        holds_sequence(entries, prefix, len),
    ensures
        holds_sequence(
            pop_step((entries, len), prefix).0.0,
            prefix,
            pop_step((entries, len), prefix).0.1,
        ),
{
    if len > 0 {
        let last = (len - 1) as u64;
        let after = entries.remove(index_key(prefix, last));
        assert forall|i: u64| i < last implies after.dom().contains(
            #[trigger] index_key(prefix, i),
        ) by {
            assert(entries.dom().contains(index_key(prefix, i)));
            lemma_index_keys_differ(prefix, i, last);
        }
        assert forall|key: Seq<u8>|
            #![trigger after.dom().contains(key)]
            after.dom().contains(key) && key.len() > 0 && key[0] == prefix implies exists|i: u64|

                i < last && key == #[trigger] index_key(prefix, i) by {
            assert(entries.dom().contains(key));
            let i = choose|i: u64| i < len && key == #[trigger] index_key(prefix, i);
            assert(i < last && key == index_key(prefix, i));
        }
    }
}

/// Recovery: where the store holds exactly the elements `0` to `len - 1` of
/// a field, the entry found below the field's upper bound tells `len`.
pub proof fn lemma_recovers_length<E>(
    entries: Entries,
    prefix: u8,
    len: u64,
    found: Option<(Seq<u8>, Seq<u8>)>,
)
    requires
        prefix < u8::MAX,
        holds_sequence(entries, prefix, len),
        greatest_below(entries, upper_bound(prefix), found),
    ensures
        recovered::<E>(key_of(found), prefix) == Ok::<u64, Error<E>>(len),
{
    let bound = upper_bound(prefix);
    if len > 0 {
        let last = (len - 1) as u64;
        let top = index_key(prefix, last);
        lemma_index_key_head(prefix, last);
        assert(entries.dom().contains(top));
        assert(lex_lt(top, bound)) by {
            lemma_below_upper_bound(prefix, crate::key::be_bytes(last as nat, 8));
        }
        match found {
            None => {
                assert(false);
            },
            Some((key, _)) => {
                assert(key == top || lex_lt(top, key));
                lemma_upper_bound_closes(prefix, key);
                if key != top {
                    let k = choose|k: int| #[trigger] crate::key::precedes_at(top, key, k);
                    assert(key.len() > 0);
                    if k == 0 {
                        assert(top[0] < key[0]);
                    } else {
                        assert(top[0] == key[0]);
                    }
                    assert(key[0] == prefix);
                    let i = choose|i: u64| i < len && key == #[trigger] index_key(prefix, i);
                    lemma_index_keys_ordered(prefix, last, i);
                    assert(false);
                }
                Indexed::lemma_round_trip(Indexed { prefix, index: last });
            },
        }
    } else {
        match found {
            None => {},
            Some((key, _)) => {
                lemma_upper_bound_closes(prefix, key);
                if key.len() > 0 && key[0] == prefix {
                    let i = choose|i: u64| i < len && key == #[trigger] index_key(prefix, i);
                    assert(false);
                }
            },
        }
    }
}

/// The handle of a sequence field: the field's identifier and the number of elements.
#[derive(Debug)]
pub struct GrowableSequence<V> {
    prefix: u8,
    len: u64,
    phantom: PhantomData<V>,
}

impl<V: Codec> GrowableSequence<V> {
    /// The identifier of the field.
    pub closed spec fn field(&self) -> u8 {
        self.prefix
    }

    /// The number of elements.
    pub closed spec fn count(&self) -> u64 {
        self.len
    }

    /// The handle and the store agree: the store holds exactly the elements
    /// that the handle counts.
    pub open spec fn agrees_with(&self, entries: Entries) -> bool {
        holds_sequence(entries, self.field(), self.count())
    }

    /// The handle of the field `prefix` with `len` elements.
    pub fn new(prefix: u8, len: u64) -> (r: Self)
        ensures
            r.field() == prefix,
            r.count() == len,
    {
        GrowableSequence { prefix, len, phantom: PhantomData }
    }

    /// The handle of the field `prefix`, with the length that the store tells.
    ///
    /// The store is asked once, for the entry with the greatest key below
    /// the field's upper bound. Where the store holds exactly the elements
    /// `0` to `n - 1` of the field, the handle counts `n`.
    pub fn recover<BS: Ordered>(store: &BS, prefix: u8) -> (r: Result<Self, Error<BS::Error>>)
        requires
            prefix < u8::MAX,
        ensures
            r matches Ok(handle) ==> handle.field() == prefix,
            r matches Err(Error::Backend(_)) || exists|found: Option<(Seq<u8>, Seq<u8>)>|
                {
                    &&& #[trigger] greatest_below(store.entries(), upper_bound(prefix), found)
                    &&& match recovered::<BS::Error>(key_of(found), prefix) {
                        Ok(len) => r matches Ok(handle) && handle.count() == len,
                        Err(e) => r matches Err(f) && f == e,
                    }
                },
            forall|len: u64|
                holds_sequence(store.entries(), prefix, len) ==> r matches Err(Error::Backend(_))
                    || (r matches Ok(handle) && handle.count() == len),
    {
        let mut bound: Vec<u8> = Vec::new();
        bound.push(prefix + 1);
        assert(bound@ =~= upper_bound(prefix));
        match store.get_lt(bound.as_slice()) {
            Ok(found) => {
                let answer = match &found {
                    Some(entry) => recovered_len::<BS::Error>(Some(entry.0.as_slice()), prefix),
                    None => recovered_len::<BS::Error>(None, prefix),
                };
                proof {
                    let seen = opt_entry_view(found);
                    assert(greatest_below(store.entries(), upper_bound(prefix), seen));
                    assert(answer == recovered::<BS::Error>(key_of(seen), prefix));
                    assert forall|len: u64|
                        holds_sequence(store.entries(), prefix, len) implies answer == Ok::<
                        u64,
                        Error<BS::Error>,
                    >(len) by {
                        lemma_recovers_length::<BS::Error>(store.entries(), prefix, len, seen);
                    }
                }
                match answer {
                    Ok(len) => Ok(GrowableSequence { prefix, len, phantom: PhantomData }),
                    Err(e) => Err(e),
                }
            },
            Err(e) => Err(Error::Backend(e)),
        }
    }

    /// The number of elements, as the handle counts them.
    pub fn len(&self) -> (n: u64)
        ensures
            n == self.count(),
    {
        self.len
    }

    /// The identifier of the field.
    pub fn prefix(&self) -> (p: u8)
        ensures
            p == self.field(),
    {
        self.prefix
    }

    /// Appends `value`. The count goes up only after the store has taken the element.
    pub fn push<BS: ByteStore>(&mut self, store: &mut BS, value: &V) -> (r: Result<
        (),
        Error<BS::Error>,
    >)
        requires
            old(self).count() < u64::MAX,
        ensures
            final(self).field() == old(self).field(),
            !value.encodable() ==> {
                &&& r matches Err(Error::SerializingValue)
                &&& final(self).count() == old(self).count()
                &&& final(store).entries() == old(store).entries()
            },
            value.encodable() ==> {
                ||| (r matches Err(Error::Backend(_))) && final(self).count() == old(self).count()
                ||| r is Ok && (final(store).entries(), final(self).count()) == push_step(
                    (old(store).entries(), old(self).count()),
                    old(self).field(),
                    value.encoding(),
                )
            },
            r is Ok && old(self).agrees_with(old(store).entries()) ==> final(self).agrees_with(
                final(store).entries(),
            ),
    {
        let val_bytes = match value.encode() {
            Some(bytes) => bytes,
            None => return Err(Error::SerializingValue),
        };
        let key = Indexed { prefix: self.prefix, index: self.len };
        let key_bytes = match key.encode() {
            Some(bytes) => bytes,
            None => return Err(Error::SerializingKey),
        };
        match store.insert(key_bytes.as_slice(), val_bytes.as_slice()) {
            Ok(_) => {
                proof {
                    if old(self).agrees_with(old(store).entries()) {
                        lemma_push_keeps_sequence(
                            old(store).entries(),
                            self.prefix,
                            self.len,
                            value.encoding(),
                        );
                    }
                }
                self.len = self.len + 1;
                Ok(())
            },
            Err(e) => Err(Error::Backend(e)),
        }
    }

    /// Removes the last element and hands it back; `None` where the
    /// sequence is empty.
    ///
    /// Once the store has removed the entry the element is gone and the
    /// count is down, also where the removed bytes do not decode.
    pub fn pop<BS: ByteStore>(&mut self, store: &mut BS) -> (r: Result<Option<V>, Error<BS::Error>>)
        ensures
            final(self).field() == old(self).field(),
            old(self).count() == 0 ==> {
                &&& r matches Ok(None)
                &&& final(self).count() == 0
                &&& final(store).entries() == old(store).entries()
            },
            old(self).count() > 0 ==> {
                ||| (r matches Err(Error::Backend(_))) && final(self).count() == old(self).count()
                ||| {
                    let step = pop_step(
                        (old(store).entries(), old(self).count()),
                        old(self).field(),
                    );
                    &&& (final(store).entries(), final(self).count()) == step.0
                    &&& r == decoded::<V, BS::Error>(step.1)
                }
            },
            !(r matches Err(Error::Backend(_))) && old(self).agrees_with(old(store).entries())
                ==> final(self).agrees_with(final(store).entries()),
    {
        if self.len == 0 {
            return Ok(None);
        }
        let key = Indexed { prefix: self.prefix, index: self.len - 1 };
        let key_bytes = match key.encode() {
            Some(bytes) => bytes,
            None => return Err(Error::SerializingKey),
        };
        match store.remove(key_bytes.as_slice()) {
            Ok(prev) => {
                proof {
                    if old(self).agrees_with(old(store).entries()) {
                        lemma_pop_keeps_sequence(old(store).entries(), self.prefix, self.len);
                    }
                }
                self.len = self.len - 1;
                decode_found(prev)
            },
            Err(e) => Err(Error::Backend(e)),
        }
    }

    /// The element at `index`; `None` at or beyond the count.
    pub fn get<BS: ByteStore>(&self, store: &BS, index: u64) -> (r: Result<
        Option<V>,
        Error<BS::Error>,
    >)
        ensures
            index >= self.count() ==> r matches Ok(None),
            index < self.count() ==> r matches Err(Error::Backend(_)) || r == decoded::<
                V,
                BS::Error,
            >(lookup(store.entries(), index_key(self.field(), index))),
    {
        if index >= self.len {
            return Ok(None);
        }
        let key = Indexed { prefix: self.prefix, index };
        let key_bytes = match key.encode() {
            Some(bytes) => bytes,
            None => return Err(Error::SerializingKey),
        };
        match store.get(key_bytes.as_slice()) {
            Ok(found) => decode_found(found),
            Err(e) => Err(Error::Backend(e)),
        }
    }
}

/// Sequence ordering: after a push of `a` and a push of `b`, the first pop
/// gives `b`, the second gives `a`, and the count is back where it was. On a
/// sequence that was empty a third pop gives nothing.
pub proof fn lemma_pops_reverse_pushes<V: Codec, E>(
    entries: Entries,
    prefix: u8,
    len: u64,
    a: V,
    b: V,
)
    requires
        len + 2 <= u64::MAX,
        a.encodable(),
        b.encodable(),
    ensures
        ({
            let one = push_step((entries, len), prefix, a.encoding());
            let two = push_step(one, prefix, b.encoding());
            let first = pop_step(two, prefix);
            let second = pop_step(first.0, prefix);
            let third = pop_step(second.0, prefix);
            &&& one.1 == len + 1
            &&& two.1 == len + 2
            &&& decoded::<V, E>(first.1) == Ok::<Option<V>, Error<E>>(Some(b))
            &&& first.0.1 == len + 1
            &&& decoded::<V, E>(second.1) == Ok::<Option<V>, Error<E>>(Some(a))
            &&& second.0.1 == len
            &&& len == 0 ==> third.1 is None && third.0.1 == 0
        }),
{
    V::lemma_round_trip(a);
    V::lemma_round_trip(b);
    lemma_index_keys_differ(prefix, len, (len + 1) as u64);
}

} // verus!
