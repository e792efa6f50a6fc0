//! Byte-keyed store capabilities.

use crate::key::lex_lt;
use vstd::prelude::*;

verus! {

/// What a store holds, as a map from keys to values.
pub type Entries = Map<Seq<u8>, Seq<u8>>;

/// The view of an optional byte string.
pub open spec fn opt_view(bytes: Option<Vec<u8>>) -> Option<Seq<u8>> {
    match bytes {
        Some(b) => Some(b@),
        None => None,
    }
}

/// The value stored under `key`, if any.
pub open spec fn lookup(entries: Entries, key: Seq<u8>) -> Option<Seq<u8>> {
    if entries.dom().contains(key) {
        Some(entries[key])
    } else {
        None
    }
}

/// The entries after the value under `key` is replaced by `value`; `None` removes the entry.
pub open spec fn commit(entries: Entries, key: Seq<u8>, value: Option<Seq<u8>>) -> Entries {
    match value {
        Some(v) => entries.insert(key, v),
        None => entries.remove(key),
    }
}

/// A store of raw entries, keyed and valued by byte strings.
///
/// A successful call has exactly the stated effect on the entries. Nothing is
/// said of the entries after a call that reports a backend error.
pub trait ByteStore {
    type Error;

    /// The entries the store holds. This is a model for contracts to speak
    /// of: it is never run.
    spec fn entries(&self) -> Entries;

    fn get(&self, key: &[u8]) -> (r: Result<Option<Vec<u8>>, Self::Error>)
        ensures
            r matches Ok(found) ==> opt_view(found) == lookup(self.entries(), key@),
    ;

    fn remove(&mut self, key: &[u8]) -> (r: Result<Option<Vec<u8>>, Self::Error>)
        ensures
            r matches Ok(prev) ==> {
                &&& opt_view(prev) == lookup(old(self).entries(), key@)
                &&& final(self).entries() == old(self).entries().remove(key@)
            },
    ;

    fn insert(&mut self, key: &[u8], val: &[u8]) -> (r: Result<Option<Vec<u8>>, Self::Error>)
        ensures
            r matches Ok(prev) ==> {
                &&& opt_view(prev) == lookup(old(self).entries(), key@)
                &&& final(self).entries() == old(self).entries().insert(key@, val@)
            },
    ;
}

/// The view of an optional borrowed byte string.
pub open spec fn opt_slice_view(bytes: Option<&[u8]>) -> Option<Seq<u8>> {
    match bytes {
        Some(b) => Some(b@),
        None => None,
    }
}

/// A store that can change one entry as a single logical step.
pub trait Atomic: ByteStore {
    /// Hands the current value under `key` to `op` and commits the value that
    /// `op` returns with its report; `None` removes the entry. The report of
    /// the application that was committed is handed back.
    fn atomic_update<R, F: Fn(Option<&[u8]>) -> (Option<Vec<u8>>, R)>(
        &mut self,
        key: &[u8],
        op: F,
    ) -> (r: Result<R, Self::Error>)
        requires
            forall|cur: Option<&[u8]>| op.requires((cur,)),
        ensures
            r matches Ok(report) ==> exists|cur: Option<&[u8]>, next: Option<Vec<u8>>|
                {
                    &&& opt_slice_view(cur) == lookup(old(self).entries(), key@)
                    &&& #[trigger] op.ensures((cur,), (next, report))
                    &&& final(self).entries() == commit(
                        old(self).entries(),
                        key@,
                        opt_view(next),
                    )
                },
    ;

    /// Writes `new` under `key` if the current value is `expected`, where
    /// `None` expects that there is no entry. Otherwise nothing is written and
    /// the current value is handed back.
    fn conditional_update(&mut self, key: &[u8], new: &[u8], expected: Option<&[u8]>) -> (r:
        Result<Result<(), Option<Vec<u8>>>, Self::Error>)
        ensures
            r matches Ok(Ok(_)) ==> {
                &&& lookup(old(self).entries(), key@) == opt_slice_view(expected)
                &&& final(self).entries() == old(self).entries().insert(key@, new@)
            },
            r matches Ok(Err(actual)) ==> {
                &&& lookup(old(self).entries(), key@) == opt_view(actual)
                &&& opt_view(actual) != opt_slice_view(expected)
                &&& final(self).entries() == old(self).entries()
            },
    ;
}

/// `found` is the entry of `entries` with the greatest key that sorts strictly
/// before `bound`, or `None` where no key of `entries` sorts before `bound`.
pub open spec fn greatest_below(
    entries: Entries,
    bound: Seq<u8>,
    found: Option<(Seq<u8>, Seq<u8>)>,
) -> bool {
    match found {
        Some((key, value)) => {
            &&& entries.dom().contains(key)
            &&& entries[key] == value
            &&& lex_lt(key, bound)
            &&& forall|other: Seq<u8>|
                #![trigger entries.dom().contains(other)]
                entries.dom().contains(other) && lex_lt(other, bound) ==> other == key || lex_lt(
                    other,
                    key,
                )
        },
        None => forall|other: Seq<u8>|
            #![trigger entries.dom().contains(other)]
            entries.dom().contains(other) ==> !lex_lt(other, bound),
    }
}

/// The view of an optional entry.
pub open spec fn opt_entry_view(entry: Option<(Vec<u8>, Vec<u8>)>) -> Option<(Seq<u8>, Seq<u8>)> {
    match entry {
        Some((k, v)) => Some((k@, v@)),
        None => None,
    }
}

/// A store that keeps its keys in byte order.
pub trait Ordered: ByteStore {
    /// The entry with the greatest key strictly below `key`.
    fn get_lt(&self, key: &[u8]) -> (r: Result<Option<(Vec<u8>, Vec<u8>)>, Self::Error>)
        ensures
            r matches Ok(found) ==> greatest_below(self.entries(), key@, opt_entry_view(found)),
    ;
}

} // verus!
