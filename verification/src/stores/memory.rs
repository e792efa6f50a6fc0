//! A store in memory, with every capability. It never fails.
//!
//! The entries are kept as a list of pairs. Where a key occurs more than
//! once the last pair counts.

use crate::key::{bytes_lt, lemma_lex_lt_total, lemma_lex_lt_transitive, lex_lt, same_bytes};
use crate::traits::byte_store::{lookup, opt_view, Atomic, ByteStore, Entries, Ordered};
use core::convert::Infallible;
use vstd::prelude::*;
use vstd::slice::slice_to_vec;

verus! {

/// The entries that a list of pairs stands for: each pair overwrites what
/// the pairs before it say of its key.
pub open spec fn listed(items: Seq<(Vec<u8>, Vec<u8>)>) -> Entries
    decreases items.len(),
{
    if items.len() == 0 {
        Map::empty()
    } else {
        listed(items.drop_last()).insert(items.last().0@, items.last().1@)
    }
}

/// No pair of `items` has the key `key`.
pub open spec fn unlisted(items: Seq<(Vec<u8>, Vec<u8>)>, key: Seq<u8>) -> bool {
    forall|j: int| 0 <= j < items.len() ==> (#[trigger] items[j]).0@ != key
}

/// The pair at `at` is the last one with the key `key`.
pub open spec fn last_listed(items: Seq<(Vec<u8>, Vec<u8>)>, key: Seq<u8>, at: int) -> bool {
    &&& 0 <= at < items.len()
    &&& items[at].0@ == key
    &&& forall|j: int| at < j < items.len() ==> (#[trigger] items[j]).0@ != key
}

/// A key that no pair has is not among the entries.
pub proof fn lemma_unlisted_is_absent(items: Seq<(Vec<u8>, Vec<u8>)>, key: Seq<u8>)
    requires
        unlisted(items, key),
    ensures
        !listed(items).dom().contains(key),
    decreases items.len(),
{
    if items.len() > 0 {
        let init = items.drop_last();
        assert forall|j: int| 0 <= j < init.len() implies (#[trigger] init[j]).0@ != key by {
            assert(items[j].0@ != key);
        }
        lemma_unlisted_is_absent(init, key);
        assert(items[items.len() - 1].0@ != key);
    }
}

/// The last pair with a key gives the key's value.
pub proof fn lemma_last_listed_counts(items: Seq<(Vec<u8>, Vec<u8>)>, key: Seq<u8>, at: int)
    requires
        last_listed(items, key, at),
    ensures
        listed(items).dom().contains(key),
        listed(items)[key] == items[at].1@,
    decreases items.len(),
{
    if at < items.len() - 1 {
        let init = items.drop_last();
        assert(items[items.len() - 1].0@ != key);
        assert(init[at] == items[at]);
        assert forall|j: int| at < j < init.len() implies (#[trigger] init[j]).0@ != key by {
            assert(items[j].0@ != key);
        }
        lemma_last_listed_counts(init, key, at);
    }
}

/// Taking out a pair with the key `key` changes nothing for the other keys.
pub proof fn lemma_unlisting(items: Seq<(Vec<u8>, Vec<u8>)>, key: Seq<u8>, at: int)
    requires
        0 <= at < items.len(),
        items[at].0@ == key,
    ensures
        listed(items.remove(at)).remove(key) == listed(items).remove(key),
    decreases items.len(),
{
    let fewer = items.remove(at);
    if at == items.len() - 1 {
        assert(fewer =~= items.drop_last());
        assert(listed(fewer).remove(key) =~= listed(items).remove(key));
    } else {
        let init = items.drop_last();
        assert(init[at] == items[at]);
        assert(fewer.drop_last() =~= init.remove(at));
        assert(fewer.last() == items.last());
        lemma_unlisting(init, key, at);
        let a = listed(init.remove(at));
        let b = listed(init);
        let last_key = items.last().0@;
        let last_val = items.last().1@;
        assert(listed(fewer) == a.insert(last_key, last_val));
        assert(listed(items) == b.insert(last_key, last_val));
        let m1 = listed(fewer).remove(key);
        let m2 = listed(items).remove(key);
        assert forall|k: Seq<u8>| #[trigger]
            m1.dom().contains(k) == m2.dom().contains(k) && (m1.dom().contains(k) ==> m1[k]
                == m2[k]) by {
            if k != key && k != last_key {
                assert(a.remove(key).dom().contains(k) == a.dom().contains(k));
                assert(b.remove(key).dom().contains(k) == b.dom().contains(k));
                if a.dom().contains(k) {
                    assert(a.remove(key)[k] == a[k]);
                    assert(b.remove(key)[k] == b[k]);
                }
            }
        }
        assert(m1 =~= m2);
    }
}

/// The key of every pair is among the entries.
pub proof fn lemma_listed_is_present(items: Seq<(Vec<u8>, Vec<u8>)>, at: int)
    requires
        0 <= at < items.len(),
    ensures
        listed(items).dom().contains(items[at].0@),
    decreases items.len(),
{
    if at < items.len() - 1 {
        let init = items.drop_last();
        assert(init[at] == items[at]);
        lemma_listed_is_present(init, at);
    }
}

/// A store in memory.
#[derive(Debug)]
pub struct Memory {
    items: Vec<(Vec<u8>, Vec<u8>)>,
}

impl Memory {
    /// A store without entries.
    pub fn new() -> (r: Self)
        ensures
            r.entries() == Entries::empty(),
    {
        Memory { items: Vec::new() }
    }

    /// The place of the last pair with the key `key`.
    fn find(&self, key: &[u8]) -> (r: Option<usize>)
        ensures
            match r {
                Some(at) => last_listed(self.items@, key@, at as int),
                None => unlisted(self.items@, key@),
            },
    {
        let mut i: usize = self.items.len();
        while i > 0
            invariant
                i <= self.items.len(),
                forall|j: int| i <= j < self.items@.len() ==> (#[trigger] self.items@[j]).0@ != key@,
            decreases i,
        {
            i = i - 1;
            if same_bytes(self.items[i].0.as_slice(), key) {
                return Some(i);
            }
        }
        None
    }

    /// The value under `key`, copied.
    fn read(&self, key: &[u8]) -> (r: Option<Vec<u8>>)
        ensures
            opt_view(r) == lookup(self.entries(), key@),
    {
        match self.find(key) {
            Some(at) => {
                proof {
                    lemma_last_listed_counts(self.items@, key@, at as int);
                }
                Some(slice_to_vec(self.items[at].1.as_slice()))
            },
            None => {
                proof {
                    lemma_unlisted_is_absent(self.items@, key@);
                }
                None
            },
        }
    }

    /// Takes out every pair with the key `key`.
    fn unlist(&mut self, key: &[u8])
        ensures
            final(self).entries() == old(self).entries().remove(key@),
    {
        let mut i: usize = 0;
        while i < self.items.len()
            invariant
                i <= self.items.len(),
                listed(self.items@).remove(key@) == listed(old(self).items@).remove(key@),
                forall|j: int| 0 <= j < i ==> (#[trigger] self.items@[j]).0@ != key@,
            decreases self.items.len() - i,
        {
            if same_bytes(self.items[i].0.as_slice(), key) {
                proof {
                    lemma_unlisting(self.items@, key@, i as int);
                }
                let _ = self.items.remove(i);
            } else {
                i = i + 1;
            }
        }
        proof {
            lemma_unlisted_is_absent(self.items@, key@);
            assert(listed(self.items@).remove(key@) =~= listed(self.items@));
        }
    }

    /// Puts `val` under `key`.
    fn write(&mut self, key: &[u8], val: &[u8])
        ensures
            final(self).entries() == old(self).entries().insert(key@, val@),
    {
        self.unlist(key);
        let ghost before = self.items@;
        self.items.push((slice_to_vec(key), slice_to_vec(val)));
        proof {
            assert(self.items@.drop_last() =~= before);
            assert(listed(before).insert(key@, val@) =~= old(self).entries().insert(key@, val@));
        }
    }
}

impl ByteStore for Memory {
    type Error = Infallible;

    closed spec fn entries(&self) -> Entries {
        listed(self.items@)
    }

    fn get(&self, key: &[u8]) -> (r: Result<Option<Vec<u8>>, Infallible>)
        ensures
            r is Ok,
    {
        Ok(self.read(key))
    }

    fn remove(&mut self, key: &[u8]) -> (r: Result<Option<Vec<u8>>, Infallible>)
        ensures
            r is Ok,
    {
        let prev = self.read(key);
        self.unlist(key);
        Ok(prev)
    }

    fn insert(&mut self, key: &[u8], val: &[u8]) -> (r: Result<Option<Vec<u8>>, Infallible>)
        ensures
            r is Ok,
    {
        let prev = self.read(key);
        self.write(key, val);
        Ok(prev)
    }
}

impl Atomic for Memory {
    fn atomic_update<R, F: Fn(Option<&[u8]>) -> (Option<Vec<u8>>, R)>(
        &mut self,
        key: &[u8],
        op: F,
    ) -> (r: Result<R, Infallible>)
        ensures
            r is Ok,
    {
        let cur = self.read(key);
        let seen: Option<&[u8]> = match &cur {
            Some(bytes) => Some(bytes.as_slice()),
            None => None,
        };
        let out = op(seen);
        match &out.0 {
            Some(bytes) => self.write(key, bytes.as_slice()),
            None => self.unlist(key),
        }
        let r: Result<R, Infallible> = Ok(out.1);
        assert(r matches Ok(report) && op.ensures((seen,), (out.0, report)));
        r
    }

    fn conditional_update(&mut self, key: &[u8], new: &[u8], expected: Option<&[u8]>) -> (r:
        Result<Result<(), Option<Vec<u8>>>, Infallible>)
        ensures
            r is Ok,
    {
        let cur = self.read(key);
        let agrees = match (&cur, expected) {
            (Some(have), Some(want)) => same_bytes(have.as_slice(), want),
            (None, None) => true,
            _ => false,
        };
        if agrees {
            self.write(key, new);
            Ok(Ok(()))
        } else {
            Ok(Err(cur))
        }
    }
}

impl Ordered for Memory {
    fn get_lt(&self, key: &[u8]) -> (r: Result<Option<(Vec<u8>, Vec<u8>)>, Infallible>)
        ensures
            r is Ok,
    {
        let mut best: Option<usize> = None;
        let mut i: usize = 0;
        while i < self.items.len()
            invariant
                i <= self.items.len(),
                match best {
                    Some(b) => {
                        &&& b < i
                        &&& lex_lt(self.items@[b as int].0@, key@)
                        &&& forall|j: int|
                            0 <= j < i && lex_lt((#[trigger] self.items@[j]).0@, key@)
                                ==> self.items@[j].0@ == self.items@[b as int].0@ || lex_lt(
                                self.items@[j].0@,
                                self.items@[b as int].0@,
                            )
                    },
                    None => forall|j: int|
                        0 <= j < i ==> !lex_lt((#[trigger] self.items@[j]).0@, key@),
                },
            decreases self.items.len() - i,
        {
            if bytes_lt(self.items[i].0.as_slice(), key) {
                let better = match best {
                    Some(b) => bytes_lt(self.items[b].0.as_slice(), self.items[i].0.as_slice()),
                    None => true,
                };
                if better {
                    proof {
                        if let Some(b) = best {
                            let top = self.items@[i as int].0@;
                            let was = self.items@[b as int].0@;
                            assert forall|j: int|
                                0 <= j < i + 1 && lex_lt((#[trigger] self.items@[j]).0@, key@)
                                    implies self.items@[j].0@ == top || lex_lt(
                                self.items@[j].0@,
                                top,
                            ) by {
                                if j < i && self.items@[j].0@ != was {
                                    lemma_lex_lt_transitive(self.items@[j].0@, was, top);
                                }
                            }
                        }
                    }
                    best = Some(i);
                } else {
                    proof {
                        let b = best->Some_0;
                        let here = self.items@[i as int].0@;
                        let was = self.items@[b as int].0@;
                        if here != was {
                            lemma_lex_lt_total(here, was);
                        }
                    }
                }
            }
            i = i + 1;
        }
        match best {
            Some(b) => {
                let found = slice_to_vec(self.items[b].0.as_slice());
                let value = self.read(found.as_slice());
                proof {
                    lemma_listed_is_present(self.items@, b as int);
                }
                match value {
                    Some(value) => {
                        proof {
                            assert forall|other: Seq<u8>|
                                #![trigger self.entries().dom().contains(other)]
                                self.entries().dom().contains(other) && lex_lt(
                                    other,
                                    key@,
                                ) implies other == found@ || lex_lt(other, found@) by {
                                if unlisted(self.items@, other) {
                                    lemma_unlisted_is_absent(self.items@, other);
                                }
                                let j = choose|j: int|
                                    0 <= j < self.items@.len() && (#[trigger] self.items@[j]).0@
                                        == other;
                            }
                        }
                        Ok(Some((found, value)))
                    },
                    None => {
                        assert(false);
                        Ok(None)
                    },
                }
            },
            None => {
                proof {
                    assert forall|other: Seq<u8>|
                        #![trigger self.entries().dom().contains(other)]
                        self.entries().dom().contains(other) implies !lex_lt(other, key@) by {
                        if unlisted(self.items@, other) {
                            lemma_unlisted_is_absent(self.items@, other);
                        }
                        let j = choose|j: int|
                            0 <= j < self.items@.len() && (#[trigger] self.items@[j]).0@ == other;
                    }
                }
                Ok(None)
            },
        }
    }
}

} // verus!
