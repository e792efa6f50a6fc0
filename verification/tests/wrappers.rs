use std::collections::BTreeMap;

use dbstruct::error::{CompareAndSwapError, Error};
use dbstruct::traits::byte_store::{Atomic, ByteStore, Entries, Ordered};
use dbstruct::traits::data_store::{
    atomic_update, conditional_update, decode_found, get, insert, remove, swap_result, transform,
    Outcome,
};
use dbstruct::wrappers::map::AssociativeMap;
use dbstruct::wrappers::scalar::{scalar_key, DefaultTrait, DefaultValue, OptionValue};
use dbstruct::wrappers::sequence::{recovered_len, GrowableSequence};

#[derive(Default)]
struct MemStore {
    map: BTreeMap<Vec<u8>, Vec<u8>>,
    broken: bool,
}

impl MemStore {
    fn check(&self) -> Result<(), String> {
        if self.broken {
            Err(String::from("broken"))
        } else {
            Ok(())
        }
    }
}

impl ByteStore for MemStore {
    type Error = String;

    fn entries(&self) -> Entries {
        unreachable!("a model, never run")
    }

    fn get(&self, key: &[u8]) -> Result<Option<Vec<u8>>, String> {
        self.check()?;
        Ok(self.map.get(key).cloned())
    }

    fn remove(&mut self, key: &[u8]) -> Result<Option<Vec<u8>>, String> {
        self.check()?;
        Ok(self.map.remove(key))
    }

    fn insert(&mut self, key: &[u8], val: &[u8]) -> Result<Option<Vec<u8>>, String> {
        self.check()?;
        Ok(self.map.insert(key.to_vec(), val.to_vec()))
    }
}

impl Atomic for MemStore {
    fn atomic_update<R, F: Fn(Option<&[u8]>) -> (Option<Vec<u8>>, R)>(
        &mut self,
        key: &[u8],
        op: F,
    ) -> Result<R, String> {
        self.check()?;
        let (next, report) = op(self.map.get(key).map(|v| v.as_slice()));
        match next {
            Some(bytes) => {
                self.map.insert(key.to_vec(), bytes);
            }
            None => {
                self.map.remove(key);
            }
        }
        Ok(report)
    }

    fn conditional_update(
        &mut self,
        key: &[u8],
        new: &[u8],
        expected: Option<&[u8]>,
    ) -> Result<Result<(), Option<Vec<u8>>>, String> {
        self.check()?;
        let current = self.map.get(key).cloned();
        if current.as_deref() == expected {
            self.map.insert(key.to_vec(), new.to_vec());
            Ok(Ok(()))
        } else {
            Ok(Err(current))
        }
    }
}

impl Ordered for MemStore {
    fn get_lt(&self, key: &[u8]) -> Result<Option<(Vec<u8>, Vec<u8>)>, String> {
        self.check()?;
        Ok(self
            .map
            .range(..key.to_vec())
            .next_back()
            .map(|(k, v)| (k.clone(), v.clone())))
    }
}

#[test]
fn push_push_pop_pop_pop() {
    let mut store = MemStore::default();
    let mut seq: GrowableSequence<u64> = GrowableSequence::new(1, 0);
    assert_eq!(seq.len(), 0);
    seq.push(&mut store, &10).unwrap();
    assert_eq!(seq.len(), 1);
    seq.push(&mut store, &20).unwrap();
    assert_eq!(seq.len(), 2);
    assert_eq!(seq.pop(&mut store).unwrap(), Some(20));
    assert_eq!(seq.len(), 1);
    assert_eq!(seq.pop(&mut store).unwrap(), Some(10));
    assert_eq!(seq.len(), 0);
    assert_eq!(seq.pop(&mut store).unwrap(), None);
    assert_eq!(seq.len(), 0);
    assert!(store.map.is_empty());
}

#[test]
fn element_keys_are_prefix_then_big_endian_index() {
    let mut store = MemStore::default();
    let mut seq: GrowableSequence<u8> = GrowableSequence::new(7, 258);
    seq.push(&mut store, &9).unwrap();
    let key = vec![7u8, 0, 0, 0, 0, 0, 0, 1, 2];
    assert_eq!(store.map.get(&key), Some(&vec![9u8]));
}

#[test]
fn get_reads_by_index_and_stops_at_the_count() {
    let mut store = MemStore::default();
    let mut seq: GrowableSequence<u16> = GrowableSequence::new(4, 0);
    seq.push(&mut store, &300).unwrap();
    seq.push(&mut store, &301).unwrap();
    assert_eq!(seq.get(&store, 0).unwrap(), Some(300));
    assert_eq!(seq.get(&store, 1).unwrap(), Some(301));
    assert_eq!(seq.get(&store, 2).unwrap(), None);
    let shorter: GrowableSequence<u16> = GrowableSequence::new(4, 1);
    assert_eq!(shorter.get(&store, 1).unwrap(), None);
}

#[test]
fn recover_counts_what_the_store_holds() {
    let mut store = MemStore::default();
    let mut seq: GrowableSequence<u64> = GrowableSequence::new(5, 0);
    for i in 0..300u64 {
        seq.push(&mut store, &i).unwrap();
    }
    let fresh: GrowableSequence<u64> = GrowableSequence::recover(&store, 5).unwrap();
    assert_eq!(fresh.len(), 300);
    assert_eq!(fresh.prefix(), 5);
}

#[test]
fn recover_of_a_prepopulated_store() {
    let mut store = MemStore::default();
    for i in 0..4u8 {
        store.map.insert(vec![2, 0, 0, 0, 0, 0, 0, 0, i], vec![i]);
    }
    let mut seq: GrowableSequence<u8> = GrowableSequence::recover(&store, 2).unwrap();
    assert_eq!(seq.len(), 4);
    assert_eq!(seq.pop(&mut store).unwrap(), Some(3));
}

#[test]
fn recover_ignores_lower_fields() {
    let mut store = MemStore::default();
    let mut low: GrowableSequence<u64> = GrowableSequence::new(1, 0);
    low.push(&mut store, &1).unwrap();
    low.push(&mut store, &2).unwrap();
    let high: GrowableSequence<u64> = GrowableSequence::recover(&store, 3).unwrap();
    assert_eq!(high.len(), 0);
    let empty = MemStore::default();
    let none: GrowableSequence<u64> = GrowableSequence::recover(&empty, 3).unwrap();
    assert_eq!(none.len(), 0);
}

#[test]
fn recover_refuses_a_malformed_key_of_the_field() {
    let mut store = MemStore::default();
    store.map.insert(vec![6, 1, 2], vec![0]);
    let r: Result<GrowableSequence<u8>, _> = GrowableSequence::recover(&store, 6);
    assert!(matches!(r, Err(Error::DeSerializing)));
}

#[test]
fn recovered_len_by_cases() {
    assert!(matches!(recovered_len::<String>(None, 1), Ok(0)));
    assert!(matches!(recovered_len::<String>(Some(&[]), 1), Ok(0)));
    assert!(matches!(
        recovered_len::<String>(Some(&[0, 0, 0, 0, 0, 0, 0, 0, 9]), 1),
        Ok(0)
    ));
    assert!(matches!(
        recovered_len::<String>(Some(&[1, 0, 0, 0, 0, 0, 0, 1, 0]), 1),
        Ok(257)
    ));
    assert!(matches!(
        recovered_len::<String>(Some(&[1, 255, 255, 255, 255, 255, 255, 255, 255]), 1),
        Err(Error::DeSerializing)
    ));
    assert!(matches!(
        recovered_len::<String>(Some(&[1, 0]), 1),
        Err(Error::DeSerializing)
    ));
}

#[test]
fn failed_push_leaves_the_count() {
    let mut store = MemStore::default();
    let mut seq: GrowableSequence<u64> = GrowableSequence::new(1, 0);
    seq.push(&mut store, &1).unwrap();
    store.broken = true;
    assert!(matches!(seq.push(&mut store, &2), Err(Error::Backend(_))));
    assert_eq!(seq.len(), 1);
    assert!(matches!(seq.pop(&mut store), Err(Error::Backend(_))));
    assert_eq!(seq.len(), 1);
}

#[test]
fn pop_of_undecodable_bytes_still_shrinks() {
    let mut store = MemStore::default();
    store.map.insert(vec![1, 0, 0, 0, 0, 0, 0, 0, 0], vec![1, 2]);
    let mut seq: GrowableSequence<u64> = GrowableSequence::new(1, 1);
    assert!(matches!(seq.pop(&mut store), Err(Error::DeSerializing)));
    assert_eq!(seq.len(), 0);
    assert!(store.map.is_empty());
}

/// A value that has no encoding.
#[derive(Debug, Clone, Copy, PartialEq)]
struct Opaque;

impl dbstruct::codec::Codec for Opaque {
    fn encodable(&self) -> bool {
        unreachable!("a model, never run")
    }

    fn encoding(&self) -> dbstruct::codec::Encoding {
        unreachable!("a model, never run")
    }

    fn decoding(_bytes: dbstruct::codec::Encoding) -> Option<Self> {
        unreachable!("a model, never run")
    }

    fn lemma_round_trip(_v: Self) {}

    fn encode(&self) -> Option<Vec<u8>> {
        None
    }

    fn decode(_bytes: &[u8]) -> Option<Self> {
        None
    }
}

#[test]
fn push_of_a_value_without_encoding() {
    let mut store = MemStore::default();
    let mut seq: GrowableSequence<Opaque> = GrowableSequence::new(1, 0);
    assert!(matches!(
        seq.push(&mut store, &Opaque),
        Err(Error::SerializingValue)
    ));
    assert_eq!(seq.len(), 0);
    assert!(store.map.is_empty());
}

#[test]
fn unwritten_field_reads_as_default() {
    let store = MemStore::default();
    let playing: DefaultValue<bool> = DefaultValue::new(2, true);
    assert_eq!(playing.get(&store).unwrap(), true);
    let volume: DefaultValue<u16> = DefaultValue::new(3, 700);
    assert_eq!(volume.get(&store).unwrap(), 700);
    let count: DefaultTrait<u64> = DefaultTrait::new(4);
    assert_eq!(count.get(&store).unwrap(), 0);
    let flag: DefaultTrait<bool> = DefaultTrait::new(5);
    assert_eq!(flag.get(&store).unwrap(), false);
}

#[test]
fn set_default_is_written_and_read_back() {
    let mut store = MemStore::default();
    let volume: DefaultValue<u16> = DefaultValue::new(3, 700);
    volume.set(&mut store, &700).unwrap();
    assert_eq!(store.map.get(&vec![3u8]), Some(&vec![0xbc, 0x02]));
    assert_eq!(volume.get(&store).unwrap(), 700);
    volume.set(&mut store, &5).unwrap();
    assert_eq!(store.map.get(&vec![3u8]), Some(&vec![5, 0]));
    assert_eq!(volume.get(&store).unwrap(), 5);
}

#[test]
fn swap_from_default_on_unwritten_field() {
    let mut store = MemStore::default();
    let volume: DefaultValue<u16> = DefaultValue::new(3, 700);
    let r = volume.compare_and_swap(&mut store, 700, 9).unwrap();
    assert!(r.is_ok());
    assert_eq!(volume.get(&store).unwrap(), 9);
    assert_eq!(store.map.get(&vec![3u8]), Some(&vec![9, 0]));
}

#[test]
fn swap_to_default_writes_it_out() {
    let mut store = MemStore::default();
    let volume: DefaultValue<u16> = DefaultValue::new(3, 700);
    volume.set(&mut store, &1).unwrap();
    assert!(volume.compare_and_swap(&mut store, 1, 700).unwrap().is_ok());
    assert_eq!(store.map.get(&vec![3u8]), Some(&vec![0xbc, 0x02]));
}

#[test]
fn swap_from_default_on_written_default_is_refused() {
    let mut store = MemStore::default();
    let volume: DefaultValue<u16> = DefaultValue::new(3, 700);
    volume.set(&mut store, &700).unwrap();
    let r = volume.compare_and_swap(&mut store, 700, 9).unwrap();
    assert_eq!(r.unwrap_err().actual, 700);
    assert_eq!(volume.get(&store).unwrap(), 700);
}

#[test]
fn swap_mismatch_reports_actual() {
    let mut store = MemStore::default();
    let volume: DefaultValue<u16> = DefaultValue::new(3, 700);
    volume.set(&mut store, &4).unwrap();
    let r = volume.compare_and_swap(&mut store, 5, 6).unwrap();
    assert_eq!(r.unwrap_err().actual, 4);
    assert_eq!(volume.get(&store).unwrap(), 4);
    let unwritten: DefaultValue<u16> = DefaultValue::new(8, 700);
    let r = unwritten.compare_and_swap(&mut store, 5, 6).unwrap();
    assert_eq!(r.unwrap_err().actual, 700);
    assert!(store.map.get(&vec![8u8]).is_none());
}

#[test]
fn second_swap_from_same_value_learns_the_first() {
    let mut store = MemStore::default();
    let volume: DefaultValue<u64> = DefaultValue::new(3, 0);
    volume.set(&mut store, &10).unwrap();
    assert!(volume.compare_and_swap(&mut store, 10, 11).unwrap().is_ok());
    let lost = volume.compare_and_swap(&mut store, 10, 12).unwrap();
    assert_eq!(lost.unwrap_err().actual, 11);
    assert_eq!(volume.get(&store).unwrap(), 11);

    let fresh: DefaultValue<u64> = DefaultValue::new(4, 0);
    assert!(fresh.compare_and_swap(&mut store, 0, 1).unwrap().is_ok());
    let lost = fresh.compare_and_swap(&mut store, 0, 2).unwrap();
    assert_eq!(lost.unwrap_err().actual, 1);
}

#[test]
fn swap_of_undecodable_bytes_is_an_error() {
    let mut store = MemStore::default();
    store.map.insert(vec![3], vec![1]);
    let volume: DefaultValue<u16> = DefaultValue::new(3, 700);
    assert!(matches!(
        volume.compare_and_swap(&mut store, 5, 6),
        Err(Error::DeSerializing)
    ));
    assert_eq!(store.map.get(&vec![3u8]), Some(&vec![1]));
}

#[test]
fn update_starts_from_the_default() {
    let mut store = MemStore::default();
    let volume: DefaultValue<u16> = DefaultValue::new(3, 700);
    volume.update(&mut store, |v: u16| v + 1).unwrap();
    assert_eq!(volume.get(&store).unwrap(), 701);
    volume.update(&mut store, |v: u16| v * 2).unwrap();
    assert_eq!(volume.get(&store).unwrap(), 1402);
    assert_eq!(store.map.get(&vec![3u8]), Some(&vec![0x7a, 0x05]));
}

#[test]
fn update_of_undecodable_bytes_changes_nothing() {
    let mut store = MemStore::default();
    store.map.insert(vec![3], vec![1]);
    let volume: DefaultValue<u16> = DefaultValue::new(3, 700);
    assert!(matches!(
        volume.update(&mut store, |v: u16| v + 1),
        Err(Error::DeSerializing)
    ));
    assert_eq!(store.map.get(&vec![3u8]), Some(&vec![1]));
    assert!(matches!(volume.get(&store), Err(Error::DeSerializing)));
}

#[test]
fn scalar_operations_hand_on_backend_errors() {
    let mut store = MemStore::default();
    store.broken = true;
    let volume: DefaultValue<u16> = DefaultValue::new(3, 700);
    assert!(matches!(volume.get(&store), Err(Error::Backend(_))));
    assert!(matches!(volume.set(&mut store, &1), Err(Error::Backend(_))));
    assert!(matches!(
        volume.update(&mut store, |v: u16| v),
        Err(Error::Backend(_))
    ));
    assert!(matches!(
        volume.compare_and_swap(&mut store, 1, 2),
        Err(Error::Backend(_))
    ));
}

#[test]
fn values_without_encoding_are_refused() {
    let mut store = MemStore::default();
    let field: DefaultValue<Opaque> = DefaultValue::new(3, Opaque);
    assert!(matches!(
        field.set(&mut store, &Opaque),
        Err(Error::SerializingValue)
    ));
    assert!(matches!(
        field.update(&mut store, |v: Opaque| v),
        Err(Error::SerializingValue)
    ));
    assert!(matches!(
        field.compare_and_swap(&mut store, Opaque, Opaque),
        Err(Error::SerializingValue)
    ));
    assert!(store.map.is_empty());
    let map: AssociativeMap<Opaque, u8> = AssociativeMap::new(1);
    assert!(matches!(
        map.insert(&mut store, Opaque, &1),
        Err(Error::SerializingKey)
    ));
    assert!(matches!(map.get(&store, Opaque), Err(Error::SerializingKey)));
    assert!(matches!(
        map.remove(&mut store, Opaque),
        Err(Error::SerializingKey)
    ));
    let other: AssociativeMap<u8, Opaque> = AssociativeMap::new(1);
    assert!(matches!(
        other.insert(&mut store, 1, &Opaque),
        Err(Error::SerializingValue)
    ));
    assert!(store.map.is_empty());
}

#[test]
fn optional_value() {
    let mut store = MemStore::default();
    let account: OptionValue<u32> = OptionValue::new(4);
    assert_eq!(account.get(&store).unwrap(), None);
    account.update(&mut store, |v: u32| v + 1).unwrap();
    assert_eq!(account.get(&store).unwrap(), None);
    assert!(store.map.is_empty());
    account.set(&mut store, &0).unwrap();
    assert_eq!(account.get(&store).unwrap(), Some(0));
    assert_eq!(store.map.get(&vec![4u8]), Some(&vec![0, 0, 0, 0]));
    account.update(&mut store, |v: u32| v + 1).unwrap();
    assert_eq!(account.get(&store).unwrap(), Some(1));
}

#[test]
fn optional_value_swap() {
    let mut store = MemStore::default();
    let account: OptionValue<u32> = OptionValue::new(4);
    let refused = account
        .compare_and_swap(&mut store, Some(1), 2)
        .unwrap()
        .unwrap_err();
    assert_eq!(refused.actual, None);
    assert!(account
        .compare_and_swap(&mut store, None, 2)
        .unwrap()
        .is_ok());
    let refused = account
        .compare_and_swap(&mut store, None, 3)
        .unwrap()
        .unwrap_err();
    assert_eq!(refused.actual, Some(2));
    assert!(account
        .compare_and_swap(&mut store, Some(2), 3)
        .unwrap()
        .is_ok());
    assert_eq!(account.get(&store).unwrap(), Some(3));
}

#[test]
fn map_insert_get_remove() {
    let mut store = MemStore::default();
    let ages: AssociativeMap<u8, u16> = AssociativeMap::new(9);
    assert_eq!(ages.get(&store, 1).unwrap(), None);
    assert_eq!(ages.insert(&mut store, 1, &300).unwrap(), None);
    assert_eq!(ages.insert(&mut store, 1, &301).unwrap(), Some(300));
    assert_eq!(ages.get(&store, 1).unwrap(), Some(301));
    assert_eq!(ages.get(&store, 2).unwrap(), None);
    assert_eq!(store.map.get(&vec![9u8, 1]), Some(&vec![0x2d, 0x01]));
    assert_eq!(ages.remove(&mut store, 1).unwrap(), Some(301));
    assert_eq!(ages.remove(&mut store, 1).unwrap(), None);
    assert!(store.map.is_empty());
}

#[test]
fn maps_of_two_fields_do_not_collide() {
    let mut store = MemStore::default();
    let one: AssociativeMap<u64, u8> = AssociativeMap::new(1);
    let two: AssociativeMap<u64, u8> = AssociativeMap::new(2);
    one.insert(&mut store, 77, &5).unwrap();
    two.insert(&mut store, 77, &6).unwrap();
    assert_eq!(one.get(&store, 77).unwrap(), Some(5));
    assert_eq!(two.get(&store, 77).unwrap(), Some(6));
    assert_eq!(store.map.len(), 2);
    one.remove(&mut store, 77).unwrap();
    assert_eq!(two.get(&store, 77).unwrap(), Some(6));
    assert_eq!(
        store.map.get(&vec![2u8, 77, 0, 0, 0, 0, 0, 0, 0]),
        Some(&vec![6])
    );
}

#[test]
fn typed_get_insert_remove() {
    let mut store = MemStore::default();
    assert_eq!(insert::<u8, u64, _>(&mut store, &1, &5).unwrap(), None);
    assert_eq!(insert::<u8, u64, _>(&mut store, &1, &6).unwrap(), Some(5));
    assert_eq!(
        store.map.get(&vec![1u8]),
        Some(&vec![6, 0, 0, 0, 0, 0, 0, 0])
    );
    assert_eq!(get::<u8, u64, _>(&store, &1).unwrap(), Some(6));
    assert_eq!(get::<u8, u64, _>(&store, &2).unwrap(), None);
    assert_eq!(remove::<u8, u64, _>(&mut store, &1).unwrap(), Some(6));
    assert_eq!(remove::<u8, u64, _>(&mut store, &1).unwrap(), None);
    store.map.insert(vec![1], vec![1, 2, 3]);
    assert!(matches!(
        get::<u8, u64, _>(&store, &1),
        Err(Error::DeSerializing)
    ));
    assert!(matches!(
        get::<Opaque, u64, _>(&store, &Opaque),
        Err(Error::SerializingKey)
    ));
    store.broken = true;
    assert!(matches!(
        get::<u8, u64, _>(&store, &1),
        Err(Error::Backend(_))
    ));
    assert!(matches!(
        insert::<u8, u64, _>(&mut store, &1, &1),
        Err(Error::Backend(_))
    ));
    assert!(matches!(
        remove::<u8, u64, _>(&mut store, &1),
        Err(Error::Backend(_))
    ));
}

#[test]
fn typed_atomic_update() {
    let mut store = MemStore::default();
    atomic_update::<u8, u64, _, _>(&mut store, &1, |v: u64| v + 1).unwrap();
    assert!(store.map.is_empty());
    store.map.insert(vec![1], vec![41, 0, 0, 0, 0, 0, 0, 0]);
    atomic_update::<u8, u64, _, _>(&mut store, &1, |v: u64| v + 1).unwrap();
    assert_eq!(
        store.map.get(&vec![1u8]),
        Some(&vec![42, 0, 0, 0, 0, 0, 0, 0])
    );
    store.map.insert(vec![2], vec![41]);
    assert!(matches!(
        atomic_update::<u8, u64, _, _>(&mut store, &2, |v: u64| v + 1),
        Err(Error::DeSerializing)
    ));
    assert_eq!(store.map.get(&vec![2u8]), Some(&vec![41]));
    assert!(matches!(
        atomic_update::<Opaque, u64, _, _>(&mut store, &Opaque, |v: u64| v),
        Err(Error::SerializingKey)
    ));
}

#[test]
fn typed_conditional_update() {
    let mut store = MemStore::default();
    let r = conditional_update::<u8, u16, _>(&mut store, &1, &7, Some(3)).unwrap();
    assert_eq!(r.unwrap_err().actual, None);
    assert!(conditional_update::<u8, u16, _>(&mut store, &1, &7, None)
        .unwrap()
        .is_ok());
    let r = conditional_update::<u8, u16, _>(&mut store, &1, &8, Some(3)).unwrap();
    assert_eq!(r.unwrap_err().actual, Some(7));
    assert!(
        conditional_update::<u8, u16, _>(&mut store, &1, &8, Some(7))
            .unwrap()
            .is_ok()
    );
    assert_eq!(store.map.get(&vec![1u8]), Some(&vec![8, 0]));
}

#[test]
fn transform_by_cases() {
    let inc = |v: u8| v.wrapping_add(1);
    assert_eq!(
        transform(&inc, None, Some(&[4u8][..])),
        (Some(vec![5]), Outcome::Applied)
    );
    assert_eq!(transform(&inc, None, None), (None, Outcome::Applied));
    assert_eq!(
        transform(&inc, Some(9), None),
        (Some(vec![10]), Outcome::Applied)
    );
    assert_eq!(
        transform(&inc, Some(9), Some(&[][..])),
        (Some(vec![]), Outcome::Undecodable)
    );
    let same = |v: Opaque| v;
    assert_eq!(
        transform(&same, Some(Opaque), None),
        (None, Outcome::Unencodable)
    );
}

#[test]
fn decode_found_and_swap_result() {
    assert!(matches!(decode_found::<u8, String>(None), Ok(None)));
    assert!(matches!(
        decode_found::<u8, String>(Some(vec![3, 4])),
        Ok(Some(3))
    ));
    assert!(matches!(
        decode_found::<u8, String>(Some(vec![])),
        Err(Error::DeSerializing)
    ));
    assert!(matches!(swap_result::<u8, String>(Ok(())), Ok(Ok(()))));
    assert!(matches!(
        swap_result::<u8, String>(Err(Some(vec![3]))),
        Ok(Err(CompareAndSwapError { actual: Some(3) }))
    ));
    assert!(matches!(
        swap_result::<u8, String>(Err(None)),
        Ok(Err(CompareAndSwapError { actual: None }))
    ));
    assert!(matches!(
        swap_result::<u8, String>(Err(Some(vec![]))),
        Err(Error::DeSerializing)
    ));
}

#[test]
fn scalar_key_is_the_identifier() {
    assert_eq!(scalar_key(200), vec![200]);
    assert_eq!(scalar_key(0), vec![0]);
}
