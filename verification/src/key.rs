//! Composite keys: a field's identifier, then an optional sub-key.
//!
//! The identifier is the first byte of every key of a field, so the keys of
//! one field sort together and below those of the next field. An element's
//! index follows it in eight bytes, most significant first, so that the byte
//! order of the keys is the numeric order of the indices.

use crate::codec::{lemma_radix_grows, lemma_radix_values, radix, Codec};
use vstd::prelude::*;

verus! {

/// `a` and `b` agree on their first `k` bytes, and there `a` ends or holds the smaller byte.
pub open spec fn precedes_at(a: Seq<u8>, b: Seq<u8>, k: int) -> bool {
    &&& 0 <= k <= a.len()
    &&& k < b.len()
    &&& forall|n: int| 0 <= n < k ==> a[n] == b[n]
    &&& k < a.len() ==> a[k] < b[k]
}

/// Byte-lexicographic order: `a` sorts strictly before `b`.
pub open spec fn lex_lt(a: Seq<u8>, b: Seq<u8>) -> bool {
    exists|k: int| #[trigger] precedes_at(a, b, k)
}

/// The `width` low bytes of `v`, most significant first.
pub open spec fn be_bytes(v: nat, width: nat) -> Seq<u8>
    decreases width,
{
    if width == 0 {
        Seq::empty()
    } else {
        be_bytes(v / 256, (width - 1) as nat).push((v % 256) as u8)
    }
}

/// The number whose big-endian digits are `bytes`.
pub open spec fn be_value(bytes: Seq<u8>) -> nat
    decreases bytes.len(),
{
    if bytes.len() == 0 {
        0
    } else {
        256 * be_value(bytes.drop_last()) + bytes.last() as nat
    }
}

/// The key of a field that holds a single value.
pub open spec fn field_key(prefix: u8) -> Seq<u8> {
    seq![prefix]
}

/// The key of the element at `index` of the sequence stored under `prefix`.
pub open spec fn index_key(prefix: u8, index: u64) -> Seq<u8> {
    seq![prefix] + be_bytes(index as nat, 8)
}

/// The key of the map entry whose encoded map key is `sub`, stored under `prefix`.
pub open spec fn entry_key(prefix: u8, sub: Seq<u8>) -> Seq<u8> {
    seq![prefix] + sub
}

/// The least key above every key of the field `prefix`.
pub open spec fn upper_bound(prefix: u8) -> Seq<u8>
    recommends
        prefix < u8::MAX,
{
    seq![(prefix + 1) as u8]
}

/// The bytes of a number are as many as asked for.
pub proof fn lemma_be_bytes_len(v: nat, width: nat)
    ensures
        be_bytes(v, width).len() == width,
    decreases width,
{
    if width > 0 {
        lemma_be_bytes_len(v / 256, (width - 1) as nat);
    }
}

/// A number that fits in `width` bytes is the value of its own bytes.
pub proof fn lemma_be_round_trip(v: nat, width: nat)
    requires
        v < radix(width),
    ensures
        be_value(be_bytes(v, width)) == v,
    decreases width,
{
    if width > 0 {
        let head = be_bytes(v / 256, (width - 1) as nat);
        assert(be_bytes(v, width).drop_last() =~= head);
        assert(v / 256 < radix((width - 1) as nat)) by (nonlinear_arith)
            requires
                v < 256 * radix((width - 1) as nat),
        ;
        lemma_be_round_trip(v / 256, (width - 1) as nat);
        assert(256 * (v / 256) + v % 256 == v) by (nonlinear_arith);
    }
}

/// The value of a byte string fits in as many bytes as the string has.
pub proof fn lemma_be_value_bound(bytes: Seq<u8>)
    ensures
        be_value(bytes) < radix(bytes.len()),
    decreases bytes.len(),
{
    if bytes.len() > 0 {
        lemma_be_value_bound(bytes.drop_last());
    }
}

/// The big-endian bytes of a smaller number sort before those of a larger one.
pub proof fn lemma_be_bytes_ordered(i: nat, j: nat, width: nat)
    requires
        i < j < radix(width),
    ensures
        lex_lt(be_bytes(i, width), be_bytes(j, width)),
    decreases width,
{
    let a = be_bytes(i, width);
    let b = be_bytes(j, width);
    lemma_be_bytes_len(i, width);
    lemma_be_bytes_len(j, width);
    if width > 0 {
        let rest = (width - 1) as nat;
        lemma_be_bytes_len(i / 256, rest);
        lemma_be_bytes_len(j / 256, rest);
        assert(i / 256 <= j / 256 && j / 256 < radix(rest)) by (nonlinear_arith)
            requires
                i < j,
                j < 256 * radix(rest),
        ;
        if i / 256 < j / 256 {
            lemma_be_bytes_ordered(i / 256, j / 256, rest);
            let x = be_bytes(i / 256, rest);
            let y = be_bytes(j / 256, rest);
            let k = choose|k: int| #[trigger] precedes_at(x, y, k);
            assert(precedes_at(a, b, k));
        } else {
            assert(i % 256 < j % 256) by (nonlinear_arith)
                requires
                    i < j,
                    i / 256 == j / 256,
            ;
            assert(precedes_at(a, b, rest as int));
        }
    }
}

/// No byte string sorts before itself.
pub proof fn lemma_lex_lt_irreflexive(a: Seq<u8>)
    ensures
        !lex_lt(a, a),
{
}

/// Of two byte strings at most one sorts before the other.
pub proof fn lemma_lex_lt_asymmetric(a: Seq<u8>, b: Seq<u8>)
    requires
        lex_lt(a, b),
    ensures
        !lex_lt(b, a),
{
    if lex_lt(b, a) {
        let k = choose|k: int| #[trigger] precedes_at(a, b, k);
        let m = choose|m: int| #[trigger] precedes_at(b, a, m);
        if k < m {
            assert(b[k] == a[k]);
        } else if m < k {
            assert(a[m] == b[m]);
        }
    }
}

/// Byte order is transitive.
pub proof fn lemma_lex_lt_transitive(a: Seq<u8>, b: Seq<u8>, c: Seq<u8>)
    requires
        lex_lt(a, b),
        lex_lt(b, c),
    ensures
        lex_lt(a, c),
{
    let k = choose|k: int| #[trigger] precedes_at(a, b, k);
    let m = choose|m: int| #[trigger] precedes_at(b, c, m);
    if k <= m {
        assert(precedes_at(a, c, k));
    } else {
        assert(precedes_at(a, c, m));
    }
}

/// Within one field, the key of a lower index sorts before the key of a higher one.
pub proof fn lemma_index_keys_ascend(prefix: u8, i: u64, j: u64)
    requires
        i < j,
    ensures
        lex_lt(index_key(prefix, i), index_key(prefix, j)),
{
    lemma_radix_values();
    let a = index_key(prefix, i);
    let b = index_key(prefix, j);
    let x = be_bytes(i as nat, 8);
    let y = be_bytes(j as nat, 8);
    lemma_be_bytes_len(i as nat, 8);
    lemma_be_bytes_len(j as nat, 8);
    lemma_be_bytes_ordered(i as nat, j as nat, 8);
    let k = choose|k: int| #[trigger] precedes_at(x, y, k);
    assert forall|n: int| 0 <= n < k + 1 implies a[n] == b[n] by {
        if n > 0 {
            assert(a[n] == x[n - 1]);
            assert(b[n] == y[n - 1]);
        }
    }
    assert(a[k + 1] == x[k]);
    assert(b[k + 1] == y[k]);
    assert(precedes_at(a, b, k + 1));
}

/// Key ordering: within one field, the key of one index sorts before the key
/// of another exactly when the index is the lower one.
pub proof fn lemma_index_keys_ordered(prefix: u8, i: u64, j: u64)
    ensures
        i < j <==> lex_lt(index_key(prefix, i), index_key(prefix, j)),
{
    let a = index_key(prefix, i);
    let b = index_key(prefix, j);
    if i < j {
        lemma_index_keys_ascend(prefix, i, j);
    } else if j < i {
        lemma_index_keys_ascend(prefix, j, i);
        if lex_lt(a, b) {
            lemma_lex_lt_asymmetric(a, b);
        }
    } else {
        lemma_lex_lt_irreflexive(a);
    }
}

/// Every key of a field sorts below the field's upper bound, whatever follows the identifier.
pub proof fn lemma_below_upper_bound(prefix: u8, rest: Seq<u8>)
    requires
        prefix < u8::MAX,
    ensures
        lex_lt(seq![prefix] + rest, upper_bound(prefix)),
{
    assert(precedes_at(seq![prefix] + rest, upper_bound(prefix), 0));
}

/// A key below a field's upper bound is empty or starts with that field's
/// identifier or a lower one.
pub proof fn lemma_upper_bound_closes(prefix: u8, key: Seq<u8>)
    requires
        prefix < u8::MAX,
        lex_lt(key, upper_bound(prefix)),
    ensures
        key.len() > 0 ==> key[0] <= prefix,
{
    let k = choose|k: int| #[trigger] precedes_at(key, upper_bound(prefix), k);
    assert(k == 0);
}

/// Isolation: keys of two different fields differ, whatever follows the identifiers.
pub proof fn lemma_fields_disjoint(p: u8, q: u8, a: Seq<u8>, b: Seq<u8>)
    requires
        p != q,
    ensures
        seq![p] + a != seq![q] + b,
{
    assert((seq![p] + a)[0] == p);
    assert((seq![q] + b)[0] == q);
}

/// Two byte strings that agree up to `from` and are not equal are ordered one way or the other.
proof fn lemma_ordered_from(a: Seq<u8>, b: Seq<u8>, from: int)
    requires
        a != b,
        0 <= from <= a.len(),
        from <= b.len(),
        forall|n: int| 0 <= n < from ==> a[n] == b[n],
    ensures
        lex_lt(a, b) || lex_lt(b, a),
    decreases a.len() - from,
{
    if from == a.len() {
        if from == b.len() {
            assert(a =~= b);
        } else {
            assert(precedes_at(a, b, from));
        }
    } else if from == b.len() {
        assert(precedes_at(b, a, from));
    } else if a[from] < b[from] {
        assert(precedes_at(a, b, from));
    } else if b[from] < a[from] {
        assert(precedes_at(b, a, from));
    } else {
        lemma_ordered_from(a, b, from + 1);
    }
}

/// Byte order is total: of two different byte strings one sorts before the other.
pub proof fn lemma_lex_lt_total(a: Seq<u8>, b: Seq<u8>)
    requires
        a != b,
    ensures
        lex_lt(a, b) || lex_lt(b, a),
{
    lemma_ordered_from(a, b, 0);
}

/// Whether two byte strings are equal.
pub fn same_bytes(a: &[u8], b: &[u8]) -> (r: bool)
    ensures
        r == (a@ == b@),
{
    if a.len() != b.len() {
        return false;
    }
    let mut i: usize = 0;
    while i < a.len()
        invariant
            a@.len() == b@.len(),
            i <= a.len(),
            forall|j: int| 0 <= j < i ==> a@[j] == b@[j],
        decreases a.len() - i,
    {
        if a[i] != b[i] {
            return false;
        }
        i = i + 1;
    }
    assert(a@ =~= b@);
    true
}

/// Whether `a` sorts strictly before `b` in byte order.
pub fn bytes_lt(a: &[u8], b: &[u8]) -> (r: bool)
    ensures
        r == lex_lt(a@, b@),
{
    let mut i: usize = 0;
    while i < a.len() && i < b.len()
        invariant
            i <= a.len(),
            i <= b.len(),
            forall|n: int| 0 <= n < i ==> a@[n] == b@[n],
        decreases a.len() - i,
    {
        if a[i] < b[i] {
            assert(precedes_at(a@, b@, i as int));
            return true;
        }
        if a[i] > b[i] {
            assert forall|k: int| !precedes_at(a@, b@, k) by {
                if precedes_at(a@, b@, k) {
                    if k < i {
                        assert(a@[k] == b@[k]);
                    } else if k > i {
                        assert(a@[i as int] == b@[i as int]);
                    }
                }
            }
            return false;
        }
        i = i + 1;
    }
    if a.len() < b.len() {
        assert(precedes_at(a@, b@, i as int));
        true
    } else {
        assert forall|k: int| !precedes_at(a@, b@, k) by {
            if precedes_at(a@, b@, k) {
                assert(a@[k] == b@[k]);
            }
        }
        false
    }
}

/// The key of one element of a sequence: the field's identifier and the element's index.
#[derive(Clone, Copy, Debug, PartialEq, Eq, Structural)]
pub struct Indexed {
    pub prefix: u8,
    pub index: u64,
}

/// The key of one entry of a map: the field's identifier and the entry's map key.
#[derive(Debug)]
pub struct Prefixed<K> {
    pub prefix: u8,
    pub key: K,
}

/// The element key that `bytes` spell, if they are one identifier byte and eight index bytes.
pub open spec fn indexed_of(bytes: Seq<u8>) -> Option<Indexed> {
    if bytes.len() == 9 {
        Some(Indexed { prefix: bytes[0], index: be_value(bytes.skip(1)) as u64 })
    } else {
        None
    }
}

impl Codec for Indexed {
    open spec fn encodable(&self) -> bool {
        true
    }

    open spec fn encoding(&self) -> Seq<u8> {
        index_key(self.prefix, self.index)
    }

    open spec fn decoding(bytes: Seq<u8>) -> Option<Indexed> {
        indexed_of(bytes)
    }

    proof fn lemma_round_trip(v: Indexed) {
        lemma_radix_values();
        let digits = be_bytes(v.index as nat, 8);
        lemma_be_bytes_len(v.index as nat, 8);
        lemma_be_round_trip(v.index as nat, 8);
        assert(v.encoding().skip(1) =~= digits);
    }

    fn encode(&self) -> (r: Option<Vec<u8>>) {
        let mut bytes: Vec<u8> = Vec::new();
        bytes.push(self.prefix);
        let mut rest: u64 = self.index;
        let mut done: usize = 0;
        while done < 8
            invariant
                done <= 8,
                bytes@.len() == 1 + done,
                bytes@[0] == self.prefix,
                be_bytes(self.index as nat, 8) == be_bytes(rest as nat, (8 - done) as nat)
                    + bytes@.skip(1),
            decreases 8 - done,
        {
            let low: u8 = (rest % 256) as u8;
            let ghost before = bytes@;
            bytes.insert(1, low);
            proof {
                let width = (8 - done) as nat;
                let head = be_bytes((rest / 256) as nat, (width - 1) as nat);
                assert(be_bytes(rest as nat, width) == head.push(low));
                assert(bytes@.skip(1) =~= seq![low] + before.skip(1));
                assert(head.push(low) + before.skip(1) =~= head + bytes@.skip(1));
            }
            rest = rest / 256;
            done = done + 1;
        }
        proof {
            assert(be_bytes(rest as nat, 0) + bytes@.skip(1) =~= bytes@.skip(1));
            assert(bytes@ =~= seq![self.prefix] + bytes@.skip(1));
        }
        Some(bytes)
    }

    fn decode(bytes: &[u8]) -> (r: Option<Indexed>) {
        if bytes.len() != 9 {
            return None;
        }
        let mut index: u64 = 0;
        let mut at: usize = 1;
        proof {
            lemma_radix_values();
            assert(bytes@.subrange(1, 1) =~= Seq::<u8>::empty());
        }
        while at < 9
            invariant
                bytes@.len() == 9,
                1 <= at <= 9,
                index == be_value(bytes@.subrange(1, at as int)),
            decreases 9 - at,
        {
            proof {
                let seen = bytes@.subrange(1, at as int);
                let next = bytes@.subrange(1, at + 1);
                lemma_be_value_bound(seen);
                lemma_radix_grows(seen.len(), 7);
                assert(radix(7) == 0x100_0000_0000_0000) by {
                    reveal_with_fuel(radix, 8);
                }
                assert(next.drop_last() =~= seen);
                assert(next.last() == bytes@[at as int]);
            }
            index = index * 256 + bytes[at] as u64;
            at = at + 1;
        }
        proof {
            assert(bytes@.subrange(1, 9) =~= bytes@.skip(1));
        }
        Some(Indexed { prefix: bytes[0], index })
    }
}

/// The map entry key that `bytes` spell, if what follows the identifier byte decodes as a map key.
pub open spec fn prefixed_of<K: Codec>(bytes: Seq<u8>) -> Option<Prefixed<K>> {
    if bytes.len() >= 1 {
        match K::decoding(bytes.skip(1)) {
            Some(key) => Some(Prefixed { prefix: bytes[0], key }),
            None => None,
        }
    } else {
        None
    }
}

impl<K: Codec> Codec for Prefixed<K> {
    open spec fn encodable(&self) -> bool {
        self.key.encodable()
    }

    open spec fn encoding(&self) -> Seq<u8> {
        entry_key(self.prefix, self.key.encoding())
    }

    open spec fn decoding(bytes: Seq<u8>) -> Option<Prefixed<K>> {
        prefixed_of(bytes)
    }

    proof fn lemma_round_trip(v: Prefixed<K>) {
        K::lemma_round_trip(v.key);
        assert(v.encoding().skip(1) =~= v.key.encoding());
    }

    fn encode(&self) -> (r: Option<Vec<u8>>) {
        match self.key.encode() {
            Some(sub) => {
                let mut bytes: Vec<u8> = Vec::new();
                bytes.push(self.prefix);
                let mut sub = sub;
                bytes.append(&mut sub);
                assert(bytes@ =~= self.encoding());
                Some(bytes)
            },
            None => None,
        }
    }

    fn decode(bytes: &[u8]) -> (r: Option<Prefixed<K>>) {
        if bytes.len() < 1 {
            return None;
        }
        let sub = vstd::slice::slice_subrange(bytes, 1, bytes.len());
        assert(sub@ =~= bytes@.skip(1));
        match K::decode(sub) {
            Some(key) => Some(Prefixed { prefix: bytes[0], key }),
            None => None,
        }
    }
}

} // verus!
