//! A map with texts as keys, hashed into buckets.

use vstd::prelude::*;
use vstd::std_specs::hash::*;
use vstd::utf8::encode_utf8;

use std::collections::HashMap;

use crate::text::str_eq;

verus! {

/// The FNV-1a hash of bytes.
pub open spec fn fnv(b: Seq<u8>) -> u64
    decreases b.len(),
{
    if b.len() == 0 {
        0xcbf2_9ce4_8422_2325
    } else {
        (fnv(b.drop_last()) ^ (b.last() as u64)).wrapping_mul(0x0000_0100_0000_01b3)
    }
}

/// The hash of a key.
pub open spec fn key_hash(key: Seq<char>) -> u64 {
    fnv(encode_utf8(key))
}

/// The hash of a key.
pub fn hash_key(s: &str) -> (r: u64)
    ensures
        r == key_hash(s@),
{
    let b = s.as_bytes();
    let mut h: u64 = 0xcbf2_9ce4_8422_2325;
    let mut i: usize = 0;
    assert(b@.take(0) =~= Seq::empty());
    while i < b.len()
        invariant
            i <= b@.len(),
            h == fnv(b@.take(i as int)),
        decreases b@.len() - i,
    {
        proof {
            assert(b@.take(i + 1).drop_last() =~= b@.take(i as int));
        }
        h = (h ^ (b[i] as u64)).wrapping_mul(0x0000_0100_0000_01b3);
        i += 1;
    }
    assert(b@.take(b@.len() as int) =~= b@);
    h
}

/// What the last entry for a key holds.
spec fn last_entry<V>(entries: Seq<(String, V)>, key: Seq<char>) -> Option<V>
    decreases entries.len(),
{
    if entries.len() == 0 {
        None
    } else if entries.last().0@ == key {
        Some(entries.last().1)
    } else {
        last_entry(entries.drop_last(), key)
    }
}

/// Whether an entry is for another key than this one.
spec fn has_other_key<V>(key: Seq<char>) -> spec_fn((String, V)) -> bool {
    |e: (String, V)| e.0@ != key
}

proof fn lemma_other_keys_stay<V>(entries: Seq<(String, V)>, key: Seq<char>, other: Seq<char>)
    requires
        other != key,
    ensures
        last_entry(entries.filter(has_other_key(key)), other) == last_entry(entries, other),
    decreases entries.len(),
{
    reveal(Seq::filter);
    if entries.len() > 0 {
        let rest = entries.drop_last().filter(has_other_key(key));
        lemma_other_keys_stay(entries.drop_last(), key, other);
        assert(rest.push(entries.last()).drop_last() =~= rest);
    }
}

/// Values by texts. Keys of the same hash share a bucket.
pub struct TextMap<V> {
    buckets: HashMap<u64, Vec<(String, V)>>,
}

impl<V> TextMap<V> {
    spec fn lookup(self, key: Seq<char>) -> Option<V> {
        let h = key_hash(key);
        if self.buckets@.contains_key(h) {
            last_entry(self.buckets@[h]@, key)
        } else {
            None
        }
    }
}

impl<V> View for TextMap<V> {
    type V = Map<Seq<char>, V>;

    closed spec fn view(&self) -> Map<Seq<char>, V> {
        Map::new(|key: Seq<char>| self.lookup(key) is Some, |key: Seq<char>| self.lookup(key)->0)
    }
}

impl<V> TextMap<V> {
    /// A map that holds nothing.
    pub fn new() -> (r: Self)
        ensures
            r@ == Map::<Seq<char>, V>::empty(),
    {
        broadcast use group_hash_axioms;

        let r = TextMap { buckets: HashMap::new() };
        assert(r@ =~= Map::empty());
        r
    }

    /// The value of a key.
    pub fn get(&self, key: &str) -> (r: Option<&V>)
        ensures
            match r {
                Some(v) => self@.contains_key(key@) && *v == self@[key@],
                None => !self@.contains_key(key@),
            },
    {
        broadcast use group_hash_axioms;

        let entries = match self.buckets.get(&hash_key(key)) {
            Some(entries) => entries,
            None => {
                return None;
            },
        };
        let mut i: usize = entries.len();
        assert(entries@.take(i as int) =~= entries@);
        while i > 0
            invariant
                i <= entries@.len(),
                self.lookup(key@) == last_entry(entries@.take(i as int), key@),
            decreases i,
        {
            i -= 1;
            assert(entries@.take(i + 1).last() == entries@[i as int]);
            assert(entries@.take(i + 1).drop_last() =~= entries@.take(i as int));
            if str_eq(entries[i].0.as_str(), key) {
                return Some(&entries[i].1);
            }
        }
        None
    }

    /// Gives a key a value, in place of the one that it had.
    pub fn insert(&mut self, key: String, value: V)
        ensures
            final(self)@ == old(self)@.insert(key@, value),
    {
        broadcast use group_hash_axioms;

        let ghost before = *self;
        let ghost k = key@;
        let h = hash_key(key.as_str());
        let entries = match self.buckets.remove(&h) {
            Some(entries) => entries,
            None => Vec::new(),
        };
        let ghost was = entries@;
        let mut kept = without_key(entries, key.as_str());
        let ghost rest = kept@;
        kept.push((key, value));
        assert(kept@.drop_last() =~= rest);
        let ghost now = kept@;
        self.buckets.insert(h, kept);
        proof {
            assert forall|other: Seq<char>| #[trigger]
                self.lookup(other) == (if other == k {
                    Some(value)
                } else {
                    before.lookup(other)
                }) by {
                if key_hash(other) == h {
                    assert(self.buckets@[h]@ == now);
                    assert(before.lookup(other) == last_entry(was, other));
                    if other != k {
                        lemma_other_keys_stay(was, k, other);
                    }
                }
            }
            assert(self@ =~= before@.insert(k, value));
        }
    }
}

/// The entries without those for a key, in their order.
fn without_key<V>(entries: Vec<(String, V)>, key: &str) -> (r: Vec<(String, V)>)
    ensures
        r@ == entries@.filter(has_other_key(key@)),
{
    let ghost all = entries@;
    let ghost keeps = has_other_key::<V>(key@);
    let mut out: Vec<(String, V)> = Vec::new();
    proof {
        reveal(Seq::filter);
        assert(all.take(0) =~= Seq::empty());
    }
    for e in it: entries
        invariant
            it.seq() == all,
            keeps == has_other_key::<V>(key@),
            out@ == all.take(it.index()).filter(keeps),
    {
        proof {
            reveal(Seq::filter);
            let i = it.index();
            assert(all.take(i + 1).drop_last() =~= all.take(i));
            assert(all.take(i + 1).last() == e);
        }
        if !str_eq(e.0.as_str(), key) {
            out.push(e);
        }
    }
    assert(all.take(all.len() as int) =~= all);
    out
}

} // verus!
