//! Sets of symbol keys and maps from symbol keys to symbol indices, kept in
//! std's hash collections under an integer code of each key.

use vstd::prelude::*;

use std::collections::{HashMap, HashSet};

use crate::types::SymbolKey;

verus! {

broadcast use vstd::std_specs::hash::group_hash_axioms;

/// The integer a key is stored under: its kind in the upper half, its index
/// in the lower 32 bits.
pub open spec fn key_code(key: SymbolKey) -> u64 {
    match key {
        SymbolKey::Function(i) => i as u64,
        SymbolKey::Table(i) => (0x1_0000_0000u64 + i) as u64,
        SymbolKey::Tag(i) => (0x2_0000_0000u64 + i) as u64,
    }
}

/// Distinct keys are stored under distinct codes.
pub proof fn lemma_key_code_injective(a: SymbolKey, b: SymbolKey)
    ensures
        key_code(a) == key_code(b) ==> a == b,
{
}

/// The code of `key`.
pub fn code_of(key: SymbolKey) -> (c: u64)
    ensures
        c == key_code(key),
{
    match key {
        SymbolKey::Function(i) => i as u64,
        SymbolKey::Table(i) => 0x1_0000_0000u64 + i as u64,
        SymbolKey::Tag(i) => 0x2_0000_0000u64 + i as u64,
    }
}

/// A set of symbol keys.
#[derive(Debug)]
pub struct KeySet {
    pub codes: HashSet<u64>,
}

impl View for KeySet {
    type V = Set<SymbolKey>;

    open spec fn view(&self) -> Set<SymbolKey> {
        Set::new(|k: SymbolKey| self.codes@.contains(key_code(k)))
    }
}

impl KeySet {
    /// The empty set.
    pub fn new() -> (s: KeySet)
        ensures
            s@ == Set::<SymbolKey>::empty(),
    {
        let s = KeySet { codes: HashSet::new() };
        assert(s@ =~= Set::<SymbolKey>::empty());
        s
    }

    /// Whether `key` is in the set.
    pub fn contains(&self, key: SymbolKey) -> (b: bool)
        ensures
            b == self@.contains(key),
    {
        let c = code_of(key);
        self.codes.contains(&c)
    }

    /// Adds `key` to the set.
    pub fn insert(&mut self, key: SymbolKey)
        ensures
            final(self)@ == old(self)@.insert(key),
    {
        let c = code_of(key);
        self.codes.insert(c);
        proof {
            assert forall|k: SymbolKey| #[trigger] self@.contains(k) == old(self)@.insert(key).contains(k) by {
                lemma_key_code_injective(k, key);
            }
        }
        assert(self@ =~= old(self)@.insert(key));
    }

    /// Adds every key of `keys` to the set.
    pub fn extend(&mut self, keys: &Vec<SymbolKey>)
        ensures
            final(self)@ == old(self)@.union(keys@.to_set()),
    {
        let ghost start = self@;
        let mut i: usize = 0;
        while i < keys.len()
            invariant
                i <= keys.len(),
                self@ == start.union(keys@.take(i as int).to_set()),
            decreases keys.len() - i,
        {
            self.insert(keys[i]);
            proof {
                assert(keys@.take(i + 1).to_set() =~= keys@.take(i as int).to_set().insert(
                    keys@[i as int],
                )) by {
                    assert(keys@.take(i + 1) =~= keys@.take(i as int).push(keys@[i as int]));
                    keys@.take(i as int).lemma_push_to_set_commute(keys@[i as int]);
                }
                assert(self@ =~= start.union(keys@.take(i + 1).to_set()));
            }
            i += 1;
        }
        assert(keys@.take(i as int) =~= keys@);
    }
}

/// A map from symbol keys to symbol indices.
#[derive(Debug)]
pub struct SymbolIndices {
    pub codes: HashMap<u64, u32>,
}

impl View for SymbolIndices {
    type V = Map<SymbolKey, u32>;

    open spec fn view(&self) -> Map<SymbolKey, u32> {
        Map::new(|k: SymbolKey| self.codes@.contains_key(key_code(k)), |k: SymbolKey| self.codes@[key_code(k)])
    }
}

impl SymbolIndices {
    /// The empty map.
    pub fn new() -> (m: SymbolIndices)
        ensures
            m@ == Map::<SymbolKey, u32>::empty(),
    {
        let m = SymbolIndices { codes: HashMap::new() };
        assert(m@ =~= Map::<SymbolKey, u32>::empty());
        m
    }

    /// The index stored for `key`, if any.
    pub fn get(&self, key: SymbolKey) -> (v: Option<u32>)
        ensures
            v matches Some(x) ==> self@.dom().contains(key) && self@[key] == x,
            v is None ==> !self@.dom().contains(key),
    {
        let c = code_of(key);
        match self.codes.get(&c) {
            Some(x) => Some(*x),
            None => None,
        }
    }

    /// Stores `value` for `key`.
    pub fn insert(&mut self, key: SymbolKey, value: u32)
        ensures
            final(self)@ == old(self)@.insert(key, value),
    {
        let c = code_of(key);
        self.codes.insert(c, value);
        proof {
            assert forall|k: SymbolKey| #[trigger] self@.dom().contains(k) == old(self)@.insert(key, value).dom().contains(
                k,
            ) by {
                lemma_key_code_injective(k, key);
            }
            assert forall|k: SymbolKey| #[trigger] self@.dom().contains(k) implies self@[k] == old(self)@.insert(
                key,
                value,
            )[k] by {
                lemma_key_code_injective(k, key);
            }
        }
        assert(self@ =~= old(self)@.insert(key, value));
    }
}

} // verus!
