//! The expiring store: a map from string keys to byte values, each with the
//! instant at which it stops being served.
use vstd::prelude::*;
use crate::ttl::{effective_ttl, expires_at, expiry_time, ttl_or_default};

verus! {

/// What the store holds under a key: the instant its entry expires and the
/// stored bytes.
pub type EntryView = (u64, Seq<u8>);

/// The abstract contents of a store: at most one entry per key.
pub type Contents = Map<Seq<char>, EntryView>;

/// The entry that a write at `now` installs.
pub open spec fn written_entry(value: Seq<u8>, ttl_secs: u64, now: u64) -> EntryView {
    (expiry_time(now, ttl_secs), value)
}

/// An entry is served while the clock is strictly before its expiry.
pub open spec fn is_live(e: EntryView, now: u64) -> bool {
    now < e.0
}

/// What a read of `key` at `now` returns.
pub open spec fn lookup(m: Contents, key: Seq<char>, now: u64) -> Option<Seq<u8>> {
    if m.contains_key(key) && is_live(m[key], now) {
        Some(m[key].1)
    } else {
        None
    }
}

/// The contents after a read of `key` at `now`: an expired entry under the
/// key is dropped, anything else is left as it was.
pub open spec fn after_lookup(m: Contents, key: Seq<char>, now: u64) -> Contents {
    if m.contains_key(key) && !is_live(m[key], now) {
        m.remove(key)
    } else {
        m
    }
}

/// The contents after a write of `value` under `key` at `now`: the entry
/// under the key is replaced whole.
pub open spec fn after_put(m: Contents, key: Seq<char>, value: Seq<u8>, ttl_secs: u64, now: u64) -> Contents {
    m.insert(key, written_entry(value, ttl_secs, now))
}

/// The bytes inside an optional value.
pub open spec fn bytes_of(r: Option<Vec<u8>>) -> Option<Seq<u8>> {
    match r {
        Some(v) => Some(v@),
        None => None,
    }
}

struct Slot {
    key: String,
    expires_at: u64,
    value: Vec<u8>,
}

/// An in-memory map from keys to values that expire. Expired entries are
/// removed lazily, when their key is next read.
pub struct ExpiringStore {
    slots: Vec<Slot>,
}

impl View for ExpiringStore {
    type V = Contents;

    closed spec fn view(&self) -> Contents {
        Map::new(
            |k: Seq<char>| self.holds_key(k),
            |k: Seq<char>|
                {
                    let i = self.slot_of(k);
                    (self.slots@[i].expires_at, self.slots@[i].value@)
                },
        )
    }
}

impl ExpiringStore {
    spec fn keys(&self) -> Seq<Seq<char>> {
        self.slots@.map_values(|s: Slot| s.key@)
    }

    spec fn holds_key(&self, k: Seq<char>) -> bool {
        exists|i: int| 0 <= i < self.slots@.len() && self.slots@[i].key@ == k
    }

    spec fn slot_of(&self, k: Seq<char>) -> int {
        choose|i: int| 0 <= i < self.slots@.len() && self.slots@[i].key@ == k
    }

    /// No two slots hold the same key.
    pub closed spec fn wf(&self) -> bool {
        forall|i: int, j: int|
            0 <= i < self.slots@.len() && 0 <= j < self.slots@.len() && i != j
                ==> self.slots@[i].key@ != self.slots@[j].key@
    }

    proof fn lemma_view_at(&self, i: int)
        requires
            self.wf(),
            0 <= i < self.slots@.len(),
        ensures
            self@.contains_key(self.slots@[i].key@),
            self@[self.slots@[i].key@] == (self.slots@[i].expires_at, self.slots@[i].value@),
    {
        let k = self.slots@[i].key@;
        assert(self.holds_key(k));
        let j = self.slot_of(k);
        assert(j == i);
    }

    proof fn lemma_view_keys(&self)
        requires
            self.wf(),
        ensures
            self@.dom() == self.keys().to_set(),
            self.keys().no_duplicates(),
            self.keys().len() == self.slots@.len(),
    {
        assert forall|k: Seq<char>| self@.dom().contains(k) <==> self.keys().to_set().contains(k) by {
            if self.holds_key(k) {
                let i = self.slot_of(k);
                assert(self.keys()[i] == k);
            }
            if self.keys().contains(k) {
                let i = choose|i: int| 0 <= i < self.keys().len() && self.keys()[i] == k;
                assert(self.slots@[i].key@ == k);
            }
        }
        assert(self@.dom() =~= self.keys().to_set());
    }

    /// An empty store.
    pub fn new() -> (s: Self)
        ensures
            s.wf(),
            s@ == Map::<Seq<char>, EntryView>::empty(),
    {
        let s = ExpiringStore { slots: Vec::new() };
        assert(s@ =~= Map::<Seq<char>, EntryView>::empty());
        s
    }

    /// The number of entries held, expired ones not yet removed included.
    pub fn len(&self) -> (r: usize)
        requires
            self.wf(),
        ensures
            r == self@.len(),
    {
        proof {
            self.lemma_view_keys();
            self.keys().unique_seq_to_set();
        }
        self.slots.len()
    }

    /// The position of the slot holding `key`, if any.
    fn find(&self, key: &String) -> (r: Option<usize>)
        requires
            self.wf(),
        ensures
            match r {
                Some(i) => i < self.slots@.len() && self.slots@[i as int].key@ == key@,
                None => !self.holds_key(key@),
            },
    {
        let mut i: usize = 0;
        while i < self.slots.len()
            invariant
                i <= self.slots@.len(),
                forall|j: int| 0 <= j < i ==> self.slots@[j].key@ != key@,
            decreases self.slots@.len() - i,
        {
            if self.slots[i].key == *key {
                return Some(i);
            }
            i = i + 1;
        }
        None
    }
    /// Stores `value` under `key` at clock `now`, to expire `ttl` seconds
    /// later (the default ttl when none is given). Any entry under the key is
    /// replaced, value and expiry both.
    pub fn put(&mut self, key: String, value: Vec<u8>, ttl: Option<u64>, now: u64)
        requires
            old(self).wf(),
        ensures
            final(self).wf(),
            final(self)@ == after_put(old(self)@, key@, value@, effective_ttl(ttl), now),
    {
        let expiry = expires_at(now, ttl_or_default(ttl));
        let ghost k = key@;
        let ghost e = written_entry(value@, effective_ttl(ttl), now);
        let ghost before = *self;
        match self.find(&key) {
            Some(i) => {
                let slot = Slot { key, expires_at: expiry, value };
                self.slots.set(i, slot);
                proof {
                    assert forall|k2: Seq<char>| #[trigger] self@.contains_key(k2) <==> before@.insert(k, e).contains_key(k2) by {
                        if before.holds_key(k2) {
                            let j = before.slot_of(k2);
                            assert(self.slots@[j].key@ == k2);
                        }
                        if self.holds_key(k2) {
                            let j = self.slot_of(k2);
                            if j != i {
                                assert(before.slots@[j].key@ == k2);
                            }
                        }
                    }
                    assert forall|k2: Seq<char>| #[trigger] self@.contains_key(k2) implies self@[k2] == before@.insert(k, e)[k2] by {
                        if k2 == k {
                            self.lemma_view_at(i as int);
                        } else {
                            let j = self.slot_of(k2);
                            self.lemma_view_at(j);
                            before.lemma_view_at(j);
                        }
                    }
                    assert(self@ =~= before@.insert(k, e));
                }
            },
            None => {
                let slot = Slot { key, expires_at: expiry, value };
                self.slots.push(slot);
                proof {
                    let n = before.slots@.len() as int;
                    assert forall|k2: Seq<char>| #[trigger] self@.contains_key(k2) <==> before@.insert(k, e).contains_key(k2) by {
                        if before.holds_key(k2) {
                            let j = before.slot_of(k2);
                            assert(self.slots@[j].key@ == k2);
                        }
                        if k2 == k {
                            assert(self.slots@[n].key@ == k2);
                        }
                        if self.holds_key(k2) {
                            let j = self.slot_of(k2);
                            if j != n {
                                assert(before.slots@[j].key@ == k2);
                            }
                        }
                    }
                    assert forall|k2: Seq<char>| #[trigger] self@.contains_key(k2) implies self@[k2] == before@.insert(k, e)[k2] by {
                        if k2 == k {
                            self.lemma_view_at(n);
                        } else {
                            let j = self.slot_of(k2);
                            self.lemma_view_at(j);
                            before.lemma_view_at(j);
                        }
                    }
                    assert(self@ =~= before@.insert(k, e));
                }
            },
        }
    }

    /// Reads `key` at clock `now`. A live entry's value is returned and the
    /// entry kept; an expired one is removed and nothing is returned.
    pub fn get(&mut self, key: &String, now: u64) -> (r: Option<Vec<u8>>)
        requires
            old(self).wf(),
        ensures
            final(self).wf(),
            bytes_of(r) == lookup(old(self)@, key@, now),
            final(self)@ == after_lookup(old(self)@, key@, now),
    {
        let ghost k = key@;
        let ghost before = *self;
        match self.find(key) {
            Some(i) => {
                proof {
                    self.lemma_view_at(i as int);
                }
                if now < self.slots[i].expires_at {
                    let v = self.slots[i].value.clone();
                    assert(v@ =~= self.slots@[i as int].value@);
                    Some(v)
                } else {
                    self.slots.remove(i);
                    proof {
                        let ii = i as int;
                        assert forall|a: int, b: int|
                            0 <= a < self.slots@.len() && 0 <= b < self.slots@.len() && a != b
                                implies self.slots@[a].key@ != self.slots@[b].key@ by {
                            let a0 = if a < ii { a } else { a + 1 };
                            let b0 = if b < ii { b } else { b + 1 };
                            assert(self.slots@[a] == before.slots@[a0]);
                            assert(self.slots@[b] == before.slots@[b0]);
                        }
                        assert forall|k2: Seq<char>| #[trigger] self@.contains_key(k2) <==> before@.remove(k).contains_key(k2) by {
                            if before.holds_key(k2) && k2 != k {
                                let j = before.slot_of(k2);
                                if j < ii {
                                    assert(self.slots@[j].key@ == k2);
                                } else {
                                    assert(j != ii);
                                    assert(self.slots@[j - 1].key@ == k2);
                                }
                            }
                            if self.holds_key(k2) {
                                let j = self.slot_of(k2);
                                let j0 = if j < ii { j } else { j + 1 };
                                assert(before.slots@[j0].key@ == k2);
                            }
                        }
                        assert forall|k2: Seq<char>| #[trigger] self@.contains_key(k2) implies self@[k2] == before@.remove(k)[k2] by {
                            let j = self.slot_of(k2);
                            let j0 = if j < ii { j } else { j + 1 };
                            self.lemma_view_at(j);
                            before.lemma_view_at(j0);
                        }
                        assert(self@ =~= before@.remove(k));
                    }
                    None
                }
            },
            None => None,
        }
    }
}

} // verus!
