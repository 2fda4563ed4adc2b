//! Properties of reads and writes, stated over the store's contents.
use vstd::prelude::*;
use crate::store::{after_lookup, after_put, lookup, written_entry, Contents};
use crate::ttl::{effective_ttl, expiry_time, DEFAULT_TTL_SECS};

verus! {

/// A value written under a key is read back, unchanged, at any instant from
/// the write until its expiry, and such a read leaves the store as it was.
pub proof fn lemma_read_after_write(
    m: Contents,
    key: Seq<char>,
    value: Seq<u8>,
    ttl_secs: u64,
    now: u64,
    later: u64,
)
    requires
        now <= later < expiry_time(now, ttl_secs),
    ensures
        lookup(after_put(m, key, value, ttl_secs, now), key, later) == Some(value),
        after_lookup(after_put(m, key, value, ttl_secs, now), key, later) == after_put(
            m,
            key,
            value,
            ttl_secs,
            now,
        ),
{
}

/// A write with a positive ttl that does not reach the end of the clock is
/// live right after it is made.
pub proof fn lemma_positive_ttl_is_live(now: u64, ttl_secs: u64)
    requires
        ttl_secs > 0,
        now < u64::MAX,
    ensures
        now < expiry_time(now, ttl_secs),
{
    assert(ttl_secs * 1_000_000_000 >= 1_000_000_000) by (nonlinear_arith)
        requires ttl_secs > 0;
}

/// Once the clock reaches an entry's expiry it is never served again, and
/// the read that finds it so removes it.
pub proof fn lemma_expired_not_served(
    m: Contents,
    key: Seq<char>,
    value: Seq<u8>,
    ttl_secs: u64,
    now: u64,
    later: u64,
)
    requires
        later >= expiry_time(now, ttl_secs),
    ensures
        lookup(after_put(m, key, value, ttl_secs, now), key, later) == None::<Seq<u8>>,
        after_lookup(after_put(m, key, value, ttl_secs, now), key, later) == m.remove(key),
{
    assert(after_put(m, key, value, ttl_secs, now).remove(key) =~= m.remove(key));
}

/// A write with ttl zero is expired from the instant it is made on.
pub proof fn lemma_zero_ttl_expired(
    m: Contents,
    key: Seq<char>,
    value: Seq<u8>,
    now: u64,
    later: u64,
)
    requires
        later >= now,
    ensures
        lookup(after_put(m, key, value, 0, now), key, later) == None::<Seq<u8>>,
{
    lemma_expired_not_served(m, key, value, 0, now, later);
}

/// A second write under a key replaces the first in full: the result is the
/// same as if only the second write had been made.
pub proof fn lemma_overwrite_replaces(
    m: Contents,
    key: Seq<char>,
    v1: Seq<u8>,
    ttl1: u64,
    now1: u64,
    v2: Seq<u8>,
    ttl2: u64,
    now2: u64,
)
    ensures
        after_put(after_put(m, key, v1, ttl1, now1), key, v2, ttl2, now2) == after_put(
            m,
            key,
            v2,
            ttl2,
            now2,
        ),
{
    assert(after_put(after_put(m, key, v1, ttl1, now1), key, v2, ttl2, now2) =~= after_put(
        m,
        key,
        v2,
        ttl2,
        now2,
    ));
}

/// Nothing is found in an empty store, and reading it changes nothing.
pub proof fn lemma_empty_finds_nothing(key: Seq<char>, now: u64)
    ensures
        lookup(Map::empty(), key, now) == None::<Seq<u8>>,
        after_lookup(Map::empty(), key, now) == Map::<Seq<char>, (u64, Seq<u8>)>::empty(),
{
}

/// A write without a ttl is the same write as one with a ttl of 300 seconds.
pub proof fn lemma_default_ttl(m: Contents, key: Seq<char>, value: Seq<u8>, now: u64)
    ensures
        effective_ttl(None) == DEFAULT_TTL_SECS,
        DEFAULT_TTL_SECS == 300,
        after_put(m, key, value, effective_ttl(None), now) == after_put(m, key, value, 300, now),
{
}

/// Reading a live entry does not change the store, so a second read, at the
/// same instant or later but before the expiry, returns the same value.
pub proof fn lemma_read_is_idempotent(m: Contents, key: Seq<char>, t1: u64, t2: u64)
    requires
        m.contains_key(key),
        t1 <= t2 < m[key].0,
    ensures
        lookup(m, key, t1) == Some(m[key].1),
        after_lookup(m, key, t1) == m,
        lookup(after_lookup(m, key, t1), key, t2) == lookup(m, key, t1),
{
}

/// Two writes under one key, in whichever order they take effect, leave
/// under the key exactly the entry of the one that came last: its value
/// together with the expiry from its own ttl, never a mixture of the two.
pub proof fn lemma_writes_never_mix(
    m: Contents,
    key: Seq<char>,
    v1: Seq<u8>,
    ttl1: u64,
    now1: u64,
    v2: Seq<u8>,
    ttl2: u64,
    now2: u64,
)
    ensures
        after_put(after_put(m, key, v1, ttl1, now1), key, v2, ttl2, now2)[key] == written_entry(
            v2,
            ttl2,
            now2,
        ),
        after_put(after_put(m, key, v2, ttl2, now2), key, v1, ttl1, now1)[key] == written_entry(
            v1,
            ttl1,
            now1,
        ),
{
}

/// A read that finds its key expired removes the entry: the store holds one
/// entry fewer, none under that key, and a later write under another key
/// does not bring it back.
pub proof fn lemma_expired_read_frees(
    m: Contents,
    key: Seq<char>,
    now: u64,
    other: Seq<char>,
    value: Seq<u8>,
    ttl_secs: u64,
    now2: u64,
)
    requires
        m.dom().finite(),
        m.contains_key(key),
        now >= m[key].0,
        other != key,
    ensures
        lookup(m, key, now) == None::<Seq<u8>>,
        after_lookup(m, key, now) == m.remove(key),
        !after_lookup(m, key, now).contains_key(key),
        after_lookup(m, key, now).len() + 1 == m.len(),
        !after_put(after_lookup(m, key, now), other, value, ttl_secs, now2).contains_key(key),
{
}

} // verus!
