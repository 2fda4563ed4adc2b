//! An in-memory key-value cache whose entries expire after a time-to-live.
//!
//! Time is a plain monotonic tick count in nanoseconds, handed in by the
//! caller, so that expiry is decided deterministically from values alone.

mod laws;
mod store;
mod ttl;

pub use laws::{
    lemma_default_ttl, lemma_empty_finds_nothing, lemma_expired_not_served, lemma_expired_read_frees,
    lemma_overwrite_replaces, lemma_positive_ttl_is_live, lemma_read_after_write,
    lemma_read_is_idempotent, lemma_writes_never_mix, lemma_zero_ttl_expired,
};
pub use store::{
    after_lookup, after_put, bytes_of, is_live, lookup, written_entry, Contents, EntryView,
    ExpiringStore,
};
pub use ttl::{
    digits_value, effective_ttl, expires_at, expiry_time, is_digit, parse_ttl, parsed_ttl,
    resolve_ttl, resolve_ttl_text, ttl_or_default, unsigned_digits, DEFAULT_TTL_SECS,
    NANOS_PER_SEC,
};
