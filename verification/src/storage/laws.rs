//! Facts that tie the storage operations together.

use crate::storage::model::{expired, lemma_map_lookup, millis_to_nanos};
use crate::storage::{get_outcome, made_page, Storage, StorageError};
use vstd::prelude::*;

verus! {

/// A value stored under a key reads back unchanged at any clock reading
/// before the page expires (always, without a time to live).
pub proof fn law_read_after_write(
    s: Storage,
    key: Seq<u8>,
    value: Seq<u8>,
    ttl: Option<u64>,
    stored_at: i128,
    read_at: i128,
)
    requires
        s.contents().contains_key(key),
        s.contents()[key] == made_page(value, ttl, stored_at),
        match ttl {
            Some(t) => read_at < stored_at + millis_to_nanos(t),
            None => true,
        },
    ensures
        get_outcome(s.rows(), key, read_at) == Ok::<Seq<u8>, StorageError>(value),
{
    lemma_map_lookup(s.rows(), key);
    assert(!expired(made_page(value, ttl, stored_at), read_at));
}

/// Once the page's expiry time has come, the key reads as missing.
pub proof fn law_read_after_expiry(
    s: Storage,
    key: Seq<u8>,
    value: Seq<u8>,
    ttl: u64,
    stored_at: i128,
    read_at: i128,
)
    requires
        s.contents().contains_key(key),
        s.contents()[key] == made_page(value, Some(ttl), stored_at),
        stored_at + millis_to_nanos(ttl) <= read_at,
    ensures
        get_outcome(s.rows(), key, read_at) == Err::<Seq<u8>, StorageError>(StorageError::NotFound),
{
    lemma_map_lookup(s.rows(), key);
}

/// A key that is not stored reads as missing; in particular, after a delete.
pub proof fn law_read_after_delete(s: Storage, key: Seq<u8>, now: i128)
    requires
        !s.contents().contains_key(key),
    ensures
        get_outcome(s.rows(), key, now) == Err::<Seq<u8>, StorageError>(StorageError::NotFound),
{
    lemma_map_lookup(s.rows(), key);
}

} // verus!
