//! Laws of the store that relate several of its operations, stated over the
//! views and outcomes that the operations' own contracts use.
//!
//! Creating keyspace `n` in a catalog `m` leaves `m.insert(n, opened)`,
//! where `opened` is what the engine found in the keyspace's directory (see
//! `Store::create_keyspace`); writes and deletes change the entry of `n` as
//! `Store::insert_key`, `Store::insert_keys`, `Store::delete_keys` and
//! `Store::truncate_keyspace` state.

use vstd::prelude::*;

use crate::error::StoreError;
use crate::keyspace::{put_all, remove_all};
use crate::store::{create_outcome, key_lookup, resolve, StoreView};

verus! {

/// Once keyspace `n` is created and `(k, v)` written to it, reading `k`
/// gives `v`.
pub proof fn law_read_after_write(
    m: StoreView,
    n: Seq<char>,
    opened: Map<Seq<u8>, Seq<u8>>,
    k: Seq<u8>,
    v: Seq<u8>,
)
    ensures
        ({
            let created = m.insert(n, opened);
            let written = created.insert(n, created[n].insert(k, v));
            key_lookup(written, n, k) == Ok::<Seq<u8>, StoreError>(v)
        }),
{
}

/// In a keyspace newly created over an empty directory no key is found, so
/// deleting any key fails with `KeyNotFound`.
pub proof fn law_fresh_keyspace_has_no_key(m: StoreView, n: Seq<char>, k: Seq<u8>)
    ensures
        key_lookup(m.insert(n, Map::empty()), n, k) == Err::<Seq<u8>, StoreError>(
            StoreError::KeyNotFound,
        ),
{
}

/// Writing `k` twice keeps the second value.
pub proof fn law_upsert(
    m: StoreView,
    n: Seq<char>,
    opened: Map<Seq<u8>, Seq<u8>>,
    k: Seq<u8>,
    v1: Seq<u8>,
    v2: Seq<u8>,
)
    ensures
        ({
            let created = m.insert(n, opened);
            let first = created.insert(n, created[n].insert(k, v1));
            let second = first.insert(n, first[n].insert(k, v2));
            key_lookup(second, n, k) == Ok::<Seq<u8>, StoreError>(v2)
        }),
{
}

/// Once keyspace `n` is created, creating it again fails with
/// `KeyspaceAlreadyExists`.
pub proof fn law_create_twice(m: StoreView, n: Seq<char>, opened: Map<Seq<u8>, Seq<u8>>)
    ensures
        create_outcome(m.insert(n, opened), n) == Err::<(), StoreError>(
            StoreError::KeyspaceAlreadyExists,
        ),
{
}

/// Once keyspace `n` is created and then deleted, resolving it fails with
/// `KeyspaceNotFound`.
pub proof fn law_deleted_keyspace_is_gone(
    m: StoreView,
    n: Seq<char>,
    opened: Map<Seq<u8>, Seq<u8>>,
)
    ensures
        resolve(m.insert(n, opened).remove(n), n) == Err::<(), StoreError>(
            StoreError::KeyspaceNotFound,
        ),
{
}

/// Writing a batch of records and then deleting the batch's keys leaves
/// none of those keys readable.
pub proof fn law_batch_delete_after_batch_insert(
    m: StoreView,
    n: Seq<char>,
    opened: Map<Seq<u8>, Seq<u8>>,
    records: Seq<(Seq<u8>, Seq<u8>)>,
)
    ensures
        ({
            let created = m.insert(n, opened);
            let inserted = created.insert(n, put_all(created[n], records));
            let keys = records.map_values(|r: (Seq<u8>, Seq<u8>)| r.0);
            let deleted = inserted.insert(n, remove_all(inserted[n], keys));
            forall|i: int|
                0 <= i < records.len() ==> key_lookup(deleted, n, #[trigger] records[i].0)
                    == Err::<Seq<u8>, StoreError>(StoreError::KeyNotFound)
        }),
{
    let created = m.insert(n, opened);
    let inserted = created.insert(n, put_all(created[n], records));
    let keys = records.map_values(|r: (Seq<u8>, Seq<u8>)| r.0);
    assert forall|i: int| 0 <= i < records.len() implies keys.to_set().contains(
        #[trigger] records[i].0,
    ) by {
        assert(keys[i] == records[i].0);
    }
}

/// Emptying keyspace `n` keeps the keyspace and removes every record in it.
pub proof fn law_truncate_keeps_keyspace(m: StoreView, n: Seq<char>, k: Seq<u8>)
    requires
        m.contains_key(n),
    ensures
        resolve(m.insert(n, Map::empty()), n) == Ok::<(), StoreError>(()),
        key_lookup(m.insert(n, Map::empty()), n, k) == Err::<Seq<u8>, StoreError>(
            StoreError::KeyNotFound,
        ),
{
}

} // verus!
