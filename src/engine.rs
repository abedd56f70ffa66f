//! The engine adapter: the few calls made into the embedded `sled` database,
//! with the contracts the rest of the library relies on.
//!
//! A database handle is modelled by the map of records it holds
//! (`db_records`). The contracts describe a handle that nothing else writes
//! to while a call runs: the library never duplicates a handle, and the
//! catalog that owns the handles is used by one request at a time.

use vstd::prelude::*;

verus! {

#[verifier::external_type_specification]
#[verifier::external_body]
pub struct ExDb(sled::Db);

#[verifier::external_type_specification]
#[verifier::external_body]
pub struct ExBatch(sled::Batch);

#[verifier::external_type_specification]
#[verifier::external_body]
pub struct ExSledError(sled::Error);

/// The records (key to value) that a database handle holds.
pub uninterp spec fn db_records(db: sled::Db) -> Map<Seq<u8>, Seq<u8>>;

/// The pending writes of a batch: `Some(v)` sets a key, `None` removes it.
pub uninterp spec fn batch_writes(b: sled::Batch) -> Map<Seq<u8>, Option<Seq<u8>>>;

/// A database that holds nothing.
pub open spec fn no_records() -> Map<Seq<u8>, Seq<u8>> {
    Map::empty()
}

/// A batch with nothing pending.
pub open spec fn no_writes() -> Map<Seq<u8>, Option<Seq<u8>>> {
    Map::empty()
}

/// The records that result from applying `writes` to `records`.
pub open spec fn apply_writes(
    records: Map<Seq<u8>, Seq<u8>>,
    writes: Map<Seq<u8>, Option<Seq<u8>>>,
) -> Map<Seq<u8>, Seq<u8>> {
    Map::new(
        |k: Seq<u8>|
            if writes.contains_key(k) {
                writes[k] is Some
            } else {
                records.contains_key(k)
            },
        |k: Seq<u8>|
            if writes.contains_key(k) {
                writes[k]->Some_0
            } else {
                records[k]
            },
    )
}

/// Relies on `sled::open`: opens, or creates, the database stored in `dir`.
/// What an opened database holds is what is on disk, so nothing is promised
/// of its records.
#[verifier::external_body]
pub(crate) fn open_db(dir: &str) -> (r: Result<sled::Db, sled::Error>) {
    sled::open(dir)
}

/// Relies on `sled::Tree::get`: the value stored under `key`, if any.
#[verifier::external_body]
pub(crate) fn db_get(db: &sled::Db, key: &[u8]) -> (r: Result<Option<Vec<u8>>, sled::Error>)
    ensures
        r matches Ok(found) ==> match found {
            Some(v) => db_records(*db).contains_key(key@) && db_records(*db)[key@] == v@,
            None => !db_records(*db).contains_key(key@),
        },
{
    match db.get(key) {
        Ok(Some(v)) => Ok(Some(v.to_vec())),
        Ok(None) => Ok(None),
        Err(e) => Err(e),
    }
}

/// Relies on `sled::Tree::insert`: sets `key` to `value`, replacing any
/// earlier value.
#[verifier::external_body]
pub(crate) fn db_insert(db: &mut sled::Db, key: &[u8], value: &[u8]) -> (r: Result<(), sled::Error>)
    ensures
        r is Ok ==> db_records(*final(db)) == db_records(*old(db)).insert(key@, value@),
{
    match db.insert(key, value) {
        Ok(_) => Ok(()),
        Err(e) => Err(e),
    }
}

/// Relies on `sled::Tree::remove`: deletes `key` and hands back the value it
/// held, if any.
#[verifier::external_body]
pub(crate) fn db_remove(db: &mut sled::Db, key: &[u8]) -> (r: Result<Option<Vec<u8>>, sled::Error>)
    ensures
        r matches Ok(prior) ==> {
            &&& db_records(*final(db)) == db_records(*old(db)).remove(key@)
            &&& match prior {
                Some(v) => db_records(*old(db)).contains_key(key@) && db_records(*old(db))[key@]
                    == v@,
                None => !db_records(*old(db)).contains_key(key@),
            }
        },
{
    match db.remove(key) {
        Ok(Some(v)) => Ok(Some(v.to_vec())),
        Ok(None) => Ok(None),
        Err(e) => Err(e),
    }
}

/// Relies on `sled::Tree::clear`: removes every record.
#[verifier::external_body]
pub(crate) fn db_clear(db: &mut sled::Db) -> (r: Result<(), sled::Error>)
    ensures
        r is Ok ==> db_records(*final(db)) == no_records(),
{
    db.clear()
}

/// Relies on `sled::Batch::default`: a batch with no pending writes.
#[verifier::external_body]
pub(crate) fn new_batch() -> (b: sled::Batch)
    ensures
        batch_writes(b) == no_writes(),
{
    sled::Batch::default()
}

/// Relies on `sled::Batch::insert`: records that `key` is to be set to
/// `value`, replacing a write already pending for `key`.
#[verifier::external_body]
pub(crate) fn batch_set(b: &mut sled::Batch, key: &[u8], value: &[u8])
    ensures
        batch_writes(*final(b)) == batch_writes(*old(b)).insert(key@, Some(value@)),
{
    b.insert(key, value)
}

/// Relies on `sled::Batch::remove`: records that `key` is to be removed,
/// replacing a write already pending for `key`.
#[verifier::external_body]
pub(crate) fn batch_unset(b: &mut sled::Batch, key: &[u8])
    ensures
        batch_writes(*final(b)) == batch_writes(*old(b)).insert(key@, None),
{
    b.remove(key)
}

/// Relies on `sled::Tree::apply_batch`: applies every pending write of the
/// batch, all at once for concurrent readers.
#[verifier::external_body]
pub(crate) fn db_apply_batch(db: &mut sled::Db, b: sled::Batch) -> (r: Result<(), sled::Error>)
    ensures
        r is Ok ==> db_records(*final(db)) == apply_writes(db_records(*old(db)), batch_writes(b)),
{
    db.apply_batch(b)
}

} // verus!
