//! A keyspace: a name and the engine instance that persists its records.

use vstd::prelude::*;
use vstd::string::StringExecFns;

use crate::engine::{
    apply_writes, batch_set, batch_unset, batch_writes, db_apply_batch, db_clear, db_get,
    db_insert, db_records, db_remove, new_batch, no_records, open_db,
};
use crate::error::StoreError;
use crate::models::Record;

verus! {

/// The records after writing each `(key, value)` of `batch` in turn: a later
/// write of a key replaces an earlier one.
pub open spec fn put_all(
    records: Map<Seq<u8>, Seq<u8>>,
    batch: Seq<(Seq<u8>, Seq<u8>)>,
) -> Map<Seq<u8>, Seq<u8>>
    decreases batch.len(),
{
    if batch.len() == 0 {
        records
    } else {
        put_all(records, batch.drop_last()).insert(batch.last().0, batch.last().1)
    }
}

/// The records after removing every key of `keys`; keys that are absent are
/// passed over.
pub open spec fn remove_all(records: Map<Seq<u8>, Seq<u8>>, keys: Seq<Seq<u8>>) -> Map<
    Seq<u8>,
    Seq<u8>,
> {
    records.remove_keys(keys.to_set())
}

/// The records of a list, as pairs of byte strings.
pub open spec fn records_view(records: Seq<Record>) -> Seq<(Seq<u8>, Seq<u8>)> {
    records.map_values(|r: Record| r@)
}

/// A list of keys, as byte strings.
pub open spec fn keys_view(keys: Seq<Vec<u8>>) -> Seq<Seq<u8>> {
    keys.map_values(|k: Vec<u8>| k@)
}

/// The directory that holds the keyspace `name` of a store rooted at `path`.
pub open spec fn dir_of(path: Seq<char>, name: Seq<char>) -> Seq<char> {
    path + seq!['/'] + name
}

/// The pending writes of a batch that sets each `(key, value)` of `batch` in
/// turn.
spec fn set_writes(batch: Seq<(Seq<u8>, Seq<u8>)>) -> Map<Seq<u8>, Option<Seq<u8>>>
    decreases batch.len(),
{
    if batch.len() == 0 {
        Map::empty()
    } else {
        set_writes(batch.drop_last()).insert(batch.last().0, Some(batch.last().1))
    }
}

/// The pending writes of a batch that removes each key of `keys`.
spec fn unset_writes(keys: Seq<Seq<u8>>) -> Map<Seq<u8>, Option<Seq<u8>>> {
    Map::new(|k: Seq<u8>| keys.contains(k), |k: Seq<u8>| None)
}

proof fn lemma_apply_set_writes(records: Map<Seq<u8>, Seq<u8>>, batch: Seq<(Seq<u8>, Seq<u8>)>)
    ensures
        apply_writes(records, set_writes(batch)) == put_all(records, batch),
    decreases batch.len(),
{
    if batch.len() == 0 {
        assert(apply_writes(records, set_writes(batch)) =~= records);
    } else {
        lemma_apply_set_writes(records, batch.drop_last());
        assert(apply_writes(records, set_writes(batch)) =~= apply_writes(
            records,
            set_writes(batch.drop_last()),
        ).insert(batch.last().0, batch.last().1));
    }
}

/// What a single-key read yields once the engine has answered.
pub fn read_outcome(read: Result<Option<Vec<u8>>, sled::Error>) -> (r: Result<Vec<u8>, StoreError>)
    ensures
        r == match read {
            Ok(Some(v)) => Ok(v),
            Ok(None) => Err(StoreError::KeyNotFound),
            Err(_) => Err::<Vec<u8>, StoreError>(StoreError::Internal),
        },
{
    match read {
        Ok(Some(v)) => Ok(v),
        Ok(None) => Err(StoreError::KeyNotFound),
        Err(e) => Err(StoreError::from(e)),
    }
}

/// What a single-key removal yields once the engine has answered: success
/// only where a value was removed.
pub fn removal_outcome(removed: Result<Option<Vec<u8>>, sled::Error>) -> (r: Result<(), StoreError>)
    ensures
        r == match removed {
            Ok(Some(_)) => Ok(()),
            Ok(None) => Err(StoreError::KeyNotFound),
            Err(_) => Err::<(), StoreError>(StoreError::Internal),
        },
{
    match removed {
        Ok(Some(_)) => Ok(()),
        Ok(None) => Err(StoreError::KeyNotFound),
        Err(e) => Err(StoreError::from(e)),
    }
}

/// What a write yields once the engine has answered.
pub fn write_outcome(written: Result<(), sled::Error>) -> (r: Result<(), StoreError>)
    ensures
        r == match written {
            Ok(()) => Ok(()),
            Err(_) => Err::<(), StoreError>(StoreError::Internal),
        },
{
    match written {
        Ok(()) => Ok(()),
        Err(e) => Err(StoreError::from(e)),
    }
}

/// The directory `{path}/{name}` that holds the keyspace `name`.
pub fn keyspace_dir(path: &str, name: &str) -> (r: String)
    ensures
        r@ == dir_of(path@, name@),
{
    proof {
        reveal_strlit("/");
    }
    let mut dir = String::from_str(path);
    dir.append("/");
    dir.append(name);
    dir
}

/// An open keyspace: its name and the engine instance that holds its
/// records.
pub struct Keyspace {
    pub name: String,
    db: sled::Db,
}

impl Keyspace {
    /// The keyspace's name.
    pub closed spec fn spec_name(&self) -> Seq<char> {
        self.name@
    }

    /// The keyspace's name.
    pub fn name(&self) -> (r: &String)
        ensures
            r@ == self.spec_name(),
    {
        &self.name
    }

    /// The records the keyspace holds.
    pub closed spec fn records(&self) -> Map<Seq<u8>, Seq<u8>> {
        db_records(self.db)
    }

    /// Opens, or creates, the keyspace `name` in the directory
    /// `{path}/{name}`.
    pub fn new(path: String, name: String) -> (r: Result<Keyspace, StoreError>)
        ensures
            r matches Ok(ks) ==> ks.spec_name() == name@,
            r matches Err(e) ==> e == StoreError::Internal,
    {
        let dir = keyspace_dir(path.as_str(), name.as_str());
        match open_db(dir.as_str()) {
            Ok(db) => Ok(Keyspace { name, db }),
            Err(e) => Err(StoreError::from(e)),
        }
    }

    /// The value stored under `key`.
    pub fn get(&self, key: Vec<u8>) -> (r: Result<Vec<u8>, StoreError>)
        ensures
            r matches Ok(v) ==> self.records().contains_key(key@) && self.records()[key@] == v@,
            r matches Err(e) ==> e == StoreError::Internal || (e == StoreError::KeyNotFound
                && !self.records().contains_key(key@)),
    {
        read_outcome(db_get(&self.db, key.as_slice()))
    }

    /// Sets the record's key to its value, replacing any earlier value.
    pub fn insert(&mut self, record: Record) -> (r: Result<(), StoreError>)
        ensures
            final(self).spec_name() == old(self).spec_name(),
            r is Ok ==> final(self).records() == old(self).records().insert(
                record.key@,
                record.value@,
            ),
            r matches Err(e) ==> e == StoreError::Internal,
    {
        let written = db_insert(&mut self.db, record.key.as_slice(), record.value.as_slice());
        write_outcome(written)
    }

    /// Removes `key`; fails with `KeyNotFound` where the keyspace holds no
    /// value under it.
    pub fn delete(&mut self, key: Vec<u8>) -> (r: Result<(), StoreError>)
        ensures
            final(self).spec_name() == old(self).spec_name(),
            r is Ok ==> old(self).records().contains_key(key@) && final(self).records() == old(self).records().remove(key@),
            r matches Err(e) ==> e == StoreError::Internal || (e == StoreError::KeyNotFound
                && !old(self).records().contains_key(key@) && final(self).records() == old(self).records()),
    {
        let removed = db_remove(&mut self.db, key.as_slice());
        proof {
            if removed matches Ok(None) {
                assert(db_records(self.db) =~= db_records(old(self).db));
            }
        }
        removal_outcome(removed)
    }

    /// Writes every record, all or none; a later record of a key replaces an
    /// earlier one.
    pub fn batch_insert(&mut self, records: Vec<Record>) -> (r: Result<(), StoreError>)
        ensures
            final(self).spec_name() == old(self).spec_name(),
            r is Ok ==> final(self).records() == put_all(
                old(self).records(),
                records_view(records@),
            ),
            r matches Err(e) ==> e == StoreError::Internal,
    {
        let ghost batch_view = records_view(records@);
        let mut batch = new_batch();
        let mut i: usize = 0;
        while i < records.len()
            invariant
                i <= records.len(),
                batch_view == records_view(records@),
                batch_writes(batch) == set_writes(batch_view.take(i as int)),
            decreases records.len() - i,
        {
            batch_set(&mut batch, records[i].key.as_slice(), records[i].value.as_slice());
            proof {
                assert(batch_view.take(i + 1).drop_last() =~= batch_view.take(i as int));
            }
            i = i + 1;
        }
        proof {
            assert(batch_view.take(i as int) =~= batch_view);
            lemma_apply_set_writes(db_records(self.db), batch_view);
        }
        let applied = db_apply_batch(&mut self.db, batch);
        write_outcome(applied)
    }

    /// Removes every key, all or none; keys that are absent are passed over.
    pub fn batch_delete(&mut self, keys: Vec<Vec<u8>>) -> (r: Result<(), StoreError>)
        ensures
            final(self).spec_name() == old(self).spec_name(),
            r is Ok ==> final(self).records() == remove_all(old(self).records(), keys_view(keys@)),
            r matches Err(e) ==> e == StoreError::Internal,
    {
        let ghost keys_seq = keys_view(keys@);
        let mut batch = new_batch();
        let mut i: usize = 0;
        while i < keys.len()
            invariant
                i <= keys.len(),
                keys_seq == keys_view(keys@),
                batch_writes(batch) == unset_writes(keys_seq.take(i as int)),
            decreases keys.len() - i,
        {
            batch_unset(&mut batch, keys[i].as_slice());
            proof {
                let pre = keys_seq.take(i as int);
                let post = keys_seq.take(i + 1);
                assert forall|k: Seq<u8>| post.contains(k) <==> (pre.contains(k) || k == keys_seq[i as int]) by {
                    if post.contains(k) {
                        let j = choose|j: int| 0 <= j < post.len() && post[j] == k;
                        if j < i {
                            assert(pre[j] == k);
                        }
                    }
                    if pre.contains(k) {
                        let j = choose|j: int| 0 <= j < pre.len() && pre[j] == k;
                        assert(post[j] == k);
                    }
                    if k == keys_seq[i as int] {
                        assert(post[i as int] == k);
                    }
                }
                assert(unset_writes(post) =~= unset_writes(pre).insert(keys_seq[i as int], None));
            }
            i = i + 1;
        }
        proof {
            assert(keys_seq.take(i as int) =~= keys_seq);
            assert(apply_writes(db_records(self.db), batch_writes(batch)) =~= remove_all(
                db_records(self.db),
                keys_seq,
            ));
        }
        let applied = db_apply_batch(&mut self.db, batch);
        write_outcome(applied)
    }

    /// Removes every record; the keyspace itself stays.
    pub fn truncate(&mut self) -> (r: Result<(), StoreError>)
        ensures
            final(self).spec_name() == old(self).spec_name(),
            r is Ok ==> final(self).records() == no_records(),
            r matches Err(e) ==> e == StoreError::Internal,
    {
        let cleared = db_clear(&mut self.db);
        write_outcome(cleared)
    }
}

} // verus!
