//! The request handlers of the store service: each resolves the keyspace it
//! names, performs its operation, and reports failures as statuses.

use vstd::prelude::*;

use crate::error::{reports, Status, StoreError};
use crate::keyspace::{keys_view, put_all, records_view, remove_all};
use crate::models::{
    DeleteKeyQuery, DeleteKeysQuery, DeleteKeyspaceQuery, GetKeyQuery, GetKeysQuery,
    GetKeyspaceQuery, InsertKeyQuery, InsertKeysQuery, Keyspace, ListKeyspacesResponse, Record,
    TruncateKeyspaceQuery,
};
use crate::store::{key_lookup, streamed, strictly_sorted, Store, StoreView};

verus! {

/// `r` failed with the status that reports `e`.
pub open spec fn fails_with<T>(r: Result<T, Status>, e: StoreError) -> bool {
    r matches Err(s) && reports(s, e)
}

/// The names of a list of keyspaces.
pub open spec fn keyspace_names(v: Seq<Keyspace>) -> Seq<Seq<char>> {
    v.map_values(|k: Keyspace| k.name@)
}

/// `items` answers `keys` of a keyspace holding `records` as the stream
/// does: one item per key, in the order of the keys, ending with the status
/// of the first key that could not be read.
pub open spec fn streamed_status(
    records: Map<Seq<u8>, Seq<u8>>,
    keys: Seq<Seq<u8>>,
    items: Seq<Result<Record, Status>>,
) -> bool {
    &&& items.len() <= keys.len()
    &&& forall|i: int|
        0 <= i < items.len() ==> match #[trigger] items[i] {
            Ok(rec) => rec.key@ == keys[i] && records.contains_key(keys[i]) && rec.value@
                == records[keys[i]],
            Err(s) => i == items.len() - 1 && (reports(s, StoreError::Internal) || (reports(
                s,
                StoreError::KeyNotFound,
            ) && !records.contains_key(keys[i]))),
        }
    &&& items.len() < keys.len() ==> items.len() > 0 && items.last() is Err
}

/// The store service over one catalog of keyspaces.
pub struct DumpstorsStoreServer {
    store: Store,
}

impl View for DumpstorsStoreServer {
    type V = StoreView;

    closed spec fn view(&self) -> StoreView {
        self.store@
    }
}

impl DumpstorsStoreServer {
    pub closed spec fn wf(&self) -> bool {
        self.store.wf()
    }

    pub closed spec fn spec_path(&self) -> Seq<char> {
        self.store.spec_path()
    }

    pub fn new(store: Store) -> (r: DumpstorsStoreServer)
        requires
            store.wf(),
        ensures
            r.wf(),
            r@ == store@,
            r.spec_path() == store.spec_path(),
    {
        DumpstorsStoreServer { store }
    }

    /// The catalog served.
    pub fn store(&self) -> (r: &Store)
        ensures
            r@ == self@,
            r.spec_path() == self.spec_path(),
            self.wf() ==> r.wf(),
    {
        &self.store
    }

    /// Answers that the service is up.
    pub fn ping(&self) -> (r: Result<(), Status>)
        ensures
            r is Ok,
    {
        Ok(())
    }

    /// The keyspace named by the query.
    pub fn get_keyspace(&self, request: GetKeyspaceQuery) -> (r: Result<Keyspace, Status>)
        requires
            self.wf(),
        ensures
            r matches Ok(ks) ==> self@.contains_key(request.keyspace@) && ks.name@
                == request.keyspace@,
            r is Err ==> fails_with(r, StoreError::KeyspaceNotFound) && !self@.contains_key(
                request.keyspace@,
            ),
    {
        match self.store.get_keyspace(request.keyspace) {
            Ok(ks) => Ok(Keyspace { name: ks.name().clone() }),
            Err(e) => Err(Status::from_error(e)),
        }
    }

    /// Every keyspace, sorted strictly by name.
    pub fn list_keyspaces(&self) -> (r: Result<ListKeyspacesResponse, Status>)
        requires
            self.wf(),
        ensures
            r matches Ok(resp) && strictly_sorted(keyspace_names(resp.keyspaces@)) && forall|
                n: Seq<char>,
            | #[trigger] self@.contains_key(n) <==> keyspace_names(resp.keyspaces@).contains(n),
    {
        let names = self.store.list_keyspaces();
        let ghost nv = names@.map_values(|s: String| s@);
        let mut keyspaces: Vec<Keyspace> = Vec::new();
        let mut i: usize = 0;
        while i < names.len()
            invariant
                i <= names@.len(),
                nv == names@.map_values(|s: String| s@),
                keyspaces@.len() == i,
                forall|j: int| 0 <= j < i ==> (#[trigger] keyspaces@[j]).name@ == nv[j],
            decreases names@.len() - i,
        {
            keyspaces.push(Keyspace { name: names[i].clone() });
            i = i + 1;
        }
        assert(keyspace_names(keyspaces@) =~= nv);
        Ok(ListKeyspacesResponse { keyspaces })
    }

    /// Creates the keyspace the request describes.
    pub fn create_keyspace(&mut self, request: Keyspace) -> (r: Result<(), Status>)
        requires
            old(self).wf(),
        ensures
            final(self).wf(),
            final(self).spec_path() == old(self).spec_path(),
            old(self)@.contains_key(request.name@) ==> fails_with(
                r,
                StoreError::KeyspaceAlreadyExists,
            ),
            !old(self)@.contains_key(request.name@) && !crate::store::valid_name(request.name@)
                ==> fails_with(r, StoreError::InvalidArgument),
            !old(self)@.contains_key(request.name@) && crate::store::valid_name(request.name@)
                ==> r is Ok || fails_with(r, StoreError::Internal),
            r is Ok ==> final(self)@ == old(self)@.insert(request.name@, final(self)@[request.name@]),
            r is Err ==> final(self)@ == old(self)@,
    {
        match self.store.create_keyspace(request.name) {
            Ok(()) => Ok(()),
            Err(e) => Err(Status::from_error(e)),
        }
    }

    /// Drops the keyspace the query names from the catalog. Removing its
    /// directory, `store().keyspace_dir(name)`, is left to the caller.
    pub fn delete_keyspace(&mut self, request: DeleteKeyspaceQuery) -> (r: Result<(), Status>)
        requires
            old(self).wf(),
        ensures
            final(self).wf(),
            final(self).spec_path() == old(self).spec_path(),
            old(self)@.contains_key(request.keyspace@) ==> r is Ok && final(self)@ == old(self)@.remove(request.keyspace@),
            !old(self)@.contains_key(request.keyspace@) ==> fails_with(
                r,
                StoreError::KeyspaceNotFound,
            ) && final(self)@ == old(self)@,
    {
        match self.store.delete_keyspace(request.keyspace) {
            Ok(()) => Ok(()),
            Err(e) => Err(Status::from_error(e)),
        }
    }

    /// Removes every record of the keyspace the query names.
    pub fn truncate_keyspace(&mut self, request: TruncateKeyspaceQuery) -> (r: Result<(), Status>)
        requires
            old(self).wf(),
        ensures
            final(self).wf(),
            final(self).spec_path() == old(self).spec_path(),
            old(self)@.contains_key(request.keyspace@) ==> r is Ok || fails_with(r, StoreError::Internal),
            !old(self)@.contains_key(request.keyspace@) ==> fails_with(
                r,
                StoreError::KeyspaceNotFound,
            ) && final(self)@ == old(self)@,
            r is Ok ==> old(self)@.contains_key(request.keyspace@) && final(self)@ == old(self)@.insert(request.keyspace@, Map::empty()),
            r is Err ==> fails_with(r, StoreError::KeyspaceNotFound) || (fails_with(
                r,
                StoreError::Internal,
            ) && old(self)@.contains_key(request.keyspace@) && final(self)@ == old(self)@.insert(request.keyspace@, final(self)@[request.keyspace@])),
    {
        match self.store.truncate_keyspace(request.keyspace) {
            Ok(()) => Ok(()),
            Err(e) => Err(Status::from_error(e)),
        }
    }

    /// The record stored under the query's key.
    pub fn get_key(&self, request: GetKeyQuery) -> (r: Result<Record, Status>)
        requires
            self.wf(),
        ensures
            r matches Ok(rec) ==> rec.key@ == request.key@ && key_lookup(
                self@,
                request.keyspace@,
                request.key@,
            ) == Ok::<Seq<u8>, StoreError>(rec.value@),
            r is Err ==> (key_lookup(self@, request.keyspace@, request.key@) matches Err(e)
                && fails_with(r, e)) || (fails_with(r, StoreError::Internal) && self@.contains_key(
                request.keyspace@,
            )),
    {
        let key = crate::text::copy_bytes(&request.key);
        match self.store.get_key(request.keyspace, request.key) {
            Ok(value) => Ok(Record { key, value }),
            Err(e) => Err(Status::from_error(e)),
        }
    }

    /// Writes the query's record; a query without one is malformed.
    pub fn insert_key(&mut self, request: InsertKeyQuery) -> (r: Result<(), Status>)
        requires
            old(self).wf(),
        ensures
            final(self).wf(),
            final(self).spec_path() == old(self).spec_path(),
            request.record is Some && old(self)@.contains_key(request.keyspace@) ==> r is Ok
                || fails_with(r, StoreError::Internal),
            request.record is None ==> fails_with(r, StoreError::InvalidArgument) && final(self)@
                == old(self)@,
            request.record is Some && !old(self)@.contains_key(request.keyspace@) ==> fails_with(
                r,
                StoreError::KeyspaceNotFound,
            ) && final(self)@ == old(self)@,
            r is Ok ==> (request.record matches Some(rec) && final(self)@ == old(self)@.insert(
                request.keyspace@,
                old(self)@[request.keyspace@].insert(rec.key@, rec.value@),
            )),
            r is Err ==> fails_with(r, StoreError::InvalidArgument) || fails_with(
                r,
                StoreError::KeyspaceNotFound,
            ) || (fails_with(r, StoreError::Internal) && old(self)@.contains_key(
                request.keyspace@,
            ) && final(self)@ == old(self)@.insert(
                request.keyspace@,
                final(self)@[request.keyspace@],
            )),
    {
        let record = match request.record {
            Some(record) => record,
            None => return Err(Status::from_error(StoreError::InvalidArgument)),
        };
        match self.store.insert_key(request.keyspace, record) {
            Ok(()) => Ok(()),
            Err(e) => Err(Status::from_error(e)),
        }
    }

    /// Deletes the query's key; fails with not-found where it is absent.
    pub fn delete_key(&mut self, request: DeleteKeyQuery) -> (r: Result<(), Status>)
        requires
            old(self).wf(),
        ensures
            final(self).wf(),
            final(self).spec_path() == old(self).spec_path(),
            r is Ok ==> key_lookup(old(self)@, request.keyspace@, request.key@) is Ok && final(self)@ == old(self)@.insert(
                request.keyspace@,
                old(self)@[request.keyspace@].remove(request.key@),
            ),
            r is Err ==> (key_lookup(old(self)@, request.keyspace@, request.key@) matches Err(e)
                && fails_with(r, e) && final(self)@ == old(self)@) || (fails_with(
                r,
                StoreError::Internal,
            ) && old(self)@.contains_key(request.keyspace@) && final(self)@ == old(self)@.insert(request.keyspace@, final(self)@[request.keyspace@])),
    {
        match self.store.delete_key(request.keyspace, request.key) {
            Ok(()) => Ok(()),
            Err(e) => Err(Status::from_error(e)),
        }
    }

    /// The records of the query's keys, in the order asked, as the items of
    /// a stream. A key that cannot be read ends the stream with its status;
    /// the records before it stand. The items are computed against the
    /// catalog as it is now; handing them out is left to the caller, who
    /// needs no hold on the catalog for it.
    pub fn get_keys(&self, request: GetKeysQuery) -> (r: Result<Vec<Result<Record, Status>>, Status>)
        requires
            self.wf(),
        ensures
            r is Err ==> fails_with(r, StoreError::KeyspaceNotFound) && !self@.contains_key(
                request.keyspace@,
            ),
            r matches Ok(items) ==> self@.contains_key(request.keyspace@) && streamed_status(
                self@[request.keyspace@],
                keys_view(request.keys@),
                items@,
            ),
    {
        let ghost nm = request.keyspace@;
        let ghost kv = keys_view(request.keys@);
        let found = match self.store.get_keys(request.keyspace, request.keys) {
            Ok(found) => found,
            Err(e) => return Err(Status::from_error(e)),
        };
        let ghost records = self@[nm];
        let ghost fv = found@;
        let mut items: Vec<Result<Record, Status>> = Vec::new();
        for item in it: found
            invariant
                it.seq() == fv,
                streamed(records, kv, fv),
                items@.len() == it.index(),
                forall|j: int|
                    0 <= j < it.index() ==> match #[trigger] items@[j] {
                        Ok(rec) => fv[j] == Ok::<Record, StoreError>(rec),
                        Err(s) => fv[j] matches Err(e) && reports(s, e),
                    },
        {
            match item {
                Ok(rec) => items.push(Ok(rec)),
                Err(e) => items.push(Err(Status::from_error(e))),
            }
        }
        assert(streamed_status(records, kv, items@)) by {
            assert forall|i: int| 0 <= i < items@.len() implies match #[trigger] items@[i] {
                Ok(rec) => rec.key@ == kv[i] && records.contains_key(kv[i]) && rec.value@
                    == records[kv[i]],
                Err(s) => i == items@.len() - 1 && (reports(s, StoreError::Internal) || (reports(
                    s,
                    StoreError::KeyNotFound,
                ) && !records.contains_key(kv[i]))),
            } by {
                assert(match fv[i] {
                    Ok(rec) => rec.key@ == kv[i] && records.contains_key(kv[i]) && rec.value@
                        == records[kv[i]],
                    Err(e) => i == fv.len() - 1 && (e == StoreError::Internal || (e
                        == StoreError::KeyNotFound && !records.contains_key(kv[i]))),
                });
            }
            if items@.len() < kv.len() {
                assert(fv.last() is Err);
            }
        }
        Ok(items)
    }

    /// Writes the query's records at once.
    pub fn insert_keys(&mut self, request: InsertKeysQuery) -> (r: Result<(), Status>)
        requires
            old(self).wf(),
        ensures
            final(self).wf(),
            final(self).spec_path() == old(self).spec_path(),
            old(self)@.contains_key(request.keyspace@) ==> r is Ok || fails_with(r, StoreError::Internal),
            !old(self)@.contains_key(request.keyspace@) ==> fails_with(
                r,
                StoreError::KeyspaceNotFound,
            ) && final(self)@ == old(self)@,
            r is Ok ==> final(self)@ == old(self)@.insert(
                request.keyspace@,
                put_all(old(self)@[request.keyspace@], records_view(request.records@)),
            ),
            r is Err ==> fails_with(r, StoreError::KeyspaceNotFound) || (fails_with(
                r,
                StoreError::Internal,
            ) && old(self)@.contains_key(request.keyspace@) && final(self)@ == old(self)@.insert(request.keyspace@, final(self)@[request.keyspace@])),
    {
        match self.store.insert_keys(request.keyspace, request.records) {
            Ok(()) => Ok(()),
            Err(e) => Err(Status::from_error(e)),
        }
    }

    /// Deletes the query's keys at once; keys that are absent are passed
    /// over.
    pub fn delete_keys(&mut self, request: DeleteKeysQuery) -> (r: Result<(), Status>)
        requires
            old(self).wf(),
        ensures
            final(self).wf(),
            final(self).spec_path() == old(self).spec_path(),
            old(self)@.contains_key(request.keyspace@) ==> r is Ok || fails_with(r, StoreError::Internal),
            !old(self)@.contains_key(request.keyspace@) ==> fails_with(
                r,
                StoreError::KeyspaceNotFound,
            ) && final(self)@ == old(self)@,
            r is Ok ==> final(self)@ == old(self)@.insert(
                request.keyspace@,
                remove_all(old(self)@[request.keyspace@], keys_view(request.keys@)),
            ),
            r is Err ==> fails_with(r, StoreError::KeyspaceNotFound) || (fails_with(
                r,
                StoreError::Internal,
            ) && old(self)@.contains_key(request.keyspace@) && final(self)@ == old(self)@.insert(request.keyspace@, final(self)@[request.keyspace@])),
    {
        match self.store.delete_keys(request.keyspace, request.keys) {
            Ok(()) => Ok(()),
            Err(e) => Err(Status::from_error(e)),
        }
    }
}

} // verus!
