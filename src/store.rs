//! The catalog of open keyspaces, by name.

use vstd::prelude::*;
use vstd::utf8::encode_utf8;

use crate::error::StoreError;
use crate::keyspace::{dir_of, keys_view, keyspace_dir, put_all, records_view, remove_all, Keyspace};
use crate::models::Record;
use crate::order::{compare_bytes, lemma_encoding_injective, lemma_lt_asymmetric, lemma_lt_transitive, name_lt};
use crate::text::{chars_of, copy_bytes};

verus! {

/// The records of every keyspace, by keyspace name.
pub type StoreView = Map<Seq<char>, Map<Seq<u8>, Seq<u8>>>;

/// What reading `key` of keyspace `n` gives.
pub open spec fn key_lookup(m: StoreView, n: Seq<char>, key: Seq<u8>) -> Result<Seq<u8>, StoreError> {
    if !m.contains_key(n) {
        Err(StoreError::KeyspaceNotFound)
    } else if !m[n].contains_key(key) {
        Err(StoreError::KeyNotFound)
    } else {
        Ok(m[n][key])
    }
}

/// What resolving keyspace `n` gives.
pub open spec fn resolve(m: StoreView, n: Seq<char>) -> Result<(), StoreError> {
    if m.contains_key(n) {
        Ok(())
    } else {
        Err(StoreError::KeyspaceNotFound)
    }
}

/// What creating keyspace `n` gives, unless the engine fails to open it.
pub open spec fn create_outcome(m: StoreView, n: Seq<char>) -> Result<(), StoreError> {
    if m.contains_key(n) {
        Err(StoreError::KeyspaceAlreadyExists)
    } else if !valid_name(n) {
        Err(StoreError::InvalidArgument)
    } else {
        Ok(())
    }
}

/// `items` answers `keys` of a keyspace holding `records`: one item per key,
/// in the order of the keys, ending with the first key that could not be
/// read.
pub open spec fn streamed(
    records: Map<Seq<u8>, Seq<u8>>,
    keys: Seq<Seq<u8>>,
    items: Seq<Result<Record, StoreError>>,
) -> bool {
    &&& items.len() <= keys.len()
    &&& forall|i: int|
        0 <= i < items.len() ==> match #[trigger] items[i] {
            Ok(rec) => rec.key@ == keys[i] && records.contains_key(keys[i]) && rec.value@
                == records[keys[i]],
            Err(e) => i == items.len() - 1 && (e == StoreError::Internal || (e
                == StoreError::KeyNotFound && !records.contains_key(keys[i]))),
        }
    &&& items.len() < keys.len() ==> items.len() > 0 && items.last() is Err
}

/// The texts of a list of strings.
pub open spec fn strings_view(v: Seq<String>) -> Seq<Seq<char>> {
    v.map_values(|s: String| s@)
}

/// A name that can stand as a directory of its own: not empty, without
/// `/`, and neither `.` nor `..`.
pub open spec fn valid_name(n: Seq<char>) -> bool {
    &&& n.len() > 0
    &&& !n.contains('/')
    &&& n != seq!['.']
    &&& n != seq!['.', '.']
}

/// The keyspaces sorted strictly by name.
pub open spec fn names_sorted(ks: Seq<Keyspace>) -> bool {
    forall|i: int, j: int|
        #![trigger ks[i].spec_name(), ks[j].spec_name()]
        0 <= i < j < ks.len() ==> name_lt(ks[i].spec_name(), ks[j].spec_name())
}

/// A sequence of names sorted strictly.
pub open spec fn strictly_sorted(names: Seq<Seq<char>>) -> bool {
    forall|i: int, j: int|
        #![trigger names[i], names[j]]
        0 <= i < j < names.len() ==> name_lt(names[i], names[j])
}

/// Whether `name` passes `valid_name`.
pub fn is_valid_name(name: &str) -> (r: bool)
    ensures
        r == valid_name(name@),
{
    let chars = chars_of(name);
    let n = chars.len();
    if n == 0 {
        return false;
    }
    if (n == 1 && chars[0] == '.') || (n == 2 && chars[0] == '.' && chars[1] == '.') {
        assert(n == 1 ==> chars@ =~= seq!['.']);
        assert(n == 2 ==> chars@ =~= seq!['.', '.']);
        return false;
    }
    let mut i: usize = 0;
    while i < n
        invariant
            n == chars.len(),
            chars@ == name@,
            i <= n,
            forall|m: int| 0 <= m < i ==> chars@[m] != '/',
        decreases n - i,
    {
        if chars[i] == '/' {
            assert(name@.contains('/')) by {
                assert(name@[i as int] == '/');
            }
            return false;
        }
        i = i + 1;
    }
    assert(!name@.contains('/'));
    true
}

/// Where the store keeps its keyspaces, and the keyspaces it has open.
pub struct Store {
    path: String,
    keyspaces: Vec<Keyspace>,
}

impl View for Store {
    type V = StoreView;

    closed spec fn view(&self) -> StoreView {
        Map::new(
            |n: Seq<char>| self.has_name(n),
            |n: Seq<char>| self.keyspaces@[self.index_of(n)].records(),
        )
    }
}

impl Store {
    /// The keyspaces are held sorted strictly by name, so each name occurs
    /// once.
    pub closed spec fn wf(&self) -> bool {
        names_sorted(self.keyspaces@)
    }

    /// The directory under which each keyspace has its own directory.
    pub closed spec fn spec_path(&self) -> Seq<char> {
        self.path@
    }

    spec fn has_name(&self, n: Seq<char>) -> bool {
        exists|i: int| 0 <= i < self.keyspaces@.len() && #[trigger] self.keyspaces@[i].spec_name() == n
    }

    spec fn index_of(&self, n: Seq<char>) -> int {
        choose|i: int| 0 <= i < self.keyspaces@.len() && #[trigger] self.keyspaces@[i].spec_name() == n
    }

    proof fn lemma_entry(&self, i: int)
        requires
            names_sorted(self.keyspaces@),
            0 <= i < self.keyspaces@.len(),
        ensures
            self@.contains_key(self.keyspaces@[i].spec_name()),
            self@[self.keyspaces@[i].spec_name()] == self.keyspaces@[i].records(),
    {
        let n = self.keyspaces@[i].spec_name();
        assert(self.has_name(n));
        let j = self.index_of(n);
        if j < i {
            assert(name_lt(self.keyspaces@[j].spec_name(), self.keyspaces@[i].spec_name()));
            lemma_lt_asymmetric(encode_utf8(n), encode_utf8(n));
        } else if i < j {
            assert(name_lt(self.keyspaces@[i].spec_name(), self.keyspaces@[j].spec_name()));
            lemma_lt_asymmetric(encode_utf8(n), encode_utf8(n));
        }
    }

    /// `m` is the view of a store whose keyspaces are exactly its entries.
    proof fn lemma_view_is(&self, m: StoreView)
        requires
            names_sorted(self.keyspaces@),
            forall|i: int|
                0 <= i < self.keyspaces@.len() ==> m.contains_key(#[trigger] self.keyspaces@[i].spec_name())
                    && m[self.keyspaces@[i].spec_name()] == self.keyspaces@[i].records(),
            forall|n: Seq<char>| m.contains_key(n) ==> self.has_name(n),
        ensures
            self@ == m,
    {
        assert forall|n: Seq<char>| #[trigger] self@.contains_key(n) <==> m.contains_key(n) by {
            if self@.contains_key(n) {
                let i = choose|i: int| 0 <= i < self.keyspaces@.len() && #[trigger] self.keyspaces@[i].spec_name() == n;
                assert(m.contains_key(self.keyspaces@[i].spec_name()));
            }
        }
        assert forall|n: Seq<char>| #[trigger] self@.contains_key(n) implies self@[n] == m[n] by {
            let i = choose|i: int| 0 <= i < self.keyspaces@.len() && #[trigger] self.keyspaces@[i].spec_name() == n;
            self.lemma_entry(i);
            assert(m.contains_key(self.keyspaces@[i].spec_name()));
        }
        assert(self@ =~= m);
    }

    /// Finds `name`: its position where it is present, else the position at
    /// which it would stand.
    fn locate(&self, name: &str) -> (r: (usize, bool))
        requires
            self.wf(),
        ensures
            r.0 <= self.keyspaces@.len(),
            r.1 ==> r.0 < self.keyspaces@.len() && self.keyspaces@[r.0 as int].spec_name() == name@,
            !r.1 ==> forall|i: int| 0 <= i < r.0 ==> name_lt(#[trigger] self.keyspaces@[i].spec_name(), name@),
            !r.1 ==> forall|i: int| r.0 <= i < self.keyspaces@.len() ==> name_lt(name@, #[trigger] self.keyspaces@[i].spec_name()),
            !r.1 ==> !self@.contains_key(name@),
    {
        let key = name.as_bytes();
        let mut i: usize = 0;
        while i < self.keyspaces.len()
            invariant
                i <= self.keyspaces@.len(),
                key@ == encode_utf8(name@),
                names_sorted(self.keyspaces@),
                forall|j: int| 0 <= j < i ==> name_lt(#[trigger] self.keyspaces@[j].spec_name(), name@),
            decreases self.keyspaces@.len() - i,
        {
            let c = compare_bytes(self.keyspaces[i].name().as_str().as_bytes(), key);
            if c == 0 {
                proof {
                    lemma_encoding_injective(self.keyspaces@[i as int].spec_name(), name@);
                }
                return (i, true);
            }
            if c > 0 {
                proof {
                    assert forall|j: int| i <= j < self.keyspaces@.len() implies name_lt(name@, #[trigger] self.keyspaces@[j].spec_name()) by {
                        if j > i {
                            assert(name_lt(self.keyspaces@[i as int].spec_name(), self.keyspaces@[j].spec_name()));
                            lemma_lt_transitive(encode_utf8(name@), encode_utf8(self.keyspaces@[i as int].spec_name()), encode_utf8(self.keyspaces@[j].spec_name()));
                        }
                    }
                    self.lemma_absent(name@, i as int);
                }
                return (i, false);
            }
            i = i + 1;
        }
        proof {
            self.lemma_absent(name@, i as int);
        }
        (i, false)
    }

    /// A name sorting after every name before `pos` and before every name
    /// from `pos` on is not in the catalog.
    proof fn lemma_absent(&self, n: Seq<char>, pos: int)
        requires
            0 <= pos <= self.keyspaces@.len(),
            forall|j: int| 0 <= j < pos ==> name_lt(#[trigger] self.keyspaces@[j].spec_name(), n),
            forall|j: int| pos <= j < self.keyspaces@.len() ==> name_lt(n, #[trigger] self.keyspaces@[j].spec_name()),
        ensures
            !self@.contains_key(n),
    {
        if self.has_name(n) {
            let j = choose|j: int| 0 <= j < self.keyspaces@.len() && #[trigger] self.keyspaces@[j].spec_name() == n;
            lemma_lt_asymmetric(encode_utf8(n), encode_utf8(n));
            if j < pos {
                assert(name_lt(self.keyspaces@[j].spec_name(), n));
            } else {
                assert(name_lt(n, self.keyspaces@[j].spec_name()));
            }
        }
    }
}


/// Inserting a keyspace at the position where its name sorts keeps the
/// keyspaces sorted.
proof fn lemma_insert_sorted(ks: Seq<Keyspace>, pos: int, k: Keyspace)
    requires
        names_sorted(ks),
        0 <= pos <= ks.len(),
        forall|i: int| 0 <= i < pos ==> name_lt(#[trigger] ks[i].spec_name(), k.spec_name()),
        forall|i: int| pos <= i < ks.len() ==> name_lt(k.spec_name(), #[trigger] ks[i].spec_name()),
    ensures
        names_sorted(ks.insert(pos, k)),
{
    let nk = ks.insert(pos, k);
    assert forall|i: int, j: int| 0 <= i < j < nk.len() implies name_lt(
        #[trigger] nk[i].spec_name(),
        #[trigger] nk[j].spec_name(),
    ) by {
        if i < pos && j == pos {
        } else if i == pos {
            assert(nk[j] == ks[j - 1]);
        } else if j < pos {
            assert(name_lt(ks[i].spec_name(), ks[j].spec_name()));
        } else if i < pos {
            assert(nk[j] == ks[j - 1]);
            assert(name_lt(ks[i].spec_name(), ks[j - 1].spec_name()));
        } else {
            assert(nk[i] == ks[i - 1]);
            assert(nk[j] == ks[j - 1]);
            assert(name_lt(ks[i - 1].spec_name(), ks[j - 1].spec_name()));
        }
    }
}

/// Removing a keyspace keeps the others sorted.
proof fn lemma_remove_sorted(ks: Seq<Keyspace>, pos: int)
    requires
        names_sorted(ks),
        0 <= pos < ks.len(),
    ensures
        names_sorted(ks.remove(pos)),
{
    let nk = ks.remove(pos);
    assert forall|i: int, j: int| 0 <= i < j < nk.len() implies name_lt(
        #[trigger] nk[i].spec_name(),
        #[trigger] nk[j].spec_name(),
    ) by {
        if j < pos {
            assert(name_lt(ks[i].spec_name(), ks[j].spec_name()));
        } else if i < pos {
            assert(nk[j] == ks[j + 1]);
            assert(name_lt(ks[i].spec_name(), ks[j + 1].spec_name()));
        } else {
            assert(nk[i] == ks[i + 1]);
            assert(nk[j] == ks[j + 1]);
            assert(name_lt(ks[i + 1].spec_name(), ks[j + 1].spec_name()));
        }
    }
}

/// Replacing a keyspace by one of the same name changes the view at that
/// name only.
proof fn lemma_replaced(before: &Store, after: &Store, i: int)
    requires
        names_sorted(before.keyspaces@),
        0 <= i < before.keyspaces@.len(),
        after.keyspaces@ == before.keyspaces@.update(i, after.keyspaces@[i]),
        after.keyspaces@[i].spec_name() == before.keyspaces@[i].spec_name(),
    ensures
        names_sorted(after.keyspaces@),
        after@ == before@.insert(
            before.keyspaces@[i].spec_name(),
            after.keyspaces@[i].records(),
        ),
{
    let n = before.keyspaces@[i].spec_name();
    let m = before@.insert(n, after.keyspaces@[i].records());
    assert forall|a: int, b: int| 0 <= a < b < after.keyspaces@.len() implies name_lt(
        #[trigger] after.keyspaces@[a].spec_name(),
        #[trigger] after.keyspaces@[b].spec_name(),
    ) by {
        assert(name_lt(before.keyspaces@[a].spec_name(), before.keyspaces@[b].spec_name()));
    }
    assert forall|j: int| 0 <= j < after.keyspaces@.len() implies m.contains_key(
        #[trigger] after.keyspaces@[j].spec_name(),
    ) && m[after.keyspaces@[j].spec_name()] == after.keyspaces@[j].records() by {
        if j != i {
            before.lemma_entry(j);
            assert(name_lt(before.keyspaces@[i].spec_name(), before.keyspaces@[j].spec_name()) || name_lt(before.keyspaces@[j].spec_name(), before.keyspaces@[i].spec_name()));
            lemma_lt_asymmetric(encode_utf8(n), encode_utf8(before.keyspaces@[j].spec_name()));
            lemma_lt_asymmetric(encode_utf8(before.keyspaces@[j].spec_name()), encode_utf8(n));
        }
    }
    assert forall|x: Seq<char>| m.contains_key(x) implies after.has_name(x) by {
        if x == n {
            assert(after.keyspaces@[i].spec_name() == x);
        } else {
            let j = choose|j: int| 0 <= j < before.keyspaces@.len() && #[trigger] before.keyspaces@[j].spec_name() == x;
            assert(after.keyspaces@[j].spec_name() == x);
        }
    }
    after.lemma_view_is(m);
}

impl Store {
    /// The directory under which each keyspace has its own directory.
    pub fn path(&self) -> (r: &String)
        ensures
            r@ == self.spec_path(),
    {
        &self.path
    }

    /// The directory `{path}/{name}` that holds, or would hold, keyspace
    /// `name`.
    pub fn keyspace_dir(&self, name: &str) -> (r: String)
        ensures
            r@ == dir_of(self.spec_path(), name@),
    {
        keyspace_dir(self.path.as_str(), name)
    }

    /// The keyspace `name`.
    pub fn get_keyspace(&self, name: String) -> (r: Result<&Keyspace, StoreError>)
        requires
            self.wf(),
        ensures
            r matches Ok(ks) ==> self@.contains_key(name@) && ks.spec_name() == name@
                && ks.records() == self@[name@],
            r matches Err(e) ==> e == StoreError::KeyspaceNotFound && !self@.contains_key(name@),
            r matches Err(e) ==> resolve(self@, name@) == Err::<(), StoreError>(e),
            r is Ok ==> resolve(self@, name@) is Ok,
    {
        let (pos, found) = self.locate(name.as_str());
        if !found {
            return Err(StoreError::KeyspaceNotFound);
        }
        proof {
            self.lemma_entry(pos as int);
        }
        Ok(&self.keyspaces[pos])
    }

    /// Opens the keyspace `name` in `{path}/{name}` and adds it to the
    /// catalog. A name already present is refused without touching the disk.
    pub fn create_keyspace(&mut self, name: String) -> (r: Result<(), StoreError>)
        requires
            old(self).wf(),
        ensures
            final(self).wf(),
            final(self).spec_path() == old(self).spec_path(),
            old(self)@.contains_key(name@) ==> r == Err::<(), StoreError>(
                StoreError::KeyspaceAlreadyExists,
            ),
            !old(self)@.contains_key(name@) && !valid_name(name@) ==> r == Err::<(), StoreError>(
                StoreError::InvalidArgument,
            ),
            !old(self)@.contains_key(name@) && valid_name(name@) ==> r is Ok || r
                == Err::<(), StoreError>(StoreError::Internal),
            r == create_outcome(old(self)@, name@) || (r == Err::<(), StoreError>(
                StoreError::Internal,
            ) && create_outcome(old(self)@, name@) is Ok),
            r is Ok ==> final(self)@ == old(self)@.insert(name@, final(self)@[name@]),
            r is Err ==> final(self)@ == old(self)@,
    {
        let (pos, found) = self.locate(name.as_str());
        if found {
            proof {
                self.lemma_entry(pos as int);
            }
            return Err(StoreError::KeyspaceAlreadyExists);
        }
        if !is_valid_name(name.as_str()) {
            return Err(StoreError::InvalidArgument);
        }
        let ghost n = name@;
        match Keyspace::new(self.path.clone(), name) {
            Ok(ks) => {
                proof {
                    lemma_insert_sorted(self.keyspaces@, pos as int, ks);
                }
                let ghost k = ks;
                self.keyspaces.insert(pos, ks);
                proof {
                    let m = old(self)@.insert(n, k.records());
                    assert forall|j: int| 0 <= j < self.keyspaces@.len() implies m.contains_key(
                        #[trigger] self.keyspaces@[j].spec_name(),
                    ) && m[self.keyspaces@[j].spec_name()] == self.keyspaces@[j].records() by {
                        if j < pos {
                            old(self).lemma_entry(j);
                        } else if j > pos {
                            old(self).lemma_entry(j - 1);
                        }
                    }
                    assert forall|x: Seq<char>| m.contains_key(x) implies self.has_name(x) by {
                        if x == n {
                            assert(self.keyspaces@[pos as int].spec_name() == x);
                        } else {
                            let j = choose|j: int| 0 <= j < old(self).keyspaces@.len() && #[trigger] old(self).keyspaces@[j].spec_name() == x;
                            if j < pos {
                                assert(self.keyspaces@[j].spec_name() == x);
                            } else {
                                assert(self.keyspaces@[j + 1].spec_name() == x);
                            }
                        }
                    }
                    self.lemma_view_is(m);
                }
                Ok(())
            },
            Err(e) => Err(e),
        }
    }

    /// Drops keyspace `name` from the catalog. Its directory is left to the
    /// caller, who finds it with `keyspace_dir`.
    pub fn delete_keyspace(&mut self, name: String) -> (r: Result<(), StoreError>)
        requires
            old(self).wf(),
        ensures
            final(self).wf(),
            final(self).spec_path() == old(self).spec_path(),
            old(self)@.contains_key(name@) ==> r is Ok && final(self)@ == old(self)@.remove(name@),
            !old(self)@.contains_key(name@) ==> r == Err::<(), StoreError>(
                StoreError::KeyspaceNotFound,
            ) && final(self)@ == old(self)@,
    {
        let (pos, found) = self.locate(name.as_str());
        if !found {
            return Err(StoreError::KeyspaceNotFound);
        }
        proof {
            lemma_remove_sorted(self.keyspaces@, pos as int);
            old(self).lemma_entry(pos as int);
        }
        let _closed = self.keyspaces.remove(pos);
        proof {
            let m = old(self)@.remove(name@);
            assert forall|j: int| 0 <= j < self.keyspaces@.len() implies m.contains_key(
                #[trigger] self.keyspaces@[j].spec_name(),
            ) && m[self.keyspaces@[j].spec_name()] == self.keyspaces@[j].records() by {
                if j < pos {
                    old(self).lemma_entry(j);
                    assert(name_lt(old(self).keyspaces@[j].spec_name(), name@));
                    lemma_lt_asymmetric(encode_utf8(name@), encode_utf8(name@));
                } else {
                    old(self).lemma_entry(j + 1);
                    assert(name_lt(name@, old(self).keyspaces@[j + 1].spec_name()));
                    lemma_lt_asymmetric(encode_utf8(name@), encode_utf8(name@));
                }
            }
            assert forall|x: Seq<char>| m.contains_key(x) implies self.has_name(x) by {
                let j = choose|j: int| 0 <= j < old(self).keyspaces@.len() && #[trigger] old(self).keyspaces@[j].spec_name() == x;
                if j < pos {
                    assert(self.keyspaces@[j].spec_name() == x);
                } else {
                    assert(j != pos);
                    assert(self.keyspaces@[j - 1].spec_name() == x);
                }
            }
            self.lemma_view_is(m);
        }
        Ok(())
    }

    /// Removes every record of keyspace `name`; the keyspace stays.
    pub fn truncate_keyspace(&mut self, name: String) -> (r: Result<(), StoreError>)
        requires
            old(self).wf(),
        ensures
            final(self).wf(),
            final(self).spec_path() == old(self).spec_path(),
            old(self)@.contains_key(name@) ==> r is Ok || r == Err::<(), StoreError>(
                StoreError::Internal,
            ),
            !old(self)@.contains_key(name@) ==> r == Err::<(), StoreError>(
                StoreError::KeyspaceNotFound,
            ) && final(self)@ == old(self)@,
            r is Ok ==> old(self)@.contains_key(name@) && final(self)@ == old(self)@.insert(
                name@,
                Map::empty(),
            ),
            r matches Err(e) ==> e == StoreError::KeyspaceNotFound || (e == StoreError::Internal
                && old(self)@.contains_key(name@) && final(self)@ == old(self)@.insert(
                name@,
                final(self)@[name@],
            )),
    {
        let (pos, found) = self.locate(name.as_str());
        if !found {
            return Err(StoreError::KeyspaceNotFound);
        }
        proof {
            old(self).lemma_entry(pos as int);
        }
        let r = self.keyspaces[pos].truncate();
        proof {
            lemma_replaced(old(self), self, pos as int);
        }
        r
    }

    /// The names of all keyspaces, sorted strictly ascending.
    pub fn list_keyspaces(&self) -> (r: Vec<String>)
        requires
            self.wf(),
        ensures
            strictly_sorted(strings_view(r@)),
            forall|n: Seq<char>| #[trigger] self@.contains_key(n) <==> strings_view(r@).contains(n),
    {
        let mut out: Vec<String> = Vec::new();
        let mut i: usize = 0;
        while i < self.keyspaces.len()
            invariant
                i <= self.keyspaces@.len(),
                names_sorted(self.keyspaces@),
                out@.len() == i,
                forall|j: int| 0 <= j < i ==> (#[trigger] out@[j])@ == self.keyspaces@[j].spec_name(),
            decreases self.keyspaces@.len() - i,
        {
            out.push(self.keyspaces[i].name().clone());
            i = i + 1;
        }
        let ghost names = strings_view(out@);
        assert forall|a: int, b: int| 0 <= a < b < names.len() implies name_lt(#[trigger] names[a], #[trigger] names[b]) by {
            assert(name_lt(self.keyspaces@[a].spec_name(), self.keyspaces@[b].spec_name()));
        }
        assert forall|n: Seq<char>| #[trigger] self@.contains_key(n) <==> names.contains(n) by {
            if self@.contains_key(n) {
                let j = choose|j: int| 0 <= j < self.keyspaces@.len() && #[trigger] self.keyspaces@[j].spec_name() == n;
                assert(names[j] == n);
            }
            if names.contains(n) {
                let j = choose|j: int| 0 <= j < names.len() && names[j] == n;
                self.lemma_entry(j);
            }
        }
        out
    }
}


impl Store {
    /// A store rooted at `path` holding the keyspaces found there: each of
    /// `children`, the directories under `path`, is opened as a keyspace of
    /// its own name. Those that do not open are handed back, and left out.
    pub fn open(path: String, children: Vec<String>) -> (r: (Store, Vec<String>))
        ensures
            r.0.wf(),
            r.0.spec_path() == path@,
            forall|n: Seq<char>| #[trigger] r.0@.contains_key(n) ==> strings_view(children@).contains(n),
            forall|n: Seq<char>|
                #[trigger] strings_view(r.1@).contains(n) ==> strings_view(children@).contains(n)
                    && !r.0@.contains_key(n),
            forall|n: Seq<char>|
                #[trigger] strings_view(children@).contains(n) ==> r.0@.contains_key(n) || strings_view(r.1@).contains(n),
            forall|n: Seq<char>| #[trigger] r.0@.contains_key(n) ==> valid_name(n),
            forall|n: Seq<char>|
                #[trigger] strings_view(children@).contains(n) && !valid_name(n) ==> strings_view(r.1@).contains(n)
                    && !r.0@.contains_key(n),
    {
        let ghost kids = strings_view(children@);
        let mut store = Store { path, keyspaces: Vec::new() };
        let mut failed: Vec<String> = Vec::new();
        assert(store@ =~= Map::empty());
        let mut i: usize = 0;
        while i < children.len()
            invariant
                i <= children@.len(),
                kids == strings_view(children@),
                store.wf(),
                store.spec_path() == path@,
                forall|n: Seq<char>| #[trigger] store@.contains_key(n) ==> valid_name(n),
                forall|n: Seq<char>| #[trigger] store@.contains_key(n) ==> kids.take(i as int).contains(n),
                forall|n: Seq<char>|
                    #[trigger] strings_view(failed@).contains(n) ==> kids.take(i as int).contains(n)
                        && !store@.contains_key(n),
                forall|n: Seq<char>|
                    #[trigger] kids.take(i as int).contains(n) ==> store@.contains_key(n) || strings_view(failed@).contains(n),
            decreases children@.len() - i,
        {
            let ghost before = store@;
            let ghost failed_before = strings_view(failed@);
            let ghost n = children@[i as int]@;
            let name = children[i].clone();
            let already_failed = contains_string(&failed, &name);
            if !already_failed {
                match store.create_keyspace(name) {
                    Ok(()) => {},
                    Err(StoreError::KeyspaceAlreadyExists) => {},
                    Err(_) => {
                        failed.push(children[i].clone());
                    },
                }
            }
            proof {
                let pre = kids.take(i as int);
                let post = kids.take(i + 1);
                assert(post =~= pre.push(n));
                assert forall|x: Seq<char>| #[trigger] post.contains(x) <==> (pre.contains(x) || x == n) by {
                    if post.contains(x) {
                        let j = choose|j: int| 0 <= j < post.len() && post[j] == x;
                        if j < i {
                            assert(pre[j] == x);
                        }
                    }
                    if pre.contains(x) {
                        let j = choose|j: int| 0 <= j < pre.len() && pre[j] == x;
                        assert(post[j] == x);
                    }
                    if x == n {
                        assert(post[i as int] == x);
                    }
                }
                let fl = strings_view(failed@);
                assert forall|x: Seq<char>| #[trigger] fl.contains(x) <==> (failed_before.contains(x) || (x == n && fl.len() > failed_before.len())) by {
                    if fl.contains(x) {
                        let j = choose|j: int| 0 <= j < fl.len() && fl[j] == x;
                        if j < failed_before.len() {
                            assert(failed_before[j] == x);
                        }
                    }
                    if failed_before.contains(x) {
                        let j = choose|j: int| 0 <= j < failed_before.len() && failed_before[j] == x;
                        assert(fl[j] == x);
                    }
                    if x == n && fl.len() > failed_before.len() {
                        assert(fl[failed_before.len() as int] == x);
                    }
                }
            }
            i = i + 1;
        }
        proof {
            assert(kids.take(i as int) =~= kids);
        }
        (store, failed)
    }

    /// The value stored under `key` in keyspace `name`.
    pub fn get_key(&self, name: String, key: Vec<u8>) -> (r: Result<Vec<u8>, StoreError>)
        requires
            self.wf(),
        ensures
            r matches Ok(v) ==> key_lookup(self@, name@, key@) == Ok::<Seq<u8>, StoreError>(v@),
            r matches Err(e) ==> key_lookup(self@, name@, key@) == Err::<Seq<u8>, StoreError>(e) || (e
                == StoreError::Internal && self@.contains_key(name@)),
    {
        match self.get_keyspace(name) {
            Ok(ks) => ks.get(key),
            Err(e) => Err(e),
        }
    }

    /// Sets `record.key` to `record.value` in keyspace `name`, replacing any
    /// earlier value.
    pub fn insert_key(&mut self, name: String, record: Record) -> (r: Result<(), StoreError>)
        requires
            old(self).wf(),
        ensures
            final(self).wf(),
            final(self).spec_path() == old(self).spec_path(),
            old(self)@.contains_key(name@) ==> r is Ok || r == Err::<(), StoreError>(
                StoreError::Internal,
            ),
            !old(self)@.contains_key(name@) ==> r == Err::<(), StoreError>(
                StoreError::KeyspaceNotFound,
            ) && final(self)@ == old(self)@,
            r is Ok ==> final(self)@ == old(self)@.insert(
                name@,
                old(self)@[name@].insert(record.key@, record.value@),
            ),
            r matches Err(e) ==> e == StoreError::KeyspaceNotFound || (e == StoreError::Internal
                && old(self)@.contains_key(name@) && final(self)@ == old(self)@.insert(
                name@,
                final(self)@[name@],
            )),
    {
        let (pos, found) = self.locate(name.as_str());
        if !found {
            return Err(StoreError::KeyspaceNotFound);
        }
        proof {
            old(self).lemma_entry(pos as int);
        }
        let r = self.keyspaces[pos].insert(record);
        proof {
            lemma_replaced(old(self), self, pos as int);
        }
        r
    }

    /// Removes `key` from keyspace `name`; fails with `KeyNotFound` where
    /// the keyspace holds no value under it.
    pub fn delete_key(&mut self, name: String, key: Vec<u8>) -> (r: Result<(), StoreError>)
        requires
            old(self).wf(),
        ensures
            final(self).wf(),
            final(self).spec_path() == old(self).spec_path(),
            r is Ok ==> key_lookup(old(self)@, name@, key@) is Ok && final(self)@ == old(self)@.insert(
                name@,
                old(self)@[name@].remove(key@),
            ),
            r matches Err(e) ==> (key_lookup(old(self)@, name@, key@) == Err::<Seq<u8>, StoreError>(
                e,
            ) && final(self)@ == old(self)@) || (e == StoreError::Internal && old(self)@.contains_key(name@) && final(self)@ == old(self)@.insert(
                name@,
                final(self)@[name@],
            )),
    {
        let (pos, found) = self.locate(name.as_str());
        if !found {
            return Err(StoreError::KeyspaceNotFound);
        }
        proof {
            old(self).lemma_entry(pos as int);
        }
        let r = self.keyspaces[pos].delete(key);
        proof {
            lemma_replaced(old(self), self, pos as int);
            if r is Err && self.keyspaces@[pos as int].records() == old(self).keyspaces@[pos as int].records() {
                assert(self@ =~= old(self)@);
            }
        }
        r
    }

    /// Writes every record into keyspace `name`, all or none; a later record
    /// of a key replaces an earlier one.
    pub fn insert_keys(&mut self, name: String, records: Vec<Record>) -> (r: Result<(), StoreError>)
        requires
            old(self).wf(),
        ensures
            final(self).wf(),
            final(self).spec_path() == old(self).spec_path(),
            old(self)@.contains_key(name@) ==> r is Ok || r == Err::<(), StoreError>(
                StoreError::Internal,
            ),
            !old(self)@.contains_key(name@) ==> r == Err::<(), StoreError>(
                StoreError::KeyspaceNotFound,
            ) && final(self)@ == old(self)@,
            r is Ok ==> final(self)@ == old(self)@.insert(
                name@,
                put_all(old(self)@[name@], records_view(records@)),
            ),
            r matches Err(e) ==> e == StoreError::KeyspaceNotFound || (e == StoreError::Internal
                && old(self)@.contains_key(name@) && final(self)@ == old(self)@.insert(
                name@,
                final(self)@[name@],
            )),
    {
        let (pos, found) = self.locate(name.as_str());
        if !found {
            return Err(StoreError::KeyspaceNotFound);
        }
        proof {
            old(self).lemma_entry(pos as int);
        }
        let r = self.keyspaces[pos].batch_insert(records);
        proof {
            lemma_replaced(old(self), self, pos as int);
        }
        r
    }

    /// Removes every key of `keys` from keyspace `name`, all or none; keys
    /// that are absent are passed over.
    pub fn delete_keys(&mut self, name: String, keys: Vec<Vec<u8>>) -> (r: Result<(), StoreError>)
        requires
            old(self).wf(),
        ensures
            final(self).wf(),
            final(self).spec_path() == old(self).spec_path(),
            old(self)@.contains_key(name@) ==> r is Ok || r == Err::<(), StoreError>(
                StoreError::Internal,
            ),
            !old(self)@.contains_key(name@) ==> r == Err::<(), StoreError>(
                StoreError::KeyspaceNotFound,
            ) && final(self)@ == old(self)@,
            r is Ok ==> final(self)@ == old(self)@.insert(
                name@,
                remove_all(old(self)@[name@], keys_view(keys@)),
            ),
            r matches Err(e) ==> e == StoreError::KeyspaceNotFound || (e == StoreError::Internal
                && old(self)@.contains_key(name@) && final(self)@ == old(self)@.insert(
                name@,
                final(self)@[name@],
            )),
    {
        let (pos, found) = self.locate(name.as_str());
        if !found {
            return Err(StoreError::KeyspaceNotFound);
        }
        proof {
            old(self).lemma_entry(pos as int);
        }
        let r = self.keyspaces[pos].batch_delete(keys);
        proof {
            lemma_replaced(old(self), self, pos as int);
        }
        r
    }

    /// Reads each of `keys` from keyspace `name`, in order, stopping after
    /// the first key that cannot be read; that key's failure is the last
    /// item.
    pub fn get_keys(&self, name: String, keys: Vec<Vec<u8>>) -> (r: Result<
        Vec<Result<Record, StoreError>>,
        StoreError,
    >)
        requires
            self.wf(),
        ensures
            r matches Err(e) ==> e == StoreError::KeyspaceNotFound && !self@.contains_key(name@),
            r matches Ok(items) ==> self@.contains_key(name@) && streamed(
                self@[name@],
                keys_view(keys@),
                items@,
            ),
    {
        let ghost nm = name@;
        let ks = match self.get_keyspace(name) {
            Ok(ks) => ks,
            Err(e) => return Err(e),
        };
        let ghost records = ks.records();
        let ghost kv = keys_view(keys@);
        let mut items: Vec<Result<Record, StoreError>> = Vec::new();
        let mut i: usize = 0;
        while i < keys.len()
            invariant
                i <= keys@.len(),
                kv == keys_view(keys@),
                records == ks.records(),
                nm == name@,
                self@.contains_key(nm),
                self@[nm] == records,
                items@.len() == i,
                forall|j: int|
                    0 <= j < i ==> match #[trigger] items@[j] {
                        Ok(rec) => rec.key@ == kv[j] && records.contains_key(kv[j]) && rec.value@
                            == records[kv[j]],
                        Err(_) => false,
                    },
            decreases keys@.len() - i,
        {
            let ghost old_items = items@;
            let key = copy_bytes(&keys[i]);
            assert(key@ == kv[i as int]);
            match ks.get(key) {
                Ok(value) => {
                    items.push(Ok(Record { key: copy_bytes(&keys[i]), value }));
                },
                Err(e) => {
                    items.push(Err(e));
                    assert(items@.last() == Err::<Record, StoreError>(e));
                    assert(streamed(records, kv, items@)) by {
                        assert forall|j: int| 0 <= j < items@.len() implies match #[trigger] items@[j] {
                            Ok(rec) => rec.key@ == kv[j] && records.contains_key(kv[j]) && rec.value@
                                == records[kv[j]],
                            Err(e) => j == items@.len() - 1 && (e == StoreError::Internal || (e
                                == StoreError::KeyNotFound && !records.contains_key(kv[j]))),
                        } by {
                            if j < i {
                                assert(items@[j] == old_items[j]);
                            }
                        }
                    }
                    return Ok(items);
                },
            }
            i = i + 1;
        }
        Ok(items)
    }
}

/// Whether `v` holds a string equal to `s`.
fn contains_string(v: &Vec<String>, s: &String) -> (r: bool)
    ensures
        r == strings_view(v@).contains(s@),
{
    let ghost vv = strings_view(v@);
    let mut i: usize = 0;
    while i < v.len()
        invariant
            i <= v@.len(),
            vv == strings_view(v@),
            forall|j: int| 0 <= j < i ==> vv[j] != s@,
        decreases v@.len() - i,
    {
        if v[i] == *s {
            assert(vv[i as int] == s@);
            return true;
        }
        i = i + 1;
    }
    false
}

} // verus!
