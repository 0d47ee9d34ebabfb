use vstd::prelude::*;

use crate::acl::Authz;
use crate::acl::AuthzView;

verus! {

/// The errors a store request can end in. Every error is terminal for the
/// request that raised it: nothing is partially committed and nothing is
/// retried.
#[derive(Clone, Copy, Debug, PartialEq, Eq, Structural)]
pub enum StoreError {
    /// No principal was presented where one is required.
    Unauthenticated,
    /// A create hit an occupied key.
    AlreadyExists,
    /// A mutation named an absent key.
    NotFound,
    /// The caller is authenticated but not authorized.
    Forbidden,
    /// A payload carried an unrecognized version tag.
    UnknownFormat,
}

/// Mathematical model of one stored record: its version tag, its payload
/// bytes, and its access-control list.
#[verifier::ext_equal]
pub struct DataView {
    pub version: Seq<char>,
    pub data: Seq<u8>,
    pub authz: AuthzView,
}

/// One versioned, owned, ACL-protected record.
pub struct Data {
    version: String,
    data: Vec<u8>,
    authz: Authz,
}

impl View for Data {
    type V = DataView;

    closed spec fn view(&self) -> DataView {
        DataView { version: self.version@, data: self.data@, authz: self.authz@ }
    }
}

/// Mathematical model of the view a successful read returns.
#[verifier::ext_equal]
pub struct DataOutputView {
    pub key: Seq<char>,
    pub version: Seq<char>,
    pub data: Seq<u8>,
    pub authz: AuthzView,
}

/// The public view of a record, returned by a successful read: the key it
/// was found under, its version tag, its payload, and a snapshot of its ACL.
#[derive(Debug, PartialEq, Eq)]
pub struct DataOutput {
    pub key: String,
    pub version: String,
    pub data: Vec<u8>,
    pub authz: Authz,
}

impl View for DataOutput {
    type V = DataOutputView;

    open spec fn view(&self) -> DataOutputView {
        DataOutputView {
            key: self.key@,
            version: self.version@,
            data: self.data@,
            authz: self.authz@,
        }
    }
}

/// The record map a sequence of keyed entries stands for, later entries
/// shadowing earlier ones (the store keeps its keys unique, so nothing is
/// ever shadowed).
pub open spec fn entries_map(s: Seq<(String, Data)>) -> Map<Seq<char>, DataView>
    decreases s.len(),
{
    if s.len() == 0 {
        Map::empty()
    } else {
        entries_map(s.drop_last()).insert(s.last().0@, s.last().1@)
    }
}

/// No two entries carry the same key.
pub open spec fn keys_unique(s: Seq<(String, Data)>) -> bool {
    forall|i: int, j: int| 0 <= i < j < s.len() ==> s[i].0@ != s[j].0@
}

/// The keyed, versioned record store: a mapping from key to record, with
/// per-record authorization enforced on every operation.
pub struct Store {
    entries: Vec<(String, Data)>,
}

impl View for Store {
    type V = Map<Seq<char>, DataView>;

    closed spec fn view(&self) -> Map<Seq<char>, DataView> {
        entries_map(self.entries@)
    }
}

proof fn lemma_em_dom(s: Seq<(String, Data)>, k: Seq<char>)
    ensures
        entries_map(s).contains_key(k) <==> exists|i: int| 0 <= i < s.len() && s[i].0@ == k,
    decreases s.len(),
{
    if s.len() > 0 {
        lemma_em_dom(s.drop_last(), k);
        if s.last().0@ == k {
            assert(s[s.len() - 1].0@ == k);
        } else {
            if entries_map(s).contains_key(k) {
                let i = choose|i: int| 0 <= i < s.drop_last().len() && s.drop_last()[i].0@ == k;
                assert(s[i].0@ == k);
            }
            if exists|i: int| 0 <= i < s.len() && s[i].0@ == k {
                let i = choose|i: int| 0 <= i < s.len() && s[i].0@ == k;
                assert(i < s.len() - 1);
                assert(s.drop_last()[i].0@ == k);
            }
        }
    }
}

proof fn lemma_em_get(s: Seq<(String, Data)>, i: int)
    requires
        keys_unique(s),
        0 <= i < s.len(),
    ensures
        entries_map(s).contains_key(s[i].0@),
        entries_map(s)[s[i].0@] == s[i].1@,
    decreases s.len(),
{
    if i == s.len() - 1 {
        assert(s.last() == s[i]);
    } else {
        assert(keys_unique(s.drop_last())) by {
            assert(forall|p: int, q: int|
                0 <= p < q < s.drop_last().len() ==> s.drop_last()[p] == s[p]
                    && s.drop_last()[q] == s[q]);
        }
        assert(s.drop_last()[i] == s[i]);
        lemma_em_get(s.drop_last(), i);
        assert(s.last().0@ != s[i].0@);
    }
}

proof fn lemma_em_push(s: Seq<(String, Data)>, e: (String, Data))
    ensures
        entries_map(s.push(e)) == entries_map(s).insert(e.0@, e.1@),
{
    assert(s.push(e).drop_last() =~= s);
    assert(s.push(e).last() == e);
}

proof fn lemma_em_remove(s: Seq<(String, Data)>, i: int)
    requires
        keys_unique(s),
        0 <= i < s.len(),
    ensures
        entries_map(s.remove(i)) =~= entries_map(s).remove(s[i].0@),
    decreases s.len(),
{
    let k = s[i].0@;
    if i == s.len() - 1 {
        assert(s.remove(i) =~= s.drop_last());
        lemma_em_dom(s.drop_last(), k);
        assert(forall|j: int|
            0 <= j < s.drop_last().len() ==> s.drop_last()[j] == s[j] && s[j].0@ != k);
        assert(!entries_map(s.drop_last()).contains_key(k));
        assert(entries_map(s.drop_last()) =~= entries_map(s.drop_last()).insert(
            k,
            s[i].1@,
        ).remove(k));
    } else {
        assert(keys_unique(s.drop_last())) by {
            assert(forall|p: int, q: int|
                0 <= p < q < s.drop_last().len() ==> s.drop_last()[p] == s[p]
                    && s.drop_last()[q] == s[q]);
        }
        assert(s.drop_last()[i] == s[i]);
        lemma_em_remove(s.drop_last(), i);
        assert(s.remove(i).drop_last() =~= s.drop_last().remove(i));
        assert(s.remove(i).last() == s.last());
        assert(s.last().0@ != k);
    }
}

/// The record a create inserts: the caller's version tag and payload, under
/// the supplied ACL with its owner replaced by the creating principal.
pub open spec fn created_record(
    version: Seq<char>,
    data: Seq<u8>,
    authz: AuthzView,
    owner: Seq<char>,
) -> DataView {
    DataView { version, data, authz: authz.with_owner(owner) }
}

impl Store {
    #[verifier::type_invariant]
    closed spec fn wf(self) -> bool {
        keys_unique(self.entries@)
    }

    /// An empty store.
    pub fn new() -> (r: Self)
        ensures
            r@ == Map::<Seq<char>, DataView>::empty(),
    {
        Store { entries: Vec::new() }
    }

    /// The position of `key` among the entries, if it is present.
    fn find_index(&self, key: &str) -> (r: Option<usize>)
        ensures
            match r {
                Some(i) => i < self.entries@.len() && self.entries@[i as int].0@ == key@,
                None => !self@.contains_key(key@),
            },
    {
        let k = key.to_owned();
        let n = self.entries.len();
        for i in 0..n
            invariant
                n == self.entries.len(),
                k@ == key@,
                forall|j: int| 0 <= j < i ==> self.entries@[j].0@ != key@,
        {
            if self.entries[i].0 == k {
                return Some(i);
            }
        }
        proof {
            lemma_em_dom(self.entries@, key@);
        }
        None
    }

    /// Create the record under `key`: requires an authenticated principal,
    /// refuses an occupied key, and otherwise inserts the record with the
    /// caller as owner.
    pub fn create(
        &mut self,
        principal: Option<&str>,
        key: &str,
        version: String,
        data: Vec<u8>,
        authz: Authz,
    ) -> (r: Result<(), StoreError>)
        ensures
            match principal {
                None => r == Err::<(), StoreError>(StoreError::Unauthenticated) && final(self)@
                    == old(self)@,
                Some(p) => if old(self)@.contains_key(key@) {
                    r == Err::<(), StoreError>(StoreError::AlreadyExists) && final(self)@ == old(
                        self,
                    )@
                } else {
                    r == Ok::<(), StoreError>(()) && final(self)@ == old(self)@.insert(
                        key@,
                        created_record(version@, data@, authz@, p@),
                    )
                },
            },
    {
        proof {
            use_type_invariant(&*self);
        }
        let p = match principal {
            None => {
                return Err(StoreError::Unauthenticated);
            },
            Some(p) => p,
        };
        match self.find_index(key) {
            Some(i) => {
                proof {
                    lemma_em_get(self.entries@, i as int);
                }
                Err(StoreError::AlreadyExists)
            },
            None => {
                let ghost s0 = self.entries@;
                let ghost vv = version@;
                let ghost dd = data@;
                let ghost av = authz@;
                let record = Data { version, data, authz: authz.update_owner(p) };
                proof {
                    assert(record@ == created_record(vv, dd, av, p@));
                }
                let mut entries: Vec<(String, Data)> = Vec::new();
                std::mem::swap(&mut entries, &mut self.entries);
                entries.push((key.to_owned(), record));
                proof {
                    lemma_em_dom(s0, key@);
                    assert(forall|j: int| 0 <= j < s0.len() ==> s0[j].0@ != key@);
                    assert(entries@ =~= s0.push(entries@.last()));
                    assert(entries@.last().0@ == key@);
                    push_keeps_unique(s0, entries@.last());
                    lemma_em_push(s0, entries@.last());
                    assert(entries_map(entries@) =~= entries_map(s0).insert(
                        key@,
                        created_record(vv, dd, av, p@),
                    ));
                }
                self.entries = entries;
                Ok(())
            },
        }
    }

    /// Read the record under `key` as `principal`: an anonymous caller is
    /// refused before any ACL is consulted, even for a public-read record
    /// (deliberately stricter than the ACL alone: every query must present a
    /// credential); an absent key is an empty result, not an error; an
    /// unreadable record is `Forbidden`; otherwise the record's public view
    /// is returned.
    pub fn read(&self, principal: Option<&str>, key: &str) -> (r: Result<
        Option<DataOutput>,
        StoreError,
    >)
        ensures
            match principal {
                None => r == Err::<Option<DataOutput>, StoreError>(StoreError::Unauthenticated),
                Some(p) => if !self@.contains_key(key@) {
                    r == Ok::<Option<DataOutput>, StoreError>(None)
                } else if !self@[key@].authz.readable_by(Some(p@)) {
                    r == Err::<Option<DataOutput>, StoreError>(StoreError::Forbidden)
                } else {
                    match r {
                        Ok(Some(out)) => out@ == (DataOutputView {
                            key: key@,
                            version: self@[key@].version,
                            data: self@[key@].data,
                            authz: self@[key@].authz,
                        }),
                        _ => false,
                    }
                },
            },
    {
        proof {
            use_type_invariant(&*self);
        }
        let p = match principal {
            None => {
                return Err(StoreError::Unauthenticated);
            },
            Some(p) => p,
        };
        match self.find_index(key) {
            None => Ok(None),
            Some(i) => {
                proof {
                    lemma_em_get(self.entries@, i as int);
                }
                let record = &self.entries[i].1;
                if !record.authz.is_readable(p) {
                    return Err(StoreError::Forbidden);
                }
                let out = DataOutput {
                    key: key.to_owned(),
                    version: record.version.clone(),
                    data: copy_bytes(&record.data),
                    authz: record.authz.duplicate(),
                };
                Ok(Some(out))
            },
        }
    }

    /// Replace the payload and version tag of the record under `key`; only
    /// its owner may, and the ACL is untouched.
    pub fn update_payload(
        &mut self,
        principal: Option<&str>,
        key: &str,
        version: String,
        data: Vec<u8>,
    ) -> (r: Result<(), StoreError>)
        ensures
            match principal {
                None => r == Err::<(), StoreError>(StoreError::Unauthenticated) && final(self)@
                    == old(self)@,
                Some(p) => if !old(self)@.contains_key(key@) {
                    r == Err::<(), StoreError>(StoreError::NotFound) && final(self)@ == old(self)@
                } else if old(self)@[key@].authz.owner != p@ {
                    r == Err::<(), StoreError>(StoreError::Forbidden) && final(self)@ == old(self)@
                } else {
                    r == Ok::<(), StoreError>(()) && final(self)@ == old(self)@.insert(
                        key@,
                        DataView {
                            version: version@,
                            data: data@,
                            authz: old(self)@[key@].authz,
                        },
                    )
                },
            },
    {
        proof {
            use_type_invariant(&*self);
        }
        let p = match principal {
            None => {
                return Err(StoreError::Unauthenticated);
            },
            Some(p) => p,
        };
        let i = match self.find_index(key) {
            None => {
                return Err(StoreError::NotFound);
            },
            Some(i) => i,
        };
        proof {
            lemma_em_get(self.entries@, i as int);
        }
        if !self.entries[i].1.authz.is_owner(p) {
            return Err(StoreError::Forbidden);
        }
        let ghost s0 = self.entries@;
        let ghost vv = version@;
        let ghost dd = data@;
        let mut entries: Vec<(String, Data)> = Vec::new();
        std::mem::swap(&mut entries, &mut self.entries);
        let (stored_key, old_record) = entries.remove(i);
        let Data { version: _, data: _, authz } = old_record;
        proof {
            lemma_em_remove(s0, i as int);
            remove_keeps_unique(s0, i as int);
            removed_key_absent(s0, i as int);
        }
        entries.push((stored_key, Data { version, data, authz }));
        proof {
            lemma_em_push(s0.remove(i as int), entries@.last());
            assert(entries@ =~= s0.remove(i as int).push(entries@.last()));
            push_keeps_unique(s0.remove(i as int), entries@.last());
            assert(entries_map(entries@) =~= entries_map(s0).insert(
                key@,
                DataView { version: vv, data: dd, authz: entries_map(s0)[key@].authz },
            ));
        }
        self.entries = entries;
        Ok(())
    }

    /// Replace the whole ACL of the record under `key`; only its owner may,
    /// and the replacement is atomic and complete (full replacement, not a
    /// merge).
    pub fn update_acl(&mut self, principal: Option<&str>, key: &str, authz: Authz) -> (r: Result<
        (),
        StoreError,
    >)
        ensures
            match principal {
                None => r == Err::<(), StoreError>(StoreError::Unauthenticated) && final(self)@
                    == old(self)@,
                Some(p) => if !old(self)@.contains_key(key@) {
                    r == Err::<(), StoreError>(StoreError::NotFound) && final(self)@ == old(self)@
                } else if old(self)@[key@].authz.owner != p@ {
                    r == Err::<(), StoreError>(StoreError::Forbidden) && final(self)@ == old(self)@
                } else {
                    r == Ok::<(), StoreError>(()) && final(self)@ == old(self)@.insert(
                        key@,
                        DataView {
                            version: old(self)@[key@].version,
                            data: old(self)@[key@].data,
                            authz: authz@,
                        },
                    )
                },
            },
    {
        proof {
            use_type_invariant(&*self);
        }
        let p = match principal {
            None => {
                return Err(StoreError::Unauthenticated);
            },
            Some(p) => p,
        };
        let i = match self.find_index(key) {
            None => {
                return Err(StoreError::NotFound);
            },
            Some(i) => i,
        };
        proof {
            lemma_em_get(self.entries@, i as int);
        }
        if !self.entries[i].1.authz.is_owner(p) {
            return Err(StoreError::Forbidden);
        }
        let ghost s0 = self.entries@;
        let ghost av = authz@;
        let mut entries: Vec<(String, Data)> = Vec::new();
        std::mem::swap(&mut entries, &mut self.entries);
        let (stored_key, old_record) = entries.remove(i);
        let Data { version, data, authz: _ } = old_record;
        proof {
            lemma_em_remove(s0, i as int);
            remove_keeps_unique(s0, i as int);
            removed_key_absent(s0, i as int);
        }
        entries.push((stored_key, Data { version, data, authz }));
        proof {
            lemma_em_push(s0.remove(i as int), entries@.last());
            assert(entries@ =~= s0.remove(i as int).push(entries@.last()));
            push_keeps_unique(s0.remove(i as int), entries@.last());
            assert(entries_map(entries@) =~= entries_map(s0).insert(
                key@,
                DataView {
                    version: entries_map(s0)[key@].version,
                    data: entries_map(s0)[key@].data,
                    authz: av,
                },
            ));
        }
        self.entries = entries;
        Ok(())
    }

    /// Remove the record under `key` entirely; only its owner may, and the
    /// removal is total (no tombstone).
    pub fn delete(&mut self, principal: Option<&str>, key: &str) -> (r: Result<(), StoreError>)
        ensures
            match principal {
                None => r == Err::<(), StoreError>(StoreError::Unauthenticated) && final(self)@
                    == old(self)@,
                Some(p) => if !old(self)@.contains_key(key@) {
                    r == Err::<(), StoreError>(StoreError::NotFound) && final(self)@ == old(self)@
                } else if old(self)@[key@].authz.owner != p@ {
                    r == Err::<(), StoreError>(StoreError::Forbidden) && final(self)@ == old(self)@
                } else {
                    r == Ok::<(), StoreError>(()) && final(self)@ == old(self)@.remove(key@)
                },
            },
    {
        proof {
            use_type_invariant(&*self);
        }
        let p = match principal {
            None => {
                return Err(StoreError::Unauthenticated);
            },
            Some(p) => p,
        };
        let i = match self.find_index(key) {
            None => {
                return Err(StoreError::NotFound);
            },
            Some(i) => i,
        };
        proof {
            lemma_em_get(self.entries@, i as int);
        }
        if !self.entries[i].1.authz.is_owner(p) {
            return Err(StoreError::Forbidden);
        }
        let ghost s0 = self.entries@;
        let mut entries: Vec<(String, Data)> = Vec::new();
        std::mem::swap(&mut entries, &mut self.entries);
        entries.remove(i);
        proof {
            lemma_em_remove(s0, i as int);
            assert(keys_unique(s0.remove(i as int))) by {
                remove_keeps_unique(s0, i as int);
            }
            assert(entries@ =~= s0.remove(i as int));
            assert(entries_map(entries@) =~= entries_map(s0).remove(key@));
        }
        self.entries = entries;
        Ok(())
    }
}

/// Creation is once per key: whatever record a successful create put under a
/// key, the key is occupied afterwards, so by `create`'s contract a second
/// create on it yields `AlreadyExists` and leaves the store unchanged,
/// whatever payload the second create carries.
pub proof fn lemma_create_once(m: Map<Seq<char>, DataView>, key: Seq<char>, record: DataView)
    ensures
        m.insert(key, record).contains_key(key),
{
}

/// A successful create stores exactly the created record, owned by the
/// creating principal, and the owner may always read it back: the round trip
/// of create-then-read-as-owner returns the stored payload unchanged.
pub proof fn lemma_create_read_back(
    m: Map<Seq<char>, DataView>,
    key: Seq<char>,
    version: Seq<char>,
    data: Seq<u8>,
    authz: AuthzView,
    owner: Seq<char>,
)
    ensures
        m.insert(key, created_record(version, data, authz, owner)).contains_key(key),
        m.insert(key, created_record(version, data, authz, owner))[key] == created_record(
            version,
            data,
            authz,
            owner,
        ),
        created_record(version, data, authz, owner).authz.readable_by(Some(owner)),
        created_record(version, data, authz, owner).data == data,
        created_record(version, data, authz, owner).version == version,
{
}

/// Deletion is final: after a successful delete the key is absent, so by the
/// operations' contracts a read returns an empty result and any further
/// mutation of the key yields `NotFound`.
pub proof fn lemma_delete_final(m: Map<Seq<char>, DataView>, key: Seq<char>)
    ensures
        !m.remove(key).contains_key(key),
{
}

proof fn push_keeps_unique(s: Seq<(String, Data)>, e: (String, Data))
    requires
        keys_unique(s),
        forall|j: int| 0 <= j < s.len() ==> s[j].0@ != e.0@,
    ensures
        keys_unique(s.push(e)),
{
    assert forall|p: int, q: int|
        0 <= p < q < s.push(e).len() implies s.push(e)[p].0@ != s.push(e)[q].0@ by {
        assert(s.push(e)[p] == s[p]);
        if q == s.len() {
            assert(s.push(e)[q] == e);
        } else {
            assert(s.push(e)[q] == s[q]);
        }
    }
}

proof fn remove_keeps_unique(s: Seq<(String, Data)>, i: int)
    requires
        keys_unique(s),
        0 <= i < s.len(),
    ensures
        keys_unique(s.remove(i)),
{
    assert forall|p: int, q: int|
        0 <= p < q < s.remove(i).len() implies s.remove(i)[p].0@ != s.remove(i)[q].0@ by {
        let pp: int = if p < i {
            p
        } else {
            p + 1
        };
        let qq: int = if q < i {
            q
        } else {
            q + 1
        };
        assert(s.remove(i)[p] == s[pp]);
        assert(s.remove(i)[q] == s[qq]);
    }
}

proof fn removed_key_absent(s: Seq<(String, Data)>, i: int)
    requires
        keys_unique(s),
        0 <= i < s.len(),
    ensures
        forall|j: int| 0 <= j < s.remove(i).len() ==> s.remove(i)[j].0@ != s[i].0@,
{
    assert forall|j: int| 0 <= j < s.remove(i).len() implies s.remove(i)[j].0@ != s[i].0@ by {
        let jj: int = if j < i {
            j
        } else {
            j + 1
        };
        assert(s.remove(i)[j] == s[jj]);
    }
}

/// An owned copy of a payload.
fn copy_bytes(v: &Vec<u8>) -> (r: Vec<u8>)
    ensures
        r@ == v@,
{
    let mut r: Vec<u8> = Vec::new();
    let n = v.len();
    for i in 0..n
        invariant
            n == v.len(),
            r@ == v@.subrange(0, i as int),
    {
        r.push(v[i]);
        proof {
            assert(r@ =~= v@.subrange(0, i + 1 as int));
        }
    }
    proof {
        assert(v@.subrange(0, n as int) =~= v@);
    }
    r
}

} // verus!
