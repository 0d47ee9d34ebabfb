use vstd::prelude::*;

verus! {

/// The access kinds a capability token may grant on this store.
#[derive(Clone, Copy, Debug, PartialEq, Eq)]
pub enum Permissions {
    Access,
}

/// Mathematical model of an access-control list: one owner, a public-read
/// flag, and an explicit reader allow-list (insertion order kept, no
/// duplicates).
#[verifier::ext_equal]
pub struct AuthzView {
    pub owner: Seq<char>,
    pub everyone_read: bool,
    pub readers: Seq<Seq<char>>,
}

impl AuthzView {
    /// The reader list names no account twice.
    pub open spec fn no_duplicate_readers(self) -> bool {
        forall|i: int, j: int|
            0 <= i < j < self.readers.len() ==> self.readers[i] != self.readers[j]
    }

    /// Whether `account` may read a record guarded by this list: the owner
    /// always may, anyone may when `everyone_read` is set, and otherwise
    /// only the accounts on the reader list. An absent (anonymous) account
    /// may read only when `everyone_read` is set.
    pub open spec fn readable_by(self, account: Option<Seq<char>>) -> bool {
        match account {
            Some(a) => a == self.owner || self.everyone_read || self.readers.contains(a),
            None => self.everyone_read,
        }
    }

    /// This list with `s` as owner.
    pub open spec fn with_owner(self, s: Seq<char>) -> AuthzView {
        AuthzView { owner: s, everyone_read: self.everyone_read, readers: self.readers }
    }

    /// This list with the public-read flag set to `b`.
    pub open spec fn with_everyone(self, b: bool) -> AuthzView {
        AuthzView { owner: self.owner, everyone_read: b, readers: self.readers }
    }

    /// This list with `readers` replaced.
    pub open spec fn with_readers(self, readers: Seq<Seq<char>>) -> AuthzView {
        AuthzView { owner: self.owner, everyone_read: self.everyone_read, readers }
    }

    /// The list after granting (`allow`) or revoking (`!allow`) read access
    /// for `account`: a no-op when the account is already in the requested
    /// state.
    pub open spec fn toggled(self, account: Seq<char>, allow: bool) -> AuthzView {
        if allow {
            if self.readers.contains(account) {
                self
            } else {
                self.with_readers(self.readers.push(account))
            }
        } else {
            if self.readers.contains(account) {
                self.with_readers(self.readers.remove(self.readers.index_of(account)))
            } else {
                self
            }
        }
    }
}

/// An access-control list over principal identities (account address
/// strings). Built only through `new` and the `update*` methods, which keep
/// the reader list free of duplicates.
#[derive(Debug, PartialEq, Eq)]
pub struct Authz {
    owner: String,
    everyone_read: bool,
    readers: Vec<String>,
}

impl View for Authz {
    type V = AuthzView;

    closed spec fn view(&self) -> AuthzView {
        AuthzView {
            owner: self.owner@,
            everyone_read: self.everyone_read,
            readers: self.readers.deep_view(),
        }
    }
}

impl Authz {
    #[verifier::type_invariant]
    pub open spec fn wf(self) -> bool {
        self@.no_duplicate_readers()
    }

    /// A fresh list: the given owner, the given public-read flag, no readers.
    pub fn new(owner: &str, everyone_read: bool) -> (r: Self)
        ensures
            r@ == (AuthzView {
                owner: owner@,
                everyone_read,
                readers: Seq::<Seq<char>>::empty(),
            }),
    {
        let r = Self { owner: owner.to_owned(), everyone_read, readers: Vec::new() };
        proof {
            assert(r@.readers =~= Seq::<Seq<char>>::empty());
        }
        r
    }

    /// Whether `account` is this list's owner.
    pub fn is_owner(&self, account: &str) -> (r: bool)
        ensures
            r == (self@.owner == account@),
    {
        let a = account.to_owned();
        self.owner == a
    }

    /// Whether `account` may read under this list.
    pub fn is_readable(&self, account: &str) -> (r: bool)
        ensures
            r == self@.readable_by(Some(account@)),
    {
        let a = account.to_owned();
        if self.owner == a {
            return true;
        }
        if self.everyone_read {
            return true;
        }
        let n = self.readers.len();
        for i in 0..n
            invariant
                n == self.readers.len(),
                a@ == account@,
                forall|j: int| 0 <= j < i ==> self.readers.deep_view()[j] != a@,
        {
            if self.readers[i] == a {
                assert(self.readers.deep_view()[i as int] == a@);
                return true;
            }
        }
        assert(forall|j: int|
            0 <= j < self@.readers.len() ==> self@.readers[j] != account@);
        false
    }

    /// The owning principal.
    pub fn owner(&self) -> (r: &String)
        ensures
            r@ == self@.owner,
    {
        &self.owner
    }

    /// Whether anyone may read.
    pub fn everyone_read(&self) -> (r: bool)
        ensures
            r == self@.everyone_read,
    {
        self.everyone_read
    }

    /// The explicit reader allow-list.
    pub fn readers(&self) -> (r: &Vec<String>)
        ensures
            r.deep_view() == self@.readers,
    {
        &self.readers
    }

    /// An owned copy of this list.
    pub fn duplicate(&self) -> (r: Self)
        ensures
            r@ == self@,
    {
        proof {
            use_type_invariant(self);
        }
        let mut readers: Vec<String> = Vec::new();
        let n = self.readers.len();
        for i in 0..n
            invariant
                n == self.readers.len(),
                readers.len() == i,
                forall|j: int| 0 <= j < i ==> readers@[j]@ == self.readers@[j]@,
        {
            let s = self.readers[i].clone();
            readers.push(s);
        }
        proof {
            assert forall|j: int| 0 <= j < n implies readers.deep_view()[j]
                == self.readers.deep_view()[j] by {
                assert(readers@[j]@ == self.readers@[j]@);
            }
            assert(readers.deep_view() =~= self@.readers);
        }
        let r = Authz { owner: self.owner.clone(), everyone_read: self.everyone_read, readers };
        proof {
            assert(r@ =~= self@);
        }
        r
    }

    /// The same list with `s` as owner.
    pub fn update_owner(self, s: &str) -> (r: Self)
        ensures
            r@ == self@.with_owner(s@),
    {
        proof {
            use_type_invariant(&self);
        }
        let ghost orig = self@;
        let Authz { owner: _, everyone_read, readers } = self;
        proof {
            assert(readers.deep_view() == orig.readers);
        }
        Authz { owner: s.to_owned(), everyone_read, readers }
    }

    /// The same list with the public-read flag set to `b`.
    pub fn update_everyone(self, b: bool) -> (r: Self)
        ensures
            r@ == self@.with_everyone(b),
    {
        proof {
            use_type_invariant(&self);
        }
        let ghost orig = self@;
        let Authz { owner, everyone_read: _, readers } = self;
        proof {
            assert(readers.deep_view() == orig.readers);
        }
        Authz { owner, everyone_read: b, readers }
    }

    /// Grant (`b`) or revoke (`!b`) read access for `account`; repeating the
    /// same toggle is a no-op.
    pub fn update(self, account: &str, b: bool) -> (r: Self)
        ensures
            r@ == self@.toggled(account@, b),
    {
        proof {
            use_type_invariant(&self);
        }
        let ghost orig = self@;
        let Authz { owner, everyone_read, mut readers } = self;
        let a = account.to_owned();
        let n = readers.len();
        let mut found: Option<usize> = None;
        for i in 0..n
            invariant
                n == readers.len(),
                readers.deep_view() == orig.readers,
                a@ == account@,
                match found {
                    Some(k) => k < i && orig.readers[k as int] == a@,
                    None => forall|j: int| 0 <= j < i ==> orig.readers[j] != a@,
                },
        {
            if found.is_none() && readers[i] == a {
                assert(orig.readers[i as int] == a@);
                found = Some(i);
            }
        }
        match (found, b) {
            (Some(i), false) => {
                proof {
                    assert(orig.readers.contains(a@)) by {
                        assert(orig.readers[i as int] == a@);
                    }
                    let k = orig.readers.index_of(a@);
                    assert(0 <= k < orig.readers.len() && orig.readers[k] == a@);
                    assert(k == i as int);
                }
                readers.remove(i);
                proof {
                    assert(readers.deep_view() =~= orig.readers.remove(i as int));
                    assert(readers.deep_view() =~= orig.toggled(account@, false).readers);
                    assert forall|p: int, q: int|
                        0 <= p < q < readers.deep_view().len() implies readers.deep_view()[p]
                        != readers.deep_view()[q] by {
                        let s = orig.readers;
                        let pp: int = if p < i { p } else { p + 1 };
                        let qq: int = if q < i { q } else { q + 1 };
                        assert(readers.deep_view()[p] == s[pp]);
                        assert(readers.deep_view()[q] == s[qq]);
                    }
                }
                Authz { owner, everyone_read, readers }
            },
            (None, true) => {
                proof {
                    assert(!orig.readers.contains(a@));
                }
                readers.push(a);
                proof {
                    assert(readers.deep_view() =~= orig.readers.push(a@));
                    assert(readers.deep_view() =~= orig.toggled(account@, true).readers);
                    assert forall|p: int, q: int|
                        0 <= p < q < readers.deep_view().len() implies readers.deep_view()[p]
                        != readers.deep_view()[q] by {
                        let s = orig.readers.push(a@);
                        if q == orig.readers.len() {
                            assert(s[q] == a@);
                            assert(s[p] == orig.readers[p]);
                        }
                    }
                }
                Authz { owner, everyone_read, readers }
            },
            (Some(i), true) => {
                proof {
                    assert(orig.readers[i as int] == a@);
                    assert(orig.readers.contains(a@));
                    assert(readers.deep_view() =~= orig.toggled(account@, true).readers);
                }
                Authz { owner, everyone_read, readers }
            },
            (None, false) => {
                proof {
                    assert(!orig.readers.contains(a@));
                    assert(readers.deep_view() =~= orig.toggled(account@, false).readers);
                }
                Authz { owner, everyone_read, readers }
            },
        }
    }
}

/// The ACL read rule, stated once for every list and account: a named
/// account may read exactly when it is the owner, or the list is
/// public-read, or the account stands on the reader list; an anonymous
/// account may read exactly when the list is public-read.
pub proof fn lemma_readable_by(v: AuthzView, account: Option<Seq<char>>)
    ensures
        v.readable_by(account) == match account {
            Some(a) => a == v.owner || v.everyone_read || v.readers.contains(a),
            None => v.everyone_read,
        },
{
}

/// Toggling a reader twice in the same direction equals toggling it once,
/// for every list whose reader list holds no duplicates (every list this
/// module builds).
pub proof fn lemma_toggle_idempotent(v: AuthzView, account: Seq<char>, allow: bool)
    requires
        v.no_duplicate_readers(),
    ensures
        v.toggled(account, allow).toggled(account, allow) == v.toggled(account, allow),
{
    let once = v.toggled(account, allow);
    if allow {
        if !v.readers.contains(account) {
            assert(once.readers.contains(account)) by {
                assert(once.readers[v.readers.len() as int] == account);
            }
        } else {
            assert(once.readers.contains(account));
        }
        assert(once.toggled(account, true) == once);
    } else {
        if v.readers.contains(account) {
            let k = v.readers.index_of(account);
            assert(0 <= k < v.readers.len() && v.readers[k] == account);
            assert(!once.readers.contains(account)) by {
                assert forall|j: int| 0 <= j < once.readers.len() implies once.readers[j]
                    != account by {
                    if j < k {
                        assert(once.readers[j] == v.readers[j]);
                    } else {
                        assert(once.readers[j] == v.readers[j + 1]);
                    }
                }
            }
        }
        assert(once.toggled(account, false) == once);
    }
}

} // verus!
