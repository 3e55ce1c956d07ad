//! The credential store: username / password-hash records with first-match
//! lookup, overwrite-on-reinsert registration, and deletion.
//!
//! A store holds at most one record per name. Registering a name that is
//! already present replaces the old record (the replacement moves to the end
//! of the collection, which keeps serialization deterministic).

use vstd::bytes::{spec_u64_to_le_bytes, u64_from_le_bytes, u64_to_le_bytes};
use vstd::prelude::*;
use vstd::slice::slice_subrange;
use crate::hashing::{hash_password, scrypt_verifies, verify_password};
use crate::snapshot::{decode_records, decode_store, encode_records, encode_store, encode_str,
    lemma_encode_records_push, read_str, write_str, SNAPSHOT_VERSION};

verus! {

/// The mathematical image of one account record.
#[verifier::ext_equal]
pub ghost struct UserView {
    pub name: Seq<char>,
    pub hash: Seq<char>,
}

/// One account record: a username and the scrypt-encoded hash of its
/// password. The raw password is never stored.
pub struct User {
    /// The username, a case-sensitive key.
    pub name: String,
    /// The scrypt-encoded password hash.
    pub password: String,
}

impl View for User {
    type V = UserView;

    open spec fn view(&self) -> UserView {
        UserView { name: self.name@, hash: self.password@ }
    }
}

/// First-match lookup: the hash stored for `name`, if any.
pub open spec fn lookup(users: Seq<UserView>, name: Seq<char>) -> Option<Seq<char>>
    decreases users.len(),
{
    if users.len() == 0 {
        None
    } else if users[0].name == name {
        Some(users[0].hash)
    } else {
        lookup(users.drop_first(), name)
    }
}

/// Whether some record carries `name`.
pub open spec fn has_name(users: Seq<UserView>, name: Seq<char>) -> bool {
    lookup(users, name) is Some
}

/// All records whose name is not `name`, in their original order.
pub open spec fn remove_name(users: Seq<UserView>, name: Seq<char>) -> Seq<UserView>
    decreases users.len(),
{
    if users.len() == 0 {
        Seq::empty()
    } else if users[0].name == name {
        remove_name(users.drop_first(), name)
    } else {
        seq![users[0]] + remove_name(users.drop_first(), name)
    }
}

/// No two records share a name.
pub open spec fn unique_names(users: Seq<UserView>) -> bool
    decreases users.len(),
{
    if users.len() == 0 {
        true
    } else {
        !has_name(users.drop_first(), users[0].name) && unique_names(users.drop_first())
    }
}

/// What a password check returns: false for an unknown name, otherwise the
/// verdict of the one-way hash verification against the stored hash.
pub open spec fn check_spec(users: Seq<UserView>, name: Seq<char>, password: Seq<char>) -> bool {
    match lookup(users, name) {
        Some(h) => scrypt_verifies(password, h),
        None => false,
    }
}

/// What registering `name` with `password` does to a store: afterwards the
/// store holds, at the end, a record for `name` whose hash verifies exactly
/// the registered password; every other record is untouched.
pub open spec fn registered(
    pre: Seq<UserView>,
    post: Seq<UserView>,
    name: Seq<char>,
    password: Seq<char>,
) -> bool {
    &&& (lookup(post, name) matches Some(h)
        && post == remove_name(pre, name).push(UserView { name, hash: h })
        && (forall|p: Seq<char>| #[trigger] scrypt_verifies(p, h) <==> p == password))
    &&& (forall|n: Seq<char>| n != name ==> lookup(post, n) == lookup(pre, n))
}

/// An in-memory collection of account records, at most one per name.
pub struct UserStore {
    users: Vec<User>,
}

impl View for UserStore {
    type V = Seq<UserView>;

    closed spec fn view(&self) -> Seq<UserView> {
        self.users@.map_values(|u: User| u@)
    }
}

/// Registration failed because no random salt could be drawn from the
/// operating system.
#[derive(Debug, PartialEq, Eq)]
pub struct SaltError;

/// A snapshot exists but does not decode to a valid collection: the bytes
/// were tampered with or were written by another format. Treated as
/// unrecoverable; the caller must abort rather than proceed with an empty
/// store.
#[derive(Debug, PartialEq, Eq)]
pub struct StorageCorruption;

impl UserStore {
    /// The store's invariant: no two records share a name.
    pub open spec fn wf(&self) -> bool {
        unique_names(self@)
    }

    /// Creates an empty store.
    pub fn new() -> (r: UserStore)
        ensures
            r@ == Seq::<UserView>::empty(),
            r.wf(),
    {
        let r = UserStore { users: Vec::new() };
        proof {
            assert(r@ =~= Seq::<UserView>::empty());
        }
        r
    }

    /// The records, in storage order.
    pub fn users(&self) -> (r: &Vec<User>)
        ensures
            (r@.map_values(|u: User| u@) == self@),
    {
        &self.users
    }

    /// Checks whether a record for `name` exists and, if so, whether its
    /// stored hash verifies `password`.
    pub fn check_user(&self, name: &String, password: &String) -> (r: bool)
        ensures
            r == check_spec(self@, name@, password@),
    {
        let n = self.users.len();
        let mut i: usize = 0;
        proof {
            assert(self@.skip(0) =~= self@);
        }
        while i < n
            invariant
                i <= n,
                n == self.users.len(),
                lookup(self@, name@) == lookup(self@.skip(i as int), name@),
            decreases n - i,
        {
            proof {
                assert(self@.skip(i as int)[0] == self@[i as int]);
            }
            let u = &self.users[i];
            if u.name == *name {
                return verify_password(password, &u.password);
            }
            proof {
                assert(self@.skip(i as int).drop_first() =~= self@.skip(i + 1));
            }
            i = i + 1;
        }
        proof {
            assert(self@.skip(n as int) =~= Seq::<UserView>::empty());
        }
        false
    }

    /// Removes every record named `name`; doing so on an absent name is a
    /// no-op, not an error.
    pub fn delete_user(&mut self, name: &String)
        ensures
            final(self)@ == remove_name(old(self)@, name@),
            !has_name(final(self)@, name@),
            forall|n: Seq<char>| n != name@ ==> lookup(final(self)@, n) == lookup(old(self)@, n),
            old(self).wf() ==> final(self).wf(),
    {
        let ghost orig = self@;
        let mut kept: Vec<User> = Vec::new();
        let n = self.users.len();
        let mut i: usize = 0;
        proof {
            assert(orig.skip(0) =~= orig);
            assert(kept@.map_values(|u: User| u@) =~= Seq::<UserView>::empty());
        }
        while i < n
            invariant
                i <= n,
                n == self.users.len(),
                self@ == orig,
                remove_name(orig, name@) == kept@.map_values(|u: User| u@) + remove_name(
                    orig.skip(i as int),
                    name@,
                ),
            decreases n - i,
        {
            proof {
                assert(orig.skip(i as int)[0] == orig[i as int]);
                assert(orig.skip(i as int).drop_first() =~= orig.skip(i + 1));
            }
            let u = &self.users[i];
            if !(u.name == *name) {
                let ghost pre = kept@.map_values(|v: User| v@);
                kept.push(clone_user(u));
                proof {
                    assert(kept@.map_values(|v: User| v@) =~= pre.push(orig[i as int]));
                    assert(pre.push(orig[i as int]) =~= pre + seq![orig[i as int]]);
                    assert(pre + seq![orig[i as int]] + remove_name(orig.skip(i + 1), name@)
                        =~= pre + (seq![orig[i as int]] + remove_name(orig.skip(i + 1), name@)));
                }
            }
            i = i + 1;
        }
        proof {
            assert(orig.skip(n as int) =~= Seq::<UserView>::empty());
            assert(kept@.map_values(|u: User| u@) + Seq::<UserView>::empty() =~= kept@.map_values(
                |u: User| u@,
            ));
        }
        self.users = kept;
        proof {
            lemma_remove_name_removed(orig, name@);
            assert forall|m: Seq<char>| m != name@ implies lookup(final(self)@, m) == lookup(
                orig,
                m,
            ) by {
                lemma_remove_name_other(orig, name@, m);
            }
            if unique_names(orig) {
                lemma_remove_name_unique(orig, name@);
            }
        }
    }

    /// Records `hash` as the credential for `name`: any earlier record with
    /// that name is replaced, and the record stands at the end of the
    /// collection.
    pub fn store_hashed(&mut self, name: String, hash: String)
        requires
            old(self).wf(),
        ensures
            final(self).wf(),
            final(self)@ == remove_name(old(self)@, name@).push(
                UserView { name: name@, hash: hash@ },
            ),
            lookup(final(self)@, name@) == Some(hash@),
            forall|n: Seq<char>| n != name@ ==> lookup(final(self)@, n) == lookup(old(self)@, n),
    {
        let ghost orig = self@;
        self.delete_user(&name);
        let ghost removed = self@;
        let ghost u = UserView { name: name@, hash: hash@ };
        self.users.push(User { name, password: hash });
        proof {
            assert(final(self)@ =~= removed.push(u));
            lemma_lookup_push(removed, u, u.name);
            assert forall|n: Seq<char>| n != u.name implies lookup(final(self)@, n) == lookup(
                orig,
                n,
            ) by {
                lemma_lookup_push(removed, u, n);
            }
            lemma_unique_push(removed, u);
        }
    }

    /// Serializes the store to its binary snapshot encoding.
    pub fn save(&self) -> (r: Vec<u8>)
        ensures
            r@ == encode_store(self@),
    {
        let mut out: Vec<u8> = Vec::new();
        out.push(SNAPSHOT_VERSION);
        let mut cnt = u64_to_le_bytes(self.users.len() as u64);
        out.append(&mut cnt);
        let ghost base = out@;
        proof {
            assert(base =~= seq![SNAPSHOT_VERSION] + spec_u64_to_le_bytes(self@.len() as u64));
            assert(encode_records(self@.take(0)) =~= Seq::<u8>::empty());
            assert(base + Seq::<u8>::empty() =~= base);
        }
        let n = self.users.len();
        let mut i: usize = 0;
        while i < n
            invariant
                i <= n,
                n == self.users.len(),
                self@.len() == n,
                base == seq![SNAPSHOT_VERSION] + spec_u64_to_le_bytes(self@.len() as u64),
                out@ == base + encode_records(self@.take(i as int)),
            decreases n - i,
        {
            write_str(&mut out, &self.users[i].name);
            write_str(&mut out, &self.users[i].password);
            proof {
                let u = self@[i as int];
                assert(self@.take(i + 1) =~= self@.take(i as int).push(u));
                lemma_encode_records_push(self@.take(i as int), u);
                assert(base + encode_records(self@.take(i as int)) + encode_str(u.name)
                    + encode_str(u.hash) =~= base + encode_records(self@.take(i + 1)));
            }
            i = i + 1;
        }
        proof {
            assert(self@.take(n as int) =~= self@);
        }
        out
    }

    /// Deserializes a snapshot. Fails when the bytes are not exactly a
    /// snapshot of this format, or when the decoded collection repeats a
    /// name; succeeds on exactly the snapshots that decode to a valid
    /// collection.
    #[verifier::loop_isolation(false)]
    pub fn load(bytes: &Vec<u8>) -> (r: Result<UserStore, StorageCorruption>)
        ensures
            (match r {
                Ok(s) => s.wf() && decode_store(bytes@) == Some(s@),
                Err(e) => (match decode_store(bytes@) {
                    Some(rs) => !unique_names(rs),
                    None => true,
                }),
            }),
    {
        if bytes.len() < 9 {
            return Err(StorageCorruption);
        }
        if bytes[0] != SNAPSHOT_VERSION {
            return Err(StorageCorruption);
        }
        let kslice = slice_subrange(bytes.as_slice(), 1, 9);
        let k = u64_from_le_bytes(kslice);
        let ghost suffix = bytes@.skip(9);
        let mut users: Vec<User> = Vec::new();
        let mut cur: usize = 9;
        let mut j: u64 = 0;
        proof {
            assert(users@.map_values(|u: User| u@) + Seq::<UserView>::empty() =~= users@.map_values(
                |u: User| u@,
            ));
        }
        while j < k
            invariant
                9 <= cur <= bytes@.len(),
                j <= k,
                suffix == bytes@.skip(9),
                (match decode_records(bytes@.skip(cur as int), (k - j) as nat) {
                    Some(p) => decode_records(suffix, k as nat) == Some(
                        (users@.map_values(|u: User| u@) + p.0, p.1),
                    ),
                    None => decode_records(suffix, k as nat) is None,
                }),
            decreases k - j,
        {
            let name_read = read_str(bytes, cur);
            match name_read {
                None => {
                    return Err(StorageCorruption);
                },
                Some((name, p1)) => {
                    let pass_read = read_str(bytes, p1);
                    match pass_read {
                        None => {
                            return Err(StorageCorruption);
                        },
                        Some((password, p2)) => {
                            let ghost pre = users@.map_values(|u: User| u@);
                            let ghost uv = UserView { name: name@, hash: password@ };
                            proof {
                                match decode_records(bytes@.skip(p2 as int), (k - j - 1) as nat) {
                                    Some(p) => {
                                        assert(pre + (seq![uv] + p.0) =~= pre.push(uv) + p.0);
                                    },
                                    None => {},
                                }
                            }
                            users.push(User { name, password });
                            proof {
                                assert(users@.map_values(|u: User| u@) =~= pre.push(uv));
                            }
                            cur = p2;
                            j = j + 1;
                        },
                    }
                },
            }
        }
        if cur != bytes.len() {
            proof {
                assert(bytes@.skip(cur as int).len() > 0);
            }
            return Err(StorageCorruption);
        }
        proof {
            assert(users@.map_values(|u: User| u@) + Seq::<UserView>::empty() =~= users@.map_values(
                |u: User| u@,
            ));
            assert(bytes@.skip(cur as int).len() == 0);
        }
        if !unique_check(&users) {
            return Err(StorageCorruption);
        }
        Ok(UserStore { users })
    }

    /// Registers `name` with a fresh salted hash of `raw_password`,
    /// replacing any earlier record with that name. Fails, with the store
    /// unchanged, only when no random salt could be drawn.
    pub fn new_user(&mut self, name: &String, raw_password: &String) -> (r: Result<(), SaltError>)
        requires
            old(self).wf(),
        ensures
            final(self).wf(),
            r is Ok ==> registered(old(self)@, final(self)@, name@, raw_password@),
            r is Err ==> final(self)@ == old(self)@,
    {
        match hash_password(raw_password) {
            Some(h) => {
                self.store_hashed(name.clone(), h);
                Ok(())
            },
            None => Err(SaltError),
        }
    }
}

impl Default for UserStore {
    /// An empty store.
    fn default() -> (r: UserStore)
        ensures
            r@ == Seq::<UserView>::empty(),
            r.wf(),
    {
        UserStore::new()
    }
}

/// A copy of a record, equal to it in the model.
fn clone_user(u: &User) -> (r: User)
    ensures
        r@ == u@,
{
    User { name: u.name.clone(), password: u.password.clone() }
}

/// Whether any record from position `from` on carries `name`.
fn contains_from(users: &Vec<User>, from: usize, name: &String) -> (b: bool)
    requires
        from <= users@.len(),
    ensures
        b == has_name(users@.map_values(|u: User| u@).skip(from as int), name@),
{
    let ghost v = users@.map_values(|u: User| u@);
    let n = users.len();
    let mut i = from;
    proof {
        assert(v.skip(from as int).skip(0) =~= v.skip(from as int));
    }
    while i < n
        invariant
            from <= i <= n,
            n == users.len(),
            v == users@.map_values(|u: User| u@),
            lookup(v.skip(from as int), name@) == lookup(v.skip(i as int), name@),
        decreases n - i,
    {
        proof {
            assert(v.skip(i as int)[0] == v[i as int]);
        }
        if users[i].name == *name {
            return true;
        }
        proof {
            assert(v.skip(i as int).drop_first() =~= v.skip(i + 1));
        }
        i = i + 1;
    }
    proof {
        assert(v.skip(n as int) =~= Seq::<UserView>::empty());
    }
    false
}

/// Whether no two records share a name.
fn unique_check(users: &Vec<User>) -> (b: bool)
    ensures
        b == unique_names(users@.map_values(|u: User| u@)),
{
    let ghost v = users@.map_values(|u: User| u@);
    let n = users.len();
    let mut i = n;
    proof {
        assert(v.skip(n as int) =~= Seq::<UserView>::empty());
    }
    while i > 0
        invariant
            i <= n,
            n == users.len(),
            v == users@.map_values(|u: User| u@),
            unique_names(v.skip(i as int)),
        decreases i,
    {
        i = i - 1;
        proof {
            assert(v.skip(i as int)[0] == v[i as int]);
            assert(v.skip(i as int).drop_first() =~= v.skip(i + 1));
        }
        if contains_from(users, i + 1, &users[i].name) {
            proof {
                assert(!unique_names(v.skip(i as int)));
                if unique_names(v) {
                    lemma_unique_skip(v, i as int);
                }
            }
            return false;
        }
    }
    proof {
        assert(v.skip(0) =~= v);
    }
    true
}

/// A suffix of a collection with unique names has unique names.
pub proof fn lemma_unique_skip(users: Seq<UserView>, i: int)
    requires
        0 <= i <= users.len(),
        unique_names(users),
    ensures
        unique_names(users.skip(i)),
    decreases i,
{
    if i > 0 {
        lemma_unique_skip(users, i - 1);
        if users.skip(i - 1).len() == 0 {
            assert(users.skip(i) =~= Seq::<UserView>::empty());
        } else {
            assert(users.skip(i - 1).drop_first() =~= users.skip(i));
        }
    } else {
        assert(users.skip(0) =~= users);
    }
}

/// Law: after registering a name with a password, checking that name with
/// the same password succeeds.
pub proof fn lemma_registered_password_checks(
    pre: Seq<UserView>,
    post: Seq<UserView>,
    name: Seq<char>,
    password: Seq<char>,
)
    requires
        registered(pre, post, name, password),
    ensures
        check_spec(post, name, password),
{
}

/// Law: after registering a name with a password, checking that name with
/// any other password fails.
pub proof fn lemma_registered_rejects_other(
    pre: Seq<UserView>,
    post: Seq<UserView>,
    name: Seq<char>,
    password: Seq<char>,
    other: Seq<char>,
)
    requires
        registered(pre, post, name, password),
        other != password,
    ensures
        !check_spec(post, name, other),
{
}

/// Law: a name that no record carries is rejected, whatever the password.
pub proof fn lemma_unknown_user_rejected(
    users: Seq<UserView>,
    name: Seq<char>,
    password: Seq<char>,
)
    requires
        !has_name(users, name),
    ensures
        !check_spec(users, name, password),
{
}

/// Law: after a deletion, the deleted name is rejected whatever the
/// password, even the one it was registered with.
pub proof fn lemma_deleted_user_rejected(
    users: Seq<UserView>,
    name: Seq<char>,
    password: Seq<char>,
)
    ensures
        !check_spec(remove_name(users, name), name, password),
{
    lemma_remove_name_removed(users, name);
}

/// After removal, a name no longer resolves.
pub proof fn lemma_remove_name_removed(users: Seq<UserView>, name: Seq<char>)
    ensures
        lookup(remove_name(users, name), name) is None,
    decreases users.len(),
{
    if users.len() > 0 {
        lemma_remove_name_removed(users.drop_first(), name);
        if users[0].name != name {
            let tail = remove_name(users.drop_first(), name);
            assert((seq![users[0]] + tail).drop_first() =~= tail);
        }
    }
}

/// Removal of one name leaves every other name's lookup unchanged.
pub proof fn lemma_remove_name_other(users: Seq<UserView>, name: Seq<char>, other: Seq<char>)
    requires
        other != name,
    ensures
        lookup(remove_name(users, name), other) == lookup(users, other),
    decreases users.len(),
{
    if users.len() > 0 {
        lemma_remove_name_other(users.drop_first(), name, other);
        if users[0].name != name {
            let tail = remove_name(users.drop_first(), name);
            assert((seq![users[0]] + tail).drop_first() =~= tail);
        }
    }
}

/// Removal preserves the uniqueness of names.
pub proof fn lemma_remove_name_unique(users: Seq<UserView>, name: Seq<char>)
    requires
        unique_names(users),
    ensures
        unique_names(remove_name(users, name)),
    decreases users.len(),
{
    if users.len() > 0 {
        lemma_remove_name_unique(users.drop_first(), name);
        if users[0].name != name {
            let tail = remove_name(users.drop_first(), name);
            assert((seq![users[0]] + tail).drop_first() =~= tail);
            lemma_remove_name_other(users.drop_first(), name, users[0].name);
        }
    }
}

/// What appending one record does to every lookup.
pub proof fn lemma_lookup_push(users: Seq<UserView>, u: UserView, name: Seq<char>)
    ensures
        lookup(users.push(u), name) == (if has_name(users, name) {
            lookup(users, name)
        } else if u.name == name {
            Some(u.hash)
        } else {
            None
        }),
    decreases users.len(),
{
    if users.len() == 0 {
        assert(users.push(u)[0] == u);
        assert(users.push(u).drop_first() =~= Seq::<UserView>::empty());
    } else {
        assert(users.push(u)[0] == users[0]);
        assert(users.push(u).drop_first() =~= users.drop_first().push(u));
        lemma_lookup_push(users.drop_first(), u, name);
    }
}

/// Appending a record with a fresh name preserves the uniqueness of names.
pub proof fn lemma_unique_push(users: Seq<UserView>, u: UserView)
    requires
        unique_names(users),
        !has_name(users, u.name),
    ensures
        unique_names(users.push(u)),
    decreases users.len(),
{
    if users.len() == 0 {
        assert(users.push(u)[0] == u);
        assert(users.push(u).drop_first() =~= Seq::<UserView>::empty());
        assert(!has_name(users.push(u).drop_first(), u.name));
        assert(unique_names(users.push(u).drop_first()));
        assert(unique_names(users.push(u)));
    } else {
        assert(users.push(u)[0] == users[0]);
        assert(users.push(u).drop_first() =~= users.drop_first().push(u));
        assert(users[0].name != u.name);
        assert(!has_name(users.drop_first(), u.name));
        lemma_unique_push(users.drop_first(), u);
        lemma_lookup_push(users.drop_first(), u, users[0].name);
        assert(!has_name(users.drop_first().push(u), users[0].name));
        assert(unique_names(users.drop_first().push(u)));
    }
}

} // verus!
