//! The credential store: user, password and alias relations with typed
//! CRUD operations and classified password verification. The store keeps
//! its relations in memory; a handle only offers query operations once the
//! one-way `Created` to `MigrationsDone` transition has been made.

use vstd::prelude::*;

use crate::crypto::{hash_checks_cleanly, is_secret_char, password_check, sample_alphanumeric,
    hash_secret, verify_candidate};
use crate::text::{str_eq, LexKeyed, sorted_by_key, sort_by_key};

verus! {

/// Marker for a handle whose schema migrations have completed; only such a
/// handle offers query operations.
pub struct MigrationsDone {}

/// Marker for a freshly constructed handle, before migrations.
pub struct Created {}

/// The lifecycle states a store handle can be in.
pub trait InitState {

}

impl InitState for MigrationsDone {

}

impl InitState for Created {

}

/// A user identity. `non_human` marks service accounts, which are barred
/// from self-service dashboard access by policy.
#[derive(Debug)]
pub struct User {
    pub id: u128,
    pub username: String,
    pub login_allowed: bool,
    pub created_at: i64,
    pub expires_at: Option<i64>,
    pub non_human: bool,
}

impl Clone for User {
    fn clone(&self) -> (r: Self)
        ensures
            r == *self,
    {
        User {
            id: self.id,
            username: self.username.clone(),
            login_allowed: self.login_allowed,
            created_at: self.created_at,
            expires_at: self.expires_at,
            non_human: self.non_human,
        }
    }
}

impl User {
    /// Whether this user may use the self-service dashboard. Service
    /// accounts (`non_human`) are excluded by policy; the exclusion is a
    /// hard invariant of the record, not a permission an administrator
    /// could grant around.
    pub fn may_use_dashboard(&self) -> (r: bool)
        ensures
            r == !self.non_human,
    {
        !self.non_human
    }
}

impl LexKeyed for User {
    open spec fn key(&self) -> Seq<char> {
        self.username@
    }

    fn key_str(&self) -> (r: &str) {
        self.username.as_str()
    }
}

/// A stored password: a one-way hash in a self-describing format, labelled
/// per user. The plaintext secret is never stored.
#[derive(Debug)]
pub struct Password {
    pub userid: u128,
    pub label: String,
    pub hash: String,
    pub created_at: i64,
    pub expires_at: Option<i64>,
}

impl Clone for Password {
    fn clone(&self) -> (r: Self)
        ensures
            r == *self,
    {
        Password {
            userid: self.userid,
            label: self.label.clone(),
            hash: self.hash.clone(),
            created_at: self.created_at,
            expires_at: self.expires_at,
        }
    }
}

impl LexKeyed for Password {
    open spec fn key(&self) -> Seq<char> {
        self.label@
    }

    fn key_str(&self) -> (r: &str) {
        self.label.as_str()
    }
}

/// An alias: a name mapped to one destination user. One name may map to
/// several users and one user may be the destination of several names.
#[derive(Debug)]
pub struct Alias {
    pub alias_name: String,
    pub destination: u128,
}

impl Clone for Alias {
    fn clone(&self) -> (r: Self)
        ensures
            r == *self,
    {
        Alias { alias_name: self.alias_name.clone(), destination: self.destination }
    }
}

/// The four classified outcomes of a password verification. Callers map
/// these to distinct externally observable outcomes; no further states
/// exist.
#[derive(Clone, Copy, Debug, PartialEq, Eq)]
pub enum AuthenticationResult {
    Success,
    NoSuchUser,
    LoginDisabled,
    IncorrectPassword,
}

impl AuthenticationResult {
    /// The transport status each classified outcome maps to on the
    /// service-to-service authentication check: a correct password is OK,
    /// an unknown user is a bad request, a disabled login is forbidden,
    /// and a wrong password is unauthorized.
    pub fn status_code(&self) -> (r: u16)
        ensures
            r == (match self {
                AuthenticationResult::Success => 200u16,
                AuthenticationResult::NoSuchUser => 400u16,
                AuthenticationResult::LoginDisabled => 403u16,
                AuthenticationResult::IncorrectPassword => 401u16,
            }),
    {
        match self {
            AuthenticationResult::Success => 200,
            AuthenticationResult::NoSuchUser => 400,
            AuthenticationResult::LoginDisabled => 403,
            AuthenticationResult::IncorrectPassword => 401,
        }
    }
}

/// The transport status of the user-lookup endpoint: a name that resolves
/// returns the record, an absent one is not found. (The storage-failure
/// status cannot arise: the in-memory store has no failing reads.)
pub fn user_lookup_status(found: &Option<User>) -> (r: u16)
    ensures
        r == (if found is Some {
            200u16
        } else {
            404u16
        }),
{
    match found {
        Some(_) => 200,
        None => 404,
    }
}

/// Why a store operation was refused.
#[derive(Clone, Copy, Debug, PartialEq, Eq)]
pub enum StoreError {
    /// A username must be at least three characters long.
    UsernameTooShort,
    /// The username is already taken by another user.
    UsernameTaken,
    /// The operation names a user id that no user record carries.
    NoSuchUser,
    /// The user already has a password under this label.
    DuplicateLabel,
    /// A stored hash could not be used: it does not parse, or its
    /// embedded parameters are unusable. (A parseable record that merely
    /// lacks its salt or digest field is reported by the primitive as a
    /// mismatch, not as corruption.)
    CorruptStoredHash,
}

/// The credential store handle. `S` encodes whether migrations have run;
/// every query operation is defined only on `Service<MigrationsDone>`, so
/// calling one on a fresh handle is a compile-time error.
pub struct Service<S: InitState> {
    users: Vec<User>,
    passwords: Vec<Password>,
    aliases: Vec<Alias>,
    clock: i64,
    state: core::marker::PhantomData<S>,
}

impl<S: InitState> Service<S> {
    /// The user relation, in creation order.
    pub closed spec fn users(&self) -> Seq<User> {
        self.users@
    }

    /// The password relation, in creation order.
    pub closed spec fn passwords(&self) -> Seq<Password> {
        self.passwords@
    }

    /// The alias relation, in insertion order.
    pub closed spec fn aliases(&self) -> Seq<Alias> {
        self.aliases@
    }

    /// The timestamp stamped onto newly created records.
    pub closed spec fn clock(&self) -> i64 {
        self.clock
    }

    /// The store's invariant: user ids are assigned in creation order,
    /// usernames are unique and at least three characters long, passwords
    /// and aliases reference existing users, a user's password labels are
    /// unique, every stored hash checks cleanly (the store only ever
    /// records what the hashing primitive produced), and no alias pair is
    /// recorded twice.
    pub open spec fn wf(&self) -> bool {
        &&& forall|i: int|
            0 <= i < self.users().len() ==> (#[trigger] self.users()[i]).id == i as u128
        &&& forall|i: int|
            0 <= i < self.users().len() ==> (#[trigger] self.users()[i]).username@.len() >= 3
        &&& forall|i: int, j: int|
            0 <= i < j < self.users().len() ==> (#[trigger] self.users()[i]).username@ != (
            #[trigger] self.users()[j]).username@
        &&& forall|i: int|
            0 <= i < self.passwords().len() ==> (#[trigger] self.passwords()[i]).userid < (
            self.users().len() as u128)
        &&& forall|i: int, j: int|
            0 <= i < j < self.passwords().len() ==> !((#[trigger] self.passwords()[i]).userid == (
            #[trigger] self.passwords()[j]).userid && self.passwords()[i].label@
                == self.passwords()[j].label@)
        &&& forall|i: int|
            0 <= i < self.passwords().len() ==> hash_checks_cleanly(
                (#[trigger] self.passwords()[i]).hash@,
            )
        &&& forall|i: int|
            0 <= i < self.aliases().len() ==> (#[trigger] self.aliases()[i]).destination < (
            self.users().len() as u128)
        &&& forall|i: int, j: int|
            0 <= i < j < self.aliases().len() ==> !((#[trigger] self.aliases()[i]).alias_name@ == (
            #[trigger] self.aliases()[j]).alias_name@ && self.aliases()[i].destination
                == self.aliases()[j].destination)
    }
}

/// The user record, if any, that a username resolves to: the first record
/// carrying the name (under `wf` there is at most one).
pub open spec fn user_for_name(users: Seq<User>, name: Seq<char>) -> Option<User>
    decreases users.len(),
{
    if users.len() == 0 {
        None
    } else if users[0].username@ == name {
        Some(users[0])
    } else {
        user_for_name(users.drop_first(), name)
    }
}

/// Whether some user record carries the name.
pub open spec fn has_user_named(users: Seq<User>, name: Seq<char>) -> bool {
    user_for_name(users, name) is Some
}

/// The user record, if any, that an id resolves to: the first record
/// carrying the id (under `wf` there is at most one).
pub open spec fn user_for_id(users: Seq<User>, id: u128) -> Option<User>
    decreases users.len(),
{
    if users.len() == 0 {
        None
    } else if users[0].id == id {
        Some(users[0])
    } else {
        user_for_id(users.drop_first(), id)
    }
}

/// What `user_for_name` returns is a record of the sequence carrying the
/// name; `None` means no record carries it.
pub proof fn lemma_user_for_name_props(users: Seq<User>, name: Seq<char>)
    ensures
        user_for_name(users, name) matches Some(u) ==> exists|k: int|
            0 <= k < users.len() && users[k] == u && (#[trigger] users[k]).username@ == name,
        user_for_name(users, name) is None ==> forall|k: int|
            0 <= k < users.len() ==> (#[trigger] users[k]).username@ != name,
    decreases users.len(),
{
    if users.len() > 0 && users[0].username@ != name {
        lemma_user_for_name_props(users.drop_first(), name);
        if user_for_name(users, name) is Some {
            let u = user_for_name(users, name)->0;
            let k = choose|k: int|
                0 <= k < users.drop_first().len() && users.drop_first()[k] == u && (
                #[trigger] users.drop_first()[k]).username@ == name;
            assert(users[k + 1] == u && users[k + 1].username@ == name);
        } else {
            assert forall|k: int| 0 <= k < users.len() implies (#[trigger] users[k]).username@
                != name by {
                if k > 0 {
                    assert(users.drop_first()[k - 1] == users[k]);
                }
            }
        }
    }
}

/// The analogue of `lemma_user_for_name_props` for lookup by id.
pub proof fn lemma_user_for_id_props(users: Seq<User>, id: u128)
    ensures
        user_for_id(users, id) matches Some(u) ==> u.id == id && exists|k: int|
            0 <= k < users.len() && #[trigger] users[k] == u,
        user_for_id(users, id) is None ==> forall|k: int|
            0 <= k < users.len() ==> (#[trigger] users[k]).id != id,
    decreases users.len(),
{
    if users.len() > 0 && users[0].id != id {
        lemma_user_for_id_props(users.drop_first(), id);
        if user_for_id(users, id) is Some {
            let u = user_for_id(users, id)->0;
            let k = choose|k: int|
                0 <= k < users.drop_first().len() && #[trigger] users.drop_first()[k] == u;
            assert(users[k + 1] == u);
        } else {
            assert forall|k: int| 0 <= k < users.len() implies (#[trigger] users[k]).id != id by {
                if k > 0 {
                    assert(users.drop_first()[k - 1] == users[k]);
                }
            }
        }
    }
}

/// `after` is `before` with exactly the login flag of user `id` flipped;
/// every other field and every other record is untouched.
pub open spec fn toggled_users(before: Seq<User>, after: Seq<User>, id: u128) -> bool {
    &&& after.len() == before.len()
    &&& forall|i: int|
        0 <= i < before.len() && (#[trigger] before[i]).id != id ==> after[i] == before[i]
    &&& forall|i: int|
        0 <= i < before.len() && (#[trigger] before[i]).id == id ==> after[i] == (User {
            login_allowed: !before[i].login_allowed,
            ..before[i]
        })
}

/// The passwords a user holds, in creation order.
pub open spec fn passwords_of(passwords: Seq<Password>, id: u128) -> Seq<Password> {
    passwords.filter(|p: Password| p.userid == id)
}

/// Whether the user already holds a password under the label.
pub open spec fn has_label(passwords: Seq<Password>, id: u128, label: Seq<char>) -> bool {
    exists|k: int|
        0 <= k < passwords.len() && (#[trigger] passwords[k]).userid == id && passwords[k].label@
            == label
}

/// The hash strings a user's stored passwords carry, in creation order.
pub open spec fn hashes_of(passwords: Seq<Password>, id: u128) -> Seq<Seq<char>> {
    passwords_of(passwords, id).map_values(|p: Password| p.hash@)
}

/// The outcome of scanning stored hashes against a candidate, in order,
/// first match winning: a hash the primitive cannot use stops the scan as
/// an internal error, a match succeeds at once, and an exhausted scan
/// means the candidate matched nothing.
pub open spec fn scan_outcome(candidate: Seq<char>, hashes: Seq<Seq<char>>) -> Result<
    AuthenticationResult,
    StoreError,
>
    decreases hashes.len(),
{
    if hashes.len() == 0 {
        Ok(AuthenticationResult::IncorrectPassword)
    } else {
        match password_check(candidate, hashes[0]) {
            None => Err(StoreError::CorruptStoredHash),
            Some(true) => Ok(AuthenticationResult::Success),
            Some(false) => scan_outcome(candidate, hashes.drop_first()),
        }
    }
}

/// The classified verdict of verifying `candidate` for `name` against one
/// consistent snapshot of the store: the login flag and the hash set are
/// read from the same pair of relations.
pub open spec fn verification_verdict(
    users: Seq<User>,
    passwords: Seq<Password>,
    name: Seq<char>,
    candidate: Seq<char>,
) -> Result<AuthenticationResult, StoreError> {
    match user_for_name(users, name) {
        None => Ok(AuthenticationResult::NoSuchUser),
        Some(u) => if !u.login_allowed {
            Ok(AuthenticationResult::LoginDisabled)
        } else {
            scan_outcome(candidate, hashes_of(passwords, u.id))
        },
    }
}

/// A scan skips past hashes the candidate definitely does not match.
pub proof fn lemma_scan_skip(candidate: Seq<char>, hashes: Seq<Seq<char>>, i: int)
    requires
        0 <= i <= hashes.len(),
        forall|k: int|
            0 <= k < i ==> password_check(candidate, #[trigger] hashes[k]) == Some(false),
    ensures
        scan_outcome(candidate, hashes) == scan_outcome(candidate, hashes.skip(i)),
    decreases i,
{
    if i == 0 {
        assert(hashes.skip(0) =~= hashes);
    } else {
        assert(password_check(candidate, hashes[0]) == Some(false));
        assert forall|k: int| 0 <= k < i - 1 implies password_check(
            candidate,
            #[trigger] hashes.drop_first()[k],
        ) == Some(false) by {
            assert(hashes.drop_first()[k] == hashes[k + 1]);
        }
        lemma_scan_skip(candidate, hashes.drop_first(), i - 1);
        assert(hashes.drop_first().skip(i - 1) =~= hashes.skip(i));
    }
}

impl Service<Created> {
    /// A fresh, empty store handle. No query operation is available on it
    /// until `run_migrations` has been called.
    pub fn new() -> (r: Self)
        ensures
            r.users() =~= Seq::<User>::empty(),
            r.passwords() =~= Seq::<Password>::empty(),
            r.aliases() =~= Seq::<Alias>::empty(),
            r.clock() == 0,
            r.wf(),
    {
        Service {
            users: Vec::new(),
            passwords: Vec::new(),
            aliases: Vec::new(),
            clock: 0,
            state: core::marker::PhantomData,
        }
    }

    /// Applies the schema migrations and hands back the unlocked handle.
    /// The transition is one-way: the `Created` handle is consumed. For
    /// this in-memory store the schema is the relations themselves, so the
    /// step cannot fail.
    pub fn run_migrations(self) -> (r: Service<MigrationsDone>)
        ensures
            r.users() == self.users(),
            r.passwords() == self.passwords(),
            r.aliases() == self.aliases(),
            r.clock() == self.clock(),
    {
        Service {
            users: self.users,
            passwords: self.passwords,
            aliases: self.aliases,
            clock: self.clock,
            state: core::marker::PhantomData,
        }
    }
}

impl Service<MigrationsDone> {
    /// Moves the clock that stamps `created_at` onto new records. The
    /// caller supplies the current time; the store itself does no I/O.
    pub fn set_clock(&mut self, now: i64)
        ensures
            final(self).clock() == now,
            final(self).users() == old(self).users(),
            final(self).passwords() == old(self).passwords(),
            final(self).aliases() == old(self).aliases(),
    {
        self.clock = now;
    }

    /// Resolve a user by its username; absence is not an error.
    pub fn find_user_by_name(&self, username: &str) -> (r: Option<User>)
        ensures
            r == user_for_name(self.users(), username@),
    {
        let n = self.users.len();
        let mut i: usize = 0;
        proof {
            assert(self.users@.skip(0) =~= self.users@);
        }
        while i < n
            invariant
                n == self.users@.len(),
                i <= n,
                user_for_name(self.users@, username@) == user_for_name(
                    self.users@.skip(i as int),
                    username@,
                ),
            decreases n - i,
        {
            assert(self.users@.skip(i as int)[0] == self.users@[i as int]);
            if str_eq(self.users[i].username.as_str(), username) {
                return Some(self.users[i].clone());
            }
            proof {
                assert(self.users@.skip(i as int).drop_first() =~= self.users@.skip(i as int + 1));
            }
            i = i + 1;
        }
        None
    }

    /// Find a user by its never-changing id.
    pub fn get_user_by_id(&self, uuid: u128) -> (r: Option<User>)
        ensures
            r == user_for_id(self.users(), uuid),
    {
        let n = self.users.len();
        let mut i: usize = 0;
        proof {
            assert(self.users@.skip(0) =~= self.users@);
        }
        while i < n
            invariant
                n == self.users@.len(),
                i <= n,
                user_for_id(self.users@, uuid) == user_for_id(self.users@.skip(i as int), uuid),
            decreases n - i,
        {
            assert(self.users@.skip(i as int)[0] == self.users@[i as int]);
            if self.users[i].id == uuid {
                return Some(self.users[i].clone());
            }
            proof {
                assert(self.users@.skip(i as int).drop_first() =~= self.users@.skip(i as int + 1));
            }
            i = i + 1;
        }
        None
    }

    /// Create a new user. The username must be at least three characters
    /// long and not taken; the new record allows login, carries the
    /// store's clock as its creation time, and gets the next id.
    pub fn create_user(&mut self, username: &str, expires_at: Option<i64>, non_human: bool) -> (r:
        Result<u128, StoreError>)
        ensures
            r is Ok <==> username@.len() >= 3 && !has_user_named(old(self).users(), username@),
            r matches Err(e) ==> *final(self) == *old(self) && ((e == StoreError::UsernameTooShort)
                <==> username@.len() < 3) && ((e == StoreError::UsernameTaken) <==> (
            username@.len() >= 3 && has_user_named(old(self).users(), username@))),
            r matches Ok(id) ==> {
                &&& id == old(self).users().len() as u128
                &&& final(self).users() == old(self).users().push(final(self).users().last())
                &&& final(self).users().last().id == id
                &&& final(self).users().last().username@ == username@
                &&& final(self).users().last().login_allowed == true
                &&& final(self).users().last().created_at == old(self).clock()
                &&& final(self).users().last().expires_at == expires_at
                &&& final(self).users().last().non_human == non_human
                &&& final(self).passwords() == old(self).passwords()
                &&& final(self).aliases() == old(self).aliases()
                &&& final(self).clock() == old(self).clock()
            },
            old(self).wf() ==> final(self).wf(),
    {
        proof {
            lemma_user_for_name_props(self.users@, username@);
        }
        if username.unicode_len() < 3 {
            return Err(StoreError::UsernameTooShort);
        }
        if self.find_user_by_name(username).is_some() {
            return Err(StoreError::UsernameTaken);
        }
        let id = self.users.len() as u128;
        let user = User {
            id,
            username: username.to_owned(),
            login_allowed: true,
            created_at: self.clock,
            expires_at,
            non_human,
        };
        self.users.push(user);
        proof {
            if old(self).wf() {
                assert forall|a: int, b: int| 0 <= a < b < self.users@.len() implies (
                #[trigger] self.users@[a]).username@ != (#[trigger] self.users@[b]).username@ by {
                    if b == self.users@.len() - 1 {
                        assert(self.users@[b].username@ == username@);
                        assert(old(self).users@[a].username@ != username@);
                    }
                }
                assert((old(self).users@.len() as u128) < (self.users@.len() as u128));
                assert forall|k: int| 0 <= k < self.users@.len() implies (
                #[trigger] self.users@[k]).id == k as u128 by {
                    if k < self.users@.len() - 1 {
                        assert(self.users@[k] == old(self).users@[k]);
                    }
                }
                assert forall|k: int| 0 <= k < self.users@.len() implies (
                #[trigger] self.users@[k]).username@.len() >= 3 by {
                    if k < self.users@.len() - 1 {
                        assert(self.users@[k] == old(self).users@[k]);
                    }
                }
                assert forall|k: int| 0 <= k < self.passwords@.len() implies (
                #[trigger] self.passwords@[k]).userid < (self.users@.len() as u128) by {
                    assert(old(self).passwords()[k].userid < (old(self).users().len() as u128));
                }
                assert forall|k: int| 0 <= k < self.aliases@.len() implies (
                #[trigger] self.aliases@[k]).destination < (self.users@.len() as u128) by {
                    assert(old(self).aliases()[k].destination < (old(self).users().len() as u128));
                }
                assert(self.wf());
            }
        }
        Ok(id)
    }

    /// Flip whether a user may log in. A call naming an id that no record
    /// carries changes nothing and is not an error, mirroring an update
    /// that affected zero rows.
    pub fn toggle_user_login_allowed(&mut self, user: u128)
        ensures
            toggled_users(old(self).users(), final(self).users(), user),
            final(self).users().len() == old(self).users().len(),
            forall|i: int|
                0 <= i < old(self).users().len() && (#[trigger] old(self).users()[i]).id != user
                    ==> final(self).users()[i] == old(self).users()[i],
            forall|i: int|
                0 <= i < old(self).users().len() && (#[trigger] old(self).users()[i]).id == user
                    ==> final(self).users()[i] == (User {
                    login_allowed: !old(self).users()[i].login_allowed,
                    ..old(self).users()[i]
                }),
            final(self).passwords() == old(self).passwords(),
            final(self).aliases() == old(self).aliases(),
            final(self).clock() == old(self).clock(),
            old(self).wf() ==> final(self).wf(),
    {
        let n = self.users.len();
        let mut i: usize = 0;
        while i < n
            invariant
                n == self.users@.len(),
                i <= n,
                self.passwords@ == old(self).passwords@,
                self.aliases@ == old(self).aliases@,
                self.clock == old(self).clock,
                forall|k: int|
                    i <= k < n ==> #[trigger] self.users@[k] == old(self).users@[k],
                forall|k: int|
                    0 <= k < i && (#[trigger] old(self).users@[k]).id != user ==> self.users@[k]
                        == old(self).users@[k],
                forall|k: int|
                    0 <= k < i && (#[trigger] old(self).users@[k]).id == user ==> self.users@[k]
                        == (User {
                        login_allowed: !old(self).users@[k].login_allowed,
                        ..old(self).users@[k]
                    }),
            decreases n - i,
        {
            if self.users[i].id == user {
                let cur = self.users[i].login_allowed;
                self.users[i].login_allowed = !cur;
            }
            i = i + 1;
        }
        proof {
            if old(self).wf() {
                assert forall|k: int| 0 <= k < self.users().len() implies ((
                #[trigger] self.users()[k]).id == old(self).users()[k].id
                    && self.users()[k].username@ == old(self).users()[k].username@) by {
                    if old(self).users@[k].id == user {
                        assert(self.users@[k] == (User {
                            login_allowed: !old(self).users@[k].login_allowed,
                            ..old(self).users@[k]
                        }));
                    } else {
                        assert(self.users@[k] == old(self).users@[k]);
                    }
                }

                assert forall|k: int| 0 <= k < self.aliases().len() implies (
                #[trigger] self.aliases()[k]) == old(self).aliases()[k] by {
                    assert(self.aliases@ == old(self).aliases@);
                }
                assert forall|k: int| 0 <= k < self.passwords().len() implies (
                #[trigger] self.passwords()[k]) == old(self).passwords()[k] by {
                    assert(self.passwords@ == old(self).passwords@);
                }
                assert(self.wf());
            }
        }
    }

    /// Set or clear a user's expiry date. As with
    /// `toggle_user_login_allowed`, an unknown id changes nothing.
    pub fn set_user_expiry_date(&mut self, user: u128, expires_at: Option<i64>)
        ensures
            final(self).users().len() == old(self).users().len(),
            forall|i: int|
                0 <= i < old(self).users().len() && (#[trigger] old(self).users()[i]).id != user
                    ==> final(self).users()[i] == old(self).users()[i],
            forall|i: int|
                0 <= i < old(self).users().len() && (#[trigger] old(self).users()[i]).id == user
                    ==> final(self).users()[i] == (User {
                    expires_at,
                    ..old(self).users()[i]
                }),
            final(self).passwords() == old(self).passwords(),
            final(self).aliases() == old(self).aliases(),
            final(self).clock() == old(self).clock(),
            old(self).wf() ==> final(self).wf(),
    {
        let n = self.users.len();
        let mut i: usize = 0;
        while i < n
            invariant
                n == self.users@.len(),
                i <= n,
                self.passwords@ == old(self).passwords@,
                self.aliases@ == old(self).aliases@,
                self.clock == old(self).clock,
                forall|k: int|
                    i <= k < n ==> #[trigger] self.users@[k] == old(self).users@[k],
                forall|k: int|
                    0 <= k < i && (#[trigger] old(self).users@[k]).id != user ==> self.users@[k]
                        == old(self).users@[k],
                forall|k: int|
                    0 <= k < i && (#[trigger] old(self).users@[k]).id == user ==> self.users@[k]
                        == (User { expires_at, ..old(self).users@[k] }),
            decreases n - i,
        {
            if self.users[i].id == user {
                self.users[i].expires_at = expires_at;
            }
            i = i + 1;
        }
        proof {
            if old(self).wf() {
                assert forall|k: int| 0 <= k < self.users().len() implies ((
                #[trigger] self.users()[k]).id == old(self).users()[k].id
                    && self.users()[k].username@ == old(self).users()[k].username@) by {
                    if old(self).users@[k].id == user {
                        assert(self.users@[k] == (User {
                            expires_at,
                            ..old(self).users@[k]
                        }));
                    } else {
                        assert(self.users@[k] == old(self).users@[k]);
                    }
                }

                assert forall|k: int| 0 <= k < self.aliases().len() implies (
                #[trigger] self.aliases()[k]) == old(self).aliases()[k] by {
                    assert(self.aliases@ == old(self).aliases@);
                }
                assert forall|k: int| 0 <= k < self.passwords().len() implies (
                #[trigger] self.passwords()[k]) == old(self).passwords()[k] by {
                    assert(self.passwords@ == old(self).passwords@);
                }
                assert(self.wf());
            }
        }
    }
}

impl Service<MigrationsDone> {
    /// Generate a password for the user designated by `user` and save it
    /// under `label`. The plaintext secret is returned once and never
    /// stored; what is stored is a one-way hash that the secret verifies
    /// against. Succeeds whenever the user exists and the label is fresh;
    /// fails with a conflict when the user already holds a password under
    /// this label.
    pub fn new_password(&mut self, user: &User, label: &str, expires_at: Option<i64>) -> (r: Result<
        String,
        StoreError,
    >)
        ensures
            r is Ok <==> (user_for_id(old(self).users(), user.id) is Some && !has_label(
                old(self).passwords(),
                user.id,
                label@,
            )),
            user_for_id(old(self).users(), user.id) is None ==> r == Err::<String, StoreError>(
                StoreError::NoSuchUser,
            ) && *final(self) == *old(self),
            user_for_id(old(self).users(), user.id) is Some && has_label(
                old(self).passwords(),
                user.id,
                label@,
            ) ==> r == Err::<String, StoreError>(StoreError::DuplicateLabel) && *final(self) == *old(
                self,
            ),
            r matches Ok(secret) ==> {
                &&& user_for_id(old(self).users(), user.id) is Some
                &&& !has_label(old(self).passwords(), user.id, label@)
                &&& secret@.len() == 64
                &&& forall|i: int| 0 <= i < secret@.len() ==> is_secret_char(#[trigger] secret@[i])
                &&& final(self).passwords() == old(self).passwords().push(
                    final(self).passwords().last(),
                )
                &&& final(self).passwords().last().userid == user.id
                &&& final(self).passwords().last().label@ == label@
                &&& password_check(secret@, final(self).passwords().last().hash@) == Some(true)
                &&& final(self).passwords().last().created_at == old(self).clock()
                &&& final(self).passwords().last().expires_at == expires_at
                &&& final(self).users() == old(self).users()
                &&& final(self).aliases() == old(self).aliases()
                &&& final(self).clock() == old(self).clock()
            },
            old(self).wf() ==> final(self).wf(),
    {
        if self.get_user_by_id(user.id).is_none() {
            return Err(StoreError::NoSuchUser);
        }
        let user_count = self.users.len();
        let n = self.passwords.len();
        let mut i: usize = 0;
        while i < n
            invariant
                n == self.passwords@.len(),
                i <= n,
                *self == *old(self),
                user_for_id(old(self).users(), user.id) is Some,
                forall|k: int|
                    0 <= k < i ==> !((#[trigger] self.passwords@[k]).userid == user.id
                        && self.passwords@[k].label@ == label@),
            decreases n - i,
        {
            if self.passwords[i].userid == user.id && str_eq(
                self.passwords[i].label.as_str(),
                label,
            ) {
                return Err(StoreError::DuplicateLabel);
            }
            i = i + 1;
        }
        let secret = sample_alphanumeric(64);
        let hash = hash_secret(secret.as_str());
        let record = Password {
            userid: user.id,
            label: label.to_owned(),
            hash,
            created_at: self.clock,
            expires_at,
        };
        self.passwords.push(record);
        proof {
            if old(self).wf() {
                lemma_user_for_id_props(old(self).users(), user.id);
                let u = user_for_id(old(self).users(), user.id)->0;
                let k = choose|k: int|
                    0 <= k < old(self).users().len() && #[trigger] old(self).users()[k] == u;
                assert(old(self).users()[k].id == k as u128);
                assert(old(self).users().len() == user_count as int);
                assert(user.id < (old(self).users().len() as u128));
                assert forall|a: int| 0 <= a < self.passwords@.len() implies (
                #[trigger] self.passwords@[a]).userid < (self.users@.len() as u128) by {
                    if a < self.passwords@.len() - 1 {
                        assert(self.passwords@[a] == old(self).passwords()[a]);
                        assert(old(self).passwords()[a].userid < (old(self).users().len() as u128));
                    } else {
                        assert(self.passwords@[a].userid == user.id);
                    }
                    assert(self.users@ == old(self).users@);
                }
                assert forall|a: int| 0 <= a < self.passwords@.len() implies hash_checks_cleanly(
                    (#[trigger] self.passwords@[a]).hash@,
                ) by {
                    if a < self.passwords@.len() - 1 {
                        assert(self.passwords@[a] == old(self).passwords()[a]);
                        assert(hash_checks_cleanly(old(self).passwords()[a].hash@));
                    }
                }
                assert forall|a: int, b: int| 0 <= a < b < self.passwords@.len() implies !((
                #[trigger] self.passwords@[a]).userid == (#[trigger] self.passwords@[b]).userid
                    && self.passwords@[a].label@ == self.passwords@[b].label@) by {
                    if b < self.passwords@.len() - 1 {
                        assert(old(self).passwords()[a] == self.passwords@[a]);
                        assert(old(self).passwords()[b] == self.passwords@[b]);
                    } else {
                        assert(self.passwords@[a] == old(self).passwords()[a]);
                        assert(self.passwords@[b].userid == user.id && self.passwords@[b].label@
                            == label@);
                    }
                }
                assert forall|a: int| 0 <= a < self.users().len() implies ((
                #[trigger] self.users()[a]) == old(self).users()[a]) by {
                    assert(self.users@ == old(self).users@);
                }
                assert forall|a: int| 0 <= a < self.aliases().len() implies ((
                #[trigger] self.aliases()[a]) == old(self).aliases()[a]) by {
                    assert(self.aliases@ == old(self).aliases@);
                }
                assert(self.wf());
            }
        }
        Ok(secret)
    }

    /// Irreversibly remove the password stored under `label` for the given
    /// user. Removing a label the user does not hold changes nothing and
    /// is not an error.
    pub fn rm_password_for(&mut self, user: &User, label: &str)
        ensures
            final(self).passwords() == old(self).passwords().filter(
                |p: Password| !(p.userid == user.id && p.label@ == label@),
            ),
            final(self).users() == old(self).users(),
            final(self).aliases() == old(self).aliases(),
            final(self).clock() == old(self).clock(),
            old(self).wf() ==> final(self).wf(),
    {
        broadcast use vstd::seq_lib::group_filter_ensures;

        let ghost keep = |p: Password| !(p.userid == user.id && p.label@ == label@);
        let n = self.passwords.len();
        let mut kept: Vec<Password> = Vec::new();
        let mut i: usize = 0;
        proof {
            assert(self.passwords@.take(0) =~= Seq::<Password>::empty());
            assert(self.passwords@.take(0).filter(keep) =~= Seq::<Password>::empty());
        }
        while i < n
            invariant
                n == self.passwords@.len(),
                i <= n,
                *self == *old(self),
                kept@ == self.passwords@.take(i as int).filter(keep),
                keep == (|p: Password| !(p.userid == user.id && p.label@ == label@)),
            decreases n - i,
        {
            proof {
                assert(self.passwords@.take(i + 1) =~= self.passwords@.take(i as int).push(
                    self.passwords@[i as int],
                ));
                self.passwords@.take(i as int).lemma_filter_push(self.passwords@[i as int], keep);
            }
            let p = &self.passwords[i];
            if !(p.userid == user.id && str_eq(p.label.as_str(), label)) {
                kept.push(self.passwords[i].clone());
            }
            i = i + 1;
        }
        proof {
            assert(self.passwords@.take(n as int) =~= self.passwords@);
        }
        self.passwords = kept;
        proof {
            if old(self).wf() {
                lemma_filter_keeps_pair_free(
                    old(self).passwords(),
                    keep,
                    |a: Password, b: Password| a.userid == b.userid && a.label@ == b.label@,
                );
                lemma_filter_keeps_bound(
                    old(self).passwords(),
                    keep,
                    |p: Password| p.userid < (old(self).users().len() as u128),
                );
                lemma_filter_keeps_bound(
                    old(self).passwords(),
                    keep,
                    |p: Password| hash_checks_cleanly(p.hash@),
                );
                assert forall|a: int| 0 <= a < self.users().len() implies ((
                #[trigger] self.users()[a]) == old(self).users()[a]) by {
                    assert(self.users@ == old(self).users@);
                }
                assert forall|a: int| 0 <= a < self.aliases().len() implies ((
                #[trigger] self.aliases()[a]) == old(self).aliases()[a]) by {
                    assert(self.aliases@ == old(self).aliases@);
                }
                assert(self.wf());
            }
        }
    }
}

/// The passwords returned when listing by username: those of the resolved
/// user, in creation order; an unknown username yields none.
pub open spec fn passwords_for_name(
    users: Seq<User>,
    passwords: Seq<Password>,
    name: Seq<char>,
) -> Seq<Password> {
    match user_for_name(users, name) {
        None => Seq::empty(),
        Some(u) => passwords_of(passwords, u.id),
    }
}

impl Service<MigrationsDone> {
    /// Verify a password for a user identified by username. The verdict is
    /// computed from one snapshot of the relations: the login flag and the
    /// hash set cannot be observed torn. Stored hashes are scanned in
    /// creation order and the first match wins; a stored hash the
    /// primitive cannot use (it does not parse, or its parameters are
    /// unusable) surfaces as an internal error rather than as a mismatch.
    pub fn verify_password(&self, user: &str, password: &str) -> (r: Result<
        AuthenticationResult,
        StoreError,
    >)
        ensures
            r == verification_verdict(self.users(), self.passwords(), user@, password@),
    {
        let found = self.find_user_by_name(user);
        let u = match found {
            None => {
                return Ok(AuthenticationResult::NoSuchUser);
            },
            Some(u) => u,
        };
        if !u.login_allowed {
            return Ok(AuthenticationResult::LoginDisabled);
        }
        let n = self.passwords.len();
        let mut hs: Vec<String> = Vec::new();
        let mut i: usize = 0;
        proof {
            assert(self.passwords@.take(0) =~= Seq::<Password>::empty());
            assert(hashes_of(self.passwords@.take(0), u.id) =~~= Seq::<Seq<char>>::empty());
            assert(hs@.map_values(|s: String| s@) =~~= Seq::<Seq<char>>::empty());
        }
        while i < n
            invariant
                n == self.passwords@.len(),
                i <= n,
                hs@.map_values(|s: String| s@) == hashes_of(
                    self.passwords@.take(i as int),
                    u.id,
                ),
            decreases n - i,
        {
            proof {
                assert(self.passwords@.take(i + 1) =~= self.passwords@.take(i as int).push(
                    self.passwords@[i as int],
                ));
                self.passwords@.take(i as int).lemma_filter_push(
                    self.passwords@[i as int],
                    |p: Password| p.userid == u.id,
                );
            }
            if self.passwords[i].userid == u.id {
                hs.push(self.passwords[i].hash.clone());
            }
            proof {
                let pred = |p: Password| p.userid == u.id;
                let fi = self.passwords@.take(i as int).filter(pred);
                let fi1 = self.passwords@.take(i + 1).filter(pred);
                assert(passwords_of(self.passwords@.take(i + 1), u.id) == fi1);
                assert(passwords_of(self.passwords@.take(i as int), u.id) == fi);
                if self.passwords@[i as int].userid == u.id {
                    assert(fi1 == fi.push(self.passwords@[i as int]));
                    let lm = hs@.map_values(|s: String| s@);
                    let rm = fi1.map_values(|p: Password| p.hash@);
                    assert(rm.len() == fi1.len());
                    assert(fi1.len() == fi.len() + 1);
                    assert(hashes_of(self.passwords@.take(i as int), u.id).len() == fi.len());
                    assert(lm.len() == hs@.len());
                    assert(hs@.len() == fi.len() + 1);
                    assert(lm.len() == rm.len());
                    assert forall|k: int| 0 <= k < lm.len() implies #[trigger] lm[k] == rm[k] by {
                        if k < hs@.len() - 1 {
                            assert(hs@[k]@ == hashes_of(self.passwords@.take(i as int), u.id)[k]);
                            assert(fi1[k] == fi[k]);
                        } else {
                            assert(hs@[k]@ == self.passwords@[i as int].hash@);
                            assert(fi1[k] == self.passwords@[i as int]);
                        }
                    }
                    assert(hs@.map_values(|s: String| s@) =~~= fi1.map_values(
                        |p: Password| p.hash@,
                    ));
                } else {
                    assert(fi1 == fi);
                    assert(hs@.map_values(|s: String| s@) =~~= fi1.map_values(
                        |p: Password| p.hash@,
                    ));
                }
                assert(hs@.map_values(|s: String| s@) =~~= hashes_of(
                    self.passwords@.take(i + 1),
                    u.id,
                ));
            }
            i = i + 1;
        }
        proof {
            assert(self.passwords@.take(n as int) =~= self.passwords@);
        }
        let ghost hseq = hashes_of(self.passwords(), u.id);
        let m = hs.len();
        let mut j: usize = 0;
        while j < m
            invariant
                m == hs@.len(),
                j <= m,
                hs@.map_values(|s: String| s@) == hseq,
                hseq == hashes_of(self.passwords(), u.id),
                verification_verdict(self.users(), self.passwords(), user@, password@)
                    == scan_outcome(password@, hseq),
                forall|k: int|
                    0 <= k < j ==> password_check(password@, #[trigger] hseq[k]) == Some(false),
            decreases m - j,
        {
            proof {
                assert(hseq[j as int] == hs@[j as int]@);
            }
            match verify_candidate(password, hs[j].as_str()) {
                None => {
                    proof {
                        lemma_scan_skip(password@, hseq, j as int);
                        assert(hseq.skip(j as int)[0] == hseq[j as int]);
                    }
                    return Err(StoreError::CorruptStoredHash);
                },
                Some(true) => {
                    proof {
                        lemma_scan_skip(password@, hseq, j as int);
                        assert(hseq.skip(j as int)[0] == hseq[j as int]);
                    }
                    return Ok(AuthenticationResult::Success);
                },
                Some(false) => {
                    j = j + 1;
                },
            }
        }
        proof {
            lemma_scan_skip(password@, hseq, m as int);
            assert(hseq.skip(m as int).len() == 0);
        }
        Ok(AuthenticationResult::IncorrectPassword)
    }

    /// List the passwords the given user holds, ordered by label. Labels
    /// are unique per user on a well-formed store, so the order pins the
    /// listing down completely.
    pub fn list_passwords_for(&self, user: &User) -> (r: Vec<Password>)
        ensures
            r@.to_multiset() == passwords_of(self.passwords(), user.id).to_multiset(),
            r@.len() == passwords_of(self.passwords(), user.id).len(),
            sorted_by_key(r@),
    {
        let n = self.passwords.len();
        let mut out: Vec<Password> = Vec::new();
        let mut i: usize = 0;
        proof {
            assert(self.passwords@.take(0) =~= Seq::<Password>::empty());
            assert(self.passwords@.take(0).filter(|p: Password| p.userid == user.id) =~= Seq::<
                Password,
            >::empty());
        }
        while i < n
            invariant
                n == self.passwords@.len(),
                i <= n,
                out@ == passwords_of(self.passwords@.take(i as int), user.id),
            decreases n - i,
        {
            proof {
                assert(self.passwords@.take(i + 1) =~= self.passwords@.take(i as int).push(
                    self.passwords@[i as int],
                ));
                self.passwords@.take(i as int).lemma_filter_push(
                    self.passwords@[i as int],
                    |p: Password| p.userid == user.id,
                );
            }
            if self.passwords[i].userid == user.id {
                out.push(self.passwords[i].clone());
            }
            i = i + 1;
        }
        proof {
            assert(self.passwords@.take(n as int) =~= self.passwords@);
        }
        sort_by_key(&mut out);
        out
    }

    /// List the passwords of the user a username resolves to, ordered by
    /// label; an unknown username yields an empty listing.
    pub fn list_passwords_for_username(&self, user: &str) -> (r: Vec<Password>)
        ensures
            r@.to_multiset() == passwords_for_name(
                self.users(),
                self.passwords(),
                user@,
            ).to_multiset(),
            r@.len() == passwords_for_name(self.users(), self.passwords(), user@).len(),
            sorted_by_key(r@),
    {
        let u = match self.find_user_by_name(user) {
            None => {
                let out: Vec<Password> = Vec::new();
                proof {
                    assert(out@ =~= passwords_for_name(self.users(), self.passwords(), user@));
                }
                return out;
            },
            Some(u) => u,
        };
        let n = self.passwords.len();
        let mut out: Vec<Password> = Vec::new();
        let mut i: usize = 0;
        proof {
            assert(self.passwords@.take(0) =~= Seq::<Password>::empty());
            assert(self.passwords@.take(0).filter(|p: Password| p.userid == u.id) =~= Seq::<
                Password,
            >::empty());
        }
        while i < n
            invariant
                n == self.passwords@.len(),
                i <= n,
                out@ == passwords_of(self.passwords@.take(i as int), u.id),
            decreases n - i,
        {
            proof {
                assert(self.passwords@.take(i + 1) =~= self.passwords@.take(i as int).push(
                    self.passwords@[i as int],
                ));
                self.passwords@.take(i as int).lemma_filter_push(
                    self.passwords@[i as int],
                    |p: Password| p.userid == u.id,
                );
            }
            if self.passwords[i].userid == u.id {
                out.push(self.passwords[i].clone());
            }
            i = i + 1;
        }
        proof {
            assert(self.passwords@.take(n as int) =~= self.passwords@);
        }
        sort_by_key(&mut out);
        out
    }
}

/// The destinations an alias name maps to, in insertion order.
pub open spec fn alias_dests(aliases: Seq<Alias>, name: Seq<char>) -> Seq<u128>
    decreases aliases.len(),
{
    if aliases.len() == 0 {
        Seq::empty()
    } else {
        let rest = alias_dests(aliases.drop_last(), name);
        if aliases.last().alias_name@ == name {
            rest.push(aliases.last().destination)
        } else {
            rest
        }
    }
}

/// Whether any alias row carries the name.
pub open spec fn has_alias_named(aliases: Seq<Alias>, name: Seq<char>) -> bool {
    exists|k: int| 0 <= k < aliases.len() && (#[trigger] aliases[k]).alias_name@ == name
}

/// Whether the exact (name, destination) pair is recorded.
pub open spec fn has_alias_pair(aliases: Seq<Alias>, name: Seq<char>, dest: u128) -> bool {
    exists|k: int|
        0 <= k < aliases.len() && (#[trigger] aliases[k]).alias_name@ == name
            && aliases[k].destination == dest
}

/// Appending one alias row extends exactly its own name's destination
/// list, and no other name's.
pub proof fn lemma_alias_dests_push(aliases: Seq<Alias>, x: Alias, name: Seq<char>)
    ensures
        x.alias_name@ == name ==> alias_dests(aliases.push(x), name) == alias_dests(
            aliases,
            name,
        ).push(x.destination),
        x.alias_name@ != name ==> alias_dests(aliases.push(x), name) == alias_dests(aliases, name),
{
    assert(aliases.push(x).drop_last() =~= aliases);
    assert(aliases.push(x).last() == x);
}

/// A name carried by no row maps to no destinations.
pub proof fn lemma_alias_dests_none(aliases: Seq<Alias>, name: Seq<char>)
    requires
        forall|k: int| 0 <= k < aliases.len() ==> (#[trigger] aliases[k]).alias_name@ != name,
    ensures
        alias_dests(aliases, name).len() == 0,
    decreases aliases.len(),
{
    if aliases.len() > 0 {
        assert(aliases.last().alias_name@ != name);
        lemma_alias_dests_none(aliases.drop_last(), name);
    }
}

impl Service<MigrationsDone> {
    /// List all users, ordered by username. Usernames are unique on a
    /// well-formed store, so the order pins the listing down completely.
    pub fn list_users(&self) -> (r: Vec<User>)
        ensures
            r@.to_multiset() == self.users().to_multiset(),
            r@.len() == self.users().len(),
            sorted_by_key(r@),
    {
        let n = self.users.len();
        let mut out: Vec<User> = Vec::new();
        let mut i: usize = 0;
        proof {
            assert(self.users@.take(0) =~= Seq::<User>::empty());
        }
        while i < n
            invariant
                n == self.users@.len(),
                i <= n,
                out@ == self.users@.take(i as int),
            decreases n - i,
        {
            out.push(self.users[i].clone());
            proof {
                assert(out@ =~= self.users@.take(i + 1));
            }
            i = i + 1;
        }
        proof {
            assert(self.users@.take(n as int) =~= self.users@);
        }
        sort_by_key(&mut out);
        out
    }

    /// Record that an alias name also resolves to the given destination
    /// user, which must exist. Recording a pair that is already present
    /// changes nothing and is not an error.
    pub fn add_alias(&mut self, alias: &Alias) -> (r: Result<(), StoreError>)
        ensures
            r is Ok <==> user_for_id(old(self).users(), alias.destination) is Some,
            r is Err ==> r == Err::<(), StoreError>(StoreError::NoSuchUser) && *final(self) == *old(
                self,
            ),
            r is Ok && has_alias_pair(
                old(self).aliases(),
                alias.alias_name@,
                alias.destination,
            ) ==> *final(self) == *old(self),
            r is Ok && !has_alias_pair(old(self).aliases(), alias.alias_name@, alias.destination)
                ==> {
                &&& final(self).aliases() == old(self).aliases().push(final(self).aliases().last())
                &&& final(self).aliases().last().alias_name@ == alias.alias_name@
                &&& final(self).aliases().last().destination == alias.destination
                &&& final(self).users() == old(self).users()
                &&& final(self).passwords() == old(self).passwords()
                &&& final(self).clock() == old(self).clock()
            },
            old(self).wf() ==> final(self).wf(),
    {
        if self.get_user_by_id(alias.destination).is_none() {
            return Err(StoreError::NoSuchUser);
        }
        let user_count = self.users.len();
        let n = self.aliases.len();
        let mut i: usize = 0;
        while i < n
            invariant
                n == self.aliases@.len(),
                i <= n,
                *self == *old(self),
                user_for_id(old(self).users(), alias.destination) is Some,
                forall|k: int|
                    0 <= k < i ==> !((#[trigger] self.aliases@[k]).alias_name@
                        == alias.alias_name@ && self.aliases@[k].destination == alias.destination),
            decreases n - i,
        {
            if self.aliases[i].destination == alias.destination && str_eq(
                self.aliases[i].alias_name.as_str(),
                alias.alias_name.as_str(),
            ) {
                return Ok(());
            }
            i = i + 1;
        }
        self.aliases.push(Alias {
            alias_name: alias.alias_name.clone(),
            destination: alias.destination,
        });
        proof {
            if old(self).wf() {
                lemma_user_for_id_props(old(self).users(), alias.destination);
                let u = user_for_id(old(self).users(), alias.destination)->0;
                let k = choose|k: int|
                    0 <= k < old(self).users().len() && #[trigger] old(self).users()[k] == u;
                assert(old(self).users()[k].id == k as u128);
                assert(old(self).users().len() == user_count as int);
                assert(alias.destination < (old(self).users().len() as u128));
                assert forall|a: int| 0 <= a < self.aliases@.len() implies (
                #[trigger] self.aliases@[a]).destination < (self.users@.len() as u128) by {
                    if a < self.aliases@.len() - 1 {
                        assert(self.aliases@[a] == old(self).aliases()[a]);
                        assert(old(self).aliases()[a].destination < (old(
                            self,
                        ).users().len() as u128));
                    } else {
                        assert(self.aliases@[a].destination == alias.destination);
                    }
                    assert(self.users@ == old(self).users@);
                }
                assert forall|a: int, b: int| 0 <= a < b < self.aliases@.len() implies !((
                #[trigger] self.aliases@[a]).alias_name@ == (
                #[trigger] self.aliases@[b]).alias_name@ && self.aliases@[a].destination
                    == self.aliases@[b].destination) by {
                    if b < self.aliases@.len() - 1 {
                        assert(self.aliases@[a] == old(self).aliases()[a]);
                        assert(self.aliases@[b] == old(self).aliases()[b]);
                    } else {
                        assert(self.aliases@[a] == old(self).aliases()[a]);
                        assert(self.aliases@[b].alias_name@ == alias.alias_name@
                            && self.aliases@[b].destination == alias.destination);
                    }
                }
                assert forall|a: int| 0 <= a < self.users().len() implies ((
                #[trigger] self.users()[a]) == old(self).users()[a]) by {
                    assert(self.users@ == old(self).users@);
                }
                assert forall|a: int| 0 <= a < self.passwords().len() implies ((
                #[trigger] self.passwords()[a]) == old(self).passwords()[a]) by {
                    assert(self.passwords@ == old(self).passwords@);
                }
                assert(self.wf());
            }
        }
        Ok(())
    }

    /// Remove every record of the exact (name, destination) pair. Removing
    /// a pair that is not recorded changes nothing and is not an error.
    pub fn remove_alias(&mut self, alias: &Alias)
        ensures
            final(self).aliases() == old(self).aliases().filter(
                |a: Alias|
                    !(a.alias_name@ == alias.alias_name@ && a.destination == alias.destination),
            ),
            final(self).users() == old(self).users(),
            final(self).passwords() == old(self).passwords(),
            final(self).clock() == old(self).clock(),
            old(self).wf() ==> final(self).wf(),
    {
        broadcast use vstd::seq_lib::group_filter_ensures;

        let ghost keep = |a: Alias|
            !(a.alias_name@ == alias.alias_name@ && a.destination == alias.destination);
        let n = self.aliases.len();
        let mut kept: Vec<Alias> = Vec::new();
        let mut i: usize = 0;
        proof {
            assert(self.aliases@.take(0) =~= Seq::<Alias>::empty());
            assert(self.aliases@.take(0).filter(keep) =~= Seq::<Alias>::empty());
        }
        while i < n
            invariant
                n == self.aliases@.len(),
                i <= n,
                *self == *old(self),
                kept@ == self.aliases@.take(i as int).filter(keep),
                keep == (|a: Alias|
                    !(a.alias_name@ == alias.alias_name@ && a.destination == alias.destination)),
            decreases n - i,
        {
            proof {
                assert(self.aliases@.take(i + 1) =~= self.aliases@.take(i as int).push(
                    self.aliases@[i as int],
                ));
                self.aliases@.take(i as int).lemma_filter_push(self.aliases@[i as int], keep);
            }
            let a = &self.aliases[i];
            if !(a.destination == alias.destination && str_eq(
                a.alias_name.as_str(),
                alias.alias_name.as_str(),
            )) {
                kept.push(self.aliases[i].clone());
            }
            i = i + 1;
        }
        proof {
            assert(self.aliases@.take(n as int) =~= self.aliases@);
        }
        self.aliases = kept;
        proof {
            if old(self).wf() {
                lemma_filter_keeps_pair_free(
                    old(self).aliases(),
                    keep,
                    |a: Alias, b: Alias| a.alias_name@ == b.alias_name@ && a.destination
                        == b.destination,
                );
                lemma_filter_keeps_bound(
                    old(self).aliases(),
                    keep,
                    |a: Alias| a.destination < (old(self).users().len() as u128),
                );
                assert forall|a: int| 0 <= a < self.users().len() implies ((
                #[trigger] self.users()[a]) == old(self).users()[a]) by {
                    assert(self.users@ == old(self).users@);
                }
                assert forall|a: int| 0 <= a < self.passwords().len() implies ((
                #[trigger] self.passwords()[a]) == old(self).passwords()[a]) by {
                    assert(self.passwords@ == old(self).passwords@);
                }
                assert(self.wf());
            }
        }
    }
}

impl LexKeyed for (String, Vec<u128>) {
    open spec fn key(&self) -> Seq<char> {
        self.0@
    }

    fn key_str(&self) -> (r: &str) {
        self.0.as_str()
    }
}

/// Some entry of the grouped listing carries the name.
pub open spec fn covers(groups: Seq<(String, Vec<u128>)>, name: Seq<char>) -> bool {
    exists|i: int| 0 <= i < groups.len() && (#[trigger] groups[i]).0@ == name
}

/// Reordering grouped alias entries keeps their names pairwise distinct
/// and their ties to the alias relation.
proof fn lemma_groups_reorder(
    a: Seq<(String, Vec<u128>)>,
    b: Seq<(String, Vec<u128>)>,
    aliases: Seq<Alias>,
)
    requires
        a.to_multiset() == b.to_multiset(),
        a.len() == b.len(),
        forall|i: int, j: int| 0 <= i < j < a.len() ==> (#[trigger] a[i]).0@ != (#[trigger] a[j]).0@,
        forall|i: int| 0 <= i < a.len() ==> has_alias_named(aliases, (#[trigger] a[i]).0@),
        forall|i: int| 0 <= i < a.len() ==> (#[trigger] a[i]).1@ == alias_dests(aliases, a[i].0@),
        forall|k: int|
            0 <= k < aliases.len() ==> covers(a, (#[trigger] aliases[k]).alias_name@),
    ensures
        forall|i: int, j: int| 0 <= i < j < b.len() ==> (#[trigger] b[i]).0@ != (#[trigger] b[j]).0@,
        forall|i: int| 0 <= i < b.len() ==> has_alias_named(aliases, (#[trigger] b[i]).0@),
        forall|i: int| 0 <= i < b.len() ==> (#[trigger] b[i]).1@ == alias_dests(aliases, b[i].0@),
        forall|k: int|
            0 <= k < aliases.len() ==> covers(b, (#[trigger] aliases[k]).alias_name@),
{
    broadcast use vstd::seq_lib::group_to_multiset_ensures;
    broadcast use vstd::multiset::group_multiset_axioms;

    assert forall|i: int| 0 <= i < b.len() implies exists|k: int|
        0 <= k < a.len() && a[k] == #[trigger] b[i] by {
        assert(b.contains(b[i]));
        assert(b.to_multiset().contains(b[i]));
        assert(a.to_multiset().contains(b[i]));
        assert(a.contains(b[i]));
    }
    assert forall|i: int| 0 <= i < a.len() implies exists|k: int|
        0 <= k < b.len() && b[k] == #[trigger] a[i] by {
        assert(a.contains(a[i]));
        assert(a.to_multiset().contains(a[i]));
        assert(b.to_multiset().contains(a[i]));
        assert(b.contains(a[i]));
    }
    assert(a.no_duplicates()) by {
        assert forall|i: int, j: int|
            0 <= i < a.len() && 0 <= j < a.len() && i != j implies a[i] != a[j] by {
            if i < j {
                assert(a[i].0@ != a[j].0@);
            } else {
                assert(a[j].0@ != a[i].0@);
            }
        }
    }
    a.lemma_multiset_has_no_duplicates();
    b.lemma_multiset_has_no_duplicates_conv();
    assert forall|i: int, j: int| 0 <= i < j < b.len() implies (#[trigger] b[i]).0@ != (
    #[trigger] b[j]).0@ by {
        let k1 = choose|k: int| 0 <= k < a.len() && a[k] == b[i];
        let k2 = choose|k: int| 0 <= k < a.len() && a[k] == b[j];
        assert(b[i] != b[j]);
        assert(k1 != k2);
        if k1 < k2 {
            assert(a[k1].0@ != a[k2].0@);
        } else {
            assert(a[k2].0@ != a[k1].0@);
        }
    }
    assert forall|i: int| 0 <= i < b.len() implies has_alias_named(aliases, (#[trigger] b[i]).0@)
        && b[i].1@ == alias_dests(aliases, b[i].0@) by {
        let k = choose|k: int| 0 <= k < a.len() && a[k] == b[i];
        assert(has_alias_named(aliases, a[k].0@));
        assert(a[k].1@ == alias_dests(aliases, a[k].0@));
    }
    assert forall|k: int| 0 <= k < aliases.len() implies covers(
        b,
        (#[trigger] aliases[k]).alias_name@,
    ) by {
        assert(covers(a, aliases[k].alias_name@));
        let i0 = choose|i: int|
            0 <= i < a.len() && (#[trigger] a[i]).0@ == aliases[k].alias_name@;
        let i1 = choose|k2: int| 0 <= k2 < b.len() && b[k2] == a[i0];
        assert(0 <= i1 < b.len() && b[i1].0@ == aliases[k].alias_name@);
    }
}

impl Service<MigrationsDone> {
    /// List every alias, grouped by name: one entry per alias name, names
    /// in lexicographic order, each with its destinations in insertion
    /// order.
    pub fn list_all_aliases(&self) -> (r: Vec<(String, Vec<u128>)>)
        ensures
            sorted_by_key(r@),
            forall|i: int, j: int|
                0 <= i < j < r@.len() ==> (#[trigger] r@[i]).0@ != (#[trigger] r@[j]).0@,
            forall|i: int|
                0 <= i < r@.len() ==> has_alias_named(self.aliases(), (#[trigger] r@[i]).0@),
            forall|i: int|
                0 <= i < r@.len() ==> (#[trigger] r@[i]).1@ == alias_dests(
                    self.aliases(),
                    r@[i].0@,
                ),
            forall|k: int|
                0 <= k < self.aliases().len() ==> covers(
                    r@,
                    (#[trigger] self.aliases()[k]).alias_name@,
                ),
    {
        let n = self.aliases.len();
        let mut groups: Vec<(String, Vec<u128>)> = Vec::new();
        let mut i: usize = 0;
        proof {
            assert(self.aliases@.take(0) =~= Seq::<Alias>::empty());
        }
        while i < n
            invariant
                n == self.aliases@.len(),
                i <= n,
                forall|a: int, b: int|
                    0 <= a < b < groups@.len() ==> (#[trigger] groups@[a]).0@ != (
                    #[trigger] groups@[b]).0@,
                forall|a: int|
                    0 <= a < groups@.len() ==> has_alias_named(
                        self.aliases@.take(i as int),
                        (#[trigger] groups@[a]).0@,
                    ),
                forall|a: int|
                    0 <= a < groups@.len() ==> (#[trigger] groups@[a]).1@ == alias_dests(
                        self.aliases@.take(i as int),
                        groups@[a].0@,
                    ),
                forall|k: int|
                    0 <= k < i ==> covers(groups@, (#[trigger] self.aliases@[k]).alias_name@),
            decreases n - i,
        {
            let ghost row = self.aliases@[i as int];
            let ghost prev = groups@;
            let glen = groups.len();
            let mut g: usize = 0;
            loop
                invariant
                    glen == groups@.len(),
                    g <= glen,
                    groups@ == prev,
                    i < n,
                    n == self.aliases@.len(),
                    row == self.aliases@[i as int],
                    forall|h: int| 0 <= h < g ==> (#[trigger] groups@[h]).0@ != row.alias_name@,
                ensures
                    g <= glen,
                    groups@ == prev,
                    forall|h: int| 0 <= h < g ==> (#[trigger] groups@[h]).0@ != row.alias_name@,
                    g < glen ==> groups@[g as int].0@ == row.alias_name@,
                    g == glen ==> forall|h: int|
                        0 <= h < glen ==> (#[trigger] groups@[h]).0@ != row.alias_name@,
                decreases glen - g,
            {
                if g == glen {
                    break;
                }
                let same = str_eq(groups[g].0.as_str(), self.aliases[i].alias_name.as_str());
                if same {
                    proof {
                        assert(groups@[g as int].0@ == row.alias_name@);
                    }
                    break;
                }
                proof {
                    assert(groups@[g as int].0@ != row.alias_name@);
                }
                g = g + 1;
            }
            proof {
                assert(self.aliases@.take(i + 1) =~= self.aliases@.take(i as int).push(row));
            }
            if g < glen {
                groups[g].1.push(self.aliases[i].destination);
                proof {
                    assert(groups@[g as int].0 == prev[g as int].0);
                    assert(groups@[g as int].1@ == prev[g as int].1@.push(row.destination));
                    assert forall|a: int| 0 <= a < groups@.len() implies (
                    #[trigger] groups@[a]).1@ == alias_dests(
                        self.aliases@.take(i + 1),
                        groups@[a].0@,
                    ) by {
                        lemma_alias_dests_push(self.aliases@.take(i as int), row, groups@[a].0@);
                        if a != g {
                            assert(groups@[a] == prev[a]);
                            assert(groups@[a].0@ != row.alias_name@) by {
                                if a < g {
                                    assert(prev[a].0@ != prev[g as int].0@);
                                } else {
                                    assert(prev[g as int].0@ != prev[a].0@);
                                }
                            }
                        }
                    }
                    assert forall|a: int| 0 <= a < groups@.len() implies has_alias_named(
                        self.aliases@.take(i + 1),
                        (#[trigger] groups@[a]).0@,
                    ) by {
                        assert(groups@[a].0@ == prev[a].0@);
                        let k = choose|k: int|
                            0 <= k < self.aliases@.take(i as int).len() && (
                            #[trigger] self.aliases@.take(i as int)[k]).alias_name@ == prev[a].0@;
                        assert(self.aliases@.take(i + 1)[k].alias_name@ == prev[a].0@);
                    }
                    assert forall|k: int| 0 <= k < i + 1 implies covers(
                        groups@,
                        (#[trigger] self.aliases@[k]).alias_name@,
                    ) by {
                        if k < i {
                            assert(covers(prev, self.aliases@[k].alias_name@));
                            let a0 = choose|a: int|
                                0 <= a < prev.len() && (#[trigger] prev[a]).0@
                                    == self.aliases@[k].alias_name@;
                            assert(groups@[a0].0@ == self.aliases@[k].alias_name@);
                        } else {
                            assert(groups@[g as int].0@ == row.alias_name@);
                        }
                    }
                }
            } else {
                let nm = self.aliases[i].alias_name.clone();
                let d = self.aliases[i].destination;
                let mut ds: Vec<u128> = Vec::new();
                ds.push(d);
                groups.push((nm, ds));
                proof {
                    assert(groups@ == prev.push(groups@.last()));
                    assert(groups@.last().0@ == row.alias_name@);
                    assert(groups@.last().1@ =~= Seq::<u128>::empty().push(row.destination));
                    assert forall|k: int| 0 <= k < i implies (#[trigger] self.aliases@[k]).alias_name@
                        != row.alias_name@ by {
                        assert(covers(prev, self.aliases@[k].alias_name@));
                        let a0 = choose|a: int|
                            0 <= a < prev.len() && (#[trigger] prev[a]).0@
                                == self.aliases@[k].alias_name@;
                    }
                    assert forall|k: int|
                        0 <= k < self.aliases@.take(i as int).len() implies (
                    #[trigger] self.aliases@.take(i as int)[k]).alias_name@ != row.alias_name@ by {
                        assert(self.aliases@.take(i as int)[k] == self.aliases@[k]);
                    }
                    lemma_alias_dests_none(self.aliases@.take(i as int), row.alias_name@);
                    assert forall|a: int| 0 <= a < groups@.len() implies (
                    #[trigger] groups@[a]).1@ == alias_dests(
                        self.aliases@.take(i + 1),
                        groups@[a].0@,
                    ) by {
                        lemma_alias_dests_push(self.aliases@.take(i as int), row, groups@[a].0@);
                        if a < groups@.len() - 1 {
                            assert(groups@[a] == prev[a]);
                            assert(groups@[a].0@ != row.alias_name@) by {
                                let k = choose|k: int|
                                    0 <= k < self.aliases@.take(i as int).len() && (
                                    #[trigger] self.aliases@.take(i as int)[k]).alias_name@
                                        == prev[a].0@;
                            }
                        } else {
                            assert(alias_dests(self.aliases@.take(i as int), row.alias_name@).len()
                                == 0);
                            assert(alias_dests(self.aliases@.take(i as int), row.alias_name@) =~=
                                Seq::<u128>::empty());
                        }
                    }
                    assert forall|a: int, b: int| 0 <= a < b < groups@.len() implies (
                    #[trigger] groups@[a]).0@ != (#[trigger] groups@[b]).0@ by {
                        if b == groups@.len() - 1 {
                            assert(groups@[a] == prev[a]);
                            let k = choose|k: int|
                                0 <= k < self.aliases@.take(i as int).len() && (
                                #[trigger] self.aliases@.take(i as int)[k]).alias_name@
                                    == prev[a].0@;
                        }
                    }
                    assert forall|a: int| 0 <= a < groups@.len() implies has_alias_named(
                        self.aliases@.take(i + 1),
                        (#[trigger] groups@[a]).0@,
                    ) by {
                        if a < groups@.len() - 1 {
                            assert(groups@[a] == prev[a]);
                            let k = choose|k: int|
                                0 <= k < self.aliases@.take(i as int).len() && (
                                #[trigger] self.aliases@.take(i as int)[k]).alias_name@
                                    == prev[a].0@;
                            assert(self.aliases@.take(i + 1)[k].alias_name@ == prev[a].0@);
                        } else {
                            assert(self.aliases@.take(i + 1)[i as int].alias_name@
                                == row.alias_name@);
                        }
                    }
                    assert forall|k: int| 0 <= k < i + 1 implies covers(
                        groups@,
                        (#[trigger] self.aliases@[k]).alias_name@,
                    ) by {
                        if k < i {
                            assert(covers(prev, self.aliases@[k].alias_name@));
                            let a0 = choose|a: int|
                                0 <= a < prev.len() && (#[trigger] prev[a]).0@
                                    == self.aliases@[k].alias_name@;
                            assert(groups@[a0].0@ == self.aliases@[k].alias_name@);
                        } else {
                            assert(groups@[groups@.len() - 1].0@ == row.alias_name@);
                        }
                    }
                }
            }
            i = i + 1;
        }
        proof {
            assert(self.aliases@.take(n as int) =~= self.aliases@);
        }
        let ghost before = groups@;
        sort_by_key(&mut groups);
        proof {
            lemma_groups_reorder(before, groups@, self.aliases@);
        }
        groups
    }
}

/// Filtering keeps every pairwise-distinctness property: if no two
/// positions of `s` are related by `same`, no two positions of the
/// filtered sequence are.
pub proof fn lemma_filter_keeps_pair_free<T>(
    s: Seq<T>,
    pred: spec_fn(T) -> bool,
    same: spec_fn(T, T) -> bool,
)
    requires
        forall|i: int, j: int| 0 <= i < j < s.len() ==> !same(#[trigger] s[i], #[trigger] s[j]),
    ensures
        forall|i: int, j: int|
            0 <= i < j < s.filter(pred).len() ==> !same(
                #[trigger] s.filter(pred)[i],
                #[trigger] s.filter(pred)[j],
            ),
    decreases s.len(),
{
    reveal(Seq::filter);
    if s.len() > 0 {
        let rest = s.drop_last();
        lemma_filter_keeps_pair_free(rest, pred, same);
        if pred(s.last()) {
            assert(s.filter(pred) == rest.filter(pred).push(s.last()));
            assert forall|i: int, j: int| 0 <= i < j < s.filter(pred).len() implies !same(
                s.filter(pred)[i],
                s.filter(pred)[j],
            ) by {
                if j == s.filter(pred).len() - 1 {
                    let e = s.filter(pred)[i];
                    assert(rest.filter(pred)[i] == e);
                    assert(rest.filter(pred).contains(e));
                    rest.lemma_filter_contains_rev(pred, e);
                    let k = choose|k: int| 0 <= k < rest.len() && rest[k] == e;
                    assert(s[k] == e);
                    assert(!same(s[k], s.last()));
                }
            }
        }
    }
}

/// Filtering keeps every per-element property.
pub proof fn lemma_filter_keeps_bound<T>(
    s: Seq<T>,
    pred: spec_fn(T) -> bool,
    prop: spec_fn(T) -> bool,
)
    requires
        forall|i: int| 0 <= i < s.len() ==> prop(#[trigger] s[i]),
    ensures
        forall|i: int| 0 <= i < s.filter(pred).len() ==> prop(#[trigger] s.filter(pred)[i]),
{
    assert forall|i: int| 0 <= i < s.filter(pred).len() implies prop(s.filter(pred)[i]) by {
        let e = s.filter(pred)[i];
        assert(s.filter(pred).contains(e));
        s.lemma_filter_contains_rev(pred, e);
        let k = choose|k: int| 0 <= k < s.len() && s[k] == e;
        assert(prop(s[k]));
    }
}

} // verus!
