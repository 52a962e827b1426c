//! The User entity, its persistence interface, a verified in-memory store,
//! and the user usecases: registration, login, self-service update and
//! delete, and listing.

use vstd::prelude::*;
use crate::credential::{hash_password, is_bcrypt_digest, password_matches, verify_password};
use crate::domain_error::DomainError;
use crate::ids::fresh_id;
use crate::strutil::{merged_field, str_eq};

verus! {

/// A registered account. The password is stored only as a one-way digest.
#[derive(Debug)]
pub struct User {
    pub id: u128,
    pub username: String,
    pub email: String,
    pub password_hash: String,
    pub created_at: u64,
    pub updated_at: Option<u64>,
}

impl Clone for User {
    fn clone(&self) -> (res: Self)
        ensures
            res == *self,
    {
        User {
            id: self.id,
            username: self.username.clone(),
            email: self.email.clone(),
            password_hash: self.password_hash.clone(),
            created_at: self.created_at,
            updated_at: self.updated_at,
        }
    }
}

/// The rows are ordered by creation time, newest first.
pub open spec fn users_sorted(s: Seq<User>) -> bool {
    forall|i: int, j: int| 0 <= i < j < s.len() ==> s[i].created_at >= s[j].created_at
}

/// No two rows share an id.
pub open spec fn users_distinct_ids(s: Seq<User>) -> bool {
    forall|i: int, j: int| 0 <= i < j < s.len() ==> s[i].id != s[j].id
}

/// Some row carries this id.
pub open spec fn has_user_id(s: Seq<User>, id: u128) -> bool {
    exists|i: int| 0 <= i < s.len() && s[i].id == id
}

/// Some row carries this email.
pub open spec fn has_user_email(s: Seq<User>, email: Seq<char>) -> bool {
    exists|i: int| 0 <= i < s.len() && s[i].email@ == email
}

/// Every row whose id matches `u.id`, replaced by `u`; the rest unchanged.
pub open spec fn users_replace(s: Seq<User>, u: User) -> Seq<User> {
    Seq::new(s.len(), |i: int| if s[i].id == u.id { u } else { s[i] })
}

/// The rows whose id differs from `id`, in their original order.
pub open spec fn users_without(s: Seq<User>, id: u128) -> Seq<User>
    decreases s.len(),
{
    if s.len() == 0 {
        Seq::empty()
    } else {
        let rest = users_without(s.drop_last(), id);
        if s.last().id == id {
            rest
        } else {
            rest.push(s.last())
        }
    }
}

proof fn lemma_users_without_absent(s: Seq<User>, id: u128)
    requires
        forall|i: int| 0 <= i < s.len() ==> s[i].id != id,
    ensures
        users_without(s, id) == s,
    decreases s.len(),
{
    if s.len() > 0 {
        lemma_users_without_absent(s.drop_last(), id);
        assert(users_without(s, id) =~= s);
    } else {
        assert(users_without(s, id) =~= s);
    }
}

proof fn lemma_users_without_found(s: Seq<User>, id: u128, j: int)
    requires
        0 <= j < s.len(),
        s[j].id == id,
        forall|i: int| 0 <= i < s.len() && i != j ==> s[i].id != id,
    ensures
        users_without(s, id) == s.remove(j),
    decreases s.len(),
{
    if j == s.len() - 1 {
        lemma_users_without_absent(s.drop_last(), id);
        assert(users_without(s, id) =~= s.remove(j));
    } else {
        lemma_users_without_found(s.drop_last(), id, j);
        assert(users_without(s, id) =~= s.remove(j));
    }
}

/// The persistence interface for users. Implementations outside the core
/// (or the in-memory store below) expose their rows as `view`, newest first.
pub trait UserRepository: Sized {
    /// The stored rows, newest first.
    spec fn view(&self) -> Seq<User>;

    /// The store's own well-formedness.
    spec fn wf(&self) -> bool;

    /// A well-formed store is ordered newest-first and holds no two rows
    /// with one id.
    proof fn wf_properties(&self)
        requires
            self.wf(),
        ensures
            users_sorted(self.view()),
            users_distinct_ids(self.view()),
    ;

    /// Stores a new row. On success the row joined the others at its place
    /// in the creation order; any failure is infrastructural and leaves the
    /// store unchanged.
    fn create_user(&mut self, user: &User) -> (r: Result<(), DomainError>)
        requires
            old(self).wf(),
        ensures
            final(self).wf(),
            r matches Ok(()) ==> !has_user_id(old(self).view(), user.id) && (exists|i: int|
                0 <= i <= old(self).view().len() && final(self).view() == old(
                    self,
                ).view().insert(i, *user)),
            r matches Err(e) ==> final(self).view() == old(self).view() && e matches
                DomainError::Infra(_),
    ;

    /// Looks a row up by id.
    fn get_user_by_id(&self, user_id: u128) -> (r: Result<Option<User>, DomainError>)
        requires
            self.wf(),
        ensures
            r matches Ok(Some(u)) ==> self.view().contains(u) && u.id == user_id,
            r matches Ok(None) ==> !has_user_id(self.view(), user_id),
            r matches Err(e) ==> e matches DomainError::Infra(_),
    ;

    /// Looks a row up by email, the unique business key.
    fn get_user_by_email(&self, email: &str) -> (r: Result<Option<User>, DomainError>)
        requires
            self.wf(),
        ensures
            r matches Ok(Some(u)) ==> self.view().contains(u) && u.email@ == email@,
            r matches Ok(None) ==> !has_user_email(self.view(), email@),
            r matches Err(e) ==> e matches DomainError::Infra(_),
    ;

    /// Overwrites the rows whose id matches `user.id`. The caller keeps the
    /// creation time of the row it overwrites, so the order is unchanged.
    fn update_user(&mut self, user: &User) -> (r: Result<(), DomainError>)
        requires
            old(self).wf(),
            forall|i: int|
                0 <= i < old(self).view().len() && old(self).view()[i].id == user.id ==> old(
                    self,
                ).view()[i].created_at == user.created_at,
        ensures
            final(self).wf(),
            r matches Ok(()) ==> final(self).view() == users_replace(old(self).view(), *user),
            r matches Err(e) ==> final(self).view() == old(self).view() && e matches
                DomainError::Infra(_),
    ;

    /// Removes the rows whose id matches. Removing an absent id succeeds:
    /// the store does not report "did not exist".
    fn delete_user(&mut self, user_id: u128) -> (r: Result<(), DomainError>)
        requires
            old(self).wf(),
        ensures
            final(self).wf(),
            r matches Ok(()) ==> final(self).view() == users_without(old(self).view(), user_id),
            r matches Err(e) ==> final(self).view() == old(self).view() && e matches
                DomainError::Infra(_),
    ;

    /// All rows, newest first.
    fn list_users(&self) -> (r: Result<Vec<User>, DomainError>)
        requires
            self.wf(),
        ensures
            r matches Ok(l) ==> l@ == self.view(),
            r matches Err(e) ==> e matches DomainError::Infra(_),
    ;
}

/// An in-memory user store, the substitute for the external one in tests.
/// It keeps its rows sorted by creation time, newest first.
pub struct InMemoryUserRepository {
    users: Vec<User>,
}

impl InMemoryUserRepository {
    /// An empty store.
    pub fn new() -> (r: Self)
        ensures
            r.wf(),
            r.view() == Seq::<User>::empty(),
    {
        InMemoryUserRepository { users: Vec::new() }
    }
}

impl UserRepository for InMemoryUserRepository {
    closed spec fn view(&self) -> Seq<User> {
        self.users@
    }

    closed spec fn wf(&self) -> bool {
        users_sorted(self.users@) && users_distinct_ids(self.users@)
    }

    proof fn wf_properties(&self) {
    }

    #[verifier::loop_isolation(false)]
    fn create_user(&mut self, user: &User) -> (r: Result<(), DomainError>) {
        let ghost s = self.users@;
        let n = self.users.len();
        let mut k: usize = 0;
        while k < n
            invariant
                n == self.users.len(),
                self.users@ == s,
                0 <= k <= n,
                forall|i: int| 0 <= i < k ==> s[i].id != user.id,
            decreases n - k,
        {
            if self.users[k].id == user.id {
                return Err(DomainError::Infra("duplicate user id".to_owned()));
            }
            k += 1;
        }
        let mut pos: usize = 0;
        while pos < n && self.users[pos].created_at > user.created_at
            invariant
                n == self.users.len(),
                self.users@ == s,
                0 <= pos <= n,
                forall|i: int| 0 <= i < pos ==> s[i].created_at > user.created_at,
            decreases n - pos,
        {
            pos += 1;
        }
        let c = user.clone();
        self.users.insert(pos, c);
        proof {
            s.insert_ensures(pos as int, *user);
            let t = self.users@;
            assert forall|i: int, j: int|
                0 <= i < j < t.len() implies t[i].created_at >= t[j].created_at by {
                if pos < s.len() {
                    assert(s[pos as int].created_at <= user.created_at);
                }
            }
            assert forall|i: int, j: int| 0 <= i < j < t.len() implies t[i].id != t[j].id by {}
            assert(old(self).view() == s);
            assert(!has_user_id(s, user.id)) by {
                assert(forall|i: int| 0 <= i < s.len() ==> s[i].id != user.id);
            }
            assert(exists|i: int|
                0 <= i <= s.len() && self.users@ == s.insert(i, *user)) by {
                assert(0 <= pos as int <= s.len());
                assert(self.users@ == s.insert(pos as int, *user));
            }
        }
        Ok(())
    }

    #[verifier::loop_isolation(false)]
    fn get_user_by_id(&self, user_id: u128) -> (r: Result<Option<User>, DomainError>) {
        let n = self.users.len();
        let mut k: usize = 0;
        while k < n
            invariant
                n == self.users.len(),
                0 <= k <= n,
                forall|i: int| 0 <= i < k ==> self.users@[i].id != user_id,
            decreases n - k,
        {
            if self.users[k].id == user_id {
                let u = self.users[k].clone();
                proof {
                    assert(self.users@.contains(u)) by {
                        assert(self.users@[k as int] == u);
                    }
                }
                return Ok(Some(u));
            }
            k += 1;
        }
        Ok(None)
    }

    #[verifier::loop_isolation(false)]
    fn get_user_by_email(&self, email: &str) -> (r: Result<Option<User>, DomainError>) {
        let n = self.users.len();
        let mut k: usize = 0;
        while k < n
            invariant
                n == self.users.len(),
                0 <= k <= n,
                forall|i: int| 0 <= i < k ==> self.users@[i].email@ != email@,
            decreases n - k,
        {
            if str_eq(self.users[k].email.as_str(), email) {
                let u = self.users[k].clone();
                proof {
                    assert(self.users@.contains(u)) by {
                        assert(self.users@[k as int] == u);
                    }
                }
                return Ok(Some(u));
            }
            k += 1;
        }
        Ok(None)
    }

    #[verifier::loop_isolation(false)]
    fn update_user(&mut self, user: &User) -> (r: Result<(), DomainError>) {
        let ghost s = self.users@;
        let n = self.users.len();
        let mut k: usize = 0;
        while k < n
            invariant
                n == self.users.len(),
                self.users@ == s,
                0 <= k <= n,
                forall|i: int| 0 <= i < k ==> s[i].id != user.id,
            decreases n - k,
        {
            if self.users[k].id == user.id {
                let c = user.clone();
                self.users.remove(k);
                self.users.insert(k, c);
                proof {
                    let t = self.users@;
                    let s1 = s.remove(k as int);
                    s.remove_ensures(k as int);
                    s1.insert_ensures(k as int, *user);
                    assert(old(self).view() == s);
                    assert(t =~= users_replace(s, *user));
                    assert forall|i: int|
                        0 <= i < t.len() implies t[i].created_at == s[i].created_at
                        && t[i].id == s[i].id by {
                        assert(t[i] == users_replace(s, *user)[i]);
                        if s[i].id == user.id {
                            assert(s[i].created_at == user.created_at);
                        }
                    }
                    assert(users_sorted(t));
                    assert(users_distinct_ids(t));
                }
                return Ok(());
            }
            k += 1;
        }
        proof {
            assert(self.users@ =~= users_replace(s, *user));
        }
        Ok(())
    }

    #[verifier::loop_isolation(false)]
    fn delete_user(&mut self, user_id: u128) -> (r: Result<(), DomainError>) {
        let ghost s = self.users@;
        let n = self.users.len();
        let mut k: usize = 0;
        while k < n
            invariant
                n == self.users.len(),
                self.users@ == s,
                0 <= k <= n,
                forall|i: int| 0 <= i < k ==> s[i].id != user_id,
            decreases n - k,
        {
            if self.users[k].id == user_id {
                self.users.remove(k);
                proof {
                    s.remove_ensures(k as int);
                    assert forall|i: int|
                        0 <= i < s.len() && i != k as int implies s[i].id != user_id by {
                        if i < k as int {
                            assert(s[i].id != s[k as int].id);
                        } else {
                            assert(s[k as int].id != s[i].id);
                        }
                    }
                    lemma_users_without_found(s, user_id, k as int);
                }
                return Ok(());
            }
            k += 1;
        }
        proof {
            lemma_users_without_absent(s, user_id);
        }
        Ok(())
    }

    #[verifier::loop_isolation(false)]
    fn list_users(&self) -> (r: Result<Vec<User>, DomainError>) {
        let n = self.users.len();
        let mut out: Vec<User> = Vec::new();
        let mut k: usize = 0;
        while k < n
            invariant
                n == self.users.len(),
                0 <= k <= n,
                out@ == self.users@.take(k as int),
            decreases n - k,
        {
            out.push(self.users[k].clone());
            proof {
                assert(out@ =~= self.users@.take(k as int + 1));
            }
            k += 1;
        }
        proof {
            assert(out@ =~= self.users@);
        }
        Ok(out)
    }
}

/// After a successful registration the account's email stands among the
/// stored rows, so a second registration with the same email cannot pass the
/// uniqueness check: by the contract of `register_user` it is answered with
/// Conflict, or with Infra when the lookup itself fails.
pub proof fn lemma_registered_email_is_taken(v: Seq<User>, i: int, u: User)
    requires
        0 <= i <= v.len(),
    ensures
        has_user_email(v.insert(i, u), u.email@),
{
    v.insert_ensures(i, u);
    assert(v.insert(i, u)[i] == u);
}

/// The user usecases, over any persistence interface.
pub struct UserUsecases<R: UserRepository> {
    repository: R,
}

impl<R: UserRepository> UserUsecases<R> {
    /// The stored rows, as the persistence interface exposes them.
    pub closed spec fn view(&self) -> Seq<User> {
        self.repository.view()
    }

    /// Whether the underlying store is well formed.
    pub closed spec fn wf(&self) -> bool {
        self.repository.wf()
    }

    /// Wraps a persistence interface.
    pub fn new(repository: R) -> (r: Self)
        ensures
            r.view() == repository.view(),
            r.wf() == repository.wf(),
    {
        UserUsecases { repository }
    }

    /// Registers a new account: every field is required, the email must be
    /// unused, and the password is hashed before anything is persisted. A
    /// rejected registration writes nothing.
    pub fn register_user(
        &mut self,
        username: String,
        email: String,
        password: String,
        now: u64,
    ) -> (r: Result<User, DomainError>)
        requires
            old(self).wf(),
        ensures
            final(self).wf(),
            !(r is Ok) ==> final(self).view() == old(self).view(),
            (username@.len() == 0 || email@.len() == 0 || password@.len() == 0) ==> r matches Err(
                DomainError::InvalidData(_),
            ),
            r matches Err(DomainError::InvalidData(m)) ==> (username@.len() == 0 || email@.len()
                == 0 || password@.len() == 0) && m@ == "Fields cannot be empty"@,
            r matches Err(DomainError::Conflict(_)) ==> has_user_email(old(self).view(), email@),
            (username@.len() > 0 && email@.len() > 0 && password@.len() > 0 && has_user_email(
                old(self).view(),
                email@,
            )) ==> (r matches Err(DomainError::Conflict(_)) || r matches Err(
                DomainError::Infra(_),
            )),
            r matches Ok(u) ==> username@.len() > 0 && email@.len() > 0 && password@.len() > 0
                && !has_user_email(old(self).view(), email@) && u.username == username && u.email
                == email && u.created_at == now && u.updated_at is None && password_matches(
                password@,
                u.password_hash@,
            ) && is_bcrypt_digest(u.password_hash@) && !has_user_id(old(self).view(), u.id) && (
            exists|i: int|
                0 <= i <= old(self).view().len() && final(self).view() == old(self).view().insert(
                    i,
                    u,
                )),
            r matches Err(e) ==> (e matches DomainError::InvalidData(_) || e matches
                DomainError::Conflict(_) || e matches DomainError::Infra(_)),
    {
        if username.as_str().is_empty() || email.as_str().is_empty()
            || password.as_str().is_empty() {
            return Err(DomainError::InvalidData("Fields cannot be empty".to_owned()));
        }
        match self.repository.get_user_by_email(email.as_str()) {
            Err(e) => Err(e),
            Ok(Some(_)) => Err(DomainError::Conflict("Email already in use".to_owned())),
            Ok(None) => {
                let hashed = match hash_password(password.as_str()) {
                    Ok(h) => h,
                    Err(e) => {
                        return Err(e);
                    },
                };
                let user = User {
                    id: fresh_id(),
                    username,
                    email,
                    password_hash: hashed,
                    created_at: now,
                    updated_at: None,
                };
                match self.repository.create_user(&user) {
                    Ok(()) => {
                        proof {
                            assert(!has_user_id(old(self).view(), user.id));
                            assert(exists|i: int|
                                0 <= i <= old(self).view().len() && self.repository.view() == old(
                                    self,
                                ).view().insert(i, user));
                        }
                        Ok(user)
                    },
                    Err(e) => Err(e),
                }
            },
        }
    }

    /// Checks a credential pair. An unknown email is reported as NotFound, a
    /// known email with a wrong password as Unauthorized.
    pub fn login_user(&self, email: String, password: String) -> (r: Result<User, DomainError>)
        requires
            self.wf(),
        ensures
            r matches Ok(u) ==> self.view().contains(u) && u.email@ == email@ && password_matches(
                password@,
                u.password_hash@,
            ),
            r matches Err(DomainError::NotFound(_)) ==> !has_user_email(self.view(), email@),
            !has_user_email(self.view(), email@) ==> (r matches Err(DomainError::NotFound(_))
                || r matches Err(DomainError::Infra(_))),
            r matches Err(DomainError::Unauthorized(_)) ==> (exists|i: int|
                0 <= i < self.view().len() && self.view()[i].email@ == email@ && !password_matches(
                    password@,
                    self.view()[i].password_hash@,
                )),
            (has_user_email(self.view(), email@) && (forall|i: int|
                0 <= i < self.view().len() && self.view()[i].email@ == email@
                    ==> !password_matches(password@, self.view()[i].password_hash@))) ==> (
            r matches Err(DomainError::Unauthorized(_)) || r matches Err(DomainError::Infra(_))),
            r matches Err(e) ==> (e matches DomainError::NotFound(_) || e matches
                DomainError::Unauthorized(_) || e matches DomainError::Infra(_)),
    {
        match self.repository.get_user_by_email(email.as_str()) {
            Err(e) => Err(e),
            Ok(None) => Err(DomainError::NotFound("User not found".to_owned())),
            Ok(Some(user)) => {
                match verify_password(password.as_str(), user.password_hash.as_str()) {
                    Err(e) => Err(e),
                    Ok(true) => {
                        proof {
                            let i = choose|i: int|
                                0 <= i < self.view().len() && self.view()[i] == user;
                            assert(self.view()[i].email@ == email@);
                        }
                        Ok(user)
                    },
                    Ok(false) => {
                        proof {
                            let i = choose|i: int|
                                0 <= i < self.view().len() && self.view()[i] == user;
                            assert(self.view()[i].email@ == email@);
                        }
                        Err(DomainError::Unauthorized("Invalid credentials".to_owned()))
                    },
                }
            },
        }
    }

    /// Fetches an account by id; NotFound when no row carries it.
    pub fn get_user(&self, user_id: u128) -> (r: Result<User, DomainError>)
        requires
            self.wf(),
        ensures
            r matches Ok(u) ==> self.view().contains(u) && u.id == user_id,
            r matches Err(DomainError::NotFound(_)) ==> !has_user_id(self.view(), user_id),
            !has_user_id(self.view(), user_id) ==> (r matches Err(DomainError::NotFound(_))
                || r matches Err(DomainError::Infra(_))),
            r matches Err(e) ==> (e matches DomainError::NotFound(_) || e matches
                DomainError::Infra(_)),
    {
        match self.repository.get_user_by_id(user_id) {
            Err(e) => Err(e),
            Ok(None) => Err(DomainError::NotFound("User not found".to_owned())),
            Ok(Some(user)) => Ok(user),
        }
    }

    /// Read-then-merge update. A present-but-empty username or password is
    /// treated as absent: it changes nothing. A new password is re-hashed.
    /// The update stamp advances even when no field changed.
    pub fn update_user(
        &mut self,
        user_id: u128,
        new_username: Option<String>,
        new_password: Option<String>,
        now: u64,
    ) -> (r: Result<User, DomainError>)
        requires
            old(self).wf(),
        ensures
            final(self).wf(),
            !(r is Ok) ==> final(self).view() == old(self).view(),
            r matches Err(DomainError::NotFound(_)) ==> !has_user_id(old(self).view(), user_id),
            !has_user_id(old(self).view(), user_id) ==> (r matches Err(DomainError::NotFound(_))
                || r matches Err(DomainError::Infra(_))),
            r matches Ok(u) ==> u.id == user_id && u.updated_at == Some(now) && (exists|j: int|
                0 <= j < old(self).view().len() && old(self).view()[j].id == user_id && u.email
                    == old(self).view()[j].email && u.created_at == old(
                    self,
                ).view()[j].created_at && u.username@ == merged_field(
                    old(self).view()[j].username@,
                    new_username,
                ) && (match new_password {
                    Some(p) => if p@.len() > 0 {
                        password_matches(p@, u.password_hash@) && is_bcrypt_digest(
                            u.password_hash@,
                        )
                    } else {
                        u.password_hash == old(self).view()[j].password_hash
                    },
                    None => u.password_hash == old(self).view()[j].password_hash,
                })) && final(self).view() == users_replace(old(self).view(), u),
            r matches Err(e) ==> (e matches DomainError::NotFound(_) || e matches
                DomainError::Infra(_)),
    {
        let mut user = match self.repository.get_user_by_id(user_id) {
            Err(e) => {
                return Err(e);
            },
            Ok(None) => {
                return Err(DomainError::NotFound("User not found".to_owned()));
            },
            Ok(Some(u)) => u,
        };
        let ghost fetched = user;
        match new_username {
            Some(u2) => {
                if !u2.as_str().is_empty() {
                    user.username = u2;
                }
            },
            None => {},
        }
        match new_password {
            Some(p) => {
                if !p.as_str().is_empty() {
                    match hash_password(p.as_str()) {
                        Ok(h) => {
                            user.password_hash = h;
                        },
                        Err(e) => {
                            return Err(e);
                        },
                    }
                }
            },
            None => {},
        }
        user.updated_at = Some(now);
        proof {
            self.repository.wf_properties();
            let v = self.repository.view();
            let j = choose|j: int| 0 <= j < v.len() && v[j] == fetched;
            assert forall|i: int|
                0 <= i < v.len() && v[i].id == user.id implies v[i].created_at
                == user.created_at by {
                if i != j {
                    assert(v[i].id != v[j].id);
                }
            }
        }
        match self.repository.update_user(&user) {
            Ok(()) => {
                proof {
                    let v = old(self).view();
                    let j = choose|j: int| 0 <= j < v.len() && v[j] == fetched;
                    assert(v[j].id == user_id);
                    assert(user.email == v[j].email);
                    assert(user.created_at == v[j].created_at);
                    assert(user.username@ == merged_field(v[j].username@, new_username));
                }
                Ok(user)
            },
            Err(e) => Err(e),
        }
    }

    /// Removes an account. Removing an absent id succeeds: delete is
    /// idempotent from the caller's point of view, never NotFound.
    pub fn delete_user(&mut self, user_id: u128) -> (r: Result<(), DomainError>)
        requires
            old(self).wf(),
        ensures
            final(self).wf(),
            r matches Ok(()) ==> final(self).view() == users_without(old(self).view(), user_id),
            r matches Err(e) ==> final(self).view() == old(self).view() && e matches
                DomainError::Infra(_),
    {
        self.repository.delete_user(user_id)
    }

    /// All accounts, ordered by creation time, newest first.
    pub fn list_users(&self) -> (r: Result<Vec<User>, DomainError>)
        requires
            self.wf(),
        ensures
            r matches Ok(l) ==> l@ == self.view() && users_sorted(l@),
            r matches Err(e) ==> e matches DomainError::Infra(_),
    {
        proof {
            self.repository.wf_properties();
        }
        self.repository.list_users()
    }
}


} // verus!
