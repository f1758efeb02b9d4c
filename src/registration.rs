//! Completion of a pending registration: the pending record becomes a user,
//! with its namespace and a first session.
use vstd::prelude::*;
use crate::consts::{REGISTRATION_CODE_LIFETIME_MS, REGISTRATION_MAX_FAILED_ATTEMPTS};
use crate::entities::{BillingPlan, Namespace, NamespaceType, PendingUser, Session, User};
use crate::errors::Error;
use crate::ids::{new_id, now_millis};
use crate::store::{email_taken, path_taken, tables_wf, Service, Tables};

verus! {

pub struct CompleteRegistrationInput {
    pub pending_user_id: u128,
    pub code: String,
}

pub enum SignedIn {
    Success { session: Session, user: User },
}

/// The code of a registration created at `created_at` no longer counts at `now`.
pub open spec fn code_expired(created_at: i64, now: i64) -> bool {
    now as int >= created_at as int + REGISTRATION_CODE_LIFETIME_MS as int
}

pub open spec fn has_pending(t: Tables, id: u128) -> bool {
    exists|i: int| 0 <= i < t.pending_users.len() && #[trigger] t.pending_users[i].id == id
}

/// Position of the pending registration with this identifier.
pub open spec fn pending_index(t: Tables, id: u128) -> int {
    choose|i: int| 0 <= i < t.pending_users.len() && #[trigger] t.pending_users[i].id == id
}

/// The pending record after one more failed attempt.
pub open spec fn after_failed_attempt(p: PendingUser) -> PendingUser {
    PendingUser { failed_attempts: (p.failed_attempts + 1) as i64, ..p }
}

/// The user that a successful completion of `p` creates.
pub open spec fn registered_user(
    u: User,
    p: PendingUser,
    first: bool,
    now: i64,
    user_id: u128,
    namespace_id: u128,
) -> bool {
    &&& u.id == user_id
    &&& u.created_at == now
    &&& u.updated_at == now
    &&& u.blocked_at is None
    &&& u.username == p.username
    &&& u.email == p.email
    &&& u.is_admin == first
    &&& !u.two_fa_enabled
    &&& u.name == p.username
    &&& u.description@.len() == 0
    &&& u.used_storage == 0
    &&& u.plan == BillingPlan::Free
    &&& u.namespace_id == namespace_id
}

pub open spec fn user_namespace(p: PendingUser, now: i64, namespace_id: u128) -> Namespace {
    Namespace {
        id: namespace_id,
        created_at: now,
        updated_at: now,
        path: p.username,
        namespace_type: NamespaceType::User,
    }
}

pub open spec fn new_session(user_id: u128, now: i64, session_id: u128) -> Session {
    Session { id: session_id, created_at: now, updated_at: now, user_id }
}

/// What completing registration `pending_user_id` does to the tables `s0`, giving
/// `s1` and `r`. `code_valid` tells whether the submitted code, normalised,
/// matches the record's hash; `now` is the time of the attempt and the three
/// identifiers are those given to the records it creates.
pub open spec fn registration_post(
    s0: Tables,
    s1: Tables,
    authenticated: bool,
    pending_user_id: u128,
    code_valid: bool,
    now: i64,
    user_id: u128,
    namespace_id: u128,
    session_id: u128,
    r: Result<SignedIn, Error>,
) -> bool {
    if authenticated {
        r == Err::<SignedIn, Error>(Error::MustNotBeAuthenticated) && s1 == s0
    } else if !has_pending(s0, pending_user_id) {
        r == Err::<SignedIn, Error>(Error::PendingUserNotFound) && s1 == s0
    } else {
        let i = pending_index(s0, pending_user_id);
        let p = s0.pending_users[i];
        if p.failed_attempts >= REGISTRATION_MAX_FAILED_ATTEMPTS {
            r == Err::<SignedIn, Error>(Error::MaxRegistrationAttemptsReached) && s1 == s0
        } else if code_expired(p.created_at, now) {
            r == Err::<SignedIn, Error>(Error::RegistrationCodeExpired) && s1 == s0
        } else if !code_valid {
            &&& r == Err::<SignedIn, Error>(Error::InvalidRegistrationCode)
            &&& s1 == Tables {
                pending_users: s0.pending_users.update(i, after_failed_attempt(p)),
                ..s0
            }
        } else if email_taken(s0, p.email@) {
            r == Err::<SignedIn, Error>(Error::EmailAlreadyExists) && s1 == s0
        } else if path_taken(s0, p.username@) {
            r == Err::<SignedIn, Error>(Error::UsernameAlreadyExists) && s1 == s0
        } else {
            match r {
                Ok(SignedIn::Success { session, user }) => {
                    &&& registered_user(
                        user,
                        p,
                        s0.users.len() == 0,
                        now,
                        user_id,
                        namespace_id,
                    )
                    &&& session == new_session(user_id, now, session_id)
                    &&& s1 == Tables {
                        pending_users: s0.pending_users.remove(i),
                        namespaces: s0.namespaces.push(user_namespace(p, now, namespace_id)),
                        users: s0.users.push(user),
                        sessions: s0.sessions.push(session),
                        ..s0
                    }
                },
                Err(_) => false,
            }
        }
    }
}

proof fn lemma_pending_index(t: Tables, id: u128, i: int)
    requires
        tables_wf(t),
        0 <= i < t.pending_users.len(),
        t.pending_users[i].id == id,
    ensures
        has_pending(t, id),
        pending_index(t, id) == i,
{
    let j = pending_index(t, id);
    assert(t.pending_users[j].id == id);
    if j < i {
        assert(t.pending_users[j].id != t.pending_users[i].id);
    } else if i < j {
        assert(t.pending_users[i].id != t.pending_users[j].id);
    }
}

impl Service {
    /// Completes a registration at time `now`, giving the new records the
    /// identifiers passed in. `code_valid` is the outcome of checking
    /// `normalize_registration_code(&input.code)` against the pending record's
    /// code hash.
    pub fn complete_registration_at(
        &mut self,
        actor: Option<User>,
        input: CompleteRegistrationInput,
        code_valid: bool,
        now: i64,
        user_id: u128,
        namespace_id: u128,
        session_id: u128,
    ) -> (r: Result<SignedIn, Error>)
        requires
            old(self).db.wf(),
        ensures
            final(self).db.wf(),
            registration_post(
                old(self).db@,
                final(self).db@,
                actor is Some,
                input.pending_user_id,
                code_valid,
                now,
                user_id,
                namespace_id,
                session_id,
                r,
            ),
    {
        if actor.is_some() {
            return Err(Error::MustNotBeAuthenticated);
        }
        let i = match self.db.find_pending_user(input.pending_user_id) {
            Some(i) => i,
            None => {
                return Err(Error::PendingUserNotFound);
            },
        };
        proof {
            lemma_pending_index(self.db@, input.pending_user_id, i as int);
        }
        let ghost s0 = self.db@;
        if self.db.pending_users[i].failed_attempts >= REGISTRATION_MAX_FAILED_ATTEMPTS {
            return Err(Error::MaxRegistrationAttemptsReached);
        }
        let created_at = self.db.pending_users[i].created_at;
        if now as i128 >= created_at as i128 + REGISTRATION_CODE_LIFETIME_MS as i128 {
            return Err(Error::RegistrationCodeExpired);
        }
        if !code_valid {
            // the counter update cannot fail on this store; it is the only write
            let mut p = self.db.pending_users[i].duplicate();
            p.failed_attempts = p.failed_attempts + 1;
            self.db.pending_users.set(i, p);
            proof {
                assert(self.db@ == Tables {
                    pending_users: s0.pending_users.update(i as int, after_failed_attempt(s0.pending_users[i as int])),
                    ..s0
                });
                assert forall|a: int, b: int|
                    0 <= a < b < self.db@.pending_users.len() implies #[trigger] self.db@.pending_users[a].id
                    != #[trigger] self.db@.pending_users[b].id by {
                    assert(self.db@.pending_users[a].id == s0.pending_users[a].id);
                    assert(self.db@.pending_users[b].id == s0.pending_users[b].id);
                }
            }
            return Err(Error::InvalidRegistrationCode);
        }
        let p = self.db.pending_users.remove(i);
        if self.db.user_email_exists(&p.email) {
            self.db.pending_users.insert(i, p);
            assert(self.db.pending_users@ =~= s0.pending_users);
            return Err(Error::EmailAlreadyExists);
        }
        if self.db.check_namespace_exists(&p.username) {
            self.db.pending_users.insert(i, p);
            assert(self.db.pending_users@ =~= s0.pending_users);
            return Err(Error::UsernameAlreadyExists);
        }
        let first = self.db.users.len() == 0;
        let namespace = Namespace {
            id: namespace_id,
            created_at: now,
            updated_at: now,
            path: p.username.clone(),
            namespace_type: NamespaceType::User,
        };
        self.db.namespaces.push(namespace);
        let user = User {
            id: user_id,
            created_at: now,
            updated_at: now,
            blocked_at: None,
            username: p.username.clone(),
            email: p.email,
            is_admin: first,
            two_fa_enabled: false,
            name: p.username,
            description: String::new(),
            used_storage: 0,
            plan: BillingPlan::Free,
            namespace_id,
        };
        let session = Session { id: session_id, created_at: now, updated_at: now, user_id };
        let _ = self.repo.create_user(&mut self.db, &user);
        self.db.sessions.push(session);
        proof {
            assert forall|a: int, b: int|
                0 <= a < b < self.db@.pending_users.len() implies #[trigger] self.db@.pending_users[a].id
                != #[trigger] self.db@.pending_users[b].id by {
                let a0 = if a < i { a } else { a + 1 };
                let b0 = if b < i { b } else { b + 1 };
                assert(self.db@.pending_users[a] == s0.pending_users[a0]);
                assert(self.db@.pending_users[b] == s0.pending_users[b0]);
            }
            assert forall|a: int, b: int|
                0 <= a < b < self.db@.namespaces.len() implies #[trigger] self.db@.namespaces[a].path@
                != #[trigger] self.db@.namespaces[b].path@ by {
                if b == s0.namespaces.len() {
                    assert(s0.namespaces[a].path@ != s0.pending_users[i as int].username@);
                }
            }
        }
        Ok(SignedIn::Success { session, user })
    }

    /// Completes a registration now, with fresh identifiers for the new user,
    /// its namespace and its session. `code_valid` is as for
    /// `complete_registration_at`.
    pub fn complete_registration(
        &mut self,
        actor: Option<User>,
        input: CompleteRegistrationInput,
        code_valid: bool,
    ) -> (r: Result<SignedIn, Error>)
        requires
            old(self).db.wf(),
        ensures
            final(self).db.wf(),
            exists|now: i64, user_id: u128, namespace_id: u128, session_id: u128|
                #[trigger] registration_post(
                    old(self).db@,
                    final(self).db@,
                    actor is Some,
                    input.pending_user_id,
                    code_valid,
                    now,
                    user_id,
                    namespace_id,
                    session_id,
                    r,
                ),
    {
        let ghost id = input.pending_user_id;
        let ghost authenticated = actor is Some;
        let ghost s0 = self.db@;
        let now = now_millis();
        let user_id = new_id();
        let namespace_id = new_id();
        let session_id = new_id();
        let r = self.complete_registration_at(
            actor,
            input,
            code_valid,
            now,
            user_id,
            namespace_id,
            session_id,
        );
        assert(registration_post(
            s0,
            self.db@,
            authenticated,
            id,
            code_valid,
            now,
            user_id,
            namespace_id,
            session_id,
            r,
        ));
        r
    }
}

/// A successful completion creates exactly one user, one namespace and one
/// session and consumes the pending registration; the user is an
/// administrator exactly when no user existed before.
pub proof fn lemma_registration_creates_one_each(
    s0: Tables,
    s1: Tables,
    pending_user_id: u128,
    now: i64,
    user_id: u128,
    namespace_id: u128,
    session_id: u128,
    r: Result<SignedIn, Error>,
)
    requires
        tables_wf(s0),
        registration_post(
            s0,
            s1,
            false,
            pending_user_id,
            true,
            now,
            user_id,
            namespace_id,
            session_id,
            r,
        ),
        r is Ok,
    ensures
        s1.users.len() == s0.users.len() + 1,
        s1.namespaces.len() == s0.namespaces.len() + 1,
        s1.sessions.len() == s0.sessions.len() + 1,
        s1.pending_users.len() == s0.pending_users.len() - 1,
        !has_pending(s1, pending_user_id),
        s1.users.last().is_admin == (s0.users.len() == 0),
        s1.sessions.last().user_id == s1.users.last().id,
        s1.namespaces.last().id == s1.users.last().namespace_id,
{
    let i = pending_index(s0, pending_user_id);
    assert(s1.pending_users == s0.pending_users.remove(i));
    if has_pending(s1, pending_user_id) {
        let a = choose|a: int|
            0 <= a < s1.pending_users.len() && #[trigger] s1.pending_users[a].id == pending_user_id;
        let a0 = if a < i { a } else { a + 1 };
        assert(s1.pending_users[a] == s0.pending_users[a0]);
        if a0 < i {
            assert(s0.pending_users[a0].id != s0.pending_users[i].id);
        } else {
            assert(s0.pending_users[i].id != s0.pending_users[a0].id);
        }
    }
}

/// Past the code's lifetime a completion fails as expired, whether or not the
/// code is right, and changes nothing (while attempts remain).
pub proof fn lemma_expired_code_refused(
    s0: Tables,
    s1: Tables,
    pending_user_id: u128,
    code_valid: bool,
    now: i64,
    user_id: u128,
    namespace_id: u128,
    session_id: u128,
    r: Result<SignedIn, Error>,
)
    requires
        registration_post(
            s0,
            s1,
            false,
            pending_user_id,
            code_valid,
            now,
            user_id,
            namespace_id,
            session_id,
            r,
        ),
        has_pending(s0, pending_user_id),
        s0.pending_users[pending_index(s0, pending_user_id)].failed_attempts
            < REGISTRATION_MAX_FAILED_ATTEMPTS,
        code_expired(s0.pending_users[pending_index(s0, pending_user_id)].created_at, now),
    ensures
        r == Err::<SignedIn, Error>(Error::RegistrationCodeExpired),
        s1 == s0,
{
}

/// After `k` consecutive wrong codes on a fresh registration, the record is
/// still there with `k` failed attempts, and each of those calls failed as an
/// invalid code.
proof fn lemma_wrong_codes_counted(
    states: Seq<Tables>,
    results: Seq<Result<SignedIn, Error>>,
    pending_user_id: u128,
    nows: Seq<i64>,
    user_ids: Seq<u128>,
    namespace_ids: Seq<u128>,
    session_ids: Seq<u128>,
    k: int,
)
    requires
        0 <= k <= REGISTRATION_MAX_FAILED_ATTEMPTS,
        states.len() > k,
        results.len() >= k,
        nows.len() >= k && user_ids.len() >= k && namespace_ids.len() >= k && session_ids.len() >= k,
        tables_wf(states[0]),
        has_pending(states[0], pending_user_id),
        states[0].pending_users[pending_index(states[0], pending_user_id)].failed_attempts == 0,
        forall|j: int|
            0 <= j < k ==> registration_post(
                #[trigger] states[j],
                states[j + 1],
                false,
                pending_user_id,
                false,
                nows[j],
                user_ids[j],
                namespace_ids[j],
                session_ids[j],
                results[j],
            ) && !code_expired(
                states[0].pending_users[pending_index(states[0], pending_user_id)].created_at,
                nows[j],
            ),
    ensures
        tables_wf(states[k]),
        has_pending(states[k], pending_user_id),
        states[k].pending_users[pending_index(states[k], pending_user_id)].failed_attempts == k,
        states[k].pending_users[pending_index(states[k], pending_user_id)].created_at
            == states[0].pending_users[pending_index(states[0], pending_user_id)].created_at,
        forall|j: int|
            0 <= j < k ==> #[trigger] results[j] == Err::<SignedIn, Error>(
                Error::InvalidRegistrationCode,
            ),
    decreases k,
{
    if k > 0 {
        lemma_wrong_codes_counted(
            states,
            results,
            pending_user_id,
            nows,
            user_ids,
            namespace_ids,
            session_ids,
            k - 1,
        );
        let t = states[k - 1];
        let u = states[k];
        assert(registration_post(
            t,
            u,
            false,
            pending_user_id,
            false,
            nows[k - 1],
            user_ids[k - 1],
            namespace_ids[k - 1],
            session_ids[k - 1],
            results[k - 1],
        ));
        let i = pending_index(t, pending_user_id);
        assert(u.pending_users == t.pending_users.update(i, after_failed_attempt(t.pending_users[i])));
        assert forall|a: int, b: int|
            0 <= a < b < u.pending_users.len() implies #[trigger] u.pending_users[a].id
            != #[trigger] u.pending_users[b].id by {
            assert(u.pending_users[a].id == t.pending_users[a].id);
            assert(u.pending_users[b].id == t.pending_users[b].id);
        }
        assert(u.namespaces == t.namespaces);
        lemma_pending_index(u, pending_user_id, i);
    }
}

/// A registration that received one wrong code more than the attempts allowed
/// refuses the last call as having reached the maximum, not as an invalid code.
pub proof fn lemma_attempts_exhausted(
    states: Seq<Tables>,
    results: Seq<Result<SignedIn, Error>>,
    pending_user_id: u128,
    nows: Seq<i64>,
    user_ids: Seq<u128>,
    namespace_ids: Seq<u128>,
    session_ids: Seq<u128>,
)
    requires
        states.len() == REGISTRATION_MAX_FAILED_ATTEMPTS + 2,
        results.len() == REGISTRATION_MAX_FAILED_ATTEMPTS + 1,
        nows.len() == results.len() && user_ids.len() == results.len() && namespace_ids.len()
            == results.len() && session_ids.len() == results.len(),
        tables_wf(states[0]),
        has_pending(states[0], pending_user_id),
        states[0].pending_users[pending_index(states[0], pending_user_id)].failed_attempts == 0,
        forall|j: int|
            0 <= j < results.len() ==> registration_post(
                #[trigger] states[j],
                states[j + 1],
                false,
                pending_user_id,
                false,
                nows[j],
                user_ids[j],
                namespace_ids[j],
                session_ids[j],
                results[j],
            ) && !code_expired(
                states[0].pending_users[pending_index(states[0], pending_user_id)].created_at,
                nows[j],
            ),
    ensures
        results[REGISTRATION_MAX_FAILED_ATTEMPTS as int] == Err::<SignedIn, Error>(
            Error::MaxRegistrationAttemptsReached,
        ),
{
    let m = REGISTRATION_MAX_FAILED_ATTEMPTS as int;
    lemma_wrong_codes_counted(
        states,
        results,
        pending_user_id,
        nows,
        user_ids,
        namespace_ids,
        session_ids,
        m,
    );
    assert(registration_post(
        states[m],
        states[m + 1],
        false,
        pending_user_id,
        false,
        nows[m],
        user_ids[m],
        namespace_ids[m],
        session_ids[m],
        results[m],
    ));
}

} // verus!
