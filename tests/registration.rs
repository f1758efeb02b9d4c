use bloom_core::consts::{REGISTRATION_CODE_LIFETIME_MS, REGISTRATION_MAX_FAILED_ATTEMPTS};
use bloom_core::entities::{NamespaceType, PendingUser, User};
use bloom_core::errors::Error;
use bloom_core::registration::{CompleteRegistrationInput, SignedIn};
use bloom_core::store::{Service, Store};
use bloom_core::text::normalize_registration_code;

const T0: i64 = 1_700_000_000_000;

fn pending(id: u128, username: &str, email: &str, created_at: i64) -> PendingUser {
    PendingUser {
        id,
        created_at,
        updated_at: created_at,
        username: username.to_string(),
        email: email.to_string(),
        code_hash: "hash".to_string(),
        failed_attempts: 0,
    }
}

fn input(id: u128) -> CompleteRegistrationInput {
    CompleteRegistrationInput { pending_user_id: id, code: "abc-def".to_string() }
}

fn service_with(p: Vec<PendingUser>) -> Service {
    let mut db = Store::new();
    db.pending_users = p;
    Service::new(db)
}

#[test]
fn registration_code_is_normalised() {
    assert_eq!(normalize_registration_code("  AB-CD-12 "), "abcd12");
    assert_eq!(normalize_registration_code("x-Y-z"), "xyz");
    assert_eq!(normalize_registration_code(""), "");
}

#[test]
fn first_user_is_admin_and_records_are_created() {
    let mut s = service_with(vec![pending(7, "alice", "alice@example.com", T0)]);
    let r = s.complete_registration_at(None, input(7), true, T0 + 1000, 11, 12, 13);
    let SignedIn::Success { session, user } = r.unwrap();
    assert!(user.is_admin);
    assert_eq!(user.id, 11);
    assert_eq!(user.username, "alice");
    assert_eq!(user.email, "alice@example.com");
    assert_eq!(user.namespace_id, 12);
    assert_eq!(session.id, 13);
    assert_eq!(session.user_id, 11);
    assert_eq!(s.db.users.len(), 1);
    assert_eq!(s.db.sessions.len(), 1);
    assert_eq!(s.db.namespaces.len(), 1);
    assert_eq!(s.db.namespaces[0].path, "alice");
    assert_eq!(s.db.namespaces[0].namespace_type, NamespaceType::User);
    assert!(s.db.pending_users.is_empty());
}

#[test]
fn second_user_is_not_admin() {
    let mut s = service_with(vec![
        pending(1, "alice", "alice@example.com", T0),
        pending(2, "bobby", "bob@example.com", T0),
    ]);
    assert!(s.complete_registration_at(None, input(1), true, T0, 11, 12, 13).is_ok());
    let SignedIn::Success { user, .. } =
        s.complete_registration_at(None, input(2), true, T0, 21, 22, 23).unwrap();
    assert!(!user.is_admin);
    assert_eq!(s.db.users.len(), 2);
}

#[test]
fn registration_through_the_clock_succeeds_while_fresh() {
    let now = chrono::Utc::now().timestamp_millis();
    let mut s = service_with(vec![pending(3, "carol", "carol@example.com", now)]);
    let r = s.complete_registration(None, input(3), true);
    assert!(r.is_ok());
    assert_eq!(s.db.users.len(), 1);
}

#[test]
fn expired_code_is_refused_even_when_right() {
    for valid in [true, false] {
        let mut s = service_with(vec![pending(7, "alice", "alice@example.com", T0)]);
        let r = s.complete_registration_at(
            None,
            input(7),
            valid,
            T0 + REGISTRATION_CODE_LIFETIME_MS,
            1,
            2,
            3,
        );
        assert!(matches!(r, Err(Error::RegistrationCodeExpired)));
        assert_eq!(s.db.pending_users.len(), 1);
        assert_eq!(s.db.pending_users[0].failed_attempts, 0);
        assert!(s.db.users.is_empty());
    }
}

#[test]
fn code_just_before_expiry_is_accepted() {
    let mut s = service_with(vec![pending(7, "alice", "alice@example.com", T0)]);
    let r = s.complete_registration_at(
        None,
        input(7),
        true,
        T0 + REGISTRATION_CODE_LIFETIME_MS - 1,
        1,
        2,
        3,
    );
    assert!(r.is_ok());
}

#[test]
fn attempts_run_out_after_wrong_codes() {
    let mut s = service_with(vec![pending(7, "alice", "alice@example.com", T0)]);
    for i in 0..REGISTRATION_MAX_FAILED_ATTEMPTS {
        let r = s.complete_registration_at(None, input(7), false, T0 + 10, 1, 2, 3);
        assert!(matches!(r, Err(Error::InvalidRegistrationCode)));
        assert_eq!(s.db.pending_users[0].failed_attempts, i + 1);
    }
    let r = s.complete_registration_at(None, input(7), false, T0 + 10, 1, 2, 3);
    assert!(matches!(r, Err(Error::MaxRegistrationAttemptsReached)));
    let r = s.complete_registration_at(None, input(7), true, T0 + 10, 1, 2, 3);
    assert!(matches!(r, Err(Error::MaxRegistrationAttemptsReached)));
    assert!(s.db.users.is_empty());
}

#[test]
fn authenticated_caller_is_refused() {
    let mut s = service_with(vec![pending(7, "alice", "alice@example.com", T0)]);
    let actor = User {
        id: 99,
        created_at: T0,
        updated_at: T0,
        blocked_at: None,
        username: "zed".to_string(),
        email: "zed@example.com".to_string(),
        is_admin: false,
        two_fa_enabled: false,
        name: "zed".to_string(),
        description: String::new(),
        used_storage: 0,
        plan: bloom_core::entities::BillingPlan::Free,
        namespace_id: 5,
    };
    let r = s.complete_registration_at(Some(actor), input(7), true, T0, 1, 2, 3);
    assert!(matches!(r, Err(Error::MustNotBeAuthenticated)));
    assert_eq!(s.db.pending_users.len(), 1);
}

#[test]
fn unknown_pending_registration_is_not_found() {
    let mut s = service_with(vec![pending(7, "alice", "alice@example.com", T0)]);
    let r = s.complete_registration_at(None, input(8), true, T0, 1, 2, 3);
    assert!(matches!(r, Err(Error::PendingUserNotFound)));
}

#[test]
fn taken_email_and_username_are_refused() {
    let mut s = service_with(vec![
        pending(1, "alice", "same@example.com", T0),
        pending(2, "bobby", "same@example.com", T0),
        pending(3, "alice", "other@example.com", T0),
    ]);
    assert!(s.complete_registration_at(None, input(1), true, T0, 11, 12, 13).is_ok());
    let r = s.complete_registration_at(None, input(2), true, T0, 21, 22, 23);
    assert!(matches!(r, Err(Error::EmailAlreadyExists)));
    let r = s.complete_registration_at(None, input(3), true, T0, 31, 32, 33);
    assert!(matches!(r, Err(Error::UsernameAlreadyExists)));
    assert_eq!(s.db.users.len(), 1);
    assert_eq!(s.db.pending_users.len(), 2);
    assert_eq!(s.db.pending_users[0].id, 2);
    assert_eq!(s.db.pending_users[1].id, 3);
}
