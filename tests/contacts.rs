use bloom_core::consts::MAX_IMPORT_CONTACTS_CSV_LENGTH;
use bloom_core::contacts::{dedup_records, prepare_import, validate_email, ImportContactsInput};
use bloom_core::entities::{
    BillingPlan, Group, GroupMembership, GroupRole, ImportedContact, NewsletterList,
    NewsletterListSubscription, User,
};
use bloom_core::errors::Error;
use bloom_core::store::{Repository, Service, Store};
use bloom_core::text::normalize_email;

const T0: i64 = 1_700_000_000_000;

fn user(id: u128, namespace_id: u128) -> User {
    User {
        id,
        created_at: T0,
        updated_at: T0,
        blocked_at: None,
        username: format!("user{}", id),
        email: format!("user{}@example.com", id),
        is_admin: false,
        two_fa_enabled: false,
        name: String::new(),
        description: String::new(),
        used_storage: 0,
        plan: BillingPlan::Free,
        namespace_id,
    }
}

fn list(id: u128, namespace_id: u128) -> NewsletterList {
    NewsletterList { id, created_at: T0, updated_at: T0, name: "news".to_string(), namespace_id }
}

fn service() -> Service {
    let mut db = Store::new();
    db.lists.push(list(50, 100));
    db.lists.push(list(51, 200));
    Service::new(db)
}

fn import(s: &mut Service, list_id: Option<u128>, csv: &str) -> Result<Vec<bloom_core::entities::Contact>, Error> {
    let input = ImportContactsInput { namespace_id: 100, list_id, contacts_csv: csv.to_string() };
    s.import_contacts(Some(user(1, 100)), input)
}

#[test]
fn emails_are_trimmed_and_lowered() {
    assert_eq!(normalize_email("  Alice@Example.COM "), "alice@example.com");
    assert_eq!(normalize_email(""), "");
}

#[test]
fn last_record_wins_on_equal_emails() {
    let mut s = service();
    let out = import(&mut s, None, "name,email\nBob, X@Y.com \nBob2,x@y.com\n").unwrap();
    assert_eq!(out.len(), 1);
    assert_eq!(out[0].email, "x@y.com");
    assert_eq!(out[0].name, "Bob2");
    assert_eq!(s.db.contacts.len(), 1);
    assert_eq!(s.db.contacts[0].email, "x@y.com");
    assert_eq!(s.db.contacts[0].name, "Bob2");
    assert_eq!(s.db.contacts[0].namespace_id, 100);
}

#[test]
fn dedup_keeps_first_position_and_last_value() {
    let recs = vec![
        ImportedContact { name: "a".to_string(), email: "a@x.io".to_string() },
        ImportedContact { name: "b".to_string(), email: "b@x.io".to_string() },
        ImportedContact { name: "c".to_string(), email: "a@x.io".to_string() },
    ];
    let d = dedup_records(&recs);
    assert_eq!(d.len(), 2);
    assert_eq!(d[0].name, "c");
    assert_eq!(d[0].email, "a@x.io");
    assert_eq!(d[1].name, "b");
}

#[test]
fn empty_name_keeps_stored_name_and_new_name_replaces_it() {
    let mut s = service();
    import(&mut s, None, "name,email\nAlice,alice@example.com\n").unwrap();
    let id = s.db.contacts[0].id;
    let out = import(&mut s, None, "name,email\n,ALICE@example.com\n").unwrap();
    assert_eq!(out[0].id, id);
    assert_eq!(s.db.contacts.len(), 1);
    assert_eq!(s.db.contacts[0].name, "Alice");
    let out = import(&mut s, None, "email,name\nalice@example.com,Alicia\n").unwrap();
    assert_eq!(out[0].id, id);
    assert_eq!(s.db.contacts.len(), 1);
    assert_eq!(s.db.contacts[0].name, "Alicia");
}

#[test]
fn oversized_payload_is_refused() {
    let mut s = service();
    let mut csv = "name,email\n".to_string();
    while csv.len() <= MAX_IMPORT_CONTACTS_CSV_LENGTH {
        csv.push_str("Someone,someone@example.com\n");
    }
    let r = import(&mut s, None, &csv);
    assert!(matches!(r, Err(Error::ContactsCsvTooLarge)));
    assert!(s.db.contacts.is_empty());
}

#[test]
fn list_of_other_namespace_is_refused() {
    let mut s = service();
    let r = import(&mut s, Some(51), "name,email\nBob,bob@example.com\n");
    assert!(matches!(r, Err(Error::PermissionDenied)));
    assert!(s.db.contacts.is_empty());
    assert!(s.db.list_contacts.is_empty());
    let r = import(&mut s, Some(52), "name,email\nBob,bob@example.com\n");
    assert!(matches!(r, Err(Error::NewsletterListNotFound)));
}

#[test]
fn import_relates_contacts_to_list_once() {
    let mut s = service();
    import(&mut s, Some(50), "name,email\nBob,bob@example.com\nEve,eve@example.com\n").unwrap();
    assert_eq!(s.db.list_contacts.len(), 2);
    import(&mut s, Some(50), "name,email\nBob,bob@example.com\n").unwrap();
    assert_eq!(s.db.list_contacts.len(), 2);
    assert_eq!(s.db.list_contacts[0].list_id, 50);
    assert_eq!(s.db.list_contacts[0].contact_id, s.db.contacts[0].id);
}

#[test]
fn non_member_is_refused() {
    let mut s = service();
    let input = ImportContactsInput {
        namespace_id: 300,
        list_id: None,
        contacts_csv: "name,email\nBob,bob@example.com\n".to_string(),
    };
    let r = s.import_contacts(Some(user(1, 100)), input);
    assert!(matches!(r, Err(Error::PermissionDenied)));
    let input = ImportContactsInput { namespace_id: 100, list_id: None, contacts_csv: String::new() };
    let r = s.import_contacts(None, input);
    assert!(matches!(r, Err(Error::AuthenticationRequired)));
}

#[test]
fn group_member_may_import_into_group_namespace() {
    let mut s = service();
    s.db.groups.push(Group {
        id: 9,
        created_at: T0,
        updated_at: T0,
        name: "team".to_string(),
        description: String::new(),
        used_storage: 0,
        plan: BillingPlan::Free,
        namespace_id: 300,
        path: "team".to_string(),
    });
    s.db.memberships.push(GroupMembership { joined_at: T0, role: GroupRole::Member, user_id: 1, group_id: 9 });
    let input = ImportContactsInput {
        namespace_id: 300,
        list_id: None,
        contacts_csv: "name,email\nBob,bob@example.com\n".to_string(),
    };
    let out = s.import_contacts(Some(user(1, 100)), input).unwrap();
    assert_eq!(out.len(), 1);
    assert_eq!(out[0].namespace_id, 300);
}

#[test]
fn malformed_and_invalid_payloads_are_refused() {
    assert!(matches!(prepare_import("name,email\nBob\n"), Err(Error::InvalidCsv)));
    assert!(matches!(prepare_import("name,mail\nBob,bob@example.com\n"), Err(Error::InvalidCsv)));
    assert!(matches!(prepare_import("name,email\nBob,not-an-email\n"), Err(Error::InvalidEmail)));
    let long_name = format!("name,email\n{},bob@example.com\n", "n".repeat(129));
    assert!(matches!(prepare_import(&long_name), Err(Error::InvalidContactName)));
    assert_eq!(prepare_import("").unwrap().len(), 0);
    assert_eq!(prepare_import("name,email\n").unwrap().len(), 0);
    assert_eq!(prepare_import("name,email\nNobody,  \n").unwrap().len(), 0);
    let mut s = service();
    let r = import(&mut s, None, "name,email\nBob,bob@example.com\nBad,bad\n");
    assert!(matches!(r, Err(Error::InvalidEmail)));
    assert!(s.db.contacts.is_empty());
}

#[test]
fn email_validation_rules() {
    assert!(validate_email("a@b"));
    assert!(!validate_email("@ab"));
    assert!(!validate_email("ab@"));
    assert!(!validate_email("ab"));
}

#[test]
fn repository_inserts_and_lists_subscriptions() {
    let repo = Repository {};
    let mut db = Store::new();
    assert!(repo.create_user(&mut db, &user(4, 400)).is_ok());
    assert_eq!(db.users.len(), 1);
    assert_eq!(db.users[0].id, 4);
    for (id, list_id) in [(1u128, 50u128), (2, 51), (3, 50)] {
        db.subscriptions.push(NewsletterListSubscription { id, created_at: T0, list_id, contact_id: id });
    }
    let subs = repo.find_subscriptions_for_list(&db, 50).unwrap();
    assert_eq!(subs.len(), 2);
    assert_eq!(subs[0].id, 1);
    assert_eq!(subs[1].id, 3);
    assert!(repo.find_subscriptions_for_list(&db, 99).unwrap().is_empty());
}
