use bloom_core::entities::{BillingPlan, Customer, GroupMembership, GroupRole, User};
use bloom_core::errors::Error;
use bloom_core::groups::{validate_namespace, CreateGroupInput, DeleteGroupInput};
use bloom_core::store::{Service, Store};

const T0: i64 = 1_700_000_000_000;

fn user(id: u128, namespace_id: u128) -> User {
    User {
        id,
        created_at: T0,
        updated_at: T0,
        blocked_at: None,
        username: format!("user{}", id),
        email: format!("user{}@example.com", id),
        is_admin: false,
        two_fa_enabled: false,
        name: String::new(),
        description: String::new(),
        used_storage: 0,
        plan: BillingPlan::Free,
        namespace_id,
    }
}

fn group_input(path: &str) -> CreateGroupInput {
    CreateGroupInput {
        path: path.to_string(),
        name: "  My Team ".to_string(),
        description: " shared files ".to_string(),
    }
}

fn service() -> Service {
    Service::new(Store::new())
}

#[test]
fn group_creation_normalises_and_makes_creator_admin() {
    let mut s = service();
    let g = s.create_group_at(Some(user(1, 100)), group_input("  MyTeam "), T0, 5, 6).unwrap();
    assert_eq!(g.path, "myteam");
    assert_eq!(g.name, "My Team");
    assert_eq!(g.description, "shared files");
    assert_eq!(g.plan, BillingPlan::Free);
    assert_eq!(g.used_storage, 0);
    assert_eq!(g.namespace_id, 6);
    assert_eq!(s.db.namespaces.len(), 1);
    assert_eq!(s.db.namespaces[0].path, "myteam");
    assert_eq!(s.db.memberships.len(), 1);
    assert_eq!(s.db.memberships[0].role, GroupRole::Administrator);
    assert_eq!(s.db.memberships[0].user_id, 1);
    assert_eq!(s.db.memberships[0].group_id, 5);
}

#[test]
fn second_group_with_same_path_conflicts() {
    let mut s = service();
    let first = s.create_group(Some(user(1, 100)), group_input("teamspace")).unwrap();
    let r = s.create_group(Some(user(2, 200)), group_input(" TeamSpace"));
    assert!(matches!(r, Err(Error::NamespaceAlreadyExists)));
    assert_eq!(s.db.groups.len(), 1);
    assert_eq!(s.db.groups[0].id, first.id);
    assert_eq!(s.db.namespaces.len(), 1);
    assert_eq!(s.db.memberships.len(), 1);
}

#[test]
fn group_creation_validates_input() {
    let mut s = service();
    let r = s.create_group_at(Some(user(1, 100)), group_input("ab"), T0, 5, 6);
    assert!(matches!(r, Err(Error::InvalidNamespace)));
    let r = s.create_group_at(Some(user(1, 100)), group_input("bad-path"), T0, 5, 6);
    assert!(matches!(r, Err(Error::InvalidNamespace)));
    let mut bad_name = group_input("teamspace");
    bad_name.name = "   ".to_string();
    let r = s.create_group_at(Some(user(1, 100)), bad_name, T0, 5, 6);
    assert!(matches!(r, Err(Error::InvalidGroupName)));
    let mut bad_description = group_input("teamspace");
    bad_description.description = "x".repeat(351);
    let r = s.create_group_at(Some(user(1, 100)), bad_description, T0, 5, 6);
    assert!(matches!(r, Err(Error::InvalidGroupDescription)));
    let r = s.create_group_at(None, group_input("teamspace"), T0, 5, 6);
    assert!(matches!(r, Err(Error::AuthenticationRequired)));
    assert!(s.db.groups.is_empty());
    assert!(validate_namespace("abcd").is_ok());
    assert!(validate_namespace("ABCD").is_err());
}

fn service_with_group() -> Service {
    let mut s = service();
    s.create_group_at(Some(user(1, 100)), group_input("teamspace"), T0, 5, 6).unwrap();
    s.db.memberships.push(GroupMembership {
        joined_at: T0,
        role: GroupRole::Member,
        user_id: 2,
        group_id: 5,
    });
    s.db.customers.push(Customer { id: 40, created_at: T0, updated_at: T0, namespace_id: Some(6) });
    s.db.customers.push(Customer { id: 41, created_at: T0, updated_at: T0, namespace_id: Some(9) });
    s
}

#[test]
fn member_without_admin_role_cannot_delete() {
    let mut s = service_with_group();
    let r = s.delete_group_at(Some(user(2, 200)), DeleteGroupInput { group_id: 5 }, T0 + 1);
    assert!(matches!(r, Err(Error::AdminRoleRequired)));
    let r = s.delete_group_at(Some(user(3, 300)), DeleteGroupInput { group_id: 5 }, T0 + 1);
    assert!(matches!(r, Err(Error::AdminRoleRequired)));
    assert_eq!(s.db.groups.len(), 1);
    assert_eq!(s.db.namespaces.len(), 1);
    assert_eq!(s.db.memberships.len(), 2);
}

#[test]
fn paid_group_cannot_be_deleted() {
    let mut s = service_with_group();
    s.db.groups[0].plan = BillingPlan::Pro;
    let r = s.delete_group_at(Some(user(1, 100)), DeleteGroupInput { group_id: 5 }, T0 + 1);
    assert!(matches!(r, Err(Error::SubscriptionIsActive)));
    assert_eq!(s.db.groups.len(), 1);
    assert_eq!(s.db.customers[0].namespace_id, Some(6));
}

#[test]
fn deletion_unbinds_customer_and_removes_group() {
    let mut s = service_with_group();
    let r = s.delete_group_at(Some(user(1, 100)), DeleteGroupInput { group_id: 5 }, T0 + 7);
    assert!(r.is_ok());
    assert!(s.db.groups.is_empty());
    assert!(s.db.namespaces.is_empty());
    assert!(s.db.memberships.is_empty());
    assert_eq!(s.db.customers.len(), 2);
    assert_eq!(s.db.customers[0].id, 40);
    assert_eq!(s.db.customers[0].namespace_id, None);
    assert_eq!(s.db.customers[0].updated_at, T0 + 7);
    assert_eq!(s.db.customers[1].namespace_id, Some(9));
}

#[test]
fn deleting_unknown_group_is_not_found() {
    let mut s = service_with_group();
    let r = s.delete_group(Some(user(1, 100)), DeleteGroupInput { group_id: 77 });
    assert!(matches!(r, Err(Error::GroupNotFound)));
    let r = s.delete_group(None, DeleteGroupInput { group_id: 5 });
    assert!(matches!(r, Err(Error::AuthenticationRequired)));
    assert!(s.delete_group(Some(user(1, 100)), DeleteGroupInput { group_id: 5 }).is_ok());
}
