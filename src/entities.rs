//! The records kept by the store. Identifiers are 128-bit values and
//! timestamps are milliseconds since the Unix epoch.
use vstd::prelude::*;

verus! {

#[derive(PartialEq, Eq, Structural, Clone, Copy, Debug)]
pub enum BillingPlan {
    Free,
    Starter,
    Pro,
    Ultra,
}

#[derive(PartialEq, Eq, Structural, Clone, Copy, Debug)]
pub enum NamespaceType {
    User,
    Group,
}

#[derive(PartialEq, Eq, Structural, Clone, Copy, Debug)]
pub enum GroupRole {
    Administrator,
    Member,
}

/// The unique addressable root of a user or a group.
#[derive(Clone, Debug)]
pub struct Namespace {
    pub id: u128,
    pub created_at: i64,
    pub updated_at: i64,
    pub path: String,
    pub namespace_type: NamespaceType,
}

/// A registration that waits for its code to be confirmed.
#[derive(Clone, Debug)]
pub struct PendingUser {
    pub id: u128,
    pub created_at: i64,
    pub updated_at: i64,
    pub username: String,
    pub email: String,
    pub code_hash: String,
    pub failed_attempts: i64,
}

#[derive(Clone, Debug)]
pub struct User {
    pub id: u128,
    pub created_at: i64,
    pub updated_at: i64,
    pub blocked_at: Option<i64>,
    pub username: String,
    pub email: String,
    pub is_admin: bool,
    pub two_fa_enabled: bool,
    pub name: String,
    pub description: String,
    pub used_storage: i64,
    pub plan: BillingPlan,
    pub namespace_id: u128,
}

#[derive(Clone, Copy, Debug)]
pub struct Session {
    pub id: u128,
    pub created_at: i64,
    pub updated_at: i64,
    pub user_id: u128,
}

#[derive(Clone, Debug)]
pub struct Group {
    pub id: u128,
    pub created_at: i64,
    pub updated_at: i64,
    pub name: String,
    pub description: String,
    pub used_storage: i64,
    pub plan: BillingPlan,
    pub namespace_id: u128,
    pub path: String,
}

#[derive(Clone, Copy, Debug)]
pub struct GroupMembership {
    pub joined_at: i64,
    pub role: GroupRole,
    pub user_id: u128,
    pub group_id: u128,
}

/// A billing identity; it outlives the namespace it was bound to.
#[derive(Clone, Copy, Debug)]
pub struct Customer {
    pub id: u128,
    pub created_at: i64,
    pub updated_at: i64,
    pub namespace_id: Option<u128>,
}

#[derive(Clone, Debug)]
pub struct Contact {
    pub id: u128,
    pub created_at: i64,
    pub updated_at: i64,
    pub name: String,
    pub email: String,
    pub phone: String,
    pub address: String,
    pub website: String,
    pub notes: String,
    pub namespace_id: u128,
}

#[derive(Clone, Debug)]
pub struct NewsletterList {
    pub id: u128,
    pub created_at: i64,
    pub updated_at: i64,
    pub name: String,
    pub namespace_id: u128,
}

#[derive(Clone, Copy, Debug)]
pub struct NewsletterListContactRelation {
    pub list_id: u128,
    pub contact_id: u128,
}

#[derive(Clone, Copy, Debug)]
pub struct NewsletterListSubscription {
    pub id: u128,
    pub created_at: i64,
    pub list_id: u128,
    pub contact_id: u128,
}

/// One record of a contact import, as read from the payload.
#[derive(Clone, Debug)]
pub struct ImportedContact {
    pub name: String,
    pub email: String,
}

impl Namespace {
    /// A copy equal to this record.
    pub fn duplicate(&self) -> (r: Self)
        ensures
            r == *self,
    {
        Namespace {
            id: self.id,
            created_at: self.created_at,
            updated_at: self.updated_at,
            path: self.path.clone(),
            namespace_type: self.namespace_type,
        }
    }
}

impl PendingUser {
    /// A copy equal to this record.
    pub fn duplicate(&self) -> (r: Self)
        ensures
            r == *self,
    {
        PendingUser {
            id: self.id,
            created_at: self.created_at,
            updated_at: self.updated_at,
            username: self.username.clone(),
            email: self.email.clone(),
            code_hash: self.code_hash.clone(),
            failed_attempts: self.failed_attempts,
        }
    }
}

impl User {
    /// A copy equal to this record.
    pub fn duplicate(&self) -> (r: Self)
        ensures
            r == *self,
    {
        User {
            id: self.id,
            created_at: self.created_at,
            updated_at: self.updated_at,
            blocked_at: self.blocked_at,
            username: self.username.clone(),
            email: self.email.clone(),
            is_admin: self.is_admin,
            two_fa_enabled: self.two_fa_enabled,
            name: self.name.clone(),
            description: self.description.clone(),
            used_storage: self.used_storage,
            plan: self.plan,
            namespace_id: self.namespace_id,
        }
    }
}

impl Group {
    /// A copy equal to this record.
    pub fn duplicate(&self) -> (r: Self)
        ensures
            r == *self,
    {
        Group {
            id: self.id,
            created_at: self.created_at,
            updated_at: self.updated_at,
            name: self.name.clone(),
            description: self.description.clone(),
            used_storage: self.used_storage,
            plan: self.plan,
            namespace_id: self.namespace_id,
            path: self.path.clone(),
        }
    }
}

impl Contact {
    /// A copy equal to this record.
    pub fn duplicate(&self) -> (r: Self)
        ensures
            r == *self,
    {
        Contact {
            id: self.id,
            created_at: self.created_at,
            updated_at: self.updated_at,
            name: self.name.clone(),
            email: self.email.clone(),
            phone: self.phone.clone(),
            address: self.address.clone(),
            website: self.website.clone(),
            notes: self.notes.clone(),
            namespace_id: self.namespace_id,
        }
    }
}

impl ImportedContact {
    /// A copy equal to this record.
    pub fn duplicate(&self) -> (r: Self)
        ensures
            r == *self,
    {
        ImportedContact {
            name: self.name.clone(),
            email: self.email.clone(),
        }
    }
}

} // verus!
