//! The store: one table per kind of record. Every operation of the library
//! performs its checks before its first write, so a failed operation leaves
//! every table as it found it.
use vstd::prelude::*;
use crate::entities::{
    Contact, Customer, Group, GroupMembership, Namespace, NewsletterList,
    NewsletterListContactRelation, NewsletterListSubscription, PendingUser, Session, User,
};
use crate::errors::Error;

verus! {

pub struct Store {
    pub namespaces: Vec<Namespace>,
    pub pending_users: Vec<PendingUser>,
    pub users: Vec<User>,
    pub sessions: Vec<Session>,
    pub groups: Vec<Group>,
    pub memberships: Vec<GroupMembership>,
    pub customers: Vec<Customer>,
    pub contacts: Vec<Contact>,
    pub lists: Vec<NewsletterList>,
    pub list_contacts: Vec<NewsletterListContactRelation>,
    pub subscriptions: Vec<NewsletterListSubscription>,
}

/// The contents of a store, table by table.
pub struct Tables {
    pub namespaces: Seq<Namespace>,
    pub pending_users: Seq<PendingUser>,
    pub users: Seq<User>,
    pub sessions: Seq<Session>,
    pub groups: Seq<Group>,
    pub memberships: Seq<GroupMembership>,
    pub customers: Seq<Customer>,
    pub contacts: Seq<Contact>,
    pub lists: Seq<NewsletterList>,
    pub list_contacts: Seq<NewsletterListContactRelation>,
    pub subscriptions: Seq<NewsletterListSubscription>,
}

impl View for Store {
    type V = Tables;

    open spec fn view(&self) -> Tables {
        Tables {
            namespaces: self.namespaces@,
            pending_users: self.pending_users@,
            users: self.users@,
            sessions: self.sessions@,
            groups: self.groups@,
            memberships: self.memberships@,
            customers: self.customers@,
            contacts: self.contacts@,
            lists: self.lists@,
            list_contacts: self.list_contacts@,
            subscriptions: self.subscriptions@,
        }
    }
}

/// Some namespace has this path.
pub open spec fn path_taken(t: Tables, path: Seq<char>) -> bool {
    exists|i: int| 0 <= i < t.namespaces.len() && #[trigger] t.namespaces[i].path@ == path
}

/// Some user has this email.
pub open spec fn email_taken(t: Tables, email: Seq<char>) -> bool {
    exists|i: int| 0 <= i < t.users.len() && #[trigger] t.users[i].email@ == email
}

/// No two pending registrations share an identifier, and no two namespaces a path.
pub open spec fn tables_wf(t: Tables) -> bool {
    &&& forall|i: int, j: int|
        0 <= i < j < t.pending_users.len() ==> #[trigger] t.pending_users[i].id
            != #[trigger] t.pending_users[j].id
    &&& forall|i: int, j: int|
        0 <= i < j < t.namespaces.len() ==> #[trigger] t.namespaces[i].path@
            != #[trigger] t.namespaces[j].path@
}

impl Store {
    pub open spec fn wf(&self) -> bool {
        tables_wf(self@)
    }

    pub fn new() -> (r: Store)
        ensures
            r@.namespaces.len() == 0,
            r@.pending_users.len() == 0,
            r@.users.len() == 0,
            r@.sessions.len() == 0,
            r@.groups.len() == 0,
            r@.memberships.len() == 0,
            r@.customers.len() == 0,
            r@.contacts.len() == 0,
            r@.lists.len() == 0,
            r@.list_contacts.len() == 0,
            r@.subscriptions.len() == 0,
            r.wf(),
    {
        Store {
            namespaces: Vec::new(),
            pending_users: Vec::new(),
            users: Vec::new(),
            sessions: Vec::new(),
            groups: Vec::new(),
            memberships: Vec::new(),
            customers: Vec::new(),
            contacts: Vec::new(),
            lists: Vec::new(),
            list_contacts: Vec::new(),
            subscriptions: Vec::new(),
        }
    }

    /// Whether the store holds its invariant: tells `wf` at run time.
    pub fn is_well_formed(&self) -> (r: bool)
        ensures
            r == self.wf(),
    {
        let n = self.pending_users.len();
        let mut i: usize = 0;
        while i < n
            invariant
                n == self@.pending_users.len(),
                i <= n,
                forall|a: int, b: int|
                    0 <= a < i && a < b < n ==> #[trigger] self@.pending_users[a].id
                        != #[trigger] self@.pending_users[b].id,
            decreases n - i,
        {
            let mut j: usize = i + 1;
            while j < n
                invariant
                    n == self@.pending_users.len(),
                    i < n,
                    i < j <= n,
                    forall|a: int, b: int|
                        0 <= a < i && a < b < n ==> #[trigger] self@.pending_users[a].id
                            != #[trigger] self@.pending_users[b].id,
                    forall|b: int| i < b < j ==> self@.pending_users[i as int].id
                        != #[trigger] self@.pending_users[b].id,
                decreases n - j,
            {
                if self.pending_users[i].id == self.pending_users[j].id {
                    return false;
                }
                j = j + 1;
            }
            i = i + 1;
        }
        let m = self.namespaces.len();
        let mut i: usize = 0;
        while i < m
            invariant
                n == self@.pending_users.len(),
                forall|a: int, b: int|
                    0 <= a < b < n ==> #[trigger] self@.pending_users[a].id
                        != #[trigger] self@.pending_users[b].id,
                m == self@.namespaces.len(),
                i <= m,
                forall|a: int, b: int|
                    0 <= a < i && a < b < m ==> #[trigger] self@.namespaces[a].path@
                        != #[trigger] self@.namespaces[b].path@,
            decreases m - i,
        {
            let mut j: usize = i + 1;
            while j < m
                invariant
                    m == self@.namespaces.len(),
                    i < m,
                    i < j <= m,
                    forall|a: int, b: int|
                        0 <= a < i && a < b < m ==> #[trigger] self@.namespaces[a].path@
                            != #[trigger] self@.namespaces[b].path@,
                    forall|b: int| i < b < j ==> self@.namespaces[i as int].path@
                        != #[trigger] self@.namespaces[b].path@,
                decreases m - j,
            {
                if self.namespaces[i].path == self.namespaces[j].path {
                    return false;
                }
                j = j + 1;
            }
            i = i + 1;
        }
        true
    }

    /// Position of the pending registration with this identifier.
    pub fn find_pending_user(&self, id: u128) -> (r: Option<usize>)
        ensures
            match r {
                Some(i) => i < self@.pending_users.len() && self@.pending_users[i as int].id == id,
                None => forall|j: int|
                    0 <= j < self@.pending_users.len() ==> #[trigger] self@.pending_users[j].id != id,
            },
    {
        let mut i: usize = 0;
        while i < self.pending_users.len()
            invariant
                i <= self@.pending_users.len(),
                forall|j: int| 0 <= j < i ==> #[trigger] self@.pending_users[j].id != id,
            decreases self@.pending_users.len() - i,
        {
            if self.pending_users[i].id == id {
                return Some(i);
            }
            i = i + 1;
        }
        None
    }

    pub fn check_namespace_exists(&self, path: &String) -> (r: bool)
        ensures
            r == path_taken(self@, path@),
    {
        let mut i: usize = 0;
        while i < self.namespaces.len()
            invariant
                i <= self@.namespaces.len(),
                forall|j: int| 0 <= j < i ==> #[trigger] self@.namespaces[j].path@ != path@,
            decreases self@.namespaces.len() - i,
        {
            if self.namespaces[i].path == *path {
                return true;
            }
            i = i + 1;
        }
        false
    }

    pub fn user_email_exists(&self, email: &String) -> (r: bool)
        ensures
            r == email_taken(self@, email@),
    {
        let mut i: usize = 0;
        while i < self.users.len()
            invariant
                i <= self@.users.len(),
                forall|j: int| 0 <= j < i ==> #[trigger] self@.users[j].email@ != email@,
            decreases self@.users.len() - i,
        {
            if self.users[i].email == *email {
                return true;
            }
            i = i + 1;
        }
        false
    }
}

/// The queries and writes on the store's tables.
pub struct Repository {}

impl Repository {
    /// Inserts a user.
    pub fn create_user(&self, db: &mut Store, user: &User) -> (r: Result<(), Error>)
        ensures
            r is Ok,
            final(db)@ == (Tables { users: old(db)@.users.push(*user), ..old(db)@ }),
    {
        db.users.push(user.duplicate());
        Ok(())
    }

    /// The subscriptions of a newsletter list, in the order they are stored.
    pub fn find_subscriptions_for_list(&self, db: &Store, list_id: u128) -> (r: Result<
        Vec<NewsletterListSubscription>,
        Error,
    >)
        ensures
            r matches Ok(v) && v@ == db@.subscriptions.filter(
                |s: NewsletterListSubscription| s.list_id == list_id,
            ),
    {
        let mut out: Vec<NewsletterListSubscription> = Vec::new();
        let mut i: usize = 0;
        while i < db.subscriptions.len()
            invariant
                i <= db@.subscriptions.len(),
                out@ == db@.subscriptions.subrange(0, i as int).filter(
                    |s: NewsletterListSubscription| s.list_id == list_id,
                ),
            decreases db@.subscriptions.len() - i,
        {
            let s = db.subscriptions[i];
            assert(db@.subscriptions.subrange(0, i as int + 1).drop_last()
                == db@.subscriptions.subrange(0, i as int));
            assert(db@.subscriptions.subrange(0, i as int + 1).last() == s);
            proof {
                reveal_with_fuel(Seq::filter, 1);
            }
            if s.list_id == list_id {
                out.push(s);
            }
            i = i + 1;
        }
        assert(db@.subscriptions.subrange(0, i as int) == db@.subscriptions);
        Ok(out)
    }
}

} // verus!

verus! {

/// The services: the operations that keep several tables consistent.
pub struct Service {
    pub repo: Repository,
    pub db: Store,
}

impl Service {
    pub fn new(db: Store) -> (r: Service)
        ensures
            r.db == db,
    {
        Service { repo: Repository {  }, db }
    }
}

} // verus!
