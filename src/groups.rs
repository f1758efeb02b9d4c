//! Group lifecycle: creation with its namespace and founding administrator;
//! deletion guarded by role and billing plan.
use vstd::prelude::*;
use crate::consts::{
    GROUP_DESCRIPTION_MAX_LENGTH, GROUP_NAME_MAX_LENGTH, NAMESPACE_MAX_LENGTH,
    NAMESPACE_MIN_LENGTH,
};
use crate::entities::{
    BillingPlan, Customer, Group, GroupMembership, GroupRole, Namespace, NamespaceType, User,
};
use crate::errors::Error;
use crate::ids::{new_id, now_millis};
use crate::store::{path_taken, Service, Tables};
use crate::text::{lower_of, lowercased, trim_of, trimmed};

verus! {

pub struct CreateGroupInput {
    pub path: String,
    pub name: String,
    pub description: String,
}

pub struct DeleteGroupInput {
    pub group_id: u128,
}

pub open spec fn is_namespace_char(c: char) -> bool {
    ('a' <= c && c <= 'z') || ('0' <= c && c <= '9')
}

/// A namespace path: lower-case ASCII letters and digits, of bounded length.
pub open spec fn valid_namespace(path: Seq<char>) -> bool {
    &&& NAMESPACE_MIN_LENGTH <= path.len() <= NAMESPACE_MAX_LENGTH
    &&& forall|i: int| 0 <= i < path.len() ==> is_namespace_char(#[trigger] path[i])
}

pub open spec fn valid_group_name(name: Seq<char>) -> bool {
    0 < name.len() <= GROUP_NAME_MAX_LENGTH
}

pub open spec fn valid_group_description(description: Seq<char>) -> bool {
    description.len() <= GROUP_DESCRIPTION_MAX_LENGTH
}

pub fn validate_namespace(path: &str) -> (r: Result<(), Error>)
    ensures
        r is Ok <==> valid_namespace(path@),
        r is Err ==> r == Err::<(), Error>(Error::InvalidNamespace),
{
    let n = path.unicode_len();
    if n < NAMESPACE_MIN_LENGTH || n > NAMESPACE_MAX_LENGTH {
        return Err(Error::InvalidNamespace);
    }
    let mut i: usize = 0;
    while i < n
        invariant
            n == path@.len(),
            i <= n,
            forall|j: int| 0 <= j < i ==> is_namespace_char(#[trigger] path@[j]),
        decreases n - i,
    {
        let c = path.get_char(i);
        if !(('a' <= c && c <= 'z') || ('0' <= c && c <= '9')) {
            return Err(Error::InvalidNamespace);
        }
        i = i + 1;
    }
    Ok(())
}

pub fn validate_group_name(name: &str) -> (r: Result<(), Error>)
    ensures
        r is Ok <==> valid_group_name(name@),
        r is Err ==> r == Err::<(), Error>(Error::InvalidGroupName),
{
    let n = name.unicode_len();
    if n == 0 || n > GROUP_NAME_MAX_LENGTH {
        return Err(Error::InvalidGroupName);
    }
    Ok(())
}

pub fn validate_group_description(description: &str) -> (r: Result<(), Error>)
    ensures
        r is Ok <==> valid_group_description(description@),
        r is Err ==> r == Err::<(), Error>(Error::InvalidGroupDescription),
{
    if description.unicode_len() > GROUP_DESCRIPTION_MAX_LENGTH {
        return Err(Error::InvalidGroupDescription);
    }
    Ok(())
}

/// What creating a group does to the tables `s0`, giving `s1` and `r`: the
/// path is trimmed and lowered, name and description trimmed.
pub open spec fn create_group_post(
    s0: Tables,
    s1: Tables,
    actor: Option<User>,
    path: Seq<char>,
    name: Seq<char>,
    description: Seq<char>,
    now: i64,
    group_id: u128,
    namespace_id: u128,
    r: Result<Group, Error>,
) -> bool {
    let path = lower_of(trim_of(path));
    let name = trim_of(name);
    let description = trim_of(description);
    if actor is None {
        r == Err::<Group, Error>(Error::AuthenticationRequired) && s1 == s0
    } else if !valid_namespace(path) {
        r == Err::<Group, Error>(Error::InvalidNamespace) && s1 == s0
    } else if !valid_group_name(name) {
        r == Err::<Group, Error>(Error::InvalidGroupName) && s1 == s0
    } else if !valid_group_description(description) {
        r == Err::<Group, Error>(Error::InvalidGroupDescription) && s1 == s0
    } else if path_taken(s0, path) {
        r == Err::<Group, Error>(Error::NamespaceAlreadyExists) && s1 == s0
    } else {
        match r {
            Ok(g) => {
                let ns = s1.namespaces.last();
                &&& g.id == group_id
                &&& g.created_at == now
                &&& g.updated_at == now
                &&& g.name@ == name
                &&& g.description@ == description
                &&& g.used_storage == 0
                &&& g.plan == BillingPlan::Free
                &&& g.namespace_id == namespace_id
                &&& g.path@ == path
                &&& s1.namespaces.len() == s0.namespaces.len() + 1
                &&& s1.namespaces.drop_last() == s0.namespaces
                &&& ns.id == namespace_id
                &&& ns.created_at == now
                &&& ns.updated_at == now
                &&& ns.path@ == path
                &&& ns.namespace_type == NamespaceType::Group
                &&& s1 == Tables {
                    namespaces: s1.namespaces,
                    groups: s0.groups.push(g),
                    memberships: s0.memberships.push(
                        GroupMembership {
                            joined_at: now,
                            role: GroupRole::Administrator,
                            user_id: actor->Some_0.id,
                            group_id,
                        },
                    ),
                    ..s0
                }
            },
            Err(_) => false,
        }
    }
}

/// Position of the first group with this identifier, if any.
pub open spec fn group_index(t: Tables, id: u128) -> Option<int> {
    if exists|i: int| 0 <= i < t.groups.len() && #[trigger] t.groups[i].id == id {
        Some(
            choose|i: int|
                0 <= i < t.groups.len() && #[trigger] t.groups[i].id == id && forall|j: int|
                    0 <= j < i ==> #[trigger] t.groups[j].id != id,
        )
    } else {
        None
    }
}

pub open spec fn has_namespace(t: Tables, id: u128) -> bool {
    exists|i: int| 0 <= i < t.namespaces.len() && #[trigger] t.namespaces[i].id == id
}

/// The user holds the Administrator role in the group.
pub open spec fn is_group_admin(t: Tables, group_id: u128, user_id: u128) -> bool {
    exists|i: int|
        0 <= i < t.memberships.len() && #[trigger] t.memberships[i].group_id == group_id
            && t.memberships[i].user_id == user_id && t.memberships[i].role
            == GroupRole::Administrator
}

/// A customer after its namespace `namespace_id` was deleted at `now`.
pub open spec fn unbound(c: Customer, namespace_id: u128, now: i64) -> Customer {
    if c.namespace_id == Some(namespace_id) {
        Customer { namespace_id: None, updated_at: now, ..c }
    } else {
        c
    }
}

/// What deleting group `group_id` does to the tables `s0`, giving `s1` and `r`.
/// The group's namespace, the group and its memberships go; customers bound to
/// the namespace stay, unbound.
pub open spec fn delete_group_post(
    s0: Tables,
    s1: Tables,
    actor: Option<User>,
    group_id: u128,
    now: i64,
    r: Result<(), Error>,
) -> bool {
    if actor is None {
        r == Err::<(), Error>(Error::AuthenticationRequired) && s1 == s0
    } else if group_index(s0, group_id) is None {
        r == Err::<(), Error>(Error::GroupNotFound) && s1 == s0
    } else {
        let g = s0.groups[group_index(s0, group_id)->Some_0];
        if !has_namespace(s0, g.namespace_id) {
            r == Err::<(), Error>(Error::NamespaceNotFound) && s1 == s0
        } else if !is_group_admin(s0, g.id, actor->Some_0.id) {
            r == Err::<(), Error>(Error::AdminRoleRequired) && s1 == s0
        } else if g.plan != BillingPlan::Free {
            r == Err::<(), Error>(Error::SubscriptionIsActive) && s1 == s0
        } else {
            &&& r is Ok
            &&& s1 == Tables {
                namespaces: s0.namespaces.filter(|n: Namespace| n.id != g.namespace_id),
                groups: s0.groups.filter(|x: Group| x.id != g.id),
                memberships: s0.memberships.filter(|m: GroupMembership| m.group_id != g.id),
                customers: s0.customers.map_values(|c: Customer| unbound(c, g.namespace_id, now)),
                ..s0
            }
        }
    }
}


fn find_group(groups: &Vec<Group>, id: u128) -> (r: Option<usize>)
    ensures
        match r {
            Some(i) => i < groups@.len() && groups@[i as int].id == id && forall|j: int|
                0 <= j < i ==> #[trigger] groups@[j].id != id,
            None => forall|j: int| 0 <= j < groups@.len() ==> #[trigger] groups@[j].id != id,
        },
{
    let mut i: usize = 0;
    while i < groups.len()
        invariant
            i <= groups@.len(),
            forall|j: int| 0 <= j < i ==> #[trigger] groups@[j].id != id,
        decreases groups@.len() - i,
    {
        if groups[i].id == id {
            return Some(i);
        }
        i = i + 1;
    }
    None
}

proof fn lemma_group_index(t: Tables, id: u128, i: int)
    requires
        0 <= i < t.groups.len(),
        t.groups[i].id == id,
        forall|j: int| 0 <= j < i ==> #[trigger] t.groups[j].id != id,
    ensures
        group_index(t, id) == Some(i),
{
    let k = group_index(t, id)->Some_0;
    assert(t.groups[k].id == id);
    if k < i {
        assert(t.groups[k].id != id);
    } else if i < k {
        assert(t.groups[i].id != id);
    }
}

fn namespace_exists(namespaces: &Vec<Namespace>, id: u128) -> (r: bool)
    ensures
        r == exists|i: int| 0 <= i < namespaces@.len() && #[trigger] namespaces@[i].id == id,
{
    let mut i: usize = 0;
    while i < namespaces.len()
        invariant
            i <= namespaces@.len(),
            forall|j: int| 0 <= j < i ==> #[trigger] namespaces@[j].id != id,
        decreases namespaces@.len() - i,
    {
        if namespaces[i].id == id {
            return true;
        }
        i = i + 1;
    }
    false
}

fn has_admin_membership(memberships: &Vec<GroupMembership>, group_id: u128, user_id: u128) -> (r:
    bool)
    ensures
        r == exists|i: int|
            0 <= i < memberships@.len() && #[trigger] memberships@[i].group_id == group_id
                && memberships@[i].user_id == user_id && memberships@[i].role
                == GroupRole::Administrator,
{
    let mut i: usize = 0;
    while i < memberships.len()
        invariant
            i <= memberships@.len(),
            forall|j: int|
                0 <= j < i ==> !(#[trigger] memberships@[j].group_id == group_id
                    && memberships@[j].user_id == user_id && memberships@[j].role
                    == GroupRole::Administrator),
        decreases memberships@.len() - i,
    {
        let m = memberships[i];
        if m.group_id == group_id && m.user_id == user_id && m.role == GroupRole::Administrator {
            return true;
        }
        i = i + 1;
    }
    false
}

fn unbind_customers(customers: &mut Vec<Customer>, namespace_id: u128, now: i64)
    ensures
        final(customers)@ == old(customers)@.map_values(
            |c: Customer| unbound(c, namespace_id, now),
        ),
{
    let ghost c0 = customers@;
    let mut i: usize = 0;
    while i < customers.len()
        invariant
            customers@.len() == c0.len(),
            i <= c0.len(),
            forall|j: int| 0 <= j < i ==> #[trigger] customers@[j] == unbound(c0[j], namespace_id, now),
            forall|j: int| i <= j < c0.len() ==> #[trigger] customers@[j] == c0[j],
        decreases c0.len() - i,
    {
        let mut c = customers[i];
        if c.namespace_id == Some(namespace_id) {
            c.namespace_id = None;
            c.updated_at = now;
        }
        customers.set(i, c);
        i = i + 1;
    }
    assert(customers@ =~= c0.map_values(|c: Customer| unbound(c, namespace_id, now)));
}

fn remove_namespace(namespaces: &mut Vec<Namespace>, id: u128)
    ensures
        final(namespaces)@ == old(namespaces)@.filter(|n: Namespace| n.id != id),
{
    let ghost s = namespaces@;
    let mut out: Vec<Namespace> = Vec::new();
    let mut i: usize = 0;
    while i < namespaces.len()
        invariant
            namespaces@ == s,
            i <= s.len(),
            out@ == s.subrange(0, i as int).filter(|n: Namespace| n.id != id),
        decreases s.len() - i,
    {
        assert(s.subrange(0, i as int + 1).drop_last() == s.subrange(0, i as int));
        assert(s.subrange(0, i as int + 1).last() == s[i as int]);
        proof {
            reveal_with_fuel(Seq::filter, 1);
        }
        if namespaces[i].id != id {
            out.push(namespaces[i].duplicate());
        }
        i = i + 1;
    }
    assert(s.subrange(0, i as int) == s);
    *namespaces = out;
}

fn remove_group(groups: &mut Vec<Group>, id: u128)
    ensures
        final(groups)@ == old(groups)@.filter(|g: Group| g.id != id),
{
    let ghost s = groups@;
    let mut out: Vec<Group> = Vec::new();
    let mut i: usize = 0;
    while i < groups.len()
        invariant
            groups@ == s,
            i <= s.len(),
            out@ == s.subrange(0, i as int).filter(|g: Group| g.id != id),
        decreases s.len() - i,
    {
        assert(s.subrange(0, i as int + 1).drop_last() == s.subrange(0, i as int));
        assert(s.subrange(0, i as int + 1).last() == s[i as int]);
        proof {
            reveal_with_fuel(Seq::filter, 1);
        }
        if groups[i].id != id {
            out.push(groups[i].duplicate());
        }
        i = i + 1;
    }
    assert(s.subrange(0, i as int) == s);
    *groups = out;
}

fn remove_memberships(memberships: &mut Vec<GroupMembership>, group_id: u128)
    ensures
        final(memberships)@ == old(memberships)@.filter(
            |m: GroupMembership| m.group_id != group_id,
        ),
{
    let ghost s = memberships@;
    let mut out: Vec<GroupMembership> = Vec::new();
    let mut i: usize = 0;
    while i < memberships.len()
        invariant
            memberships@ == s,
            i <= s.len(),
            out@ == s.subrange(0, i as int).filter(|m: GroupMembership| m.group_id != group_id),
        decreases s.len() - i,
    {
        assert(s.subrange(0, i as int + 1).drop_last() == s.subrange(0, i as int));
        assert(s.subrange(0, i as int + 1).last() == s[i as int]);
        proof {
            reveal_with_fuel(Seq::filter, 1);
        }
        if memberships[i].group_id != group_id {
            out.push(memberships[i]);
        }
        i = i + 1;
    }
    assert(s.subrange(0, i as int) == s);
    *memberships = out;
}

/// Removing namespaces keeps their paths pairwise distinct.
proof fn lemma_filter_distinct_paths(s: Seq<Namespace>, id: u128)
    requires
        forall|i: int, j: int|
            0 <= i < j < s.len() ==> #[trigger] s[i].path@ != #[trigger] s[j].path@,
    ensures
        ({
            let f = s.filter(|n: Namespace| n.id != id);
            forall|i: int, j: int|
                0 <= i < j < f.len() ==> #[trigger] f[i].path@ != #[trigger] f[j].path@
        }),
    decreases s.len(),
{
    if s.len() > 0 {
        let p = |n: Namespace| n.id != id;
        let d = s.drop_last();
        lemma_filter_distinct_paths(d, id);
        let fd = d.filter(p);
        let f = s.filter(p);
        reveal_with_fuel(Seq::filter, 1);
        assert(d.filter(p) == fd);
        assert forall|i: int, j: int|
            0 <= i < j < f.len() implies #[trigger] f[i].path@ != #[trigger] f[j].path@ by {
            if j == fd.len() {
                assert(fd.contains(fd[i]));
                d.lemma_filter_contains_rev(p, fd[i]);
                let k = choose|k: int| 0 <= k < d.len() && d[k] == fd[i];
                assert(s[k] == d[k]);
                assert(f[j] == s[s.len() - 1]);
            } else {
                assert(f[i] == fd[i] && f[j] == fd[j]);
            }
        }
    }
}

impl Service {
    /// The authenticated caller, or `AuthenticationRequired`.
    pub fn current_user(&self, actor: Option<User>) -> (r: Result<User, Error>)
        ensures
            match actor {
                Some(u) => r == Ok::<User, Error>(u),
                None => r == Err::<User, Error>(Error::AuthenticationRequired),
            },
    {
        match actor {
            Some(u) => Ok(u),
            None => Err(Error::AuthenticationRequired),
        }
    }

    /// Creates a group at time `now` with the identifiers passed in: its
    /// namespace, the group and the caller's Administrator membership.
    pub fn create_group_at(
        &mut self,
        actor: Option<User>,
        input: CreateGroupInput,
        now: i64,
        group_id: u128,
        namespace_id: u128,
    ) -> (r: Result<Group, Error>)
        requires
            old(self).db.wf(),
        ensures
            final(self).db.wf(),
            create_group_post(
                old(self).db@,
                final(self).db@,
                actor,
                input.path@,
                input.name@,
                input.description@,
                now,
                group_id,
                namespace_id,
                r,
            ),
    {
        let actor = self.current_user(actor)?;
        let trimmed_path = trimmed(input.path.as_str());
        let path = lowercased(trimmed_path.as_str());
        let name = trimmed(input.name.as_str());
        let description = trimmed(input.description.as_str());
        validate_namespace(path.as_str())?;
        validate_group_name(name.as_str())?;
        validate_group_description(description.as_str())?;
        if self.db.check_namespace_exists(&path) {
            return Err(Error::NamespaceAlreadyExists);
        }
        let ghost s0 = self.db@;
        let namespace = Namespace {
            id: namespace_id,
            created_at: now,
            updated_at: now,
            path: path.clone(),
            namespace_type: NamespaceType::Group,
        };
        self.db.namespaces.push(namespace);
        let group = Group {
            id: group_id,
            created_at: now,
            updated_at: now,
            name,
            description,
            used_storage: 0,
            plan: BillingPlan::Free,
            namespace_id,
            path,
        };
        self.db.groups.push(group.duplicate());
        let membership = GroupMembership {
            joined_at: now,
            role: GroupRole::Administrator,
            user_id: actor.id,
            group_id,
        };
        self.db.memberships.push(membership);
        proof {
            assert(self.db@.pending_users == s0.pending_users);
            assert(self.db@.namespaces.drop_last() == s0.namespaces);
            assert forall|a: int, b: int|
                0 <= a < b < self.db@.namespaces.len() implies #[trigger] self.db@.namespaces[a].path@
                != #[trigger] self.db@.namespaces[b].path@ by {
                if b == s0.namespaces.len() {
                    assert(s0.namespaces[a].path@ != group.path@);
                }
            }
        }
        Ok(group)
    }

    /// Creates a group now, with fresh identifiers for the group and its namespace.
    pub fn create_group(&mut self, actor: Option<User>, input: CreateGroupInput) -> (r: Result<
        Group,
        Error,
    >)
        requires
            old(self).db.wf(),
        ensures
            final(self).db.wf(),
            exists|now: i64, group_id: u128, namespace_id: u128|
                #[trigger] create_group_post(
                    old(self).db@,
                    final(self).db@,
                    actor,
                    input.path@,
                    input.name@,
                    input.description@,
                    now,
                    group_id,
                    namespace_id,
                    r,
                ),
    {
        let ghost s0 = self.db@;
        let ghost a = actor;
        let ghost (p, n, d) = (input.path@, input.name@, input.description@);
        let now = now_millis();
        let group_id = new_id();
        let namespace_id = new_id();
        let r = self.create_group_at(actor, input, now, group_id, namespace_id);
        assert(create_group_post(s0, self.db@, a, p, n, d, now, group_id, namespace_id, r));
        r
    }

    /// Deletes a group at time `now`: its namespace, the group and its
    /// memberships go; a customer bound to the namespace is kept, unbound.
    pub fn delete_group_at(&mut self, actor: Option<User>, input: DeleteGroupInput, now: i64) -> (r:
        Result<(), Error>)
        requires
            old(self).db.wf(),
        ensures
            final(self).db.wf(),
            delete_group_post(old(self).db@, final(self).db@, actor, input.group_id, now, r),
    {
        let actor = self.current_user(actor)?;
        let gi = match find_group(&self.db.groups, input.group_id) {
            Some(gi) => gi,
            None => {
                return Err(Error::GroupNotFound);
            },
        };
        proof {
            lemma_group_index(self.db@, input.group_id, gi as int);
        }
        let group_id = self.db.groups[gi].id;
        let namespace_id = self.db.groups[gi].namespace_id;
        let plan = self.db.groups[gi].plan;
        if !namespace_exists(&self.db.namespaces, namespace_id) {
            return Err(Error::NamespaceNotFound);
        }
        if !has_admin_membership(&self.db.memberships, group_id, actor.id) {
            return Err(Error::AdminRoleRequired);
        }
        if plan != BillingPlan::Free {
            return Err(Error::SubscriptionIsActive);
        }
        let ghost s0 = self.db@;
        unbind_customers(&mut self.db.customers, namespace_id, now);
        remove_namespace(&mut self.db.namespaces, namespace_id);
        remove_group(&mut self.db.groups, group_id);
        remove_memberships(&mut self.db.memberships, group_id);
        proof {
            lemma_filter_distinct_paths(s0.namespaces, namespace_id);
            assert(self.db@.pending_users == s0.pending_users);
        }
        Ok(())
    }

    /// Deletes a group now.
    pub fn delete_group(&mut self, actor: Option<User>, input: DeleteGroupInput) -> (r: Result<
        (),
        Error,
    >)
        requires
            old(self).db.wf(),
        ensures
            final(self).db.wf(),
            exists|now: i64|
                #[trigger] delete_group_post(
                    old(self).db@,
                    final(self).db@,
                    actor,
                    input.group_id,
                    now,
                    r,
                ),
    {
        let ghost s0 = self.db@;
        let ghost a = actor;
        let ghost id = input.group_id;
        let now = now_millis();
        let r = self.delete_group_at(actor, input, now);
        assert(delete_group_post(s0, self.db@, a, id, now, r));
        r
    }
}

/// Right after a group was created, creating another with the same path fails
/// as a taken namespace and leaves everything as it was, the first group
/// included (given an authenticated caller and a valid name and description).
pub proof fn lemma_second_group_same_path(
    s0: Tables,
    s1: Tables,
    s2: Tables,
    actor: Option<User>,
    path: Seq<char>,
    name: Seq<char>,
    description: Seq<char>,
    now: i64,
    group_id: u128,
    namespace_id: u128,
    g: Group,
    actor2: Option<User>,
    name2: Seq<char>,
    description2: Seq<char>,
    now2: i64,
    group_id2: u128,
    namespace_id2: u128,
    r2: Result<Group, Error>,
)
    requires
        create_group_post(
            s0,
            s1,
            actor,
            path,
            name,
            description,
            now,
            group_id,
            namespace_id,
            Ok::<Group, Error>(g),
        ),
        create_group_post(
            s1,
            s2,
            actor2,
            path,
            name2,
            description2,
            now2,
            group_id2,
            namespace_id2,
            r2,
        ),
        actor2 is Some,
        valid_group_name(trim_of(name2)),
        valid_group_description(trim_of(description2)),
    ensures
        r2 == Err::<Group, Error>(Error::NamespaceAlreadyExists),
        s2 == s1,
        s2.groups.last() == g,
{
    let p = lower_of(trim_of(path));
    assert(s1.namespaces[s1.namespaces.len() - 1].path@ == p);
    assert(path_taken(s1, p));
}

/// A caller without the Administrator role cannot delete the group: the call
/// fails and nothing changes.
pub proof fn lemma_delete_group_needs_admin(
    s0: Tables,
    s1: Tables,
    user: User,
    group_id: u128,
    now: i64,
    r: Result<(), Error>,
)
    requires
        delete_group_post(s0, s1, Some(user), group_id, now, r),
        group_index(s0, group_id) is Some,
        has_namespace(s0, s0.groups[group_index(s0, group_id)->Some_0].namespace_id),
        !is_group_admin(s0, s0.groups[group_index(s0, group_id)->Some_0].id, user.id),
    ensures
        r == Err::<(), Error>(Error::AdminRoleRequired),
        s1 == s0,
{
}

/// A group on a paid plan cannot be deleted: the call fails and nothing changes.
pub proof fn lemma_delete_group_needs_free_plan(
    s0: Tables,
    s1: Tables,
    user: User,
    group_id: u128,
    now: i64,
    r: Result<(), Error>,
)
    requires
        delete_group_post(s0, s1, Some(user), group_id, now, r),
        group_index(s0, group_id) is Some,
        has_namespace(s0, s0.groups[group_index(s0, group_id)->Some_0].namespace_id),
        is_group_admin(s0, s0.groups[group_index(s0, group_id)->Some_0].id, user.id),
        s0.groups[group_index(s0, group_id)->Some_0].plan != BillingPlan::Free,
    ensures
        r == Err::<(), Error>(Error::SubscriptionIsActive),
        s1 == s0,
{
}

/// After a group is deleted, every customer that was bound to its namespace
/// still exists, unbound.
pub proof fn lemma_delete_group_keeps_customers(
    s0: Tables,
    s1: Tables,
    actor: Option<User>,
    group_id: u128,
    now: i64,
    r: Result<(), Error>,
    k: int,
)
    requires
        delete_group_post(s0, s1, actor, group_id, now, r),
        r is Ok,
        0 <= k < s0.customers.len(),
        s0.customers[k].namespace_id == Some(
            s0.groups[group_index(s0, group_id)->Some_0].namespace_id,
        ),
    ensures
        s1.customers.len() == s0.customers.len(),
        s1.customers[k].id == s0.customers[k].id,
        s1.customers[k].namespace_id is None,
{
}

} // verus!
