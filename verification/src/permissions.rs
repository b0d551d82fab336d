//! Resource Permission Registry: which roles may act on which named resource.
//!
//! Each resource name maps to a set of permitted roles; an entry is created
//! lazily on the first grant, and an empty set is a valid (but
//! permission-less) entry.

use vstd::prelude::*;
use crate::roles::Role;

verus! {

/// A set of roles out of the closed four-role set.
#[derive(Clone, Copy, PartialEq, Eq, Structural, Debug)]
pub struct RoleSet {
    pub admin: bool,
    pub manager: bool,
    pub user: bool,
    pub guest: bool,
}

impl RoleSet {
    pub open spec fn spec_has(self, r: Role) -> bool {
        match r {
            Role::Admin => self.admin,
            Role::Manager => self.manager,
            Role::User => self.user,
            Role::Guest => self.guest,
        }
    }

    pub open spec fn spec_empty() -> RoleSet {
        RoleSet { admin: false, manager: false, user: false, guest: false }
    }

    pub fn empty() -> (s: RoleSet)
        ensures
            s == RoleSet::spec_empty(),
    {
        RoleSet { admin: false, manager: false, user: false, guest: false }
    }

    pub fn has(&self, r: Role) -> (b: bool)
        ensures
            b == self.spec_has(r),
    {
        match r {
            Role::Admin => self.admin,
            Role::Manager => self.manager,
            Role::User => self.user,
            Role::Guest => self.guest,
        }
    }

    /// The same set with `r` a member.
    pub open spec fn spec_with(self, r: Role) -> RoleSet {
        match r {
            Role::Admin => RoleSet { admin: true, ..self },
            Role::Manager => RoleSet { manager: true, ..self },
            Role::User => RoleSet { user: true, ..self },
            Role::Guest => RoleSet { guest: true, ..self },
        }
    }

    /// The same set with `r` removed.
    pub open spec fn spec_without(self, r: Role) -> RoleSet {
        match r {
            Role::Admin => RoleSet { admin: false, ..self },
            Role::Manager => RoleSet { manager: false, ..self },
            Role::User => RoleSet { user: false, ..self },
            Role::Guest => RoleSet { guest: false, ..self },
        }
    }

    pub fn with(self, r: Role) -> (s: RoleSet)
        ensures
            s == self.spec_with(r),
    {
        match r {
            Role::Admin => RoleSet { admin: true, ..self },
            Role::Manager => RoleSet { manager: true, ..self },
            Role::User => RoleSet { user: true, ..self },
            Role::Guest => RoleSet { guest: true, ..self },
        }
    }

    pub fn without(self, r: Role) -> (s: RoleSet)
        ensures
            s == self.spec_without(r),
    {
        match r {
            Role::Admin => RoleSet { admin: false, ..self },
            Role::Manager => RoleSet { manager: false, ..self },
            Role::User => RoleSet { user: false, ..self },
            Role::Guest => RoleSet { guest: false, ..self },
        }
    }
}

/// Mapping from resource name to the set of roles permitted on it.
/// Kept as an association vector with pairwise-distinct resource names.
pub struct PermissionRegistry {
    pub entries: Vec<(String, RoleSet)>,
}

impl PermissionRegistry {
    pub open spec fn wf(self) -> bool {
        forall|i: int, j: int|
            0 <= i < j < self.entries@.len() ==> self.entries@[i].0@ != self.entries@[j].0@
    }

    pub open spec fn contains_key(self, res: Seq<char>) -> bool {
        exists|i: int| 0 <= i < self.entries@.len() && self.entries@[i].0@ == res
    }

    pub open spec fn key_index(self, res: Seq<char>) -> int {
        choose|i: int| 0 <= i < self.entries@.len() && self.entries@[i].0@ == res
    }

    /// The permitted set for a resource; a missing entry permits nothing.
    pub open spec fn spec_roles_of(self, res: Seq<char>) -> RoleSet {
        if self.contains_key(res) {
            self.entries@[self.key_index(res)].1
        } else {
            RoleSet::spec_empty()
        }
    }

    /// Role `r` is permitted on resource `res`.
    pub open spec fn spec_permits(self, res: Seq<char>, r: Role) -> bool {
        self.spec_roles_of(res).spec_has(r)
    }

    pub proof fn lemma_key_index(self, res: Seq<char>, i: int)
        requires
            self.wf(),
            0 <= i < self.entries@.len(),
            self.entries@[i].0@ == res,
        ensures
            self.contains_key(res),
            self.key_index(res) == i,
            self.spec_roles_of(res) == self.entries@[i].1,
    {
        assert(self.contains_key(res));
        let j = self.key_index(res);
        assert(0 <= j < self.entries@.len() && self.entries@[j].0@ == res);
        if i < j {
            assert(self.entries@[i].0@ != self.entries@[j].0@);
        } else if j < i {
            assert(self.entries@[j].0@ != self.entries@[i].0@);
        }
    }

    pub fn new() -> (s: PermissionRegistry)
        ensures
            s.wf(),
            forall|res: Seq<char>, r: Role| !s.spec_permits(res, r),
    {
        let s = PermissionRegistry { entries: Vec::new() };
        proof {
            assert(forall|res: Seq<char>| !s.contains_key(res));
        }
        s
    }

    /// Index of the entry for `res`, if one exists.
    fn find(&self, res: &String) -> (r: Option<usize>)
        requires
            self.wf(),
        ensures
            match r {
                Some(i) => i < self.entries@.len() && self.entries@[i as int].0@ == res@
                    && self.contains_key(res@) && self.key_index(res@) == i,
                None => !self.contains_key(res@),
            },
    {
        let n: usize = self.entries.len();
        let mut i: usize = 0;
        while i < n
            invariant
                self.wf(),
                n == self.entries@.len(),
                0 <= i <= n,
                forall|j: int| 0 <= j < i ==> self.entries@[j].0@ != res@,
            decreases n - i,
        {
            if self.entries[i].0 == *res {
                proof {
                    self.lemma_key_index(res@, i as int);
                }
                return Some(i);
            }
            i += 1;
        }
        None
    }

    /// Adds `role` to the permitted set of `resource`; idempotent.
    pub fn grant(&mut self, resource: String, role: Role)
        requires
            old(self).wf(),
        ensures
            final(self).wf(),
            final(self).spec_permits(resource@, role),
            forall|q: Seq<char>, r2: Role|
                !(q == resource@ && r2 == role) ==> final(self).spec_permits(q, r2)
                    == old(self).spec_permits(q, r2),
    {
        let found = self.find(&resource);
        match found {
            Some(i) => {
                let updated = self.entries[i].1.with(role);
                let ghost pre = *self;
                self.entries[i].1 = updated;
                proof {
                    self.lemma_grant_update(pre, resource@, role, i as int);
                }
            },
            None => {
                let ghost pre = *self;
                let set = RoleSet::empty().with(role);
                self.entries.push((resource, set));
                proof {
                    assert(self.entries@.subrange(0, pre.entries@.len() as int) =~= pre.entries@);
                    self.lemma_grant_push(pre, role);
                }
            },
        }
    }

    /// Overwriting the set at the entry for `res` changes only that resource.
    proof fn lemma_grant_update(self, pre: PermissionRegistry, res: Seq<char>, role: Role, i: int)
        requires
            pre.wf(),
            0 <= i < pre.entries@.len(),
            pre.entries@[i].0@ == res,
            self.entries@ == pre.entries@.update(i, (pre.entries@[i].0, pre.entries@[i].1.spec_with(role))),
        ensures
            self.wf(),
            self.spec_permits(res, role),
            forall|q: Seq<char>, r2: Role|
                !(q == res && r2 == role) ==> self.spec_permits(q, r2) == pre.spec_permits(q, r2),
    {
        assert(self.entries@.len() == pre.entries@.len());
        assert(forall|k: int| 0 <= k < self.entries@.len() ==> self.entries@[k].0@ == pre.entries@[k].0@);
        assert(self.wf());
        self.lemma_key_index(res, i);
        assert(self.spec_roles_of(res).spec_has(role));
        assert forall|q: Seq<char>, r2: Role| !(q == res && r2 == role) implies self.spec_permits(
            q,
            r2,
        ) == pre.spec_permits(q, r2) by {
            if self.contains_key(q) {
                let k = self.key_index(q);
                self.lemma_key_index(q, k);
                pre.lemma_key_index(q, k);
                if k == i {
                    assert(q == res);
                    assert(self.entries@[k].1 == pre.entries@[k].1.spec_with(role));
                    assert(self.entries@[k].1.spec_has(r2) == pre.entries@[k].1.spec_has(r2));
                } else {
                    assert(self.entries@[k].1 == pre.entries@[k].1);
                }
            } else {
                assert(!pre.contains_key(q));
            }
        }
    }

    /// Appending a fresh entry changes only that resource.
    proof fn lemma_grant_push(self, pre: PermissionRegistry, role: Role)
        requires
            pre.wf(),
            self.entries@.len() == pre.entries@.len() + 1,
            self.entries@.subrange(0, pre.entries@.len() as int) == pre.entries@,
            !pre.contains_key(self.entries@.last().0@),
            self.entries@.last().1 == RoleSet::spec_empty().spec_with(role),
        ensures
            self.wf(),
            self.spec_permits(self.entries@.last().0@, role),
            forall|q: Seq<char>, r2: Role|
                !(q == self.entries@.last().0@ && r2 == role) ==> self.spec_permits(q, r2)
                    == pre.spec_permits(q, r2),
    {
        let n = pre.entries@.len() as int;
        let res = self.entries@.last().0@;
        assert(forall|k: int| 0 <= k < n ==> self.entries@[k] == pre.entries@[k]);
        assert forall|i: int, j: int| 0 <= i < j < self.entries@.len() implies self.entries@[i].0@
            != self.entries@[j].0@ by {
            if j == n {
                assert(self.entries@[i].0@ == pre.entries@[i].0@);
                if self.entries@[i].0@ == res {
                    assert(pre.contains_key(res));
                }
            }
        }
        self.lemma_key_index(res, n);
        assert(self.spec_roles_of(res).spec_has(role));
        assert forall|q: Seq<char>, r2: Role| !(q == res && r2 == role) implies self.spec_permits(
            q,
            r2,
        ) == pre.spec_permits(q, r2) by {
            if q == res {
                assert(!pre.contains_key(q));
                assert(self.spec_roles_of(q) == RoleSet::spec_empty().spec_with(role));
                assert(self.spec_roles_of(q).spec_has(r2) == RoleSet::spec_empty().spec_has(r2));
            } else {
                if self.contains_key(q) {
                    let k = self.key_index(q);
                    self.lemma_key_index(q, k);
                    assert(k != n);
                    pre.lemma_key_index(q, k);
                } else {
                    assert(!pre.contains_key(q));
                }
            }
        }
    }

    /// Removes `role` from the permitted set of `resource` if the entry
    /// exists; no-op otherwise.
    pub fn revoke(&mut self, resource: &String, role: Role)
        requires
            old(self).wf(),
        ensures
            final(self).wf(),
            !final(self).spec_permits(resource@, role),
            forall|q: Seq<char>, r2: Role|
                !(q == resource@ && r2 == role) ==> final(self).spec_permits(q, r2)
                    == old(self).spec_permits(q, r2),
    {
        let found = self.find(resource);
        match found {
            Some(i) => {
                let updated = self.entries[i].1.without(role);
                let ghost pre = *self;
                self.entries[i].1 = updated;
                proof {
                    self.lemma_revoke_update(pre, resource@, role, i as int);
                }
            },
            None => {
                proof {
                    assert(!self.spec_roles_of(resource@).spec_has(role));
                }
            },
        }
    }

    proof fn lemma_revoke_update(self, pre: PermissionRegistry, res: Seq<char>, role: Role, i: int)
        requires
            pre.wf(),
            0 <= i < pre.entries@.len(),
            pre.entries@[i].0@ == res,
            self.entries@ == pre.entries@.update(i, (pre.entries@[i].0, pre.entries@[i].1.spec_without(role))),
        ensures
            self.wf(),
            !self.spec_permits(res, role),
            forall|q: Seq<char>, r2: Role|
                !(q == res && r2 == role) ==> self.spec_permits(q, r2) == pre.spec_permits(q, r2),
    {
        assert(self.entries@.len() == pre.entries@.len());
        assert(forall|k: int| 0 <= k < self.entries@.len() ==> self.entries@[k].0@ == pre.entries@[k].0@);
        assert(self.wf());
        self.lemma_key_index(res, i);
        assert(!self.spec_roles_of(res).spec_has(role));
        assert forall|q: Seq<char>, r2: Role| !(q == res && r2 == role) implies self.spec_permits(
            q,
            r2,
        ) == pre.spec_permits(q, r2) by {
            if self.contains_key(q) {
                let k = self.key_index(q);
                self.lemma_key_index(q, k);
                pre.lemma_key_index(q, k);
                if k == i {
                    assert(self.entries@[k].1.spec_has(r2) == pre.entries@[k].1.spec_has(r2));
                } else {
                    assert(self.entries@[k].1 == pre.entries@[k].1);
                }
            } else {
                assert(!pre.contains_key(q));
            }
        }
    }

    /// Unrestricted read: is `role` permitted on `resource`?
    pub fn is_permitted(&self, resource: &String, role: Role) -> (b: bool)
        requires
            self.wf(),
        ensures
            b == self.spec_permits(resource@, role),
    {
        let found = self.find(resource);
        match found {
            Some(i) => self.entries[i].1.has(role),
            None => false,
        }
    }
}

} // verus!
