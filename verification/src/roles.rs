//! Identity & Role Store: the mapping from principal to role.
//!
//! A principal is an opaque, externally-authenticated identifier supplied by
//! the platform with each call; the store never parses it. Each principal
//! holds at most one role (last write wins).

use vstd::prelude::*;

verus! {

/// An opaque caller identity, compared only for equality.
pub struct Principal {
    pub id: String,
}

impl View for Principal {
    type V = Seq<char>;

    open spec fn view(&self) -> Seq<char> {
        self.id@
    }
}

impl Principal {
    pub fn new(id: String) -> (p: Principal)
        ensures
            p@ == id@,
    {
        Principal { id }
    }

    /// Equality of the underlying identifiers.
    pub fn matches(&self, other: &Principal) -> (r: bool)
        ensures
            r == (self@ == other@),
    {
        self.id == other.id
    }
}

impl Clone for Principal {
    fn clone(&self) -> (r: Self)
        ensures
            r@ == self@,
    {
        Principal { id: self.id.clone() }
    }
}

/// The closed set of privilege levels.
#[derive(Clone, Copy, PartialEq, Eq, Structural, Debug)]
pub enum Role {
    Admin,
    Manager,
    User,
    Guest,
}

/// Mapping from principal to role; source of truth for authorization
/// decisions. Kept as an association vector with pairwise-distinct keys.
pub struct RoleStore {
    pub entries: Vec<(Principal, Role)>,
}

/// How `assign(p, r)` changes the store: `p` now holds `r`, every other
/// principal is untouched.
pub open spec fn assign_post(pre: RoleStore, post: RoleStore, p: Seq<char>, r: Role) -> bool {
    &&& post.spec_role_of(p) == Some(r)
    &&& forall|q: Seq<char>| q != p ==> post.spec_role_of(q) == pre.spec_role_of(q)
}

/// How `revoke(p)` changes the store: `p` now holds no role, every other
/// principal is untouched.
pub open spec fn revoke_post(pre: RoleStore, post: RoleStore, p: Seq<char>) -> bool {
    &&& post.spec_role_of(p) == Option::<Role>::None
    &&& forall|q: Seq<char>| q != p ==> post.spec_role_of(q) == pre.spec_role_of(q)
}

impl RoleStore {
    /// Keys are pairwise distinct, so each principal holds at most one role.
    pub open spec fn wf(self) -> bool {
        forall|i: int, j: int|
            0 <= i < j < self.entries@.len() ==> self.entries@[i].0@ != self.entries@[j].0@
    }

    pub open spec fn contains_key(self, p: Seq<char>) -> bool {
        exists|i: int| 0 <= i < self.entries@.len() && self.entries@[i].0@ == p
    }

    pub open spec fn key_index(self, p: Seq<char>) -> int {
        choose|i: int| 0 <= i < self.entries@.len() && self.entries@[i].0@ == p
    }

    /// The role held by `p`, if any.
    pub open spec fn spec_role_of(self, p: Seq<char>) -> Option<Role> {
        if self.contains_key(p) {
            Some(self.entries@[self.key_index(p)].1)
        } else {
            None
        }
    }

    /// Some principal holds the Admin role.
    pub open spec fn has_admin(self) -> bool {
        exists|p: Seq<char>| self.spec_role_of(p) == Some(Role::Admin)
    }

    /// With distinct keys, a matching index is the lookup index.
    pub proof fn lemma_key_index(self, p: Seq<char>, i: int)
        requires
            self.wf(),
            0 <= i < self.entries@.len(),
            self.entries@[i].0@ == p,
        ensures
            self.contains_key(p),
            self.key_index(p) == i,
            self.spec_role_of(p) == Some(self.entries@[i].1),
    {
        assert(self.contains_key(p));
        let j = self.key_index(p);
        assert(0 <= j < self.entries@.len() && self.entries@[j].0@ == p);
        if i < j {
            assert(self.entries@[i].0@ != self.entries@[j].0@);
        } else if j < i {
            assert(self.entries@[j].0@ != self.entries@[i].0@);
        }
    }

    pub fn new() -> (s: RoleStore)
        ensures
            s.wf(),
            forall|p: Seq<char>| s.spec_role_of(p) == Option::<Role>::None,
            !s.has_admin(),
    {
        let s = RoleStore { entries: Vec::new() };
        proof {
            assert(forall|p: Seq<char>| !s.contains_key(p));
        }
        s
    }

    /// Unrestricted read of the role held by a principal.
    pub fn role_of(&self, p: &Principal) -> (r: Option<Role>)
        requires
            self.wf(),
        ensures
            r == self.spec_role_of(p@),
    {
        let n: usize = self.entries.len();
        let mut i: usize = 0;
        while i < n
            invariant
                self.wf(),
                n == self.entries@.len(),
                0 <= i <= n,
                forall|j: int| 0 <= j < i ==> self.entries@[j].0@ != p@,
            decreases n - i,
        {
            if self.entries[i].0.matches(p) {
                proof {
                    self.lemma_key_index(p@, i as int);
                }
                return Some(self.entries[i].1);
            }
            i += 1;
        }
        proof {
            assert(!self.contains_key(p@));
        }
        None
    }

    /// Index of the entry for `p`, if one exists.
    fn find(&self, p: &Principal) -> (r: Option<usize>)
        requires
            self.wf(),
        ensures
            match r {
                Some(i) => i < self.entries@.len() && self.entries@[i as int].0@ == p@
                    && self.contains_key(p@) && self.key_index(p@) == i,
                None => !self.contains_key(p@),
            },
    {
        let n: usize = self.entries.len();
        let mut i: usize = 0;
        while i < n
            invariant
                self.wf(),
                n == self.entries@.len(),
                0 <= i <= n,
                forall|j: int| 0 <= j < i ==> self.entries@[j].0@ != p@,
            decreases n - i,
        {
            if self.entries[i].0.matches(p) {
                proof {
                    self.lemma_key_index(p@, i as int);
                }
                return Some(i);
            }
            i += 1;
        }
        None
    }

    /// Inserts or overwrites the role of `p`; idempotent, last write wins.
    pub fn assign(&mut self, p: Principal, role: Role)
        requires
            old(self).wf(),
        ensures
            final(self).wf(),
            assign_post(*old(self), *final(self), p@, role),
    {
        let found = self.find(&p);
        match found {
            Some(i) => {
                let ghost pre = *self;
                self.entries[i].1 = role;
                proof {
                    self.lemma_assign_update(pre, p@, role, i as int);
                }
            },
            None => {
                let ghost pre = *self;
                self.entries.push((p, role));
                proof {
                    assert(self.entries@.subrange(0, pre.entries@.len() as int) =~= pre.entries@);
                    self.lemma_assign_push(pre, role);
                }
            },
        }
    }

    /// Overwriting the role at the entry for `p` changes only that principal.
    proof fn lemma_assign_update(self, pre: RoleStore, p: Seq<char>, role: Role, i: int)
        requires
            pre.wf(),
            0 <= i < pre.entries@.len(),
            pre.entries@[i].0@ == p,
            self.entries@ == pre.entries@.update(i, (pre.entries@[i].0, role)),
        ensures
            self.wf(),
            self.spec_role_of(p) == Some(role),
            forall|q: Seq<char>| q != p ==> self.spec_role_of(q) == pre.spec_role_of(q),
    {
        assert(self.entries@.len() == pre.entries@.len());
        assert(forall|k: int| 0 <= k < self.entries@.len() ==> self.entries@[k].0@ == pre.entries@[k].0@);
        assert(self.wf());
        self.lemma_key_index(p, i);
        assert forall|q: Seq<char>| q != p implies self.spec_role_of(q) == pre.spec_role_of(q) by {
            if self.contains_key(q) {
                let k = self.key_index(q);
                self.lemma_key_index(q, k);
                pre.lemma_key_index(q, k);
                assert(k != i);
                assert(self.entries@[k].1 == pre.entries@[k].1);
            } else {
                assert(!pre.contains_key(q));
            }
        }
    }

    /// Appending a fresh entry changes only that principal.
    proof fn lemma_assign_push(self, pre: RoleStore, role: Role)
        requires
            pre.wf(),
            self.entries@.len() == pre.entries@.len() + 1,
            self.entries@.subrange(0, pre.entries@.len() as int) == pre.entries@,
            !pre.contains_key(self.entries@.last().0@),
            self.entries@.last().1 == role,
        ensures
            self.wf(),
            self.spec_role_of(self.entries@.last().0@) == Some(role),
            forall|q: Seq<char>|
                q != self.entries@.last().0@ ==> self.spec_role_of(q) == pre.spec_role_of(q),
    {
        let n = pre.entries@.len() as int;
        let p = self.entries@.last().0@;
        assert(forall|k: int| 0 <= k < n ==> self.entries@[k] == pre.entries@[k]);
        assert forall|i: int, j: int| 0 <= i < j < self.entries@.len() implies self.entries@[i].0@
            != self.entries@[j].0@ by {
            if j == n {
                if self.entries@[i].0@ == p {
                    assert(pre.contains_key(p));
                }
            }
        }
        self.lemma_key_index(p, n);
        assert forall|q: Seq<char>| q != p implies self.spec_role_of(q) == pre.spec_role_of(q) by {
            if self.contains_key(q) {
                let k = self.key_index(q);
                self.lemma_key_index(q, k);
                assert(k != n);
                pre.lemma_key_index(q, k);
            } else {
                assert(!pre.contains_key(q));
            }
        }
    }

    /// Removes the entry for `p` if present; no error if absent.
    pub fn revoke(&mut self, p: &Principal)
        requires
            old(self).wf(),
        ensures
            final(self).wf(),
            revoke_post(*old(self), *final(self), p@),
    {
        let found = self.find(p);
        match found {
            Some(i) => {
                let ghost pre = *self;
                self.entries.remove(i);
                proof {
                    self.lemma_revoke_remove(pre, p@, i as int);
                }
            },
            None => {},
        }
    }

    /// Removing the entry for `p` changes only that principal.
    proof fn lemma_revoke_remove(self, pre: RoleStore, p: Seq<char>, i: int)
        requires
            pre.wf(),
            0 <= i < pre.entries@.len(),
            pre.entries@[i].0@ == p,
            self.entries@ == pre.entries@.remove(i),
        ensures
            self.wf(),
            self.spec_role_of(p) == Option::<Role>::None,
            forall|q: Seq<char>| q != p ==> self.spec_role_of(q) == pre.spec_role_of(q),
    {
        assert(self.entries@.len() == pre.entries@.len() - 1);
        assert(forall|k: int| 0 <= k < i ==> self.entries@[k] == pre.entries@[k]);
        assert(forall|k: int|
            i <= k < self.entries@.len() ==> self.entries@[k] == pre.entries@[k + 1]);
        assert forall|a: int, b: int| 0 <= a < b < self.entries@.len() implies self.entries@[a].0@
            != self.entries@[b].0@ by {
            let a0 = if a < i { a } else { a + 1 };
            let b0 = if b < i { b } else { b + 1 };
            assert(self.entries@[a] == pre.entries@[a0]);
            assert(self.entries@[b] == pre.entries@[b0]);
        }
        assert forall|q: Seq<char>| self.contains_key(q) implies q != p
            && self.spec_role_of(q) == pre.spec_role_of(q) by {
            let k = self.key_index(q);
            assert(0 <= k < self.entries@.len() && self.entries@[k].0@ == q);
            let k0 = if k < i { k } else { k + 1 };
            assert(pre.entries@[k0].0@ == q);
            pre.lemma_key_index(q, k0);
            if q == p {
                pre.lemma_key_index(p, i);
            }
            self.lemma_key_index(q, k);
        }
        if self.contains_key(p) {
            assert(false);
        }
        assert forall|q: Seq<char>| q != p && !self.contains_key(q) implies pre.spec_role_of(q)
            == Option::<Role>::None by {
            if pre.contains_key(q) {
                let k0 = pre.key_index(q);
                pre.lemma_key_index(q, k0);
                assert(k0 != i);
                let k = if k0 < i { k0 } else { k0 - 1 };
                assert(self.entries@[k].0@ == q);
            }
        }
    }

    /// Scan for a principal holding the Admin role.
    pub fn exists_admin(&self) -> (b: bool)
        requires
            self.wf(),
        ensures
            b == self.has_admin(),
    {
        let n: usize = self.entries.len();
        let mut i: usize = 0;
        while i < n
            invariant
                self.wf(),
                n == self.entries@.len(),
                0 <= i <= n,
                forall|j: int| 0 <= j < i ==> self.entries@[j].1 != Role::Admin,
            decreases n - i,
        {
            if self.entries[i].1 == Role::Admin {
                proof {
                    self.lemma_key_index(self.entries@[i as int].0@, i as int);
                }
                return true;
            }
            i += 1;
        }
        proof {
            assert forall|p: Seq<char>| self.spec_role_of(p) != Some(Role::Admin) by {
                if self.contains_key(p) {
                    let k = self.key_index(p);
                    assert(0 <= k < self.entries@.len() && self.entries@[k].0@ == p);
                    assert(self.entries@[k].1 != Role::Admin);
                }
            }
        }
        false
    }
}

} // verus!
