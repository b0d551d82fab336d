//! The access-control service: the role store, the permission registry and
//! the request lifecycle manager behind one API, with the authorization
//! guards that gate every privileged mutation.
//!
//! The platform supplies the authenticated caller and a strictly increasing
//! clock reading per call; the service never constructs either.

use vstd::prelude::*;
use crate::permissions::PermissionRegistry;
use crate::requests::AccessError;
use crate::requests::IdView;
use crate::requests::RequestId;
use crate::requests::RequestProcessingGuard;
use crate::requests::RequestStatus;
use crate::requests::RequestStore;
use crate::requests::begin_outcome;
use crate::requests::begin_post;
use crate::requests::create_post;
use crate::requests::finalize_post;
use crate::requests::req_record;
use crate::roles::Principal;
use crate::roles::Role;
use crate::roles::RoleStore;

verus! {

/// The caller holds the Admin role.
pub open spec fn spec_is_admin(roles: RoleStore, p: Seq<char>) -> bool {
    roles.spec_role_of(p) == Some(Role::Admin)
}

/// The caller holds the Admin or the Manager role.
pub open spec fn spec_is_admin_or_manager(roles: RoleStore, p: Seq<char>) -> bool {
    roles.spec_role_of(p) == Some(Role::Admin) || roles.spec_role_of(p) == Some(Role::Manager)
}

/// The authorization decision over both stores: an Admin may access
/// everything; any other assigned role only what the registry grants it;
/// an unassigned principal nothing.
pub open spec fn spec_can_access(
    roles: RoleStore,
    perms: PermissionRegistry,
    p: Seq<char>,
    resource: Seq<char>,
) -> bool {
    match roles.spec_role_of(p) {
        Some(r) => r == Role::Admin || perms.spec_permits(resource, r),
        None => false,
    }
}

/// The role store, permission registry and request store behind one API.
pub struct AccessControlService {
    pub roles: RoleStore,
    pub permissions: PermissionRegistry,
    pub requests: RequestStore,
}

/// What `process_request` decides for request `k` when `caller` invokes it:
/// `None` means the request is processed.
pub open spec fn process_outcome(
    s: AccessControlService,
    caller: Seq<char>,
    k: IdView,
) -> Option<AccessError> {
    if !spec_is_admin_or_manager(s.roles, caller) {
        Some(AccessError::PermissionDenied)
    } else {
        begin_outcome(s.requests, k)
    }
}

impl AccessControlService {
    pub open spec fn wf(self) -> bool {
        self.roles.wf() && self.permissions.wf() && self.requests.wf()
    }

    /// A service with no role assignments, no grants and no requests.
    pub fn new() -> (s: AccessControlService)
        ensures
            s.wf(),
            forall|p: Seq<char>| s.roles.spec_role_of(p) == Option::<Role>::None,
            forall|res: Seq<char>, r: Role| !s.permissions.spec_permits(res, r),
            forall|k: IdView|
                !s.requests.contains_req(k) && !s.requests.in_pending(k) && !s.requests.in_flight(
                    k,
                ),
    {
        AccessControlService {
            roles: RoleStore::new(),
            permissions: PermissionRegistry::new(),
            requests: RequestStore::new(),
        }
    }

    /// Initialization and re-initialization: the invoking principal becomes
    /// Admin unconditionally — the deliberate recovery hatch of a redeploy.
    pub fn init(&mut self, caller: &Principal)
        requires
            old(self).wf(),
        ensures
            final(self).wf(),
            final(self).roles.spec_role_of(caller@) == Some(Role::Admin),
            forall|q: Seq<char>|
                q != caller@ ==> final(self).roles.spec_role_of(q) == old(self).roles.spec_role_of(
                    q,
                ),
            final(self).permissions == old(self).permissions,
            final(self).requests == old(self).requests,
    {
        self.roles.assign(caller.clone(), Role::Admin);
    }

    /// Grants Admin to the caller only if no Admin currently exists;
    /// returns whether it did. The out-of-band recovery path.
    pub fn bootstrap_admin(&mut self, caller: &Principal) -> (granted: bool)
        requires
            old(self).wf(),
        ensures
            final(self).wf(),
            granted == !old(self).roles.has_admin(),
            final(self).roles.has_admin(),
            granted ==> final(self).roles.spec_role_of(caller@) == Some(Role::Admin) && (forall|
                q: Seq<char>,
            |
                q != caller@ ==> final(self).roles.spec_role_of(q) == old(self).roles.spec_role_of(
                    q,
                )) && final(self).permissions == old(self).permissions && final(self).requests
                == old(self).requests,
            !granted ==> *final(self) == *old(self),
    {
        let admin_exists = self.roles.exists_admin();
        if !admin_exists {
            self.roles.assign(caller.clone(), Role::Admin);
            proof {
                assert(self.roles.has_admin());
            }
            true
        } else {
            false
        }
    }

    /// Guard for Admin-only operations.
    pub fn is_admin(&self, caller: &Principal) -> (r: Result<(), AccessError>)
        requires
            self.wf(),
        ensures
            match r {
                Ok(()) => spec_is_admin(self.roles, caller@),
                Err(e) => !spec_is_admin(self.roles, caller@) && e == AccessError::PermissionDenied,
            },
    {
        match self.roles.role_of(caller) {
            Some(Role::Admin) => Ok(()),
            _ => Err(AccessError::PermissionDenied),
        }
    }

    /// Guard for operations open to Admin or Manager.
    pub fn is_admin_or_manager(&self, caller: &Principal) -> (r: Result<(), AccessError>)
        requires
            self.wf(),
        ensures
            match r {
                Ok(()) => spec_is_admin_or_manager(self.roles, caller@),
                Err(e) => !spec_is_admin_or_manager(self.roles, caller@) && e
                    == AccessError::PermissionDenied,
            },
    {
        match self.roles.role_of(caller) {
            Some(Role::Admin) => Ok(()),
            Some(Role::Manager) => Ok(()),
            _ => Err(AccessError::PermissionDenied),
        }
    }

    /// Admin only: inserts or overwrites the role of `user`.
    pub fn add_user(&mut self, caller: &Principal, user: Principal, role: Role) -> (r: Result<
        (),
        AccessError,
    >)
        requires
            old(self).wf(),
        ensures
            final(self).wf(),
            match r {
                Ok(()) => spec_is_admin(old(self).roles, caller@) && final(self).roles.spec_role_of(user@) == Some(role) && (forall|q: Seq<char>|
                    q != user@ ==> final(self).roles.spec_role_of(q) == old(self).roles.spec_role_of(q)) && final(self).permissions == old(self).permissions
                    && final(self).requests == old(self).requests,
                Err(e) => !spec_is_admin(old(self).roles, caller@) && e
                    == AccessError::PermissionDenied && *final(self) == *old(self),
            },
    {
        match self.is_admin(caller) {
            Ok(()) => {
                self.roles.assign(user, role);
                Ok(())
            },
            Err(e) => Err(e),
        }
    }

    /// Admin only: removes the role entry of `user` if present.
    pub fn remove_user(&mut self, caller: &Principal, user: &Principal) -> (r: Result<
        (),
        AccessError,
    >)
        requires
            old(self).wf(),
        ensures
            final(self).wf(),
            match r {
                Ok(()) => spec_is_admin(old(self).roles, caller@) && final(self).roles.spec_role_of(user@) == Option::<Role>::None && (forall|q: Seq<char>|
                    q != user@ ==> final(self).roles.spec_role_of(q) == old(self).roles.spec_role_of(q)) && final(self).permissions == old(self).permissions
                    && final(self).requests == old(self).requests,
                Err(e) => !spec_is_admin(old(self).roles, caller@) && e
                    == AccessError::PermissionDenied && *final(self) == *old(self),
            },
    {
        match self.is_admin(caller) {
            Ok(()) => {
                self.roles.revoke(user);
                Ok(())
            },
            Err(e) => Err(e),
        }
    }

    /// Unrestricted read of the role held by `user`.
    pub fn get_user_role(&self, user: &Principal) -> (r: Option<Role>)
        requires
            self.wf(),
        ensures
            r == self.roles.spec_role_of(user@),
    {
        self.roles.role_of(user)
    }

    /// Admin or Manager: adds `role` to the permitted set of `resource`.
    pub fn add_resource_permission(
        &mut self,
        caller: &Principal,
        resource: String,
        role: Role,
    ) -> (r: Result<(), AccessError>)
        requires
            old(self).wf(),
        ensures
            final(self).wf(),
            match r {
                Ok(()) => spec_is_admin_or_manager(old(self).roles, caller@) && final(self).permissions.spec_permits(resource@, role) && (forall|q: Seq<char>, r2: Role|
                    !(q == resource@ && r2 == role) ==> final(self).permissions.spec_permits(
                        q,
                        r2,
                    ) == old(self).permissions.spec_permits(q, r2)) && final(self).roles == old(self).roles && final(self).requests == old(self).requests,
                Err(e) => !spec_is_admin_or_manager(old(self).roles, caller@) && e
                    == AccessError::PermissionDenied && *final(self) == *old(self),
            },
    {
        match self.is_admin_or_manager(caller) {
            Ok(()) => {
                self.permissions.grant(resource, role);
                Ok(())
            },
            Err(e) => Err(e),
        }
    }

    /// Admin or Manager: removes `role` from the permitted set of
    /// `resource` if the entry exists; no-op otherwise.
    pub fn remove_resource_permission(
        &mut self,
        caller: &Principal,
        resource: &String,
        role: Role,
    ) -> (r: Result<(), AccessError>)
        requires
            old(self).wf(),
        ensures
            final(self).wf(),
            match r {
                Ok(()) => spec_is_admin_or_manager(old(self).roles, caller@) && !final(self).permissions.spec_permits(resource@, role) && (forall|q: Seq<char>, r2: Role|
                    !(q == resource@ && r2 == role) ==> final(self).permissions.spec_permits(
                        q,
                        r2,
                    ) == old(self).permissions.spec_permits(q, r2)) && final(self).roles == old(self).roles && final(self).requests == old(self).requests,
                Err(e) => !spec_is_admin_or_manager(old(self).roles, caller@) && e
                    == AccessError::PermissionDenied && *final(self) == *old(self),
            },
    {
        match self.is_admin_or_manager(caller) {
            Ok(()) => {
                self.permissions.revoke(resource, role);
                Ok(())
            },
            Err(e) => Err(e),
        }
    }

    /// Unrestricted read of the combined authorization decision.
    pub fn can_access_resource(&self, user: &Principal, resource: &String) -> (b: bool)
        requires
            self.wf(),
        ensures
            b == spec_can_access(self.roles, self.permissions, user@, resource@),
    {
        let role = self.roles.role_of(user);
        match role {
            None => false,
            Some(r) => {
                if r == Role::Admin {
                    true
                } else {
                    self.permissions.is_permitted(resource, r)
                }
            },
        }
    }

    /// Open to any authenticated caller: records a new pending request.
    /// Id uniqueness relies on `now` coming from a strictly increasing
    /// clock, so no existing request of this requester carries it.
    pub fn request_access(&mut self, requester: Principal, resource: String, now: u64) -> (id:
        RequestId)
        requires
            old(self).wf(),
            !old(self).requests.contains_req((requester@, now)),
        ensures
            final(self).wf(),
            id@ == (requester@, now),
            create_post(old(self).requests, final(self).requests, id@),
            final(self).requests.spec_requester(id@) == requester@,
            final(self).requests.spec_resource(id@) == resource@,
            final(self).requests.spec_requested_at(id@) == now,
            final(self).roles == old(self).roles,
            final(self).permissions == old(self).permissions,
    {
        self.requests.create(requester, resource, now)
    }

    /// The exclusivity gate of processing; see `RequestProcessingGuard::new`.
    pub fn begin_processing(&mut self, request_id: RequestId) -> (r: Result<
        RequestProcessingGuard,
        AccessError,
    >)
        requires
            old(self).wf(),
        ensures
            final(self).wf(),
            final(self).roles == old(self).roles,
            final(self).permissions == old(self).permissions,
            match r {
                Ok(g) => begin_outcome(old(self).requests, request_id@) is None && g.request_id@
                    == request_id@ && begin_post(
                    old(self).requests,
                    final(self).requests,
                    request_id@,
                ),
                Err(e) => begin_outcome(old(self).requests, request_id@) == Some(e) && *final(self)
                    == *old(self),
            },
    {
        RequestProcessingGuard::new(&mut self.requests, request_id)
    }

    /// Commits a granted ticket's decision; see
    /// `RequestProcessingGuard::finalize`.
    pub fn finalize_request(&mut self, guard: RequestProcessingGuard, approve: bool)
        requires
            old(self).wf(),
            old(self).requests.in_flight(guard.request_id@),
        ensures
            final(self).wf(),
            finalize_post(old(self).requests, final(self).requests, guard.request_id@, approve),
            final(self).roles == old(self).roles,
            final(self).permissions == old(self).permissions,
    {
        guard.finalize(&mut self.requests, approve);
    }

    /// Admin or Manager: processes a request to the chosen terminal state,
    /// at most once per request. On any failure the whole state is exactly
    /// as it was.
    pub fn process_request(&mut self, caller: &Principal, request_id: &RequestId, approve: bool)
        -> (r: Result<(), AccessError>)
        requires
            old(self).wf(),
        ensures
            final(self).wf(),
            final(self).roles == old(self).roles,
            final(self).permissions == old(self).permissions,
            match r {
                Ok(()) => process_outcome(*old(self), caller@, request_id@) is None
                    && finalize_post(
                    old(self).requests,
                    final(self).requests,
                    request_id@,
                    approve,
                ),
                Err(e) => process_outcome(*old(self), caller@, request_id@) == Some(e) && *final(self) == *old(self),
            },
    {
        match self.is_admin_or_manager(caller) {
            Ok(()) => {},
            Err(e) => {
                return Err(e);
            },
        }
        let ghost pre = self.requests;
        let guard = match RequestProcessingGuard::new(&mut self.requests, request_id.clone()) {
            Ok(g) => g,
            Err(e) => {
                return Err(e);
            },
        };
        let ghost mid = self.requests;
        guard.finalize(&mut self.requests, approve);
        proof {
            lemma_begin_then_finalize(pre, mid, self.requests, request_id@, approve);
        }
        Ok(())
    }

    /// Unrestricted read of a request's status.
    pub fn get_request_status(&self, request_id: &RequestId) -> (r: Option<RequestStatus>)
        requires
            self.wf(),
        ensures
            r == self.requests.spec_status_of(request_id@),
    {
        self.requests.status_of(request_id)
    }

    /// Snapshot of the ids of all still-pending requests.
    pub fn get_all_pending_requests(&self) -> (r: Vec<RequestId>)
        requires
            self.wf(),
        ensures
            crate::requests::ids_unique(r@),
            forall|k: IdView|
                #[trigger] crate::requests::ids_contain(r@, k) <==> self.requests.spec_status_of(k)
                    == Some(RequestStatus::Pending),
    {
        self.requests.list_pending()
    }
}

/// Granting the ticket and then finalizing it composes to the finalize
/// transition from the original store: the intermediate in-flight hold
/// leaves no trace.
pub proof fn lemma_begin_then_finalize(
    pre: RequestStore,
    mid: RequestStore,
    post: RequestStore,
    k: IdView,
    approve: bool,
)
    requires
        begin_post(pre, mid, k),
        finalize_post(mid, post, k, approve),
        !pre.in_flight(k),
    ensures
        finalize_post(pre, post, k, approve),
{
    assert forall|k2: IdView| k2 != k implies post.contains_req(k2) == pre.contains_req(k2)
        && post.spec_status_of(k2) == pre.spec_status_of(k2) && post.spec_processed(k2)
        == pre.spec_processed(k2) && post.in_pending(k2) == pre.in_pending(k2) && post.in_flight(
        k2,
    ) == pre.in_flight(k2) by {
        assert(mid.contains_req(k2) == pre.contains_req(k2));
        assert(mid.spec_status_of(k2) == pre.spec_status_of(k2));
        assert(mid.spec_processed(k2) == pre.spec_processed(k2));
        assert(mid.in_pending(k2) == pre.in_pending(k2));
    }
    assert(mid.spec_requester(k) == pre.spec_requester(k));
    assert(mid.spec_resource(k) == pre.spec_resource(k));
    assert(mid.spec_requested_at(k) == pre.spec_requested_at(k));
    assert forall|k2: IdView| k2 != k && pre.contains_req(k2) implies req_record(
        post.requests@,
        k2,
    ) == req_record(pre.requests@, k2) by {
        assert(mid.contains_req(k2));
        assert(req_record(mid.requests@, k2) == req_record(pre.requests@, k2));
    }
}

} // verus!
