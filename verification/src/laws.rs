//! The laws of the service, each proved from the models that the operation
//! contracts are stated over.

use vstd::prelude::*;
use crate::permissions::PermissionRegistry;
use crate::requests::AccessError;
use crate::requests::IdView;
use crate::requests::RequestStatus;
use crate::requests::RequestStore;
use crate::requests::begin_outcome;
use crate::requests::begin_post;
use crate::requests::finalize_post;
use crate::requests::terminal_status;
use crate::roles::Role;
use crate::roles::RoleStore;
use crate::service::AccessControlService;
use crate::service::process_outcome;
use crate::service::spec_can_access;
use crate::service::spec_is_admin_or_manager;

verus! {

/// Immediately after `assign(p, r)`, `role_of(p)` returns `Some(r)`; the
/// hypothesis is exactly what `RoleStore::assign` ensures.
pub proof fn lemma_role_of_after_assign(pre: RoleStore, post: RoleStore, p: Seq<char>, r: Role)
    requires
        crate::roles::assign_post(pre, post, p, r),
    ensures
        post.spec_role_of(p) == Some(r),
{
}

/// Immediately after `revoke(p)`, `role_of(p)` returns `None`, whatever the
/// principal held before; the hypothesis is exactly what
/// `RoleStore::revoke` ensures.
pub proof fn lemma_role_of_after_revoke(pre: RoleStore, post: RoleStore, p: Seq<char>)
    requires
        crate::roles::revoke_post(pre, post, p),
    ensures
        post.spec_role_of(p) is None,
{
}

/// An Admin can access every resource, whatever the Permission Registry
/// holds.
pub proof fn lemma_admin_accesses_everything(
    roles: RoleStore,
    perms: PermissionRegistry,
    p: Seq<char>,
    resource: Seq<char>,
)
    requires
        roles.spec_role_of(p) == Some(Role::Admin),
    ensures
        spec_can_access(roles, perms, p, resource),
{
}

/// A principal with a non-Admin role and no grant of that role on a
/// resource cannot access it.
pub proof fn lemma_no_grant_no_access(
    roles: RoleStore,
    perms: PermissionRegistry,
    p: Seq<char>,
    resource: Seq<char>,
    r: Role,
)
    requires
        roles.spec_role_of(p) == Some(r),
        r != Role::Admin,
        !perms.spec_permits(resource, r),
    ensures
        !spec_can_access(roles, perms, p, resource),
{
}

/// An unassigned principal can access nothing.
pub proof fn lemma_unassigned_no_access(
    roles: RoleStore,
    perms: PermissionRegistry,
    p: Seq<char>,
    resource: Seq<char>,
)
    requires
        roles.spec_role_of(p) is None,
    ensures
        !spec_can_access(roles, perms, p, resource),
{
}

/// Exactly-once processing: while the first processor of a request holds
/// the ticket, a second attempt on the same id must fail with
/// `AlreadyInProgress`; and when the first finalizes, the request is
/// terminal with `processed` set. Other requests are untouched throughout.
pub proof fn lemma_exactly_once(
    s0: RequestStore,
    s1: RequestStore,
    s2: RequestStore,
    k: IdView,
    approve: bool,
)
    requires
        s0.wf(),
        begin_outcome(s0, k) is None,
        begin_post(s0, s1, k),
        finalize_post(s1, s2, k, approve),
    ensures
        begin_outcome(s1, k) == Some(AccessError::AlreadyInProgress),
        s2.is_terminal(k),
        s2.spec_status_of(k) == Some(terminal_status(approve)),
        s2.spec_processed(k),
        forall|k2: IdView| k2 != k ==> s2.spec_status_of(k2) == s0.spec_status_of(k2),
{
    assert(s1.contains_req(k));
    assert(s1.spec_status_of(k) == s0.spec_status_of(k));
    assert forall|k2: IdView| k2 != k implies s2.spec_status_of(k2) == s0.spec_status_of(k2) by {
        assert(s1.spec_status_of(k2) == s0.spec_status_of(k2));
    }
}

/// Idempotence of the terminal state: once a request is terminal, any
/// further `begin_processing` on it fails with `NotPending`, so no ticket —
/// and hence no status change — is possible any more.
pub proof fn lemma_terminal_is_final(s: RequestStore, k: IdView)
    requires
        s.wf(),
        s.is_terminal(k),
    ensures
        begin_outcome(s, k) == Some(AccessError::NotPending),
{
}

/// A terminal request's status survives someone else's finalization: the
/// ticket being finalized always belongs to a still-pending request, hence
/// to a different id.
pub proof fn lemma_finalize_preserves_terminal(
    pre: RequestStore,
    post: RequestStore,
    j: IdView,
    k: IdView,
    approve: bool,
)
    requires
        pre.wf(),
        pre.in_flight(j),
        finalize_post(pre, post, j, approve),
        pre.is_terminal(k),
    ensures
        post.spec_status_of(k) == pre.spec_status_of(k),
{
    pre.lemma_in_flight_pending(j);
    assert(k != j);
}

/// Acquiring a processing ticket changes no request's status: only the
/// in-flight set grows.
pub proof fn lemma_begin_preserves_status(pre: RequestStore, post: RequestStore, j: IdView)
    requires
        begin_post(pre, post, j),
    ensures
        forall|k: IdView| post.spec_status_of(k) == pre.spec_status_of(k),
{
    assert forall|k: IdView| post.spec_status_of(k) == pre.spec_status_of(k) by {
        assert(post.requests@ == pre.requests@);
    }
}

/// A terminal request's status also survives the creation of new requests:
/// a created id is fresh, so it can never collide with an existing record.
pub proof fn lemma_create_preserves_terminal(
    pre: RequestStore,
    post: RequestStore,
    fresh: IdView,
    k: IdView,
)
    requires
        pre.wf(),
        !pre.contains_req(fresh),
        crate::requests::create_post(pre, post, fresh),
        pre.is_terminal(k),
    ensures
        post.spec_status_of(k) == pre.spec_status_of(k),
{
    assert(k != fresh);
}

/// Pending-set consistency: in every well-formed store the pending index
/// holds exactly the ids whose status is `Pending`.
pub proof fn lemma_pending_set_consistent(s: RequestStore)
    requires
        s.wf(),
    ensures
        forall|k: IdView|
            #[trigger] s.in_pending(k) <==> s.spec_status_of(k) == Some(RequestStatus::Pending),
{
    assert forall|k: IdView| #[trigger] s.in_pending(k) <==> s.spec_status_of(k) == Some(
        RequestStatus::Pending,
    ) by {
        s.lemma_pending_agrees(k);
    }
}

/// Bootstrap-admin: with no Admin in the store the call grants Admin to the
/// caller and reports success; with an Admin present it reports failure and
/// the whole service is unchanged. The hypotheses are exactly what
/// `bootstrap_admin` ensures.
pub proof fn lemma_bootstrap_admin(
    pre: AccessControlService,
    post: AccessControlService,
    caller: Seq<char>,
    granted: bool,
)
    requires
        granted == !pre.roles.has_admin(),
        granted ==> post.roles.spec_role_of(caller) == Some(Role::Admin),
        !granted ==> post == pre,
    ensures
        !pre.roles.has_admin() ==> granted && post.roles.spec_role_of(caller) == Some(Role::Admin),
        pre.roles.has_admin() ==> !granted && post == pre,
{
}

/// A caller who is neither Admin nor Manager cannot process any request:
/// the outcome is `PermissionDenied`, whatever the request store holds.
pub proof fn lemma_process_needs_privilege(
    s: AccessControlService,
    caller: Seq<char>,
    k: IdView,
)
    requires
        !spec_is_admin_or_manager(s.roles, caller),
    ensures
        process_outcome(s, caller, k) == Some(AccessError::PermissionDenied),
{
}

/// Processing a nonexistent id fails with `NotFound`, for any privileged
/// caller.
pub proof fn lemma_process_unknown_id(s: AccessControlService, caller: Seq<char>, k: IdView)
    requires
        spec_is_admin_or_manager(s.roles, caller),
        !s.requests.contains_req(k),
    ensures
        process_outcome(s, caller, k) == Some(AccessError::NotFound),
{
}

} // verus!
