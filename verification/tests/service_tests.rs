use access_control::permissions::PermissionRegistry;
use access_control::requests::AccessError;
use access_control::requests::RequestId;
use access_control::requests::RequestStatus;
use access_control::roles::Principal;
use access_control::roles::Role;
use access_control::roles::RoleStore;
use access_control::service::AccessControlService;

fn principal(name: &str) -> Principal {
    Principal::new(name.to_string())
}

fn pending_contains(pending: &Vec<RequestId>, id: &RequestId) -> bool {
    pending.iter().any(|p| p.matches(id))
}

#[test]
fn role_store_assign_then_role_of() {
    let mut roles = RoleStore::new();
    roles.assign(principal("alice"), Role::Manager);
    assert_eq!(roles.role_of(&principal("alice")), Some(Role::Manager));
    // last write wins
    roles.assign(principal("alice"), Role::User);
    assert_eq!(roles.role_of(&principal("alice")), Some(Role::User));
    roles.revoke(&principal("alice"));
    assert_eq!(roles.role_of(&principal("alice")), None);
    // revoking an absent principal is a quiet no-op
    roles.revoke(&principal("nobody"));
    assert_eq!(roles.role_of(&principal("nobody")), None);
}

#[test]
fn permission_registry_grant_and_revoke() {
    let mut perms = PermissionRegistry::new();
    let reports = "reports".to_string();
    assert!(!perms.is_permitted(&reports, Role::User));
    perms.grant(reports.clone(), Role::User);
    assert!(perms.is_permitted(&reports, Role::User));
    assert!(!perms.is_permitted(&reports, Role::Guest));
    // idempotent
    perms.grant(reports.clone(), Role::User);
    assert!(perms.is_permitted(&reports, Role::User));
    perms.revoke(&reports, Role::User);
    assert!(!perms.is_permitted(&reports, Role::User));
    // revoking on a missing resource is a quiet no-op
    perms.revoke(&"missing".to_string(), Role::User);
    assert!(!perms.is_permitted(&"missing".to_string(), Role::User));
}

#[test]
fn init_grants_admin_to_invoker() {
    let mut service = AccessControlService::new();
    let root = principal("root");
    service.init(&root);
    assert_eq!(service.get_user_role(&root), Some(Role::Admin));
    // a re-initialization grants Admin to the new invoker too
    let upgrader = principal("upgrader");
    service.init(&upgrader);
    assert_eq!(service.get_user_role(&upgrader), Some(Role::Admin));
    assert_eq!(service.get_user_role(&root), Some(Role::Admin));
}

#[test]
fn bootstrap_admin_only_when_no_admin_exists() {
    let mut service = AccessControlService::new();
    let rescuer = principal("rescuer");
    assert!(service.bootstrap_admin(&rescuer));
    assert_eq!(service.get_user_role(&rescuer), Some(Role::Admin));
    // an Admin now exists, so a second call must refuse and change nothing
    let latecomer = principal("latecomer");
    assert!(!service.bootstrap_admin(&latecomer));
    assert_eq!(service.get_user_role(&latecomer), None);
    assert_eq!(service.get_user_role(&rescuer), Some(Role::Admin));
}

#[test]
fn bootstrap_admin_refused_while_non_admin_roles_exist_only_if_admin_present() {
    let mut service = AccessControlService::new();
    let admin = principal("admin");
    service.init(&admin);
    service
        .add_user(&admin, principal("worker"), Role::User)
        .unwrap();
    service.remove_user(&admin, &admin).unwrap();
    // only a User is left: no Admin exists, so bootstrap succeeds
    let rescuer = principal("rescuer");
    assert!(service.bootstrap_admin(&rescuer));
    assert_eq!(service.get_user_role(&rescuer), Some(Role::Admin));
}

#[test]
fn user_management_requires_admin() {
    let mut service = AccessControlService::new();
    let admin = principal("admin");
    service.init(&admin);
    let bob = principal("bob");
    assert_eq!(service.add_user(&admin, bob.clone(), Role::Manager), Ok(()));
    assert_eq!(service.get_user_role(&bob), Some(Role::Manager));
    // a Manager may not manage users
    let carol = principal("carol");
    assert_eq!(
        service.add_user(&bob, carol.clone(), Role::User),
        Err(AccessError::PermissionDenied)
    );
    assert_eq!(service.get_user_role(&carol), None);
    assert_eq!(
        service.remove_user(&bob, &admin),
        Err(AccessError::PermissionDenied)
    );
    assert_eq!(service.remove_user(&admin, &bob), Ok(()));
    assert_eq!(service.get_user_role(&bob), None);
}

#[test]
fn admin_can_access_everything_regardless_of_grants() {
    let mut service = AccessControlService::new();
    let admin = principal("admin");
    service.init(&admin);
    // no grant on any resource, still accessible to the Admin
    assert!(service.can_access_resource(&admin, &"vault".to_string()));
    assert!(service.can_access_resource(&admin, &"reports".to_string()));
}

#[test]
fn ungranted_role_never_accesses() {
    let mut service = AccessControlService::new();
    let admin = principal("admin");
    service.init(&admin);
    let user = principal("dave");
    service.add_user(&admin, user.clone(), Role::User).unwrap();
    let reports = "reports".to_string();
    let vault = "vault".to_string();
    service
        .add_resource_permission(&admin, reports.clone(), Role::User)
        .unwrap();
    assert!(service.can_access_resource(&user, &reports));
    // no grant of User on vault
    assert!(!service.can_access_resource(&user, &vault));
    // a grant of a different role does not help
    service
        .add_resource_permission(&admin, vault.clone(), Role::Manager)
        .unwrap();
    assert!(!service.can_access_resource(&user, &vault));
    // an unassigned principal has no access even with grants present
    assert!(!service.can_access_resource(&principal("stranger"), &reports));
    // removing the grant removes the access
    service
        .remove_resource_permission(&admin, &reports, Role::User)
        .unwrap();
    assert!(!service.can_access_resource(&user, &reports));
}

#[test]
fn permission_management_requires_admin_or_manager() {
    let mut service = AccessControlService::new();
    let admin = principal("admin");
    service.init(&admin);
    let manager = principal("meg");
    let guest = principal("gus");
    service
        .add_user(&admin, manager.clone(), Role::Manager)
        .unwrap();
    service.add_user(&admin, guest.clone(), Role::Guest).unwrap();
    let files = "files".to_string();
    assert_eq!(
        service.add_resource_permission(&manager, files.clone(), Role::Guest),
        Ok(())
    );
    assert!(service.is_admin_or_manager(&manager).is_ok());
    assert_eq!(
        service.add_resource_permission(&guest, files.clone(), Role::Guest),
        Err(AccessError::PermissionDenied)
    );
    assert_eq!(
        service.remove_resource_permission(&guest, &files, Role::Guest),
        Err(AccessError::PermissionDenied)
    );
    assert!(service.can_access_resource(&guest, &files));
}

#[test]
fn request_lifecycle_approval_scenario() {
    let mut service = AccessControlService::new();
    let admin = principal("admin");
    service.init(&admin);
    let q = principal("q");
    let rq1 = service.request_access(q.clone(), "reports".to_string(), 1);
    assert_eq!(service.get_request_status(&rq1), Some(RequestStatus::Pending));
    let pending = service.get_all_pending_requests();
    assert!(pending_contains(&pending, &rq1));
    assert_eq!(service.process_request(&admin, &rq1, true), Ok(()));
    assert_eq!(service.get_request_status(&rq1), Some(RequestStatus::Approved));
    let pending_after = service.get_all_pending_requests();
    assert!(!pending_contains(&pending_after, &rq1));
}

#[test]
fn request_denial_records_denied() {
    let mut service = AccessControlService::new();
    let admin = principal("admin");
    service.init(&admin);
    let q = principal("q");
    let id = service.request_access(q.clone(), "vault".to_string(), 7);
    assert_eq!(service.process_request(&admin, &id, false), Ok(()));
    assert_eq!(service.get_request_status(&id), Some(RequestStatus::Denied));
}

#[test]
fn manager_may_process_requests() {
    let mut service = AccessControlService::new();
    let admin = principal("admin");
    service.init(&admin);
    let manager = principal("meg");
    service
        .add_user(&admin, manager.clone(), Role::Manager)
        .unwrap();
    let id = service.request_access(principal("q"), "reports".to_string(), 3);
    assert_eq!(service.process_request(&manager, &id, true), Ok(()));
    assert_eq!(service.get_request_status(&id), Some(RequestStatus::Approved));
}

#[test]
fn process_request_requires_privilege_and_leaves_request_unchanged() {
    let mut service = AccessControlService::new();
    let admin = principal("admin");
    service.init(&admin);
    let requester = principal("q");
    service
        .add_user(&admin, requester.clone(), Role::User)
        .unwrap();
    let id = service.request_access(requester.clone(), "reports".to_string(), 5);
    // the requester is only a User: processing is refused
    assert_eq!(
        service.process_request(&requester, &id, true),
        Err(AccessError::PermissionDenied)
    );
    assert_eq!(service.get_request_status(&id), Some(RequestStatus::Pending));
    // a Guest is refused as well
    let guest = principal("gus");
    service.add_user(&admin, guest.clone(), Role::Guest).unwrap();
    assert_eq!(
        service.process_request(&guest, &id, true),
        Err(AccessError::PermissionDenied)
    );
    assert_eq!(service.get_request_status(&id), Some(RequestStatus::Pending));
}

#[test]
fn process_request_on_unknown_id_fails_not_found() {
    let mut service = AccessControlService::new();
    let admin = principal("admin");
    service.init(&admin);
    let ghost_id = RequestId { requester: principal("nobody"), at: 99 };
    assert_eq!(
        service.process_request(&admin, &ghost_id, true),
        Err(AccessError::NotFound)
    );
    assert_eq!(service.get_request_status(&ghost_id), None);
}

#[test]
fn concurrent_processing_admits_exactly_one() {
    let mut service = AccessControlService::new();
    let admin = principal("admin");
    service.init(&admin);
    let id = service.request_access(principal("q"), "reports".to_string(), 11);
    // first processor acquires the ticket
    let ticket = service.begin_processing(id.clone()).unwrap();
    // a second attempt on the same id while the first is in flight
    match service.begin_processing(id.clone()) {
        Err(AccessError::AlreadyInProgress) => {},
        other => panic!("second acquisition should be refused: {:?}", other.map(|_| ())),
    }
    // an unrelated request is not blocked
    let other_id = service.request_access(principal("r"), "files".to_string(), 12);
    let other_ticket = service.begin_processing(other_id.clone()).unwrap();
    service.finalize_request(other_ticket, false);
    // the first processor finalizes; the request settles terminal
    service.finalize_request(ticket, true);
    assert_eq!(service.get_request_status(&id), Some(RequestStatus::Approved));
    assert_eq!(service.requests.processed_of(&id), Some(true));
    // after settlement, re-entry fails NotPending, not AlreadyInProgress
    assert_eq!(
        service.process_request(&admin, &id, false),
        Err(AccessError::NotPending)
    );
}

#[test]
fn terminal_state_is_idempotent() {
    let mut service = AccessControlService::new();
    let admin = principal("admin");
    service.init(&admin);
    let id = service.request_access(principal("q"), "reports".to_string(), 21);
    assert_eq!(service.process_request(&admin, &id, false), Ok(()));
    assert_eq!(service.get_request_status(&id), Some(RequestStatus::Denied));
    // any further attempt is refused and the status never changes again
    assert_eq!(
        service.process_request(&admin, &id, true),
        Err(AccessError::NotPending)
    );
    assert_eq!(service.get_request_status(&id), Some(RequestStatus::Denied));
    match service.begin_processing(id.clone()) {
        Err(AccessError::NotPending) => {},
        other => panic!("begin on a terminal request should be refused: {:?}", other.map(|_| ())),
    }
    assert_eq!(service.get_request_status(&id), Some(RequestStatus::Denied));
}

#[test]
fn pending_set_tracks_exactly_the_pending_requests() {
    let mut service = AccessControlService::new();
    let admin = principal("admin");
    service.init(&admin);
    let a = service.request_access(principal("q"), "reports".to_string(), 1);
    let b = service.request_access(principal("r"), "files".to_string(), 2);
    let c = service.request_access(principal("q"), "vault".to_string(), 3);
    let pending = service.get_all_pending_requests();
    assert_eq!(pending.len(), 3);
    assert!(pending_contains(&pending, &a));
    assert!(pending_contains(&pending, &b));
    assert!(pending_contains(&pending, &c));
    service.process_request(&admin, &b, true).unwrap();
    let pending = service.get_all_pending_requests();
    assert_eq!(pending.len(), 2);
    assert!(pending_contains(&pending, &a));
    assert!(!pending_contains(&pending, &b));
    assert!(pending_contains(&pending, &c));
    service.process_request(&admin, &a, false).unwrap();
    service.process_request(&admin, &c, true).unwrap();
    assert_eq!(service.get_all_pending_requests().len(), 0);
}

#[test]
fn request_records_keep_their_fields() {
    let mut service = AccessControlService::new();
    let q = principal("q");
    let id = service.request_access(q.clone(), "reports".to_string(), 41);
    assert!(id.requester.matches(&q));
    assert_eq!(id.at, 41);
    assert_eq!(service.requests.processed_of(&id), Some(false));
}

#[test]
fn error_messages_name_their_reasons() {
    assert_eq!(
        AccessError::NotFound.message(),
        "Request does not exist".to_string()
    );
    assert_eq!(
        AccessError::NotPending.message(),
        "Request is not pending".to_string()
    );
    assert_eq!(
        AccessError::AlreadyInProgress.message(),
        "Request is already being processed".to_string()
    );
    assert_eq!(
        AccessError::PermissionDenied.message(),
        "Caller does not hold a role that permits this operation".to_string()
    );
    assert_eq!(
        AccessError::DownstreamFailure.message(),
        "Downstream processing failed".to_string()
    );
}
