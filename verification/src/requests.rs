//! Request Lifecycle Manager: access-request records and their state machine.
//!
//! A request moves from `Pending` to exactly one terminal state (`Approved`
//! or `Denied`) and never back. The store keeps the append-only record
//! vector, an explicit pending index, and the transient in-flight set that
//! admits at most one concurrent processor per request id.

use vstd::prelude::*;
use crate::roles::Principal;

verus! {

/// The state of an access request; `Approved` and `Denied` are terminal.
#[derive(Clone, Copy, PartialEq, Eq, Structural, Debug)]
pub enum RequestStatus {
    Pending,
    Approved,
    Denied,
}

/// Why an operation was refused.
#[derive(Clone, Copy, PartialEq, Eq, Structural, Debug)]
pub enum AccessError {
    /// The caller lacks the role the operation requires.
    PermissionDenied,
    /// No request with the given id exists.
    NotFound,
    /// The request is already in a terminal state.
    NotPending,
    /// Another processor currently holds the ticket for this id.
    AlreadyInProgress,
    /// The side-effecting work of a decision failed; the decision itself
    /// is still recorded.
    DownstreamFailure,
}

impl AccessError {
    /// A human-readable reason for the failure.
    pub fn message(&self) -> (m: String)
        ensures
            match self {
                AccessError::PermissionDenied => m@ == "Caller does not hold a role that permits this operation"@,
                AccessError::NotFound => m@ == "Request does not exist"@,
                AccessError::NotPending => m@ == "Request is not pending"@,
                AccessError::AlreadyInProgress => m@ == "Request is already being processed"@,
                AccessError::DownstreamFailure => m@ == "Downstream processing failed"@,
            },
    {
        match self {
            AccessError::PermissionDenied => String::from_str(
                "Caller does not hold a role that permits this operation",
            ),
            AccessError::NotFound => String::from_str("Request does not exist"),
            AccessError::NotPending => String::from_str("Request is not pending"),
            AccessError::AlreadyInProgress => String::from_str(
                "Request is already being processed",
            ),
            AccessError::DownstreamFailure => String::from_str("Downstream processing failed"),
        }
    }
}

/// A request id, globally unique because it pairs the requester with a
/// strictly increasing creation timestamp.
pub struct RequestId {
    pub requester: Principal,
    pub at: u64,
}

/// The mathematical value of a request id.
pub type IdView = (Seq<char>, u64);

impl View for RequestId {
    type V = IdView;

    open spec fn view(&self) -> IdView {
        (self.requester@, self.at)
    }
}

impl RequestId {
    /// Equality of the underlying (requester, timestamp) pairs.
    pub fn matches(&self, other: &RequestId) -> (r: bool)
        ensures
            r == (self@ == other@),
    {
        self.requester.matches(&other.requester) && self.at == other.at
    }
}

impl Clone for RequestId {
    fn clone(&self) -> (r: Self)
        ensures
            r@ == self@,
    {
        RequestId { requester: self.requester.clone(), at: self.at }
    }
}

/// One access request; the record is append-only history and only its
/// `status` and `processed` fields ever change, exactly once.
pub struct AccessRequest {
    pub id: RequestId,
    pub requester: Principal,
    pub resource: String,
    pub requested_at: u64,
    pub status: RequestStatus,
    pub processed: bool,
}

/// Membership of an id value in a vector of ids.
pub open spec fn ids_contain(s: Seq<RequestId>, k: IdView) -> bool {
    exists|i: int| 0 <= i < s.len() && s[i]@ == k
}

/// All id values in the vector are distinct.
pub open spec fn ids_unique(s: Seq<RequestId>) -> bool {
    forall|i: int, j: int| 0 <= i < j < s.len() ==> s[i]@ != s[j]@
}

/// Membership of an id value among the request records.
pub open spec fn reqs_contain(s: Seq<AccessRequest>, k: IdView) -> bool {
    exists|i: int| 0 <= i < s.len() && s[i].id@ == k
}

/// Index of the record with id `k`.
pub open spec fn req_index(s: Seq<AccessRequest>, k: IdView) -> int {
    choose|i: int| 0 <= i < s.len() && s[i].id@ == k
}

/// The record with id `k`; meaningful only when `reqs_contain(s, k)`.
pub open spec fn req_record(s: Seq<AccessRequest>, k: IdView) -> AccessRequest {
    s[req_index(s, k)]
}

/// Record ids are pairwise distinct.
pub open spec fn reqs_unique(s: Seq<AccessRequest>) -> bool {
    forall|i: int, j: int| 0 <= i < j < s.len() ==> s[i].id@ != s[j].id@
}

/// Owns request records, the pending index and the in-flight set.
pub struct RequestStore {
    pub requests: Vec<AccessRequest>,
    pub pending: Vec<RequestId>,
    pub processing: Vec<RequestId>,
}

impl RequestStore {
    pub open spec fn contains_req(self, k: IdView) -> bool {
        reqs_contain(self.requests@, k)
    }

    /// The status of request `k`, if the request exists.
    pub open spec fn spec_status_of(self, k: IdView) -> Option<RequestStatus> {
        if self.contains_req(k) {
            Some(req_record(self.requests@, k).status)
        } else {
            None
        }
    }

    /// Request `k` exists and has durably recorded a terminal status.
    pub open spec fn spec_processed(self, k: IdView) -> bool {
        self.contains_req(k) && req_record(self.requests@, k).processed
    }

    pub open spec fn spec_requester(self, k: IdView) -> Seq<char> {
        req_record(self.requests@, k).requester@
    }

    pub open spec fn spec_resource(self, k: IdView) -> Seq<char> {
        req_record(self.requests@, k).resource@
    }

    pub open spec fn spec_requested_at(self, k: IdView) -> u64 {
        req_record(self.requests@, k).requested_at
    }

    /// Request `k` is in the explicit pending index.
    pub open spec fn in_pending(self, k: IdView) -> bool {
        ids_contain(self.pending@, k)
    }

    /// Request `k` is currently inside a processing guard's scope.
    pub open spec fn in_flight(self, k: IdView) -> bool {
        ids_contain(self.processing@, k)
    }

    /// Request `k` exists with a terminal status.
    pub open spec fn is_terminal(self, k: IdView) -> bool {
        self.spec_status_of(k) == Some(RequestStatus::Approved) || self.spec_status_of(k)
            == Some(RequestStatus::Denied)
    }

    /// Store invariant:
    /// - record ids are unique, as are the pending and in-flight indices;
    /// - `processed` holds exactly of records with a terminal status;
    /// - the pending index holds exactly the ids whose status is `Pending`;
    /// - every in-flight id belongs to a still-pending request.
    pub open spec fn wf(self) -> bool {
        &&& reqs_unique(self.requests@)
        &&& ids_unique(self.pending@)
        &&& ids_unique(self.processing@)
        &&& forall|i: int|
            0 <= i < self.requests@.len() ==> ((#[trigger] self.requests@[i]).processed
                <==> self.requests@[i].status != RequestStatus::Pending)
        &&& forall|k: IdView|
            #[trigger] ids_contain(self.pending@, k) ==> self.contains_req(k) && req_record(
                self.requests@,
                k,
            ).status == RequestStatus::Pending
        &&& forall|i: int|
            0 <= i < self.requests@.len() && (#[trigger] self.requests@[i]).status
                == RequestStatus::Pending ==> self.in_pending(self.requests@[i].id@)
        &&& forall|k: IdView|
            #[trigger] ids_contain(self.processing@, k) ==> ids_contain(self.pending@, k)
    }

    /// With unique record ids, a matching index is the lookup index.
    pub proof fn lemma_req_index(self, k: IdView, i: int)
        requires
            reqs_unique(self.requests@),
            0 <= i < self.requests@.len(),
            self.requests@[i].id@ == k,
        ensures
            self.contains_req(k),
            req_index(self.requests@, k) == i,
            req_record(self.requests@, k) == self.requests@[i],
    {
        assert(reqs_contain(self.requests@, k));
        let j = req_index(self.requests@, k);
        assert(0 <= j < self.requests@.len() && self.requests@[j].id@ == k);
        if i < j {
            assert(self.requests@[i].id@ != self.requests@[j].id@);
        } else if j < i {
            assert(self.requests@[j].id@ != self.requests@[i].id@);
        }
    }

    /// The pending index agrees exactly with the `Pending` status.
    pub proof fn lemma_pending_agrees(self, k: IdView)
        requires
            self.wf(),
        ensures
            self.in_pending(k) <==> self.spec_status_of(k) == Some(RequestStatus::Pending),
    {
        if self.spec_status_of(k) == Some(RequestStatus::Pending) {
            let j = req_index(self.requests@, k);
            assert(0 <= j < self.requests@.len() && self.requests@[j].id@ == k);
            assert(self.in_pending(self.requests@[j].id@));
        }
    }

    /// An in-flight id always belongs to a still-pending request.
    pub proof fn lemma_in_flight_pending(self, k: IdView)
        requires
            self.wf(),
            self.in_flight(k),
        ensures
            self.spec_status_of(k) == Some(RequestStatus::Pending),
            self.in_pending(k),
    {
        assert(ids_contain(self.pending@, k));
    }

    pub fn new() -> (s: RequestStore)
        ensures
            s.wf(),
            forall|k: IdView| !s.contains_req(k) && !s.in_pending(k) && !s.in_flight(k),
    {
        let s = RequestStore {
            requests: Vec::new(),
            pending: Vec::new(),
            processing: Vec::new(),
        };
        proof {
            assert(forall|k: IdView|
                !s.contains_req(k) && !s.in_pending(k) && !s.in_flight(k));
        }
        s
    }

    /// Index of the record with the given id, if one exists.
    fn find_req(&self, id: &RequestId) -> (r: Option<usize>)
        requires
            reqs_unique(self.requests@),
        ensures
            match r {
                Some(i) => i < self.requests@.len() && self.requests@[i as int].id@ == id@
                    && self.contains_req(id@) && req_index(self.requests@, id@) == i,
                None => !self.contains_req(id@),
            },
    {
        let n: usize = self.requests.len();
        let mut i: usize = 0;
        while i < n
            invariant
                reqs_unique(self.requests@),
                n == self.requests@.len(),
                0 <= i <= n,
                forall|j: int| 0 <= j < i ==> self.requests@[j].id@ != id@,
            decreases n - i,
        {
            if self.requests[i].id.matches(id) {
                proof {
                    self.lemma_req_index(id@, i as int);
                }
                return Some(i);
            }
            i += 1;
        }
        None
    }

    /// Index of `id` in an id vector, if present.
    fn find_id(ids: &Vec<RequestId>, id: &RequestId) -> (r: Option<usize>)
        ensures
            match r {
                Some(i) => i < ids@.len() && ids@[i as int]@ == id@,
                None => !ids_contain(ids@, id@),
            },
    {
        let n: usize = ids.len();
        let mut i: usize = 0;
        while i < n
            invariant
                n == ids@.len(),
                0 <= i <= n,
                forall|j: int| 0 <= j < i ==> ids@[j]@ != id@,
            decreases n - i,
        {
            if ids[i].matches(id) {
                return Some(i);
            }
            i += 1;
        }
        None
    }

    /// Unrestricted read of a request's status.
    pub fn status_of(&self, id: &RequestId) -> (r: Option<RequestStatus>)
        requires
            self.wf(),
        ensures
            r == self.spec_status_of(id@),
    {
        let found = self.find_req(id);
        match found {
            Some(i) => Some(self.requests[i].status),
            None => None,
        }
    }

    /// Unrestricted read of a request's `processed` flag.
    pub fn processed_of(&self, id: &RequestId) -> (r: Option<bool>)
        requires
            self.wf(),
        ensures
            match r {
                Some(b) => self.contains_req(id@) && b == self.spec_processed(id@),
                None => !self.contains_req(id@),
            },
    {
        let found = self.find_req(id);
        match found {
            Some(i) => Some(self.requests[i].processed),
            None => None,
        }
    }

    /// Snapshot of the pending index: exactly the ids whose status is
    /// `Pending`, each exactly once.
    pub fn list_pending(&self) -> (r: Vec<RequestId>)
        requires
            self.wf(),
        ensures
            ids_unique(r@),
            forall|k: IdView|
                #[trigger] ids_contain(r@, k) <==> self.spec_status_of(k) == Some(
                    RequestStatus::Pending,
                ),
    {
        let n: usize = self.pending.len();
        let mut out: Vec<RequestId> = Vec::new();
        let mut i: usize = 0;
        while i < n
            invariant
                self.wf(),
                n == self.pending@.len(),
                0 <= i <= n,
                out@.len() == i,
                forall|j: int| 0 <= j < i ==> out@[j]@ == self.pending@[j]@,
            decreases n - i,
        {
            out.push(self.pending[i].clone());
            i += 1;
        }
        proof {
            assert forall|k: IdView| #[trigger] ids_contain(out@, k) <==> self.spec_status_of(k)
                == Some(RequestStatus::Pending) by {
                self.lemma_pending_agrees(k);
                if ids_contain(out@, k) {
                    let j = choose|j: int| 0 <= j < out@.len() && out@[j]@ == k;
                    assert(self.pending@[j]@ == k);
                }
                if self.in_pending(k) {
                    let j = choose|j: int| 0 <= j < self.pending@.len() && self.pending@[j]@ == k;
                    assert(out@[j]@ == k);
                }
            }
            assert forall|a: int, b: int| 0 <= a < b < out@.len() implies out@[a]@ != out@[b]@ by {
                assert(out@[a]@ == self.pending@[a]@);
                assert(out@[b]@ == self.pending@[b]@);
            }
        }
        out
    }
}

/// Appending a fresh id to an id vector adds exactly that id.
proof fn lemma_ids_push(pre: Seq<RequestId>, post: Seq<RequestId>, x: RequestId)
    requires
        ids_unique(pre),
        !ids_contain(pre, x@),
        post == pre.push(x),
    ensures
        ids_unique(post),
        ids_contain(post, x@),
        forall|k: IdView| k != x@ ==> ids_contain(post, k) == ids_contain(pre, k),
{
    let n = pre.len() as int;
    assert(forall|k: int| 0 <= k < n ==> post[k] == pre[k]);
    assert(post[n]@ == x@);
    assert forall|i: int, j: int| 0 <= i < j < post.len() implies post[i]@ != post[j]@ by {
        if j == n {
            if post[i]@ == x@ {
                assert(ids_contain(pre, x@));
            }
        }
    }
    assert forall|k: IdView| k != x@ implies ids_contain(post, k) == ids_contain(pre, k) by {
        if ids_contain(post, k) {
            let i = choose|i: int| 0 <= i < post.len() && post[i]@ == k;
            assert(i != n);
            assert(pre[i]@ == k);
        }
        if ids_contain(pre, k) {
            let i = choose|i: int| 0 <= i < pre.len() && pre[i]@ == k;
            assert(post[i]@ == k);
        }
    }
}

/// Removing one id from an id vector removes exactly that id.
proof fn lemma_ids_remove(pre: Seq<RequestId>, post: Seq<RequestId>, i: int)
    requires
        ids_unique(pre),
        0 <= i < pre.len(),
        post == pre.remove(i),
    ensures
        ids_unique(post),
        !ids_contain(post, pre[i]@),
        forall|k: IdView| k != pre[i]@ ==> ids_contain(post, k) == ids_contain(pre, k),
{
    assert(post.len() == pre.len() - 1);
    assert(forall|k: int| 0 <= k < i ==> post[k] == pre[k]);
    assert(forall|k: int| i <= k < post.len() ==> post[k] == pre[k + 1]);
    assert forall|a: int, b: int| 0 <= a < b < post.len() implies post[a]@ != post[b]@ by {
        let a0 = if a < i { a } else { a + 1 };
        let b0 = if b < i { b } else { b + 1 };
        assert(post[a] == pre[a0]);
        assert(post[b] == pre[b0]);
    }
    assert forall|k: IdView| ids_contain(post, k) implies k != pre[i]@ && ids_contain(pre, k) by {
        let a = choose|a: int| 0 <= a < post.len() && post[a]@ == k;
        let a0 = if a < i { a } else { a + 1 };
        assert(pre[a0]@ == k);
        if k == pre[i]@ {
            assert(pre[a0]@ == pre[i]@ && a0 != i);
        }
    }
    assert forall|k: IdView| k != pre[i]@ && ids_contain(pre, k) implies ids_contain(post, k) by {
        let a0 = choose|a0: int| 0 <= a0 < pre.len() && pre[a0]@ == k;
        assert(a0 != i);
        let a = if a0 < i { a0 } else { a0 - 1 };
        assert(post[a]@ == k);
    }
}

/// Appending a record with a fresh id adds exactly that record.
proof fn lemma_push_record(pre: Seq<AccessRequest>, post: Seq<AccessRequest>, rec: AccessRequest)
    requires
        reqs_unique(pre),
        !reqs_contain(pre, rec.id@),
        post == pre.push(rec),
    ensures
        reqs_unique(post),
        reqs_contain(post, rec.id@),
        req_record(post, rec.id@) == rec,
        forall|k: IdView| k != rec.id@ ==> reqs_contain(post, k) == reqs_contain(pre, k),
        forall|k: IdView|
            k != rec.id@ && reqs_contain(pre, k) ==> req_record(post, k) == req_record(pre, k),
{
    let n = pre.len() as int;
    assert(forall|k: int| 0 <= k < n ==> post[k] == pre[k]);
    assert(post[n] == rec);
    assert forall|i: int, j: int| 0 <= i < j < post.len() implies post[i].id@ != post[j].id@ by {
        if j == n {
            if post[i].id@ == rec.id@ {
                assert(reqs_contain(pre, rec.id@));
            }
        }
    }
    assert(reqs_contain(post, rec.id@));
    let jr = req_index(post, rec.id@);
    assert(0 <= jr < post.len() && post[jr].id@ == rec.id@);
    if jr != n {
        assert(reqs_contain(pre, rec.id@));
    }
    assert forall|k: IdView| k != rec.id@ implies reqs_contain(post, k) == reqs_contain(pre, k) by {
        if reqs_contain(post, k) {
            let i = choose|i: int| 0 <= i < post.len() && post[i].id@ == k;
            assert(i != n);
            assert(pre[i].id@ == k);
        }
        if reqs_contain(pre, k) {
            let i = choose|i: int| 0 <= i < pre.len() && pre[i].id@ == k;
            assert(post[i].id@ == k);
        }
    }
    assert forall|k: IdView| k != rec.id@ && reqs_contain(pre, k) implies req_record(post, k)
        == req_record(pre, k) by {
        let i0 = req_index(pre, k);
        assert(0 <= i0 < pre.len() && pre[i0].id@ == k);
        assert(post[i0].id@ == k);
        let i1 = req_index(post, k);
        assert(0 <= i1 < post.len() && post[i1].id@ == k);
        if i0 < i1 {
            assert(post[i0].id@ != post[i1].id@);
        } else if i1 < i0 {
            assert(post[i1].id@ != post[i0].id@);
        }
    }
}

/// Overwriting the record at its own index changes exactly that record.
proof fn lemma_update_record(
    pre: Seq<AccessRequest>,
    post: Seq<AccessRequest>,
    i: int,
    rec: AccessRequest,
)
    requires
        reqs_unique(pre),
        0 <= i < pre.len(),
        rec.id@ == pre[i].id@,
        post == pre.update(i, rec),
    ensures
        reqs_unique(post),
        reqs_contain(post, rec.id@),
        req_record(post, rec.id@) == rec,
        forall|k: IdView| reqs_contain(post, k) == reqs_contain(pre, k),
        forall|k: IdView|
            k != rec.id@ && reqs_contain(pre, k) ==> req_record(post, k) == req_record(pre, k),
{
    assert(post.len() == pre.len());
    assert(forall|k: int| 0 <= k < post.len() ==> post[k].id@ == pre[k].id@);
    assert(reqs_unique(post));
    assert(post[i] == rec);
    assert forall|k: IdView| reqs_contain(post, k) == reqs_contain(pre, k) by {
        if reqs_contain(post, k) {
            let a = choose|a: int| 0 <= a < post.len() && post[a].id@ == k;
            assert(pre[a].id@ == k);
        }
        if reqs_contain(pre, k) {
            let a = choose|a: int| 0 <= a < pre.len() && pre[a].id@ == k;
            assert(post[a].id@ == k);
        }
    }
    let jr = req_index(post, rec.id@);
    assert(0 <= jr < post.len() && post[jr].id@ == rec.id@);
    if jr < i {
        assert(post[jr].id@ != post[i].id@);
    } else if i < jr {
        assert(post[i].id@ != post[jr].id@);
    }
    assert forall|k: IdView| k != rec.id@ && reqs_contain(pre, k) implies req_record(post, k)
        == req_record(pre, k) by {
        let i0 = req_index(pre, k);
        assert(0 <= i0 < pre.len() && pre[i0].id@ == k);
        assert(i0 != i);
        assert(post[i0].id@ == k);
        let i1 = req_index(post, k);
        assert(0 <= i1 < post.len() && post[i1].id@ == k);
        if i0 < i1 {
            assert(post[i0].id@ != post[i1].id@);
        } else if i1 < i0 {
            assert(post[i1].id@ != post[i0].id@);
        }
    }
}

/// The store invariant survives admitting one pending, not-yet-held request
/// into the in-flight set, and only the in-flight set changes.
proof fn lemma_begin_wf(pre: RequestStore, post: RequestStore, x: RequestId)
    requires
        pre.wf(),
        post.requests@ == pre.requests@,
        post.pending@ == pre.pending@,
        post.processing@ == pre.processing@.push(x),
        pre.contains_req(x@),
        pre.spec_status_of(x@) == Some(RequestStatus::Pending),
        !pre.in_flight(x@),
    ensures
        post.wf(),
        post.in_flight(x@),
        forall|k2: IdView| k2 != x@ ==> post.in_flight(k2) == pre.in_flight(k2),
{
    lemma_ids_push(pre.processing@, post.processing@, x);
    pre.lemma_pending_agrees(x@);
    assert forall|i: int|
        0 <= i < post.requests@.len() implies ((#[trigger] post.requests@[i]).processed
        <==> post.requests@[i].status != RequestStatus::Pending) by {
        assert(post.requests@[i] == pre.requests@[i]);
    }
    assert forall|k: IdView| #[trigger] ids_contain(post.pending@, k) implies post.contains_req(k)
        && req_record(post.requests@, k).status == RequestStatus::Pending by {
        assert(ids_contain(pre.pending@, k));
        assert(pre.contains_req(k));
    }
    assert forall|i: int|
        0 <= i < post.requests@.len() && (#[trigger] post.requests@[i]).status
        == RequestStatus::Pending implies post.in_pending(post.requests@[i].id@) by {
        assert(post.requests@[i] == pre.requests@[i]);
        assert(pre.in_pending(pre.requests@[i].id@));
    }
    assert forall|k: IdView| #[trigger] ids_contain(post.processing@, k) implies ids_contain(
        post.pending@,
        k,
    ) by {
        if k == x@ {
            assert(ids_contain(pre.pending@, x@));
        } else {
            assert(ids_contain(pre.processing@, k));
            assert(ids_contain(pre.pending@, k));
        }
    }
}

/// The terminal status recorded for a decision.
pub open spec fn terminal_status(approve: bool) -> RequestStatus {
    if approve {
        RequestStatus::Approved
    } else {
        RequestStatus::Denied
    }
}

/// What `RequestProcessingGuard::new` decides for request `k` on store `s`:
/// `None` means the ticket is granted.
pub open spec fn begin_outcome(s: RequestStore, k: IdView) -> Option<AccessError> {
    if !s.contains_req(k) {
        Some(AccessError::NotFound)
    } else if s.spec_status_of(k) != Some(RequestStatus::Pending) {
        Some(AccessError::NotPending)
    } else if s.in_flight(k) {
        Some(AccessError::AlreadyInProgress)
    } else {
        None
    }
}

/// How a granted ticket changes the store: only the in-flight set grows,
/// by exactly the id of the admitted request.
pub open spec fn begin_post(pre: RequestStore, post: RequestStore, k: IdView) -> bool {
    &&& post.requests@ == pre.requests@
    &&& post.pending@ == pre.pending@
    &&& post.in_flight(k)
    &&& forall|k2: IdView| k2 != k ==> post.in_flight(k2) == pre.in_flight(k2)
}

/// How creating a request changes the store: a fresh record with status
/// `Pending` appears, it joins the pending index, and nothing else moves.
pub open spec fn create_post(pre: RequestStore, post: RequestStore, k: IdView) -> bool {
    &&& post.contains_req(k)
    &&& post.spec_status_of(k) == Some(RequestStatus::Pending)
    &&& !post.spec_processed(k)
    &&& post.in_pending(k)
    &&& post.processing@ == pre.processing@
    &&& forall|k2: IdView| k2 != k ==> post.contains_req(k2) == pre.contains_req(k2)
    &&& forall|k2: IdView| k2 != k ==> post.spec_status_of(k2) == pre.spec_status_of(k2)
    &&& forall|k2: IdView| k2 != k ==> post.spec_processed(k2) == pre.spec_processed(k2)
    &&& forall|k2: IdView| k2 != k ==> post.in_pending(k2) == pre.in_pending(k2)
    &&& forall|k2: IdView|
        k2 != k && pre.contains_req(k2) ==> req_record(post.requests@, k2) == req_record(
            pre.requests@,
            k2,
        )
}

/// How finalization changes the store: the request reaches the decision's
/// terminal status with `processed` set, leaves the pending index, the
/// in-flight hold is released, and every other request is untouched.
pub open spec fn finalize_post(
    pre: RequestStore,
    post: RequestStore,
    k: IdView,
    approve: bool,
) -> bool {
    &&& post.contains_req(k)
    &&& post.spec_status_of(k) == Some(terminal_status(approve))
    &&& post.spec_processed(k)
    &&& !post.in_pending(k)
    &&& !post.in_flight(k)
    &&& post.spec_requester(k) == pre.spec_requester(k)
    &&& post.spec_resource(k) == pre.spec_resource(k)
    &&& post.spec_requested_at(k) == pre.spec_requested_at(k)
    &&& forall|k2: IdView| k2 != k ==> post.contains_req(k2) == pre.contains_req(k2)
    &&& forall|k2: IdView| k2 != k ==> post.spec_status_of(k2) == pre.spec_status_of(k2)
    &&& forall|k2: IdView| k2 != k ==> post.spec_processed(k2) == pre.spec_processed(k2)
    &&& forall|k2: IdView| k2 != k ==> post.in_pending(k2) == pre.in_pending(k2)
    &&& forall|k2: IdView| k2 != k ==> post.in_flight(k2) == pre.in_flight(k2)
    &&& forall|k2: IdView|
        k2 != k && pre.contains_req(k2) ==> req_record(post.requests@, k2) == req_record(
            pre.requests@,
            k2,
        )
}

impl RequestStore {
    /// Creates a request with status `Pending`, not yet processed, and adds
    /// its id to the pending index. Always succeeds; id uniqueness relies on
    /// the caller supplying a strictly increasing clock reading.
    pub fn create(&mut self, requester: Principal, resource: String, now: u64) -> (id: RequestId)
        requires
            old(self).wf(),
            !old(self).contains_req((requester@, now)),
        ensures
            final(self).wf(),
            id@ == (requester@, now),
            create_post(*old(self), *final(self), id@),
            final(self).spec_requester(id@) == requester@,
            final(self).spec_resource(id@) == resource@,
            final(self).spec_requested_at(id@) == now,
    {
        let id = RequestId { requester: requester.clone(), at: now };
        let record = AccessRequest {
            id: id.clone(),
            requester,
            resource,
            requested_at: now,
            status: RequestStatus::Pending,
            processed: false,
        };
        let ghost pre = *self;
        let ghost rec = record;
        self.requests.push(record);
        self.pending.push(id.clone());
        proof {
            lemma_push_record(pre.requests@, self.requests@, rec);
            assert(!ids_contain(pre.pending@, id@)) by {
                if ids_contain(pre.pending@, id@) {
                    assert(pre.contains_req(id@));
                }
            }
            lemma_ids_push(pre.pending@, self.pending@, self.pending@.last());
            self.lemma_create_wf(pre, rec);
        }
        id
    }

    /// The store invariant survives creation.
    proof fn lemma_create_wf(self, pre: RequestStore, rec: AccessRequest)
        requires
            pre.wf(),
            !pre.contains_req(rec.id@),
            rec.status == RequestStatus::Pending,
            !rec.processed,
            self.requests@ == pre.requests@.push(rec),
            self.processing@ == pre.processing@,
            ids_unique(self.pending@),
            ids_contain(self.pending@, rec.id@),
            forall|k: IdView| k != rec.id@ ==> ids_contain(self.pending@, k) == ids_contain(pre.pending@, k),
        ensures
            self.wf(),
            create_post(pre, self, rec.id@),
    {
        lemma_push_record(pre.requests@, self.requests@, rec);
        let n = pre.requests@.len() as int;
        assert forall|i: int|
            0 <= i < self.requests@.len() implies ((#[trigger] self.requests@[i]).processed
            <==> self.requests@[i].status != RequestStatus::Pending) by {
            if i < n {
                assert(self.requests@[i] == pre.requests@[i]);
            }
        }
        assert forall|k: IdView| #[trigger] ids_contain(self.pending@, k) implies self.contains_req(
            k,
        ) && req_record(self.requests@, k).status == RequestStatus::Pending by {
            if k == rec.id@ {
                assert(req_record(self.requests@, k) == rec);
            } else {
                assert(ids_contain(pre.pending@, k));
                assert(pre.contains_req(k));
                assert(req_record(self.requests@, k) == req_record(pre.requests@, k));
            }
        }
        assert forall|i: int|
            0 <= i < self.requests@.len() && (#[trigger] self.requests@[i]).status
            == RequestStatus::Pending implies self.in_pending(self.requests@[i].id@) by {
            let k = self.requests@[i].id@;
            if i < n {
                assert(self.requests@[i] == pre.requests@[i]);
                assert(pre.in_pending(k));
                assert(k != rec.id@);
            } else {
                assert(k == rec.id@);
            }
        }
        assert forall|k: IdView| #[trigger] ids_contain(self.processing@, k) implies ids_contain(
            self.pending@,
            k,
        ) by {
            assert(ids_contain(pre.processing@, k));
            assert(ids_contain(pre.pending@, k));
            assert(pre.contains_req(k));
            assert(k != rec.id@);
        }
        assert forall|k2: IdView| k2 != rec.id@ implies self.spec_status_of(k2)
            == pre.spec_status_of(k2) && self.spec_processed(k2) == pre.spec_processed(k2) by {
            if pre.contains_req(k2) {
                assert(req_record(self.requests@, k2) == req_record(pre.requests@, k2));
            }
        }
    }
}

/// The exclusive, single-use capability to finalize one specific request.
///
/// While a guard for an id exists, the id is held in the store's in-flight
/// set, so no second guard for it can be created; `finalize` consumes the
/// guard, commits the terminal state and releases the hold.
pub struct RequestProcessingGuard {
    pub request_id: RequestId,
}

impl RequestProcessingGuard {
    /// The exclusivity gate of processing, evaluated as one atomic step:
    /// refuses an unknown id (`NotFound`), a terminal request
    /// (`NotPending`), and a request already being processed
    /// (`AlreadyInProgress`); otherwise admits the caller and marks the id
    /// in-flight.
    pub fn new(store: &mut RequestStore, request_id: RequestId) -> (r: Result<
        RequestProcessingGuard,
        AccessError,
    >)
        requires
            old(store).wf(),
        ensures
            final(store).wf(),
            match r {
                Ok(g) => begin_outcome(*old(store), request_id@) is None && g.request_id@
                    == request_id@ && begin_post(*old(store), *final(store), request_id@),
                Err(e) => begin_outcome(*old(store), request_id@) == Some(e) && *final(store)
                    == *old(store),
            },
    {
        let found = store.find_req(&request_id);
        if found.is_none() {
            return Err(AccessError::NotFound);
        }
        let in_pending = RequestStore::find_id(&store.pending, &request_id);
        if in_pending.is_none() {
            proof {
                store.lemma_pending_agrees(request_id@);
            }
            return Err(AccessError::NotPending);
        }
        let held = RequestStore::find_id(&store.processing, &request_id);
        if held.is_some() {
            proof {
                store.lemma_pending_agrees(request_id@);
            }
            return Err(AccessError::AlreadyInProgress);
        }
        let ghost pre = *store;
        proof {
            pre.lemma_pending_agrees(request_id@);
        }
        store.processing.push(request_id.clone());
        proof {
            lemma_begin_wf(pre, *store, store.processing@.last());
        }
        Ok(RequestProcessingGuard { request_id })
    }

    /// Commits the decision: the request reaches its terminal status with
    /// `processed` set, leaves the pending index, and the in-flight hold is
    /// released. Runs exactly once per guard, because it consumes the guard.
    pub fn finalize(self, store: &mut RequestStore, approve: bool)
        requires
            old(store).wf(),
            old(store).in_flight(self.request_id@),
        ensures
            final(store).wf(),
            finalize_post(*old(store), *final(store), self.request_id@, approve),
    {
        proof {
            store.lemma_in_flight_pending(self.request_id@);
        }
        let ghost k = self.request_id@;
        let ghost pre = *store;
        let found = store.find_req(&self.request_id);
        let i: usize = match found {
            Some(i) => i,
            None => unreached(),
        };
        let new_status = if approve {
            RequestStatus::Approved
        } else {
            RequestStatus::Denied
        };
        self.set_terminal(store, i, new_status);
        let ghost mid = *store;
        let pending_pos = RequestStore::find_id(&store.pending, &self.request_id);
        let pi: usize = match pending_pos {
            Some(pi) => pi,
            None => unreached(),
        };
        store.pending.remove(pi);
        proof {
            lemma_ids_remove(mid.pending@, store.pending@, pi as int);
        }
        let ghost mid2 = *store;
        let processing_pos = RequestStore::find_id(&store.processing, &self.request_id);
        let qi: usize = match processing_pos {
            Some(qi) => qi,
            None => unreached(),
        };
        store.processing.remove(qi);
        proof {
            lemma_ids_remove(mid2.processing@, store.processing@, qi as int);
            self.lemma_finalize_wf(pre, *store, approve);
        }
    }

    /// Writes the terminal status and the `processed` flag into the record.
    fn set_terminal(&self, store: &mut RequestStore, i: usize, new_status: RequestStatus)
        requires
            old(store).wf(),
            i < old(store).requests@.len(),
            old(store).requests@[i as int].id@ == self.request_id@,
            new_status != RequestStatus::Pending,
        ensures
            final(store).pending@ == old(store).pending@,
            final(store).processing@ == old(store).processing@,
            reqs_unique(final(store).requests@),
            final(store).requests@ == old(store).requests@.update(
                i as int,
                final(store).requests@[i as int],
            ),
            final(store).requests@[i as int] == (AccessRequest {
                status: new_status,
                processed: true,
                ..old(store).requests@[i as int]
            }),
    {
        store.requests[i].status = new_status;
        store.requests[i].processed = true;
        proof {
            assert(store.requests@ =~= old(store).requests@.update(
                i as int,
                store.requests@[i as int],
            ));
            assert(forall|a: int|
                0 <= a < store.requests@.len() ==> store.requests@[a].id@ == old(
                    store,
                ).requests@[a].id@);
        }
    }

    /// The store invariant survives finalization, and the transition is
    /// exactly `finalize_post`.
    proof fn lemma_finalize_wf(self, pre: RequestStore, post: RequestStore, approve: bool)
        requires
            pre.wf(),
            pre.in_flight(self.request_id@),
            reqs_unique(post.requests@),
            post.requests@ == pre.requests@.update(
                req_index(pre.requests@, self.request_id@),
                post.requests@[req_index(pre.requests@, self.request_id@)],
            ),
            post.requests@[req_index(pre.requests@, self.request_id@)] == (AccessRequest {
                status: terminal_status(approve),
                processed: true,
                ..pre.requests@[req_index(pre.requests@, self.request_id@)]
            }),
            ids_unique(post.pending@),
            !ids_contain(post.pending@, self.request_id@),
            forall|k2: IdView|
                k2 != self.request_id@ ==> ids_contain(post.pending@, k2) == ids_contain(
                    pre.pending@,
                    k2,
                ),
            ids_unique(post.processing@),
            !ids_contain(post.processing@, self.request_id@),
            forall|k2: IdView|
                k2 != self.request_id@ ==> ids_contain(post.processing@, k2) == ids_contain(
                    pre.processing@,
                    k2,
                ),
        ensures
            post.wf(),
            finalize_post(pre, post, self.request_id@, approve),
    {
        let k = self.request_id@;
        pre.lemma_in_flight_pending(k);
        let i = req_index(pre.requests@, k);
        assert(0 <= i < pre.requests@.len() && pre.requests@[i].id@ == k);
        let rec = post.requests@[i];
        assert(rec.id@ == k);
        lemma_update_record(pre.requests@, post.requests@, i, rec);
        assert(req_record(post.requests@, k) == rec);
        assert forall|a: int|
            0 <= a < post.requests@.len() implies ((#[trigger] post.requests@[a]).processed
            <==> post.requests@[a].status != RequestStatus::Pending) by {
            if a != i {
                assert(post.requests@[a] == pre.requests@[a]);
            }
        }
        assert forall|k2: IdView| #[trigger] ids_contain(post.pending@, k2)
            implies post.contains_req(k2) && req_record(post.requests@, k2).status
            == RequestStatus::Pending by {
            assert(k2 != k);
            assert(ids_contain(pre.pending@, k2));
            assert(pre.contains_req(k2));
            assert(req_record(post.requests@, k2) == req_record(pre.requests@, k2));
        }
        assert forall|a: int|
            0 <= a < post.requests@.len() && (#[trigger] post.requests@[a]).status
            == RequestStatus::Pending implies post.in_pending(post.requests@[a].id@) by {
            let k2 = post.requests@[a].id@;
            assert(a != i);
            assert(post.requests@[a] == pre.requests@[a]);
            assert(pre.in_pending(k2));
            assert(pre.requests@[a].id@ != pre.requests@[i].id@);
            assert(k2 != k);
        }
        assert forall|k2: IdView| #[trigger] ids_contain(post.processing@, k2) implies ids_contain(
            post.pending@,
            k2,
        ) by {
            assert(k2 != k);
            assert(ids_contain(pre.processing@, k2));
            assert(ids_contain(pre.pending@, k2));
        }
        assert(post.wf());
        pre.lemma_pending_agrees(k);
        assert forall|k2: IdView| k2 != k implies post.spec_status_of(k2) == pre.spec_status_of(k2)
            && post.spec_processed(k2) == pre.spec_processed(k2) by {
            if pre.contains_req(k2) {
                assert(req_record(post.requests@, k2) == req_record(pre.requests@, k2));
            }
        }
    }
}

} // verus!
