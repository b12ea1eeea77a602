//! The pool of workers: how many there are, and the steps by which one
//! worker claims a domain, has it fetched and has the result stored.

use crate::record::{failure_view, insert_request, row_of, InsertKind, InsertRequest};
use crate::response::{probe_url, response_view, to_respdata, url_of, RawResponse};
use vstd::prelude::*;

verus! {

/// The number of workers on a machine with `cpus` processors: one less than
/// twice the processors, and one at least.
pub open spec fn worker_count(cpus: int) -> int {
    if 2 * cpus - 1 < 1 {
        1
    } else {
        2 * cpus - 1
    }
}

/// [`worker_count`], or the largest number of the machine where that is
/// beyond it.
pub fn workers_for(cpus: usize) -> (workers: usize)
    ensures
        workers >= 1,
        worker_count(cpus as int) <= usize::MAX ==> workers == worker_count(cpus as int),
        worker_count(cpus as int) > usize::MAX ==> workers == usize::MAX,
{
    if cpus == 0 {
        1
    } else if cpus > usize::MAX / 2 {
        usize::MAX
    } else {
        2 * cpus - 1
    }
}

/// `num_cpus::get`: the number of processors that this process may use.
/// Nothing is claimed of it.
#[verifier::external_body]
fn available_cpus() -> (cpus: usize) {
    num_cpus::get()
}

/// The number of workers for the machine that this runs on.
pub fn pool_size() -> (workers: usize)
    ensures
        workers >= 1,
        exists|cpus: usize|
            workers as int == if worker_count(cpus as int) <= usize::MAX {
                #[trigger] worker_count(cpus as int)
            } else {
                usize::MAX as int
            },
{
    let cpus = available_cpus();
    let workers = workers_for(cpus);
    assert(workers as int == if worker_count(cpus as int) <= usize::MAX {
        worker_count(cpus as int)
    } else {
        usize::MAX as int
    });
    workers
}

/// Where a worker stands in its round.
#[derive(Clone, Debug, PartialEq, Eq)]
pub enum WorkerState {
    /// It waits for what its claim on the queue gave.
    Claiming,
    /// It waits for the response of the domain it claimed.
    Fetching { domain: String },
    /// It waits for the table to take the row.
    Storing,
    /// It found the queue empty and has left for good.
    Finished,
}

/// What the outside reports back to a worker.
#[derive(Clone, Debug, PartialEq, Eq)]
pub enum WorkerEvent {
    /// The claim gave this domain, or nothing from an empty queue.
    Claimed(Option<String>),
    /// The fetch gave this response, or none at all.
    Fetched(Option<RawResponse>),
    /// The row was handed to the table, which took it (`true`) or failed
    /// (`false`); a row that the table failed on is dropped.
    Stored(bool),
}

/// What a worker asks the outside to do next.
#[derive(Clone, Debug, PartialEq, Eq)]
pub enum WorkerAction {
    /// Claim the front of the queue.
    Claim,
    /// Fetch this address.
    Fetch { url: String },
    /// Hand this row to the table.
    Store { request: InsertRequest },
    /// Stop: this worker has left.
    Exit,
}

/// Whether `event` is the answer that a worker in `state` waits for. A
/// worker that has left waits for none.
pub open spec fn answers(state: WorkerState, event: WorkerEvent) -> bool {
    match (state, event) {
        (WorkerState::Claiming, WorkerEvent::Claimed(_)) => true,
        (WorkerState::Fetching { .. }, WorkerEvent::Fetched(_)) => true,
        (WorkerState::Storing, WorkerEvent::Stored(_)) => true,
        _ => false,
    }
}

/// The step of a worker from `before` on `event`, to `after` and `action`:
/// - a claimed domain is fetched at its address, and an empty queue makes
///   the worker leave;
/// - a response is stored as the full row of its result, and a fetch
///   without a response as the minimal row;
/// - once the table has answered, whatever it said, the worker claims again;
/// - on an event that it does not wait for a worker leaves.
pub open spec fn steps(
    before: WorkerState,
    event: WorkerEvent,
    after: WorkerState,
    action: WorkerAction,
) -> bool {
    match (before, event) {
        (WorkerState::Claiming, WorkerEvent::Claimed(Some(claimed))) => {
            &&& after matches WorkerState::Fetching { domain }
            &&& domain@ == claimed@
            &&& action matches WorkerAction::Fetch { url }
            &&& url@ == url_of(claimed@)
        },
        (WorkerState::Fetching { domain }, WorkerEvent::Fetched(Some(response))) => {
            &&& after is Storing
            &&& action matches WorkerAction::Store { request }
            &&& request.kind == InsertKind::Full
            &&& request.record@ == row_of(domain@, response_view(response, domain@))
        },
        (WorkerState::Fetching { domain }, WorkerEvent::Fetched(None)) => {
            &&& after is Storing
            &&& action matches WorkerAction::Store { request }
            &&& request.kind == InsertKind::Minimal
            &&& request.record@ == failure_view(domain@)
        },
        (WorkerState::Storing, WorkerEvent::Stored(_)) => {
            &&& after is Claiming
            &&& action is Claim
        },
        _ => {
            &&& after is Finished
            &&& action is Exit
        },
    }
}

/// One worker of the pool. Its number serves to tell the workers apart in
/// messages and nothing else.
#[derive(Clone, Debug, PartialEq, Eq)]
pub struct Worker {
    pub id: usize,
    pub state: WorkerState,
}

impl Worker {
    /// A worker that is about to make its first claim.
    pub fn new(id: usize) -> (worker: Worker)
        ensures
            worker.id == id,
            worker.state is Claiming,
    {
        Worker { id, state: WorkerState::Claiming }
    }

    /// Whether the worker has left.
    pub fn is_finished(&self) -> (done: bool)
        ensures
            done == (self.state is Finished),
    {
        match &self.state {
            WorkerState::Finished => true,
            _ => false,
        }
    }

    /// Advances the worker on what the outside reports, and says what to do
    /// next.
    pub fn step(&mut self, event: WorkerEvent) -> (action: WorkerAction)
        requires
            event matches WorkerEvent::Fetched(Some(response)) ==> response.encodable(),
        ensures
            final(self).id == old(self).id,
            steps(old(self).state, event, final(self).state, action),
    {
        let mut state = WorkerState::Finished;
        std::mem::swap(&mut self.state, &mut state);
        match (state, event) {
            (WorkerState::Claiming, WorkerEvent::Claimed(Some(claimed))) => {
                let url = probe_url(claimed.as_str());
                self.state = WorkerState::Fetching { domain: claimed };
                WorkerAction::Fetch { url }
            },
            (WorkerState::Fetching { domain }, WorkerEvent::Fetched(Some(response))) => {
                let data = to_respdata(response, domain.clone());
                self.state = WorkerState::Storing;
                WorkerAction::Store { request: insert_request(domain, Some(data)) }
            },
            (WorkerState::Fetching { domain }, WorkerEvent::Fetched(None)) => {
                self.state = WorkerState::Storing;
                WorkerAction::Store { request: insert_request(domain, None) }
            },
            (WorkerState::Storing, WorkerEvent::Stored(_)) => {
                self.state = WorkerState::Claiming;
                WorkerAction::Claim
            },
            _ => WorkerAction::Exit,
        }
    }
}

/// A worker that gets the answer it waits for goes on, unless the answer is
/// that the queue is empty.
pub proof fn lemma_answered_goes_on(
    before: WorkerState,
    event: WorkerEvent,
    after: WorkerState,
    action: WorkerAction,
)
    requires
        steps(before, event, after, action),
        answers(before, event),
        event != WorkerEvent::Claimed(None),
    ensures
        !(after is Finished),
        !(action is Exit),
{
}

/// A worker that has left stays away, whatever is reported to it.
pub proof fn lemma_finished_stays(event: WorkerEvent, after: WorkerState, action: WorkerAction)
    requires
        steps(WorkerState::Finished, event, after, action),
    ensures
        after is Finished,
        action is Exit,
{
}

/// A worker that finds the queue empty leaves at once.
pub proof fn lemma_empty_queue_ends(after: WorkerState, action: WorkerAction)
    requires
        steps(WorkerState::Claiming, WorkerEvent::Claimed(None), after, action),
    ensures
        after is Finished,
        action is Exit,
{
}

/// A fetch that gave no response is stored with the flag cleared and no
/// other column filled.
pub proof fn lemma_failure_is_bare(
    domain: String,
    after: WorkerState,
    action: WorkerAction,
)
    requires
        steps(WorkerState::Fetching { domain }, WorkerEvent::Fetched(None), after, action),
    ensures
        action matches WorkerAction::Store { request } && {
            let row = request.record@;
            &&& row.domain == domain@
            &&& !row.success
            &&& row.ip_addr is None
            &&& row.port is None
            &&& row.date is None
            &&& row.status is None
            &&& row.resulting_url is None
            &&& row.server is None
            &&& row.content_security_policy is None
            &&& row.content_type is None
            &&& row.body is None
        },
{
}

} // verus!
