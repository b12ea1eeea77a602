//! Progress of a scan, as read off the size of the work queue.

use vstd::prelude::*;

verus! {

/// The time between two looks at the queue, in milliseconds.
pub const POLL_INTERVAL_MILLIS: u64 = 1000;

/// The position of a scan that began with `initial` domains in the queue and
/// sees `current` of them left: the number of domains claimed so far.
pub open spec fn position(initial: int, current: int) -> int {
    initial - current
}

/// What the monitor does after a look at the queue.
#[derive(Clone, Copy, Debug, PartialEq, Eq, Structural)]
pub enum MonitorAction {
    /// Show this position, wait one interval and look again.
    Report { position: u64 },
    /// The queue is empty: say that the scan is done and stop looking.
    Finish,
}

/// The position reached only when nothing is left is the initial size, and
/// every other position lies below it.
pub proof fn lemma_position_complete(initial: int, current: int)
    requires
        0 <= current <= initial,
    ensures
        0 <= position(initial, current) <= initial,
        position(initial, current) == initial <==> current == 0,
{
}

/// As the queue shrinks the position never falls.
pub proof fn lemma_position_monotone(initial: int, earlier: int, later: int)
    requires
        0 <= later <= earlier <= initial,
    ensures
        position(initial, earlier) <= position(initial, later),
{
}

/// The position to show for a queue that began with `initial` domains and
/// has `current` left.
pub fn progress_position(initial: usize, current: usize) -> (shown: u64)
    requires
        current <= initial,
    ensures
        shown == position(initial as int, current as int),
        shown <= initial,
        shown == initial <==> current == 0,
{
    (initial - current) as u64
}

/// One look of the monitor at the queue: while domains are left their number
/// gives the position to show, and the empty queue ends the scan.
pub fn poll(initial: usize, current: usize) -> (action: MonitorAction)
    requires
        current <= initial,
    ensures
        current == 0 ==> action == MonitorAction::Finish,
        current > 0 ==> action == (MonitorAction::Report {
            position: position(initial as int, current as int) as u64,
        }),
        action matches MonitorAction::Report { position } ==> position < initial,
{
    if current > 0 {
        MonitorAction::Report { position: progress_position(initial, current) }
    } else {
        MonitorAction::Finish
    }
}

} // verus!
