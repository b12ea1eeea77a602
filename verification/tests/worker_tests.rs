use rootscan::monitor::{poll, progress_position, MonitorAction, POLL_INTERVAL_MILLIS};
use rootscan::queue::{claim, load_queue};
use rootscan::record::InsertKind;
use rootscan::response::{Peer, RawResponse};
use rootscan::store::RecordTable;
use rootscan::worker::{pool_size, workers_for, Worker, WorkerAction, WorkerEvent, WorkerState};

fn response(body: &str) -> RawResponse {
    RawResponse {
        peer: Some(Peer { ip: "192.0.2.1".to_string(), port: 443 }),
        status: 200,
        url: "https://a.example/".to_string(),
        date: None,
        server: None,
        content_security_policy: None,
        content_type: None,
        body: Some(body.to_string()),
    }
}

#[test]
fn workers_are_twice_the_processors_less_one() {
    assert_eq!(workers_for(0), 1);
    assert_eq!(workers_for(1), 1);
    assert_eq!(workers_for(2), 3);
    assert_eq!(workers_for(4), 7);
    assert_eq!(workers_for(64), 127);
    assert_eq!(workers_for(usize::MAX / 2), usize::MAX - 2);
    assert_eq!(workers_for(usize::MAX / 2 + 1), usize::MAX);
    assert_eq!(workers_for(usize::MAX), usize::MAX);
}

#[test]
fn pool_has_a_worker() {
    let workers = pool_size();
    assert!(workers >= 1);
    assert_eq!(workers % 2, 1);
}

#[test]
fn worker_round_with_a_response() {
    let mut worker = Worker::new(3);
    assert_eq!(worker.id, 3);
    assert_eq!(worker.state, WorkerState::Claiming);
    let action = worker.step(WorkerEvent::Claimed(Some("a.example".to_string())));
    assert_eq!(action, WorkerAction::Fetch { url: "https://a.example/".to_string() });
    assert_eq!(worker.state, WorkerState::Fetching { domain: "a.example".to_string() });
    let action = worker.step(WorkerEvent::Fetched(Some(response("hi"))));
    assert_eq!(worker.state, WorkerState::Storing);
    match action {
        WorkerAction::Store { request } => {
            assert_eq!(request.kind, InsertKind::Full);
            assert_eq!(request.record.domain, "a.example");
            assert!(request.record.success);
            assert_eq!(request.record.status, Some(200));
            assert_eq!(request.record.port, Some(443));
            assert_eq!(request.record.body, Some("aGk".to_string()));
        }
        other => panic!("{:?}", other),
    }
    assert_eq!(worker.step(WorkerEvent::Stored(true)), WorkerAction::Claim);
    assert_eq!(worker.state, WorkerState::Claiming);
    assert_eq!(worker.id, 3);
}

#[test]
fn failed_fetch_is_stored_without_any_other_field() {
    let mut worker = Worker::new(0);
    worker.step(WorkerEvent::Claimed(Some("down.example".to_string())));
    match worker.step(WorkerEvent::Fetched(None)) {
        WorkerAction::Store { request } => {
            assert_eq!(request.kind, InsertKind::Minimal);
            let row = request.record;
            assert_eq!(row.domain, "down.example");
            assert!(!row.success);
            assert_eq!(row.ip_addr, None);
            assert_eq!(row.port, None);
            assert_eq!(row.date, None);
            assert_eq!(row.status, None);
            assert_eq!(row.resulting_url, None);
            assert_eq!(row.server, None);
            assert_eq!(row.content_security_policy, None);
            assert_eq!(row.content_type, None);
            assert_eq!(row.body, None);
        }
        other => panic!("{:?}", other),
    }
}

#[test]
fn dropped_row_does_not_stop_the_worker() {
    let mut worker = Worker::new(1);
    worker.step(WorkerEvent::Claimed(Some("a.example".to_string())));
    worker.step(WorkerEvent::Fetched(None));
    assert_eq!(worker.step(WorkerEvent::Stored(false)), WorkerAction::Claim);
    assert!(!worker.is_finished());
}

#[test]
fn empty_queue_ends_the_worker_for_good() {
    let mut worker = Worker::new(1);
    assert_eq!(worker.step(WorkerEvent::Claimed(None)), WorkerAction::Exit);
    assert!(worker.is_finished());
    assert_eq!(worker.step(WorkerEvent::Claimed(Some("late.example".to_string()))), WorkerAction::Exit);
    assert_eq!(worker.step(WorkerEvent::Stored(true)), WorkerAction::Exit);
    assert!(worker.is_finished());
}

#[test]
fn unexpected_report_ends_the_worker() {
    let mut worker = Worker::new(1);
    assert_eq!(worker.step(WorkerEvent::Stored(true)), WorkerAction::Exit);
    assert!(worker.is_finished());
    let mut other = Worker::new(2);
    other.step(WorkerEvent::Claimed(Some("a.example".to_string())));
    assert_eq!(other.step(WorkerEvent::Claimed(None)), WorkerAction::Exit);
    assert!(other.is_finished());
}

#[test]
fn two_workers_drain_a_queue_into_a_table() {
    let list: Vec<String> = ["a", "b", "c", "a", "d"].iter().map(|d| format!("{}.example", d)).collect();
    let mut queue = load_queue(&list);
    let mut table = RecordTable::new();
    let mut workers = vec![Worker::new(0), Worker::new(1)];
    let mut actions = vec![WorkerAction::Claim, WorkerAction::Claim];
    let mut claims = 0;
    while !(workers[0].is_finished() && workers[1].is_finished()) {
        for w in 0..2 {
            let event = match actions[w].clone() {
                WorkerAction::Claim => {
                    let claimed = claim(&mut queue);
                    if claimed.is_some() {
                        claims += 1;
                    }
                    WorkerEvent::Claimed(claimed)
                }
                WorkerAction::Fetch { url } => {
                    if url.contains("b.example") {
                        WorkerEvent::Fetched(None)
                    } else {
                        WorkerEvent::Fetched(Some(response(&url)))
                    }
                }
                WorkerAction::Store { request } => {
                    table.insert(request.record);
                    WorkerEvent::Stored(true)
                }
                WorkerAction::Exit => continue,
            };
            actions[w] = workers[w].step(event);
        }
    }
    assert_eq!(claims, 5);
    assert!(queue.is_empty());
    assert_eq!(table.len(), 4);
    assert!(table.get(&"a.example".to_string()).unwrap().success);
    assert!(!table.get(&"b.example".to_string()).unwrap().success);
}

#[test]
fn position_is_what_has_left_the_queue() {
    assert_eq!(progress_position(10, 10), 0);
    assert_eq!(progress_position(10, 3), 7);
    assert_eq!(progress_position(10, 0), 10);
    assert_eq!(progress_position(0, 0), 0);
    assert_eq!(progress_position(usize::MAX, 1), (usize::MAX - 1) as u64);
}

#[test]
fn monitor_reports_until_the_queue_is_empty() {
    assert_eq!(poll(10, 10), MonitorAction::Report { position: 0 });
    assert_eq!(poll(10, 3), MonitorAction::Report { position: 7 });
    assert_eq!(poll(10, 1), MonitorAction::Report { position: 9 });
    assert_eq!(poll(10, 0), MonitorAction::Finish);
    assert_eq!(poll(0, 0), MonitorAction::Finish);
    assert_eq!(POLL_INTERVAL_MILLIS, 1000);
}

#[test]
fn position_reaches_the_total_only_on_the_empty_queue() {
    let initial = 25usize;
    for current in 0..=initial {
        let shown = progress_position(initial, current);
        assert_eq!(shown, (initial - current) as u64);
        assert_eq!(shown == initial as u64, current == 0);
        match poll(initial, current) {
            MonitorAction::Report { position } => {
                assert!(current > 0);
                assert!(position < initial as u64);
                assert_eq!(position, shown);
            }
            MonitorAction::Finish => assert_eq!(current, 0),
        }
    }
}
