use std::cell::{Cell, RefCell};
use std::collections::HashSet;
use std::collections::VecDeque;

use vpn_server::identity::NodeId;
use vpn_server::server_config::PnTrafficUploadConfig;
use vpn_server::traffic::{
    cleanup_continues, final_collection_outcome, make_report_id, uploader_step, NodeTrafficDelta, NodeTrafficQueue,
    NodeTrafficReport, NodeTrafficReportResp, NodeTrafficShutdownStatus, NodeTrafficSource,
    NodeTrafficSourceSnapshot, NodeTrafficQueueStatus, ReportApplyResult, TrafficError,
    UploadFailure, UploaderAction,
};
use vpn_server::upload::{
    validate_node_report_responses, CommandOutcome, CommandResult, DispatchAction, UploadDispatch,
};

fn node(byte: u8) -> NodeId {
    NodeId { bytes: vec![byte; 32] }
}

fn delta(byte: u8, tx: u64, rx: u64, tx_speed: u64, rx_speed: u64) -> NodeTrafficDelta {
    NodeTrafficDelta { node_id: node(byte), tx_bytes: tx, rx_bytes: rx, tx_speed, rx_speed }
}

fn source_snapshot(byte: u8, tx_delta_bytes: u64, rx_delta_bytes: u64, tx_speed: u64, rx_speed: u64) -> NodeTrafficSourceSnapshot {
    NodeTrafficSourceSnapshot {
        node_id: node(byte),
        tx_bytes: tx_delta_bytes,
        tx_speed,
        rx_bytes: rx_delta_bytes,
        rx_speed,
        tx_delta_bytes,
        rx_delta_bytes,
    }
}

struct FakeNodeTrafficSource {
    snapshots: RefCell<VecDeque<Vec<NodeTrafficSourceSnapshot>>>,
    calls: Cell<usize>,
}

impl FakeNodeTrafficSource {
    fn new(snapshots: Vec<Vec<NodeTrafficSourceSnapshot>>) -> Self {
        FakeNodeTrafficSource { snapshots: RefCell::new(snapshots.into()), calls: Cell::new(0) }
    }

    fn push(&self, snapshots: Vec<NodeTrafficSourceSnapshot>) {
        self.snapshots.borrow_mut().push_back(snapshots);
    }
}

impl NodeTrafficSource for FakeNodeTrafficSource {
    fn take_node_traffic_snapshots(&self) -> Vec<NodeTrafficSourceSnapshot> {
        self.calls.set(self.calls.get() + 1);
        self.snapshots.borrow_mut().pop_front().unwrap_or_default()
    }
}

fn upload_config(backlog_batches: usize) -> PnTrafficUploadConfig {
    PnTrafficUploadConfig { backlog_batches, ..PnTrafficUploadConfig::default_config() }
}

#[derive(Clone, Copy)]
enum ReporterReply {
    Applied,
    RetryFirst,
    RejectFirst,
    Malformed,
}

fn answer(requested: &[NodeTrafficReport], reply: ReporterReply) -> CommandOutcome {
    if matches!(reply, ReporterReply::Malformed) {
        return CommandOutcome::Answered(Vec::new());
    }
    CommandOutcome::Answered(
        requested
            .iter()
            .enumerate()
            .map(|(index, report)| NodeTrafficReportResp {
                report_id: report.report_id.clone(),
                result: match (reply, index) {
                    (ReporterReply::RetryFirst, 0) => ReportApplyResult::Retryable,
                    (ReporterReply::RejectFirst, 0) => ReportApplyResult::Rejected,
                    _ => ReportApplyResult::Applied,
                },
                error_code: None,
            })
            .collect(),
    )
}

/// Runs one upload round: plans the commands and answers each with the next reply.
fn drain_upload_once(
    queue: &mut NodeTrafficQueue,
    replies: &mut VecDeque<ReporterReply>,
    calls: &mut Vec<Vec<NodeTrafficReport>>,
) -> Result<Vec<NodeTrafficReportResp>, TrafficError> {
    let plan = queue.plan_upload();
    let mut results = Vec::new();
    for chunk in plan {
        calls.push(chunk.iter().map(|r| r.duplicate()).collect());
        let reply = replies.pop_front().unwrap_or(ReporterReply::Applied);
        let outcome = answer(&chunk, reply);
        results.push(CommandResult { requested: chunk, outcome });
    }
    queue.settle_upload(results)
}

#[test]
fn collection_consumes_each_node_once_and_preserves_delta_and_speed() {
    let mut queue = NodeTrafficQueue::new(1_000);
    let source = FakeNodeTrafficSource::new(vec![vec![
        source_snapshot(1, 11, 12, 3, 4),
        source_snapshot(2, 21, 22, 5, 6),
        source_snapshot(3, 0, 0, 0, 0),
    ]]);

    assert!(queue.collect_node_traffic(Some(&source), 10).unwrap());
    assert_eq!(source.calls.get(), 1);
    let batches = queue.pending_batches();
    assert_eq!(batches.len(), 1);
    assert_eq!(batches[0].records.len(), 2);
    assert_eq!(batches[0].records[0].delta, delta(1, 11, 12, 3, 4));
    assert_eq!(batches[0].records[1].delta, delta(2, 21, 22, 5, 6));
    assert_ne!(batches[0].records[0].report_id, batches[0].records[1].report_id);
}

#[test]
fn full_backlog_rejects_before_consuming_upstream_iterator() {
    let mut queue = NodeTrafficQueue::new(1_000);
    queue.set_upload_config(upload_config(1));
    let source = FakeNodeTrafficSource::new(vec![vec![source_snapshot(1, 1, 2, 3, 4)]]);
    assert!(queue.collect_node_traffic(Some(&source), 10).unwrap());
    source.push(vec![source_snapshot(2, 5, 6, 7, 8)]);

    assert!(queue.collect_node_traffic(Some(&source), 20).is_err());
    assert_eq!(source.calls.get(), 1);
    assert_eq!(queue.queue_status().queued_records, 1);
}

#[test]
fn full_backlog_error_names_capacity() {
    let mut queue = NodeTrafficQueue::new(1_000);
    queue.set_upload_config(upload_config(1));
    queue.submit_node_batch(10, 20, vec![delta(1, 1, 1, 0, 0)]).unwrap();
    let err = queue.submit_node_batch(20, 30, vec![delta(2, 1, 1, 0, 0)]).unwrap_err();
    assert_eq!(err, TrafficError::BacklogFull { capacity: 1 });
    assert_eq!(err.message(), "node traffic batch backlog is full (1)");
}

#[test]
fn collection_without_source_queues_nothing() {
    let mut queue = NodeTrafficQueue::new(1_000);
    let none: Option<&FakeNodeTrafficSource> = None;
    assert_eq!(queue.collect_node_traffic(none, 10), Ok(false));
    assert_eq!(queue.pending_batch_count(), 0);
}

#[test]
fn collection_windows_are_contiguous() {
    let mut queue = NodeTrafficQueue::new(1_000);
    let source = FakeNodeTrafficSource::new(vec![
        vec![source_snapshot(1, 1, 1, 0, 0)],
        vec![source_snapshot(1, 2, 2, 0, 0)],
    ]);
    assert!(queue.collect_node_traffic(Some(&source), 500).unwrap());
    // no time passed on the monotonic clock: the window still advances by a millisecond
    assert!(queue.collect_node_traffic(Some(&source), 500).unwrap());
    let batches = queue.pending_batches();
    assert_eq!(batches[0].records[0].started_at_ms, 1_000);
    assert_eq!(batches[0].records[0].ended_at_ms, 1_500);
    assert_eq!(batches[1].records[0].started_at_ms, 1_500);
    assert_eq!(batches[1].records[0].ended_at_ms, 1_501);
    assert_eq!(batches[0].batch_id, 0);
    assert_eq!(batches[1].batch_id, 1);
}

#[test]
fn shutting_down_queue_refuses_collection_and_submission() {
    let mut queue = NodeTrafficQueue::new(1_000);
    queue.mark_uploader_shutdown();
    let source = FakeNodeTrafficSource::new(vec![vec![source_snapshot(1, 1, 1, 0, 0)]]);
    assert_eq!(
        queue.collect_node_traffic(Some(&source), 10),
        Err(TrafficError::CollectorShuttingDown)
    );
    assert_eq!(source.calls.get(), 0);
    assert_eq!(
        queue.submit_node_batch(10, 20, vec![delta(1, 1, 1, 0, 0)]),
        Err(TrafficError::ShuttingDown)
    );
}

#[test]
fn reversed_submission_is_refused_and_idle_deltas_dropped() {
    let mut queue = NodeTrafficQueue::new(1_000);
    assert_eq!(
        queue.submit_node_batch(20, 10, vec![delta(1, 1, 1, 0, 0)]),
        Err(TrafficError::ReversedInterval)
    );
    assert_eq!(queue.submit_node_batch(10, 20, vec![delta(1, 0, 0, 0, 0)]), Ok(false));
    assert_eq!(queue.pending_batch_count(), 0);
    assert_eq!(
        queue.submit_node_batch(10, 20, vec![delta(1, 0, 0, 0, 0), delta(2, 0, 0, 1, 0)]),
        Ok(true)
    );
    let status = queue.queue_status();
    assert_eq!(status.queued_batches, 1);
    assert_eq!(status.queued_records, 1);
    assert_eq!(status.oldest_batch_id, Some(0));
}

#[test]
fn report_ids_follow_window_batch_and_position() {
    assert_eq!(make_report_id(10, 20, 3, 7), "node-traffic-10-20-3-7");
    let mut queue = NodeTrafficQueue::new(1_000);
    queue.submit_node_batch(10, 20, vec![delta(1, 1, 1, 0, 0), delta(2, 1, 1, 0, 0)]).unwrap();
    let batches = queue.pending_batches();
    assert_eq!(batches[0].records[0].report_id, "node-traffic-10-20-0-0");
    assert_eq!(batches[0].records[1].report_id, "node-traffic-10-20-0-1");
}

#[test]
fn retryable_record_keeps_stable_id_while_terminal_sibling_progresses() {
    let mut queue = NodeTrafficQueue::new(1_000);
    let mut replies: VecDeque<ReporterReply> = vec![ReporterReply::RetryFirst, ReporterReply::Applied].into();
    let mut calls = Vec::new();
    queue.submit_node_batch(10, 20, vec![delta(1, 10, 20, 3, 4), delta(2, 30, 40, 5, 6)]).unwrap();

    assert_eq!(
        drain_upload_once(&mut queue, &mut replies, &mut calls).unwrap_err(),
        TrafficError::RetryableRecords
    );
    assert_eq!(queue.queue_status().queued_records, 1);
    let first_id = calls[0][0].report_id.clone();

    drain_upload_once(&mut queue, &mut replies, &mut calls).unwrap();
    assert_eq!(queue.queue_status().queued_records, 0);
    assert_eq!(calls[1].len(), 1);
    assert_eq!(calls[1][0].report_id, first_id);
}

#[test]
fn malformed_response_retains_owned_records_for_retry() {
    let mut queue = NodeTrafficQueue::new(1_000);
    let mut replies: VecDeque<ReporterReply> = vec![ReporterReply::Malformed, ReporterReply::Applied].into();
    let mut calls = Vec::new();
    queue.submit_node_batch(10, 20, vec![delta(1, 10, 20, 3, 4)]).unwrap();

    assert_eq!(
        drain_upload_once(&mut queue, &mut replies, &mut calls).unwrap_err(),
        TrafficError::UploadFailed { first_error: UploadFailure::ResponseMismatch }
    );
    assert_eq!(queue.queue_status().queued_records, 1);
    drain_upload_once(&mut queue, &mut replies, &mut calls).unwrap();
    assert_eq!(queue.queue_status().queued_records, 0);
}

#[test]
fn rejected_record_is_terminal_and_observable() {
    let mut queue = NodeTrafficQueue::new(1_000);
    let mut replies: VecDeque<ReporterReply> = vec![ReporterReply::RejectFirst].into();
    let mut calls = Vec::new();
    queue.submit_node_batch(10, 20, vec![delta(1, 10, 20, 3, 4)]).unwrap();

    drain_upload_once(&mut queue, &mut replies, &mut calls).unwrap();
    let status = queue.queue_status();
    assert_eq!(status.queued_records, 0);
    assert_eq!(status.terminal_rejected_records, 1);
}

#[test]
fn bounded_chunking_uploads_every_node_report_once() {
    let mut queue = NodeTrafficQueue::new(1_000);
    let mut replies = VecDeque::new();
    let mut calls = Vec::new();
    let deltas = (0..257u64).map(|index| delta((index % 250) as u8, index + 1, 1, 2, 3)).collect();
    queue.submit_node_batch(10, 20, deltas).unwrap();

    let responses = drain_upload_once(&mut queue, &mut replies, &mut calls).unwrap();
    assert_eq!(responses.len(), 257);
    assert_eq!(calls.len(), 3);
    assert!(calls.iter().all(|call| call.len() <= 128));
    let ids = calls.iter().flatten().map(|report| report.report_id.clone()).collect::<HashSet<_>>();
    assert_eq!(ids.len(), 257);
}

#[test]
fn upload_plan_takes_batches_round_robin() {
    let mut queue = NodeTrafficQueue::new(1_000);
    queue.set_upload_config(PnTrafficUploadConfig { records_per_command: 2, ..PnTrafficUploadConfig::default_config() });
    queue.submit_node_batch(10, 20, (1..=5u8).map(|b| delta(b, 1, 1, 0, 0)).collect()).unwrap();
    queue.submit_node_batch(20, 30, (1..=2u8).map(|b| delta(b, 1, 1, 0, 0)).collect()).unwrap();
    let plan = queue.plan_upload();
    let sizes: Vec<usize> = plan.iter().map(|c| c.len()).collect();
    assert_eq!(sizes, vec![2, 2, 2, 1]);
    assert_eq!(plan[0][0].report_id, "node-traffic-10-20-0-0");
    assert_eq!(plan[1][0].report_id, "node-traffic-20-30-1-0");
    assert_eq!(plan[2][0].report_id, "node-traffic-10-20-0-2");
    assert_eq!(plan[3][0].report_id, "node-traffic-10-20-0-4");
}

#[test]
fn first_failure_wins_and_command_error_is_reported() {
    let mut queue = NodeTrafficQueue::new(1_000);
    queue.set_upload_config(PnTrafficUploadConfig { records_per_command: 1, ..PnTrafficUploadConfig::default_config() });
    queue.submit_node_batch(10, 20, vec![delta(1, 1, 1, 0, 0), delta(2, 1, 1, 0, 0)]).unwrap();
    let plan = queue.plan_upload();
    assert_eq!(plan.len(), 2);
    let mut plan = plan.into_iter();
    let first = plan.next().unwrap();
    let second = plan.next().unwrap();
    let ok_answer = answer(&second, ReporterReply::Applied);
    let results = vec![
        CommandResult { requested: first, outcome: CommandOutcome::Failed("connection reset".to_string()) },
        CommandResult { requested: second, outcome: ok_answer },
    ];
    let err = queue.settle_upload(results).unwrap_err();
    assert_eq!(
        err,
        TrafficError::UploadFailed {
            first_error: UploadFailure::Command { message: "connection reset".to_string() }
        }
    );
    assert_eq!(err.message(), "node traffic upload failed: connection reset");
    // the answered record left the queue, the failed one stays
    assert_eq!(queue.queue_status().queued_records, 1);
}

#[test]
fn response_validation_requires_same_distinct_ids() {
    let reports: Vec<NodeTrafficReport> = vec![
        NodeTrafficReport { report_id: "a".to_string(), started_at_ms: 1, ended_at_ms: 2, delta: delta(1, 1, 1, 0, 0) },
        NodeTrafficReport { report_id: "b".to_string(), started_at_ms: 1, ended_at_ms: 2, delta: delta(2, 1, 1, 0, 0) },
    ];
    let resp = |id: &str| NodeTrafficReportResp { report_id: id.to_string(), result: ReportApplyResult::Applied, error_code: None };
    assert_eq!(validate_node_report_responses(&reports, &vec![resp("b"), resp("a")]), Ok(()));
    assert_eq!(
        validate_node_report_responses(&reports, &vec![resp("a")]),
        Err(UploadFailure::ResponseMismatch)
    );
    assert_eq!(
        validate_node_report_responses(&reports, &vec![resp("a"), resp("a"), resp("b")]),
        Err(UploadFailure::ResponseMismatch)
    );
    assert_eq!(
        validate_node_report_responses(&reports, &vec![resp("a"), resp("c")]),
        Err(UploadFailure::ResponseMismatch)
    );
}

#[test]
fn uploader_steps_follow_queue_and_shutdown() {
    assert_eq!(uploader_step(true, 0, true), UploaderAction::Exit);
    assert_eq!(uploader_step(true, 0, false), UploaderAction::Exit);
    assert_eq!(uploader_step(false, 0, true), UploaderAction::Wait);
    assert_eq!(uploader_step(true, 2, false), UploaderAction::Wait);
    assert_eq!(uploader_step(true, 2, true), UploaderAction::Upload);
    assert_eq!(uploader_step(false, 1, true), UploaderAction::Upload);
    assert!(cleanup_continues(1024, 1024));
    assert!(!cleanup_continues(1023, 1024));
}

#[test]
fn shutdown_success_needs_empty_queue_and_stopped_tasks() {
    let queue = NodeTrafficQueueStatus { queued_batches: 0, queued_records: 0, oldest_batch_id: None, terminal_rejected_records: 0 };
    let ok = NodeTrafficShutdownStatus {
        collector_exited: true,
        final_collection_succeeded: true,
        final_collection_error: None,
        uploader_exited: true,
        cleanup_exited: true,
        queue,
    };
    assert!(ok.is_success());
    let retained = NodeTrafficShutdownStatus {
        uploader_exited: false,
        queue: NodeTrafficQueueStatus { queued_batches: 1, queued_records: 1, oldest_batch_id: Some(0), terminal_rejected_records: 0 },
        ..ok
    };
    assert!(!retained.is_success());
}

#[test]
fn timestamp_exhaustion_is_an_error() {
    let mut queue = NodeTrafficQueue::new(u64::MAX);
    let source = FakeNodeTrafficSource::new(vec![vec![source_snapshot(1, 1, 1, 0, 0)]]);
    assert_eq!(
        queue.collect_node_traffic(Some(&source), 0),
        Err(TrafficError::TimestampExhausted)
    );
    assert_eq!(source.calls.get(), 0);
}

#[test]
fn final_collection_outcome_reports_why_it_failed() {
    assert_eq!(
        final_collection_outcome(false, None),
        (false, Some("node traffic collector did not exit before the shutdown deadline".to_string()))
    );
    assert_eq!(final_collection_outcome(true, Some(Ok(true))), (true, None));
    assert_eq!(final_collection_outcome(true, Some(Ok(false))), (true, None));
    assert_eq!(
        final_collection_outcome(true, Some(Err(TrafficError::CollectorShuttingDown))),
        (false, Some("node traffic collector is shutting down".to_string()))
    );
}

#[test]
fn error_messages_name_their_cause() {
    assert_eq!(TrafficError::TimestampExhausted.message(), "node traffic report timestamp is exhausted");
    assert_eq!(TrafficError::ShuttingDown.message(), "node traffic uploader is shutting down");
    assert_eq!(TrafficError::ReversedInterval.message(), "node traffic batch interval is reversed");
    assert_eq!(
        TrafficError::RetryableRecords.message(),
        "node traffic upload returned retryable record results"
    );
    assert_eq!(
        TrafficError::UploadFailed { first_error: UploadFailure::ResponseMismatch }.message(),
        "node traffic upload failed: node traffic response ids do not match requested record ids"
    );
}

#[test]
fn collection_admission_decides_before_the_source_is_read() {
    let mut queue = NodeTrafficQueue::new(1_000);
    queue.set_upload_config(upload_config(1));
    assert_eq!(queue.collection_admission(false, 10), Ok(None));
    assert_eq!(queue.collection_admission(true, 10), Ok(Some((1_000, 1_010))));
    // the window always ends after it starts
    assert_eq!(queue.collection_admission(true, 0), Ok(Some((1_000, 1_001))));

    let source = FakeNodeTrafficSource::new(vec![vec![source_snapshot(1, 1, 2, 3, 4)]]);
    assert!(queue.collect_node_traffic(Some(&source), 10).unwrap());
    assert_eq!(queue.collection_admission(true, 20), Err(TrafficError::BacklogFull { capacity: 1 }));

    queue.mark_uploader_shutdown();
    assert_eq!(queue.collection_admission(true, 20), Err(TrafficError::CollectorShuttingDown));
    assert_eq!(queue.collect_node_traffic(Some(&source), 20), Err(TrafficError::CollectorShuttingDown));
    assert_eq!(source.calls.get(), 1);
}

#[test]
fn dispatch_sends_each_planned_command_once_within_the_limit() {
    let mut dispatch = UploadDispatch::new(5, 2);
    let mut sent = Vec::new();
    let mut most_in_flight = 0;
    loop {
        match dispatch.step() {
            DispatchAction::Start(index) => sent.push(index),
            DispatchAction::Await => dispatch.command_finished(),
            DispatchAction::Done => break,
        }
        most_in_flight = most_in_flight.max(dispatch.in_flight_count());
    }
    assert_eq!(sent, vec![0, 1, 2, 3, 4]);
    assert_eq!(most_in_flight, 2);
    assert_eq!(dispatch.in_flight_count(), 0);

    let mut empty = UploadDispatch::new(0, 3);
    assert_eq!(empty.step(), DispatchAction::Done);

    let mut one_at_a_time = UploadDispatch::new(2, 1);
    assert_eq!(one_at_a_time.step(), DispatchAction::Start(0));
    assert_eq!(one_at_a_time.step(), DispatchAction::Await);
    one_at_a_time.command_finished();
    assert_eq!(one_at_a_time.step(), DispatchAction::Start(1));
}
