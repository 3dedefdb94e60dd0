//! Per-node traffic accounting on a proxy node: collection windows, the
//! bounded queue of pending report batches, the upload plan that splits the
//! queue into bounded commands, and the reconciliation of the control
//! server's answers with the queue.

use vstd::prelude::*;
use vstd::string::*;
use std::collections::VecDeque;
use crate::identity::NodeId;
use crate::server_config::{default_upload_config, PnTrafficUploadConfig};
use crate::chunking::{
    chunk_count, chunk_of, lemma_chunk_bounds, lemma_max_chunk_count, max_chunk_count, min_nat,
    plan_rounds, round_chunks, upload_plan,
};
use crate::upload::{
    accepted_responses, any_retryable, append_responses, batch_record_seqs, copy_records,
    first_failure, keep_unsettled, lemma_rejected_after_step, lemma_remaining_batches_nonempty,
    rejected_after, remaining_batches, validate_node_report_responses, CommandOutcome,
    CommandResult,
};
use crate::text::{decimal, lemma_common_prefix_tail, lemma_decimal_injective, u64_to_decimal};

verus! {

/// Cumulative bytes and current speed of one node or group, as the
/// management API shows them.
#[derive(Clone, Copy, Debug, Default, PartialEq, Eq)]
pub struct UserTrafficSnapshot {
    pub tx_bytes: u64,
    pub tx_speed: u64,
    pub rx_bytes: u64,
    pub rx_speed: u64,
}

/// The traffic of one node over one collection window.
#[derive(Debug, PartialEq, Eq)]
pub struct NodeTrafficDelta {
    pub node_id: NodeId,
    pub tx_bytes: u64,
    pub rx_bytes: u64,
    pub tx_speed: u64,
    pub rx_speed: u64,
}

/// The abstract value of a [`NodeTrafficDelta`].
pub struct DeltaModel {
    pub node_id: Seq<u8>,
    pub tx_bytes: u64,
    pub rx_bytes: u64,
    pub tx_speed: u64,
    pub rx_speed: u64,
}

impl View for NodeTrafficDelta {
    type V = DeltaModel;

    open spec fn view(&self) -> DeltaModel {
        DeltaModel {
            node_id: self.node_id@,
            tx_bytes: self.tx_bytes,
            rx_bytes: self.rx_bytes,
            tx_speed: self.tx_speed,
            rx_speed: self.rx_speed,
        }
    }
}

/// A delta carries something worth reporting: bytes moved or a speed seen.
pub open spec fn delta_is_reportable(d: DeltaModel) -> bool {
    d.tx_bytes > 0 || d.rx_bytes > 0 || d.tx_speed > 0 || d.rx_speed > 0
}

impl NodeTrafficDelta {
    /// A copy of this delta.
    pub fn duplicate(&self) -> (r: NodeTrafficDelta)
        ensures
            r@ == self@,
    {
        NodeTrafficDelta {
            node_id: self.node_id.duplicate(),
            tx_bytes: self.tx_bytes,
            rx_bytes: self.rx_bytes,
            tx_speed: self.tx_speed,
            rx_speed: self.rx_speed,
        }
    }

    /// Whether the delta carries bytes or a speed.
    pub fn is_reportable(&self) -> (r: bool)
        ensures
            r == delta_is_reportable(self@),
    {
        self.tx_bytes > 0 || self.rx_bytes > 0 || self.tx_speed > 0 || self.rx_speed > 0
    }
}

/// What the relay reports for one node when its counters are taken.
#[derive(Debug, PartialEq, Eq)]
pub struct NodeTrafficSourceSnapshot {
    pub node_id: NodeId,
    pub tx_bytes: u64,
    pub tx_speed: u64,
    pub rx_bytes: u64,
    pub rx_speed: u64,
    pub tx_delta_bytes: u64,
    pub rx_delta_bytes: u64,
}

/// The delta a snapshot contributes to a report: its new bytes and its speeds.
pub open spec fn snapshot_delta(s: NodeTrafficSourceSnapshot) -> DeltaModel {
    DeltaModel {
        node_id: s.node_id@,
        tx_bytes: s.tx_delta_bytes,
        rx_bytes: s.rx_delta_bytes,
        tx_speed: s.tx_speed,
        rx_speed: s.rx_speed,
    }
}

impl NodeTrafficSourceSnapshot {
    /// Whether the snapshot has new bytes or a speed to report.
    pub fn has_reportable_traffic(&self) -> (r: bool)
        ensures
            r == delta_is_reportable(snapshot_delta(*self)),
    {
        self.tx_delta_bytes > 0 || self.rx_delta_bytes > 0 || self.tx_speed > 0
            || self.rx_speed > 0
    }
}

/// The deltas of the snapshots that have something to report, in order.
pub open spec fn reportable_snapshot_deltas(s: Seq<NodeTrafficSourceSnapshot>) -> Seq<DeltaModel>
    decreases s.len(),
{
    if s.len() == 0 {
        seq![]
    } else {
        let rest = reportable_snapshot_deltas(s.drop_last());
        if delta_is_reportable(snapshot_delta(s.last())) {
            rest.push(snapshot_delta(s.last()))
        } else {
            rest
        }
    }
}

/// A collection reports the traffic that is new since the last one: each
/// delta it keeps is some snapshot's node with the bytes counted since the
/// last collection (never the cumulative counters) and its speeds; every
/// snapshot with new bytes or a speed gives one; and a snapshot with neither
/// gives none, however much its cumulative counters hold.
pub proof fn lemma_collection_reports_new_bytes(s: Seq<NodeTrafficSourceSnapshot>)
    ensures
        forall|k: int|
            0 <= k < reportable_snapshot_deltas(s).len() ==> exists|i: int|
                0 <= i < s.len() && #[trigger] reportable_snapshot_deltas(s)[k] == (DeltaModel {
                    node_id: s[i].node_id@,
                    tx_bytes: s[i].tx_delta_bytes,
                    rx_bytes: s[i].rx_delta_bytes,
                    tx_speed: s[i].tx_speed,
                    rx_speed: s[i].rx_speed,
                }),
        forall|i: int|
            0 <= i < s.len() && ((#[trigger] s[i]).tx_delta_bytes > 0 || s[i].rx_delta_bytes > 0
                || s[i].tx_speed > 0 || s[i].rx_speed > 0) ==> reportable_snapshot_deltas(s).contains(
                DeltaModel {
                    node_id: s[i].node_id@,
                    tx_bytes: s[i].tx_delta_bytes,
                    rx_bytes: s[i].rx_delta_bytes,
                    tx_speed: s[i].tx_speed,
                    rx_speed: s[i].rx_speed,
                },
            ),
        (forall|i: int|
            0 <= i < s.len() ==> (#[trigger] s[i]).tx_delta_bytes == 0 && s[i].rx_delta_bytes == 0
                && s[i].tx_speed == 0 && s[i].rx_speed == 0) ==> reportable_snapshot_deltas(s).len() == 0,
    decreases s.len(),
{
    if s.len() > 0 {
        let init = s.drop_last();
        lemma_collection_reports_new_bytes(init);
        let rest = reportable_snapshot_deltas(init);
        let out = reportable_snapshot_deltas(s);
        let l = s.last();
        assert(s[s.len() - 1] == l);
        assert forall|k: int| 0 <= k < out.len() implies exists|i: int|
            0 <= i < s.len() && #[trigger] out[k] == (DeltaModel {
                node_id: s[i].node_id@,
                tx_bytes: s[i].tx_delta_bytes,
                rx_bytes: s[i].rx_delta_bytes,
                tx_speed: s[i].tx_speed,
                rx_speed: s[i].rx_speed,
            }) by {
            if k < rest.len() {
                assert(out[k] == rest[k]);
                let i = choose|i: int|
                    0 <= i < init.len() && #[trigger] rest[k] == (DeltaModel {
                        node_id: init[i].node_id@,
                        tx_bytes: init[i].tx_delta_bytes,
                        rx_bytes: init[i].rx_delta_bytes,
                        tx_speed: init[i].tx_speed,
                        rx_speed: init[i].rx_speed,
                    });
                assert(init[i] == s[i]);
            } else {
                assert(out[k] == snapshot_delta(l));
            }
        }
        assert forall|i: int|
            0 <= i < s.len() && ((#[trigger] s[i]).tx_delta_bytes > 0 || s[i].rx_delta_bytes > 0
                || s[i].tx_speed > 0 || s[i].rx_speed > 0) implies out.contains(
            DeltaModel {
                node_id: s[i].node_id@,
                tx_bytes: s[i].tx_delta_bytes,
                rx_bytes: s[i].rx_delta_bytes,
                tx_speed: s[i].tx_speed,
                rx_speed: s[i].rx_speed,
            },
        ) by {
            if i < init.len() {
                assert(init[i] == s[i]);
                let d = DeltaModel {
                    node_id: s[i].node_id@,
                    tx_bytes: s[i].tx_delta_bytes,
                    rx_bytes: s[i].rx_delta_bytes,
                    tx_speed: s[i].tx_speed,
                    rx_speed: s[i].rx_speed,
                };
                assert(rest.contains(d));
                let w = choose|w: int| 0 <= w < rest.len() && rest[w] == d;
                assert(out[w] == rest[w]);
            } else {
                assert(out[out.len() - 1] == snapshot_delta(l));
            }
        }
        if forall|i: int|
            0 <= i < s.len() ==> (#[trigger] s[i]).tx_delta_bytes == 0 && s[i].rx_delta_bytes == 0
                && s[i].tx_speed == 0 && s[i].rx_speed == 0 {
            assert forall|i: int| 0 <= i < init.len() implies (#[trigger] init[i]).tx_delta_bytes == 0
                && init[i].rx_delta_bytes == 0 && init[i].tx_speed == 0 && init[i].rx_speed == 0 by {
                assert(init[i] == s[i]);
            }
        }
    }
}

/// The deltas that have something to report, in order.
pub open spec fn reportable_deltas(s: Seq<DeltaModel>) -> Seq<DeltaModel>
    decreases s.len(),
{
    if s.len() == 0 {
        seq![]
    } else {
        let rest = reportable_deltas(s.drop_last());
        if delta_is_reportable(s.last()) {
            rest.push(s.last())
        } else {
            rest
        }
    }
}

/// Every delta kept by [`reportable_deltas`] is reportable.
pub proof fn lemma_reportable_deltas_all_reportable(s: Seq<DeltaModel>)
    ensures
        forall|i: int| 0 <= i < reportable_deltas(s).len()
            ==> delta_is_reportable(#[trigger] reportable_deltas(s)[i]),
        reportable_deltas(s).len() <= s.len(),
    decreases s.len(),
{
    if s.len() > 0 {
        lemma_reportable_deltas_all_reportable(s.drop_last());
    }
}

/// Every delta kept by [`reportable_snapshot_deltas`] is reportable.
pub proof fn lemma_snapshot_deltas_all_reportable(s: Seq<NodeTrafficSourceSnapshot>)
    ensures
        forall|i: int| 0 <= i < reportable_snapshot_deltas(s).len()
            ==> delta_is_reportable(#[trigger] reportable_snapshot_deltas(s)[i]),
    decreases s.len(),
{
    if s.len() > 0 {
        lemma_snapshot_deltas_all_reportable(s.drop_last());
        let rest = reportable_snapshot_deltas(s.drop_last());
        assert forall|i: int| 0 <= i < reportable_snapshot_deltas(s).len() implies delta_is_reportable(
            #[trigger] reportable_snapshot_deltas(s)[i],
        ) by {
            if i < rest.len() {
                assert(reportable_snapshot_deltas(s)[i] == rest[i]);
            }
        }
    }
}

/// Where the proxy's node traffic comes from; the relay implements it.
pub trait NodeTrafficSource {
    /// Takes the counters of every node that moved traffic since the last
    /// call; the source starts counting those nodes again from zero.
    fn take_node_traffic_snapshots(&self) -> Vec<NodeTrafficSourceSnapshot>;
}

/// The opening text of every node traffic report id.
pub open spec fn report_id_prefix() -> Seq<char> {
    seq!['n', 'o', 'd', 'e', '-', 't', 'r', 'a', 'f', 'f', 'i', 'c', '-']
}

/// The id of the record at `index` in batch `batch_id` of the window
/// `started_at_ms..ended_at_ms`: `node-traffic-{start}-{end}-{batch}-{index}`.
pub open spec fn report_id_text(started_at_ms: u64, ended_at_ms: u64, batch_id: u64, index: nat) -> Seq<
    char,
> {
    report_id_prefix() + decimal(started_at_ms as nat) + seq!['-'] + decimal(ended_at_ms as nat)
        + seq!['-'] + decimal(batch_id as nat) + seq!['-'] + decimal(index)
}

/// Within one batch, distinct record positions get distinct ids.
pub proof fn lemma_report_ids_distinct(s: u64, e: u64, b: u64, i: nat, j: nat)
    requires
        i != j,
    ensures
        report_id_text(s, e, b, i) != report_id_text(s, e, b, j),
{
    let p = report_id_prefix() + decimal(s as nat) + seq!['-'] + decimal(e as nat) + seq!['-']
        + decimal(b as nat) + seq!['-'];
    if report_id_text(s, e, b, i) == report_id_text(s, e, b, j) {
        assert(report_id_text(s, e, b, i) == p + decimal(i));
        assert(report_id_text(s, e, b, j) == p + decimal(j));
        lemma_common_prefix_tail(p, decimal(i), decimal(j));
        lemma_decimal_injective(i, j);
    }
}

fn dash() -> (s: &'static str)
    ensures
        s@ == seq!['-'],
{
    proof {
        reveal_strlit("-");
    }
    "-"
}

/// Renders the id of a node traffic report record.
pub fn make_report_id(started_at_ms: u64, ended_at_ms: u64, batch_id: u64, index: u64) -> (r:
    String)
    ensures
        r@ == report_id_text(started_at_ms, ended_at_ms, batch_id, index as nat),
{
    proof {
        reveal_strlit("node-traffic-");
    }
    let mut id = String::from_str("node-traffic-");
    assert(id@ =~= report_id_prefix());
    let d = u64_to_decimal(started_at_ms);
    id.append(d.as_str());
    id.append(dash());
    let d = u64_to_decimal(ended_at_ms);
    id.append(d.as_str());
    id.append(dash());
    let d = u64_to_decimal(batch_id);
    id.append(d.as_str());
    id.append(dash());
    let d = u64_to_decimal(index);
    id.append(d.as_str());
    id
}

/// One node traffic record as the proxy uploads it.
#[derive(Debug, PartialEq, Eq)]
pub struct NodeTrafficReport {
    pub report_id: String,
    pub started_at_ms: u64,
    pub ended_at_ms: u64,
    pub delta: NodeTrafficDelta,
}

/// The abstract value of a [`NodeTrafficReport`].
pub struct ReportModel {
    pub report_id: Seq<char>,
    pub started_at_ms: u64,
    pub ended_at_ms: u64,
    pub delta: DeltaModel,
}

impl View for NodeTrafficReport {
    type V = ReportModel;

    open spec fn view(&self) -> ReportModel {
        ReportModel {
            report_id: self.report_id@,
            started_at_ms: self.started_at_ms,
            ended_at_ms: self.ended_at_ms,
            delta: self.delta@,
        }
    }
}

impl NodeTrafficReport {
    /// A copy of this record.
    pub fn duplicate(&self) -> (r: NodeTrafficReport)
        ensures
            r@ == self@,
    {
        NodeTrafficReport {
            report_id: self.report_id.clone(),
            started_at_ms: self.started_at_ms,
            ended_at_ms: self.ended_at_ms,
            delta: self.delta.duplicate(),
        }
    }
}

/// The abstract values of a sequence of records.
pub open spec fn report_models(s: Seq<NodeTrafficReport>) -> Seq<ReportModel> {
    s.map_values(|r: NodeTrafficReport| r@)
}

/// The abstract values of a sequence of deltas.
pub open spec fn delta_models(s: Seq<NodeTrafficDelta>) -> Seq<DeltaModel> {
    s.map_values(|d: NodeTrafficDelta| d@)
}

/// The records of batch `batch_id` over a window, one per delta, in order.
pub open spec fn batch_records(
    started_at_ms: u64,
    ended_at_ms: u64,
    batch_id: u64,
    deltas: Seq<DeltaModel>,
) -> Seq<ReportModel> {
    Seq::new(
        deltas.len(),
        |k: int|
            ReportModel {
                report_id: report_id_text(started_at_ms, ended_at_ms, batch_id, k as nat),
                started_at_ms,
                ended_at_ms,
                delta: deltas[k],
            },
    )
}

/// A batch of records queued for upload together.
#[derive(Debug)]
pub struct NodeTrafficReportBatch {
    pub batch_id: u64,
    pub records: Vec<NodeTrafficReport>,
}

/// The abstract value of a [`NodeTrafficReportBatch`].
pub struct BatchModel {
    pub batch_id: u64,
    pub records: Seq<ReportModel>,
}

impl View for NodeTrafficReportBatch {
    type V = BatchModel;

    open spec fn view(&self) -> BatchModel {
        BatchModel { batch_id: self.batch_id, records: report_models(self.records@) }
    }
}

/// How the control server settled one uploaded record.
#[derive(Clone, Copy, Debug, PartialEq, Eq, Structural)]
pub enum ReportApplyResult {
    /// The record was applied to the node's counters.
    Applied,
    /// The record had been applied before; nothing changed.
    Duplicate,
    /// The record could not be applied now and must be sent again.
    Retryable,
    /// The record will never be applied.
    Rejected,
}

/// The control server's answer for one uploaded record.
#[derive(Debug, PartialEq, Eq)]
pub struct NodeTrafficReportResp {
    pub report_id: String,
    pub result: ReportApplyResult,
    pub error_code: Option<u32>,
}

/// The abstract value of a [`NodeTrafficReportResp`].
pub struct RespModel {
    pub report_id: Seq<char>,
    pub result: ReportApplyResult,
    pub error_code: Option<u32>,
}

impl View for NodeTrafficReportResp {
    type V = RespModel;

    open spec fn view(&self) -> RespModel {
        RespModel {
            report_id: self.report_id@,
            result: self.result,
            error_code: self.error_code,
        }
    }
}

impl NodeTrafficReportResp {
    /// A copy of this answer.
    pub fn duplicate(&self) -> (r: NodeTrafficReportResp)
        ensures
            r@ == self@,
    {
        NodeTrafficReportResp {
            report_id: self.report_id.clone(),
            result: self.result,
            error_code: self.error_code,
        }
    }
}

/// The abstract values of a sequence of answers.
pub open spec fn resp_models(s: Seq<NodeTrafficReportResp>) -> Seq<RespModel> {
    s.map_values(|r: NodeTrafficReportResp| r@)
}

/// Failures of the traffic pipeline.
#[derive(Debug, PartialEq, Eq)]
pub enum TrafficError {
    /// The window's start is the last representable millisecond.
    TimestampExhausted,
    /// The uploader is shutting down: no batch is accepted.
    ShuttingDown,
    /// The collector is shutting down: no collection is made.
    CollectorShuttingDown,
    /// As many batches as the configuration allows are already queued.
    BacklogFull { capacity: usize },
    /// A submitted window ends before it starts.
    ReversedInterval,
    /// A command failed or its answer did not match the records it carried.
    UploadFailed { first_error: UploadFailure },
    /// The control server asked for some records to be sent again.
    RetryableRecords,
}

/// Why one upload command did not settle its records.
#[derive(Debug, PartialEq, Eq)]
pub enum UploadFailure {
    /// The answer's record ids were not those of the command.
    ResponseMismatch,
    /// The command itself failed, with this message.
    Command { message: String },
}

/// Where the next collection window starts and how many reports were made.
#[derive(Clone, Copy, Debug, PartialEq, Eq)]
pub struct NodeReportState {
    pub next_report_seq: u64,
    pub wall_clock_anchor_ms: u64,
    pub last_report_ended_at_ms: Option<u64>,
}

impl NodeReportState {
    /// A fresh state anchored at the wall clock time `wall_clock_anchor_ms`.
    pub fn new(wall_clock_anchor_ms: u64) -> (r: NodeReportState)
        ensures
            r.next_report_seq == 0,
            r.wall_clock_anchor_ms == wall_clock_anchor_ms,
            r.last_report_ended_at_ms is None,
    {
        NodeReportState { next_report_seq: 0, wall_clock_anchor_ms, last_report_ended_at_ms: None }
    }

    /// Where the next window starts: the end of the last report, else the anchor.
    pub open spec fn window_start(self) -> u64 {
        match self.last_report_ended_at_ms {
            Some(t) => t,
            None => self.wall_clock_anchor_ms,
        }
    }

    /// The end of the next window when `elapsed_ms` have passed on the
    /// monotonic clock since the anchor: the anchor plus the elapsed time,
    /// but at least one millisecond after the window's start.
    pub open spec fn window_end(self, elapsed_ms: u64) -> u64 {
        let monotonic = if self.wall_clock_anchor_ms + elapsed_ms > u64::MAX {
            u64::MAX
        } else {
            (self.wall_clock_anchor_ms + elapsed_ms) as u64
        };
        if monotonic >= self.window_start() + 1 {
            monotonic
        } else {
            (self.window_start() + 1) as u64
        }
    }

    /// The next collection window.
    pub fn next_collection_window(&self, elapsed_ms: u64) -> (r: Result<(u64, u64), TrafficError>)
        ensures
            self.window_start() == u64::MAX ==> r == Err::<(u64, u64), TrafficError>(
                TrafficError::TimestampExhausted,
            ),
            self.window_start() < u64::MAX ==> r == Ok::<(u64, u64), TrafficError>(
                (self.window_start(), self.window_end(elapsed_ms)),
            ),
    {
        let started_at_ms = match self.last_report_ended_at_ms {
            Some(t) => t,
            None => self.wall_clock_anchor_ms,
        };
        let minimum_ended_at_ms = match started_at_ms.checked_add(1) {
            Some(t) => t,
            None => {
                return Err(TrafficError::TimestampExhausted);
            },
        };
        let monotonic_ended_at_ms = self.wall_clock_anchor_ms.saturating_add(elapsed_ms);
        let ended_at_ms = if monotonic_ended_at_ms >= minimum_ended_at_ms {
            monotonic_ended_at_ms
        } else {
            minimum_ended_at_ms
        };
        Ok((started_at_ms, ended_at_ms))
    }
}


/// The id that follows `n` among batch ids; after the last it starts at zero.
pub open spec fn next_batch_seq(n: u64) -> u64 {
    if n == u64::MAX {
        0
    } else {
        (n + 1) as u64
    }
}

/// The report state after a batch over a window ending at `ended_at_ms`
/// was made: the batch id advances and the next window starts at the end.
pub open spec fn advanced_state(s: NodeReportState, ended_at_ms: u64) -> NodeReportState {
    NodeReportState {
        next_report_seq: next_batch_seq(s.next_report_seq),
        wall_clock_anchor_ms: s.wall_clock_anchor_ms,
        last_report_ended_at_ms: Some(ended_at_ms),
    }
}

/// The batch made from `deltas` over a window when the state is `s`.
pub open spec fn made_batch(
    s: NodeReportState,
    started_at_ms: u64,
    ended_at_ms: u64,
    deltas: Seq<DeltaModel>,
) -> BatchModel {
    BatchModel {
        batch_id: s.next_report_seq,
        records: batch_records(started_at_ms, ended_at_ms, s.next_report_seq, deltas),
    }
}

/// The number of records in a sequence of batches.
pub open spec fn total_records(batches: Seq<BatchModel>) -> nat
    decreases batches.len(),
{
    if batches.len() == 0 {
        0
    } else {
        total_records(batches.drop_last()) + batches.last().records.len()
    }
}

/// Builds the records of a batch, one per delta, each with its own id.
pub fn build_batch_records(
    started_at_ms: u64,
    ended_at_ms: u64,
    batch_id: u64,
    deltas: &Vec<NodeTrafficDelta>,
) -> (r: Vec<NodeTrafficReport>)
    ensures
        report_models(r@) == batch_records(started_at_ms, ended_at_ms, batch_id, delta_models(deltas@)),
{
    let mut records: Vec<NodeTrafficReport> = Vec::new();
    let mut i: usize = 0;
    while i < deltas.len()
        invariant
            i <= deltas@.len(),
            report_models(records@) =~= batch_records(
                started_at_ms,
                ended_at_ms,
                batch_id,
                delta_models(deltas@),
            ).subrange(0, i as int),
        decreases deltas@.len() - i,
    {
        let report_id = make_report_id(started_at_ms, ended_at_ms, batch_id, i as u64);
        let record = NodeTrafficReport {
            report_id,
            started_at_ms,
            ended_at_ms,
            delta: deltas[i].duplicate(),
        };
        let ghost before = records@;
        let ghost rec = record@;
        assert(delta_models(deltas@)[i as int] == deltas@[i as int]@);
        records.push(record);
        assert(report_models(records@) =~= report_models(before).push(rec));
        i = i + 1;
        assert(report_models(records@) =~= batch_records(
            started_at_ms,
            ended_at_ms,
            batch_id,
            delta_models(deltas@),
        ).subrange(0, i as int));
    }
    records
}

/// Occupancy of the pending batch queue.
#[derive(Clone, Copy, Debug, PartialEq, Eq)]
pub struct NodeTrafficQueueStatus {
    pub queued_batches: usize,
    pub queued_records: usize,
    pub oldest_batch_id: Option<u64>,
    pub terminal_rejected_records: u64,
}

/// What a graceful shutdown of the traffic pipeline achieved.
#[derive(Debug, PartialEq, Eq)]
pub struct NodeTrafficShutdownStatus {
    pub collector_exited: bool,
    pub final_collection_succeeded: bool,
    pub final_collection_error: Option<String>,
    pub uploader_exited: bool,
    pub cleanup_exited: bool,
    pub queue: NodeTrafficQueueStatus,
}

impl NodeTrafficShutdownStatus {
    /// The shutdown succeeded: every task stopped, the last collection
    /// worked, and nothing was left queued.
    pub fn is_success(&self) -> (r: bool)
        ensures
            r == (self.collector_exited && self.final_collection_succeeded && self.uploader_exited
                && self.cleanup_exited && self.queue.queued_batches == 0
                && self.queue.queued_records == 0),
    {
        self.collector_exited && self.final_collection_succeeded && self.uploader_exited
            && self.cleanup_exited && self.queue.queued_batches == 0
            && self.queue.queued_records == 0
    }
}

/// No batch of the sequence is empty.
pub open spec fn batches_nonempty(bs: Seq<BatchModel>) -> bool {
    forall|i: int| 0 <= i < bs.len() ==> #[trigger] bs[i].records.len() > 0
}

/// The proxy's queue of node traffic batches waiting for the control server.
pub struct NodeTrafficQueue {
    pending: VecDeque<NodeTrafficReportBatch>,
    report_state: NodeReportState,
    upload_config: PnTrafficUploadConfig,
    terminal_rejected: u64,
    shutting_down: bool,
}

impl NodeTrafficQueue {
    /// The queued batches, oldest first.
    pub closed spec fn batches(&self) -> Seq<BatchModel> {
        self.pending@.map_values(|b: NodeTrafficReportBatch| b@)
    }

    /// Where the next window starts and the next batch id.
    pub closed spec fn state(&self) -> NodeReportState {
        self.report_state
    }

    /// The upload limits in force.
    pub closed spec fn config(&self) -> PnTrafficUploadConfig {
        self.upload_config
    }

    /// How many records the control server has rejected for good.
    pub closed spec fn rejected(&self) -> u64 {
        self.terminal_rejected
    }

    /// Whether the uploader has been told to stop.
    pub closed spec fn shutting_down(&self) -> bool {
        self.shutting_down
    }

    /// The queue's invariant: commands carry at least one record each, and no
    /// queued batch is empty.
    pub open spec fn wf(&self) -> bool {
        &&& self.config().records_per_command > 0
        &&& batches_nonempty(self.batches())
    }

    /// An empty queue whose first window starts at `wall_clock_anchor_ms`.
    pub fn new(wall_clock_anchor_ms: u64) -> (r: NodeTrafficQueue)
        ensures
            r.wf(),
            r.batches() == Seq::<BatchModel>::empty(),
            r.state().next_report_seq == 0,
            r.state().wall_clock_anchor_ms == wall_clock_anchor_ms,
            r.state().last_report_ended_at_ms is None,
            r.config() == default_upload_config(),
            r.rejected() == 0,
            !r.shutting_down(),
    {
        let r = NodeTrafficQueue {
            pending: VecDeque::new(),
            report_state: NodeReportState::new(wall_clock_anchor_ms),
            upload_config: PnTrafficUploadConfig::default_config(),
            terminal_rejected: 0,
            shutting_down: false,
        };
        assert(r.batches() =~= Seq::<BatchModel>::empty());
        r
    }

    /// Replaces the upload limits.
    pub fn set_upload_config(&mut self, config: PnTrafficUploadConfig)
        requires
            old(self).wf(),
            config.records_per_command > 0,
        ensures
            final(self).wf(),
            final(self).config() == config,
            final(self).batches() == old(self).batches(),
            final(self).state() == old(self).state(),
            final(self).rejected() == old(self).rejected(),
            final(self).shutting_down() == old(self).shutting_down(),
    {
        self.upload_config = config;
    }

    /// The upload limits in force.
    pub fn upload_config(&self) -> (r: PnTrafficUploadConfig)
        ensures
            r == self.config(),
    {
        self.upload_config
    }

    /// Tells the queue that the uploader is stopping: no batch is accepted
    /// from now on.
    pub fn mark_uploader_shutdown(&mut self)
        requires
            old(self).wf(),
        ensures
            final(self).wf(),
            final(self).shutting_down(),
            final(self).config() == old(self).config(),
            final(self).batches() == old(self).batches(),
            final(self).state() == old(self).state(),
            final(self).rejected() == old(self).rejected(),
    {
        self.shutting_down = true;
    }

    /// Whether the uploader has been told to stop.
    pub fn is_shutting_down(&self) -> (r: bool)
        ensures
            r == self.shutting_down(),
    {
        self.shutting_down
    }

    /// The number of queued batches.
    pub fn pending_batch_count(&self) -> (r: usize)
        ensures
            r == self.batches().len(),
    {
        self.pending.len()
    }

    /// The queue's occupancy; the record count saturates at `usize::MAX`.
    pub fn queue_status(&self) -> (r: NodeTrafficQueueStatus)
        ensures
            r.queued_batches == self.batches().len(),
            r.queued_records == if total_records(self.batches()) > usize::MAX {
                usize::MAX as nat
            } else {
                total_records(self.batches())
            },
            r.oldest_batch_id == if self.batches().len() == 0 {
                None::<u64>
            } else {
                Some(self.batches()[0].batch_id)
            },
            r.terminal_rejected_records == self.rejected(),
    {
        let n = self.pending.len();
        let mut records: usize = 0;
        let mut i: usize = 0;
        while i < n
            invariant
                n == self.batches().len(),
                i <= n,
                records == if total_records(self.batches().subrange(0, i as int)) > usize::MAX {
                    usize::MAX as nat
                } else {
                    total_records(self.batches().subrange(0, i as int))
                },
            decreases n - i,
        {
            assert(self.batches().subrange(0, i + 1).drop_last() =~= self.batches().subrange(0, i as int));
            assert(self.pending@[i as int]@ == self.batches()[i as int]);
            records = records.saturating_add(self.pending[i].records.len());
            i = i + 1;
        }
        assert(self.batches().subrange(0, n as int) =~= self.batches());
        let oldest_batch_id = if n == 0 {
            None
        } else {
            Some(self.pending[0].batch_id)
        };
        NodeTrafficQueueStatus {
            queued_batches: n,
            queued_records: records,
            oldest_batch_id,
            terminal_rejected_records: self.terminal_rejected,
        }
    }

    /// The next collection window when `elapsed_ms` have passed on the
    /// monotonic clock since the anchor.
    pub fn next_collection_window(&self, elapsed_ms: u64) -> (r: Result<(u64, u64), TrafficError>)
        ensures
            self.state().window_start() == u64::MAX ==> r == Err::<(u64, u64), TrafficError>(
                TrafficError::TimestampExhausted,
            ),
            self.state().window_start() < u64::MAX ==> r == Ok::<(u64, u64), TrafficError>(
                (self.state().window_start(), self.state().window_end(elapsed_ms)),
            ),
    {
        self.report_state.next_collection_window(elapsed_ms)
    }

    /// Queues a batch of the given deltas over the window; the batch takes
    /// the next batch id, and the window's end becomes the next window's start.
    fn push_batch(&mut self, started_at_ms: u64, ended_at_ms: u64, deltas: &Vec<NodeTrafficDelta>)
        requires
            old(self).wf(),
            deltas@.len() > 0,
        ensures
            final(self).wf(),
            final(self).batches() == old(self).batches().push(
                made_batch(old(self).state(), started_at_ms, ended_at_ms, delta_models(deltas@)),
            ),
            final(self).state() == advanced_state(old(self).state(), ended_at_ms),
            final(self).config() == old(self).config(),
            final(self).rejected() == old(self).rejected(),
            final(self).shutting_down() == old(self).shutting_down(),
    {
        let batch_id = self.report_state.next_report_seq;
        self.report_state.next_report_seq = self.report_state.next_report_seq.wrapping_add(1);
        self.report_state.last_report_ended_at_ms = Some(ended_at_ms);
        let records = build_batch_records(started_at_ms, ended_at_ms, batch_id, deltas);
        let batch = NodeTrafficReportBatch { batch_id, records };
        let ghost old_pending = self.pending@;
        self.pending.push_back(batch);
        assert(self.pending@.map_values(|b: NodeTrafficReportBatch| b@) =~= old_pending.map_values(
            |b: NodeTrafficReportBatch| b@,
        ).push(batch@));
        assert forall|i: int| 0 <= i < self.batches().len() implies #[trigger] self.batches()[i].records.len() > 0 by {
            if i < old_pending.len() {
                assert(self.batches()[i] == old_pending.map_values(|b: NodeTrafficReportBatch| b@)[i]);
            } else {
                assert(self.batches()[i] == batch@);
                assert(batch@.records.len() == deltas@.len());
            }
        }
    }

    /// Queues the deltas submitted for a window. Deltas with nothing to
    /// report are dropped; a submission with nothing left queues nothing.
    pub fn submit_node_batch(
        &mut self,
        started_at_ms: u64,
        ended_at_ms: u64,
        deltas: Vec<NodeTrafficDelta>,
    ) -> (r: Result<bool, TrafficError>)
        requires
            old(self).wf(),
        ensures
            final(self).wf(),
            final(self).config() == old(self).config(),
            final(self).rejected() == old(self).rejected(),
            final(self).shutting_down() == old(self).shutting_down(),
            started_at_ms > ended_at_ms ==> r == Err::<bool, TrafficError>(
                TrafficError::ReversedInterval,
            ),
            started_at_ms <= ended_at_ms && old(self).shutting_down() ==> r == Err::<
                bool,
                TrafficError,
            >(TrafficError::ShuttingDown),
            started_at_ms <= ended_at_ms && !old(self).shutting_down() && reportable_deltas(
                delta_models(deltas@),
            ).len() == 0 ==> r == Ok::<bool, TrafficError>(false),
            started_at_ms <= ended_at_ms && !old(self).shutting_down() && reportable_deltas(
                delta_models(deltas@),
            ).len() > 0 && old(self).batches().len() >= old(self).config().backlog_batches ==> r
                == Err::<bool, TrafficError>(
                TrafficError::BacklogFull { capacity: old(self).config().backlog_batches },
            ),
            started_at_ms <= ended_at_ms && !old(self).shutting_down() && reportable_deltas(
                delta_models(deltas@),
            ).len() > 0 && old(self).batches().len() < old(self).config().backlog_batches ==> r
                == Ok::<bool, TrafficError>(true),
            r != Ok::<bool, TrafficError>(true) ==> final(self).batches() == old(self).batches(),
            r != Ok::<bool, TrafficError>(true) ==> final(self).state() == old(self).state(),
            r == Ok::<bool, TrafficError>(true) ==> final(self).batches() == old(self).batches().push(
                made_batch(
                    old(self).state(),
                    started_at_ms,
                    ended_at_ms,
                    reportable_deltas(delta_models(deltas@)),
                ),
            ),
            r == Ok::<bool, TrafficError>(true) ==> final(self).state() == advanced_state(
                old(self).state(),
                ended_at_ms,
            ),
    {
        if started_at_ms > ended_at_ms {
            return Err(TrafficError::ReversedInterval);
        }
        if self.shutting_down {
            return Err(TrafficError::ShuttingDown);
        }
        let kept = filter_reportable_deltas(&deltas);
        if kept.len() == 0 {
            return Ok(false);
        }
        let capacity = self.upload_config.backlog_batches;
        if self.pending.len() >= capacity {
            return Err(TrafficError::BacklogFull { capacity });
        }
        self.push_batch(started_at_ms, ended_at_ms, &kept);
        Ok(true)
    }

    /// Queues what a collection returned over the window: one record per
    /// snapshot with something to report. Returns whether a batch was queued.
    pub fn install_snapshots(
        &mut self,
        started_at_ms: u64,
        ended_at_ms: u64,
        snapshots: Vec<NodeTrafficSourceSnapshot>,
    ) -> (r: bool)
        requires
            old(self).wf(),
        ensures
            final(self).wf(),
            final(self).config() == old(self).config(),
            final(self).rejected() == old(self).rejected(),
            final(self).shutting_down() == old(self).shutting_down(),
            r == (reportable_snapshot_deltas(snapshots@).len() > 0),
            !r ==> final(self).batches() == old(self).batches(),
            !r ==> final(self).state() == old(self).state(),
            r ==> final(self).batches() == old(self).batches().push(
                made_batch(
                    old(self).state(),
                    started_at_ms,
                    ended_at_ms,
                    reportable_snapshot_deltas(snapshots@),
                ),
            ),
            r ==> final(self).state() == advanced_state(old(self).state(), ended_at_ms),
    {
        let deltas = deltas_from_snapshots(&snapshots);
        if deltas.len() == 0 {
            return false;
        }
        self.push_batch(started_at_ms, ended_at_ms, &deltas);
        true
    }

    /// Whether a collection round may read the source, decided before it is
    /// read: refused while the uploader is stopping; nothing to do without
    /// a source; refused when the backlog is full or the timestamps are
    /// exhausted; else the window the round covers.
    pub open spec fn admission(&self, has_source: bool, elapsed_ms: u64) -> Result<
        Option<(u64, u64)>,
        TrafficError,
    > {
        if self.shutting_down() {
            Err(TrafficError::CollectorShuttingDown)
        } else if !has_source {
            Ok(None)
        } else if self.batches().len() >= self.config().backlog_batches {
            Err(TrafficError::BacklogFull { capacity: self.config().backlog_batches })
        } else if self.state().window_start() == u64::MAX {
            Err(TrafficError::TimestampExhausted)
        } else {
            Ok(Some((self.state().window_start(), self.state().window_end(elapsed_ms))))
        }
    }

    /// Decides whether a collection round may read the source (`has_source`
    /// tells whether one is set) when `elapsed_ms` have passed: `Ok(Some(w))`
    /// with the window `w` to collect over; `Ok(None)` when there is no
    /// source; otherwise why the round is refused.
    pub fn collection_admission(&self, has_source: bool, elapsed_ms: u64) -> (r: Result<
        Option<(u64, u64)>,
        TrafficError,
    >)
        ensures
            r == self.admission(has_source, elapsed_ms),
    {
        if self.shutting_down {
            return Err(TrafficError::CollectorShuttingDown);
        }
        if !has_source {
            return Ok(None);
        }
        let capacity = self.upload_config.backlog_batches;
        if self.pending.len() >= capacity {
            return Err(TrafficError::BacklogFull { capacity });
        }
        match self.report_state.next_collection_window(elapsed_ms) {
            Ok(w) => Ok(Some(w)),
            Err(e) => Err(e),
        }
    }

    /// One collection round. The round first asks
    /// [`NodeTrafficQueue::collection_admission`]; the source is read only
    /// when that gives a window, and the nodes that moved traffic in it are
    /// queued. Otherwise the round ends with what the admission gave.
    pub fn collect_node_traffic<S: NodeTrafficSource + ?Sized>(
        &mut self,
        source: Option<&S>,
        elapsed_ms: u64,
    ) -> (r: Result<bool, TrafficError>)
        requires
            old(self).wf(),
        ensures
            final(self).wf(),
            final(self).config() == old(self).config(),
            final(self).rejected() == old(self).rejected(),
            final(self).shutting_down() == old(self).shutting_down(),
            old(self).admission(source is Some, elapsed_ms) matches Err(e) ==> r == Err::<bool, TrafficError>(e),
            old(self).admission(source is Some, elapsed_ms) is Ok ==> r is Ok,
            old(self).admission(source is Some, elapsed_ms) matches Ok(None) ==> r == Ok::<bool, TrafficError>(false),
            old(self).shutting_down() ==> r == Err::<bool, TrafficError>(TrafficError::CollectorShuttingDown),
            !old(self).shutting_down() && source is None ==> r == Ok::<bool, TrafficError>(false),
            !old(self).shutting_down() && source is Some && old(self).batches().len() >= old(self).config().backlog_batches ==> r == Err::<bool, TrafficError>(
                TrafficError::BacklogFull { capacity: old(self).config().backlog_batches },
            ),
            !old(self).shutting_down() && source is Some && old(self).batches().len() < old(self).config().backlog_batches && old(self).state().window_start() == u64::MAX ==> r
                == Err::<bool, TrafficError>(TrafficError::TimestampExhausted),
            !old(self).shutting_down() && source is Some && old(self).batches().len() < old(self).config().backlog_batches && old(self).state().window_start() < u64::MAX ==> (r is Ok),
            r != Ok::<bool, TrafficError>(true) ==> final(self).batches() == old(self).batches(),
            r != Ok::<bool, TrafficError>(true) ==> final(self).state() == old(self).state(),
            r == Ok::<bool, TrafficError>(true) ==> final(self).batches().len() == old(self).batches().len() + 1,
            r == Ok::<bool, TrafficError>(true) ==> final(self).batches().drop_last() == old(self).batches(),
            r == Ok::<bool, TrafficError>(true) ==> is_collected_batch(
                final(self).batches().last(),
                old(self).state(),
                elapsed_ms,
            ),
            r == Ok::<bool, TrafficError>(true) ==> final(self).state() == advanced_state(
                old(self).state(),
                old(self).state().window_end(elapsed_ms),
            ),
    {
        let (started_at_ms, ended_at_ms) = match self.collection_admission(source.is_some(), elapsed_ms) {
            Ok(Some(w)) => w,
            Ok(None) => {
                return Ok(false);
            },
            Err(e) => {
                return Err(e);
            },
        };
        let snapshots = match source {
            Some(s) => s.take_node_traffic_snapshots(),
            None => Vec::new(),
        };
        let ghost old_batches = self.batches();
        let ghost old_state = self.state();
        let ghost snaps = snapshots@;
        proof {
            lemma_snapshot_deltas_all_reportable(snapshots@);
        }
        let queued = self.install_snapshots(started_at_ms, ended_at_ms, snapshots);
        if queued {
            assert(self.batches().drop_last() =~= old_batches);
            assert(self.batches().last() == made_batch(
                old_state,
                started_at_ms,
                ended_at_ms,
                reportable_snapshot_deltas(snaps),
            ));
        }
        Ok(queued)
    }
}

/// The abstract values of the records of each command.
pub open spec fn chunk_models(s: Seq<Vec<NodeTrafficReport>>) -> Seq<Seq<ReportModel>> {
    s.map_values(|c: Vec<NodeTrafficReport>| report_models(c@))
}

impl NodeTrafficQueue {
    /// The commands that upload the whole queue: every batch is cut into
    /// commands of at most `records_per_command` records, and the commands
    /// are taken round-robin, the first of every batch, then the second of
    /// every batch, and so on.
    pub fn plan_upload(&self) -> (r: Vec<Vec<NodeTrafficReport>>)
        requires
            self.wf(),
        ensures
            chunk_models(r@) == upload_plan(
                batch_record_seqs(self.batches()),
                self.config().records_per_command as nat,
            ),
    {
        let n = self.upload_config.records_per_command;
        let ghost bs = batch_record_seqs(self.batches());
        let ghost nn = n as nat;
        proof {
            lemma_max_chunk_count(bs, nn);
        }
        let mut plan: Vec<Vec<NodeTrafficReport>> = Vec::new();
        let mut r: usize = 0;
        loop
            invariant
                n > 0,
                nn == n,
                bs == batch_record_seqs(self.batches()),
                bs.len() == self.pending@.len(),
                forall|i: int|
                    0 <= i < bs.len() ==> #[trigger] chunk_count(bs[i].len(), nn)
                        <= max_chunk_count(bs, nn),
                max_chunk_count(bs, nn) == 0 || exists|i: int|
                    0 <= i < bs.len() && #[trigger] chunk_count(bs[i].len(), nn)
                        == max_chunk_count(bs, nn),
                r <= max_chunk_count(bs, nn),
                chunk_models(plan@) == plan_rounds(bs, r as nat, nn),
            ensures
                chunk_models(plan@) == upload_plan(bs, nn),
            decreases max_chunk_count(bs, nn) - r,
        {
            let mut progressed = false;
            let mut j: usize = 0;
            while j < self.pending.len()
                invariant
                    n > 0,
                    nn == n,
                    bs == batch_record_seqs(self.batches()),
                    bs.len() == self.pending@.len(),
                    j <= bs.len(),
                    chunk_models(plan@) == plan_rounds(bs, r as nat, nn) + round_chunks(
                        bs.take(j as int),
                        r as nat,
                        nn,
                    ),
                    progressed == exists|i: int|
                        0 <= i < j && (r as nat) < #[trigger] chunk_count(bs[i].len(), nn),
                    progressed ==> r < usize::MAX,
                    progressed || round_chunks(bs.take(j as int), r as nat, nn).len() == 0,
                decreases bs.len() - j,
            {
                let len = self.pending[j].records.len();
                let ghost b = bs[j as int];
                assert(b == report_models(self.pending@[j as int].records@));
                proof {
                    lemma_chunk_bounds(len as nat, r as nat, nn);
                }
                assert(bs.take(j + 1).drop_last() =~= bs.take(j as int));
                assert(bs.take(j + 1).last() == b);
                let ghost prev = plan@;
                if len > 0 && r <= (len - 1) / n {
                    assert((r as nat) < chunk_count(len as nat, nn));
                    let lo = r * n;
                    let hi = if len - lo > n {
                        lo + n
                    } else {
                        len
                    };
                    assert(min_nat(r as nat * nn, len as nat) == lo);
                    assert(min_nat((r as nat + 1) * nn, len as nat) == hi);
                    let chunk = copy_records(&self.pending[j].records, lo, hi);
                    assert(report_models(chunk@) == chunk_of(b, r as nat, nn));
                    plan.push(chunk);
                    assert(chunk_models(plan@) =~= chunk_models(prev).push(chunk_of(b, r as nat, nn)));
                    assert(r < usize::MAX);
                    progressed = true;
                } else {
                    assert(!((r as nat) < chunk_count(len as nat, nn)));
                }
                j = j + 1;
            }
            assert(bs.take(bs.len() as int) =~= bs);
            if !progressed {
                assert forall|i: int| 0 <= i < bs.len() implies #[trigger] chunk_count(bs[i].len(), nn)
                    <= r by {}
                assert(round_chunks(bs, r as nat, nn).len() == 0 || progressed);
                break;
            }
            r = r + 1;
        }
        plan
    }
}

impl NodeTrafficQueue {
    /// Applies the control server's answers to the queue: every record that
    /// an answer settles for good (anything but a request to retry) leaves
    /// its batch, batches left empty leave the queue, and each rejection is
    /// counted. Returns whether some answer asked for a retry.
    pub fn reconcile_responses(&mut self, responses: &Vec<NodeTrafficReportResp>) -> (r: bool)
        requires
            old(self).wf(),
        ensures
            final(self).wf(),
            final(self).batches() == remaining_batches(old(self).batches(), resp_models(responses@)),
            final(self).rejected() == rejected_after(old(self).rejected(), resp_models(responses@)),
            r == any_retryable(resp_models(responses@)),
            final(self).config() == old(self).config(),
            final(self).state() == old(self).state(),
            final(self).shutting_down() == old(self).shutting_down(),
    {
        let ghost rs = resp_models(responses@);
        let ghost start = self.terminal_rejected;
        let ghost bs = self.batches();
        let mut retryable = false;
        let mut rejected = self.terminal_rejected;
        let mut i: usize = 0;
        while i < responses.len()
            invariant
                i <= responses@.len(),
                rs == resp_models(responses@),
                retryable == exists|k: int|
                    0 <= k < i && (#[trigger] rs[k]).result == ReportApplyResult::Retryable,
                rejected == rejected_after(start, rs.take(i as int)),
            decreases responses@.len() - i,
        {
            assert(rs.take(i + 1).drop_last() =~= rs.take(i as int));
            assert(rs[i as int] == responses@[i as int]@);
            proof {
                lemma_rejected_after_step(start, rs.take(i + 1));
            }
            if responses[i].result == ReportApplyResult::Retryable {
                retryable = true;
            }
            if responses[i].result == ReportApplyResult::Rejected {
                rejected = rejected.wrapping_add(1);
            }
            i = i + 1;
        }
        assert(rs.take(responses@.len() as int) =~= rs);
        let mut kept_batches: VecDeque<NodeTrafficReportBatch> = VecDeque::new();
        let mut j: usize = 0;
        while j < self.pending.len()
            invariant
                j <= self.pending@.len(),
                rs == resp_models(responses@),
                bs == self.batches(),
                kept_batches@.map_values(|b: NodeTrafficReportBatch| b@) == remaining_batches(
                    bs.take(j as int),
                    rs,
                ),
            decreases self.pending@.len() - j,
        {
            assert(bs.take(j + 1).drop_last() =~= bs.take(j as int));
            assert(bs.take(j + 1).last() == self.pending@[j as int]@);
            let batch = &self.pending[j];
            let kept = keep_unsettled(&batch.records, responses);
            if kept.len() > 0 {
                let ghost before = kept_batches@;
                let nb = NodeTrafficReportBatch { batch_id: batch.batch_id, records: kept };
                kept_batches.push_back(nb);
                assert(kept_batches@.map_values(|b: NodeTrafficReportBatch| b@) =~= before.map_values(
                    |b: NodeTrafficReportBatch| b@,
                ).push(nb@));
            }
            j = j + 1;
        }
        assert(bs.take(bs.len() as int) =~= bs);
        self.pending = kept_batches;
        self.terminal_rejected = rejected;
        proof {
            lemma_remaining_batches_nonempty(bs, rs);
        }
        retryable
    }

    /// Settles one upload round from the results of its commands, in the
    /// order the commands ended. The answers of every command whose answer
    /// fits what it carried are reconciled with the queue; the round fails
    /// with the first command failure, else when some record is to be sent
    /// again, and otherwise returns the answers.
    pub fn settle_upload(&mut self, results: Vec<CommandResult>) -> (r: Result<
        Vec<NodeTrafficReportResp>,
        TrafficError,
    >)
        requires
            old(self).wf(),
        ensures
            final(self).wf(),
            final(self).batches() == remaining_batches(
                old(self).batches(),
                accepted_responses(results@),
            ),
            final(self).rejected() == rejected_after(
                old(self).rejected(),
                accepted_responses(results@),
            ),
            final(self).config() == old(self).config(),
            final(self).state() == old(self).state(),
            final(self).shutting_down() == old(self).shutting_down(),
            first_failure(results@) matches Some(f) ==> r == Err::<
                Vec<NodeTrafficReportResp>,
                TrafficError,
            >(TrafficError::UploadFailed { first_error: f }),
            first_failure(results@) is None && any_retryable(accepted_responses(results@)) ==> r
                == Err::<Vec<NodeTrafficReportResp>, TrafficError>(TrafficError::RetryableRecords),
            first_failure(results@) is None && !any_retryable(accepted_responses(results@)) ==> (r
                matches Ok(v) && resp_models(v@) == accepted_responses(results@)),
    {
        let ghost rs = results@;
        let mut responses: Vec<NodeTrafficReportResp> = Vec::new();
        let mut first: Option<UploadFailure> = None;
        let mut i: usize = 0;
        while i < results.len()
            invariant
                i <= rs.len(),
                rs == results@,
                resp_models(responses@) == accepted_responses(rs.take(i as int)),
                first == first_failure(rs.take(i as int)),
            decreases rs.len() - i,
        {
            assert(rs.take(i + 1).drop_last() =~= rs.take(i as int));
            assert(rs.take(i + 1).last() == rs[i as int]);
            let result = &results[i];
            match &result.outcome {
                CommandOutcome::Answered(resps) => {
                    match validate_node_report_responses(&result.requested, resps) {
                        Ok(()) => {
                            append_responses(&mut responses, resps);
                        },
                        Err(f) => {
                            if first.is_none() {
                                first = Some(f);
                            }
                        },
                    }
                },
                CommandOutcome::Failed(message) => {
                    if first.is_none() {
                        first = Some(UploadFailure::Command { message: message.clone() });
                    }
                },
            }
            i = i + 1;
        }
        assert(rs.take(rs.len() as int) =~= rs);
        let retryable = self.reconcile_responses(&responses);
        match first {
            Some(f) => Err(TrafficError::UploadFailed { first_error: f }),
            None => {
                if retryable {
                    Err(TrafficError::RetryableRecords)
                } else {
                    Ok(responses)
                }
            },
        }
    }
}

/// A batch that a collection over the state's next window queued: made
/// from the reportable counters of some set of snapshots, and not empty.
pub open spec fn is_collected_batch(b: BatchModel, s: NodeReportState, elapsed_ms: u64) -> bool {
    &&& b.records.len() > 0
    &&& forall|k: int| 0 <= k < b.records.len() ==> delta_is_reportable(#[trigger] b.records[k].delta)
    &&& exists|snaps: Seq<NodeTrafficSourceSnapshot>|
        b == made_batch(
            s,
            s.window_start(),
            s.window_end(elapsed_ms),
            #[trigger] reportable_snapshot_deltas(snaps),
        )
}

/// The deltas of `deltas` that have something to report, in order.
pub fn filter_reportable_deltas(deltas: &Vec<NodeTrafficDelta>) -> (r: Vec<NodeTrafficDelta>)
    ensures
        delta_models(r@) == reportable_deltas(delta_models(deltas@)),
{
    let mut kept: Vec<NodeTrafficDelta> = Vec::new();
    let mut i: usize = 0;
    while i < deltas.len()
        invariant
            i <= deltas@.len(),
            delta_models(kept@) == reportable_deltas(delta_models(deltas@).subrange(0, i as int)),
        decreases deltas@.len() - i,
    {
        let ghost prefix = delta_models(deltas@).subrange(0, i as int);
        assert(delta_models(deltas@).subrange(0, i + 1).drop_last() =~= prefix);
        if deltas[i].is_reportable() {
            let ghost before = kept@;
            kept.push(deltas[i].duplicate());
            assert(delta_models(kept@) =~= delta_models(before).push(deltas@[i as int]@));
        }
        i = i + 1;
    }
    assert(delta_models(deltas@).subrange(0, deltas@.len() as int) =~= delta_models(deltas@));
    kept
}

/// The deltas of the snapshots that have something to report, in order.
pub fn deltas_from_snapshots(snapshots: &Vec<NodeTrafficSourceSnapshot>) -> (r: Vec<NodeTrafficDelta>)
    ensures
        delta_models(r@) == reportable_snapshot_deltas(snapshots@),
{
    let mut kept: Vec<NodeTrafficDelta> = Vec::new();
    let mut i: usize = 0;
    while i < snapshots.len()
        invariant
            i <= snapshots@.len(),
            delta_models(kept@) == reportable_snapshot_deltas(snapshots@.subrange(0, i as int)),
        decreases snapshots@.len() - i,
    {
        assert(snapshots@.subrange(0, i + 1).drop_last() =~= snapshots@.subrange(0, i as int));
        let s = &snapshots[i];
        if s.has_reportable_traffic() {
            let ghost before = kept@;
            let d = NodeTrafficDelta {
                node_id: s.node_id.duplicate(),
                tx_bytes: s.tx_delta_bytes,
                rx_bytes: s.rx_delta_bytes,
                tx_speed: s.tx_speed,
                rx_speed: s.rx_speed,
            };
            kept.push(d);
            assert(delta_models(kept@) =~= delta_models(before).push(snapshot_delta(snapshots@[i as int])));
        }
        i = i + 1;
    }
    assert(snapshots@.subrange(0, snapshots@.len() as int) =~= snapshots@);
    kept
}


/// What the uploader does next.
#[derive(Clone, Copy, Debug, PartialEq, Eq, Structural)]
pub enum UploaderAction {
    /// It stops: it was told to, and nothing is left to upload.
    Exit,
    /// It waits to be woken: nothing is queued, or there is nobody to upload to.
    Wait,
    /// It uploads the queue once.
    Upload,
}

/// The uploader's next step: stop once told to and the queue is empty;
/// wait while the queue is empty or no control server is reachable; else
/// upload. A stopping uploader keeps uploading until the queue is empty.
pub fn uploader_step(shutting_down: bool, pending_batches: usize, has_reporter: bool) -> (r:
    UploaderAction)
    ensures
        shutting_down && pending_batches == 0 ==> r == UploaderAction::Exit,
        !(shutting_down && pending_batches == 0) && (pending_batches == 0 || !has_reporter) ==> r
            == UploaderAction::Wait,
        pending_batches > 0 && has_reporter ==> r == UploaderAction::Upload,
{
    if shutting_down && pending_batches == 0 {
        UploaderAction::Exit
    } else if pending_batches == 0 || !has_reporter {
        UploaderAction::Wait
    } else {
        UploaderAction::Upload
    }
}

/// Whether the cleanup of expired idempotency records goes on with another
/// batch: only when the last one deleted a full batch.
pub fn cleanup_continues(deleted: u64, batch_size: u64) -> (r: bool)
    ensures
        r == (deleted >= batch_size),
{
    deleted >= batch_size
}

/// The outcome of the last collection made while shutting down: whether it
/// succeeded and, if not, why. It is made only once the collector stopped;
/// a collector that did not stop in time counts as a failed collection.
pub fn final_collection_outcome(
    collector_exited: bool,
    collection: Option<Result<bool, TrafficError>>,
) -> (r: (bool, Option<String>))
    requires
        collector_exited ==> collection is Some,
    ensures
        !collector_exited ==> r.0 == false && (r.1 matches Some(m)
            && m@ == "node traffic collector did not exit before the shutdown deadline"@),
        collector_exited ==> (collection->0 is Ok ==> r.0 == true && r.1 is None),
        collector_exited ==> (collection->0 matches Err(e) ==> r.0 == false && (r.1 matches Some(m)
            && m@ == e.message_text())),
{
    if !collector_exited {
        return (false, Some(String::from_str("node traffic collector did not exit before the shutdown deadline")));
    }
    match collection {
        Some(Ok(_)) => (true, None),
        Some(Err(e)) => (false, Some(e.message())),
        None => (false, None),
    }
}

impl UploadFailure {
    /// What went wrong with the command, in words.
    pub open spec fn message_text(&self) -> Seq<char> {
        match self {
            UploadFailure::ResponseMismatch => "node traffic response ids do not match requested record ids"@,
            UploadFailure::Command { message } => message@,
        }
    }

    /// What went wrong with the command, in words.
    pub fn message(&self) -> (r: String)
        ensures
            r@ == self.message_text(),
    {
        match self {
            UploadFailure::ResponseMismatch => String::from_str(
                "node traffic response ids do not match requested record ids",
            ),
            UploadFailure::Command { message } => message.clone(),
        }
    }
}

impl TrafficError {
    /// What went wrong, in words.
    pub open spec fn message_text(&self) -> Seq<char> {
        match self {
            TrafficError::TimestampExhausted => "node traffic report timestamp is exhausted"@,
            TrafficError::ShuttingDown => "node traffic uploader is shutting down"@,
            TrafficError::CollectorShuttingDown => "node traffic collector is shutting down"@,
            TrafficError::BacklogFull { capacity } => "node traffic batch backlog is full ("@ + decimal(
                *capacity as nat,
            ) + ")"@,
            TrafficError::ReversedInterval => "node traffic batch interval is reversed"@,
            TrafficError::UploadFailed { first_error } => "node traffic upload failed: "@
                + first_error.message_text(),
            TrafficError::RetryableRecords => "node traffic upload returned retryable record results"@,
        }
    }

    /// What went wrong, in words.
    pub fn message(&self) -> (r: String)
        ensures
            r@ == self.message_text(),
    {
        match self {
            TrafficError::TimestampExhausted => String::from_str("node traffic report timestamp is exhausted"),
            TrafficError::ShuttingDown => String::from_str("node traffic uploader is shutting down"),
            TrafficError::CollectorShuttingDown => String::from_str("node traffic collector is shutting down"),
            TrafficError::BacklogFull { capacity } => {
                let mut m = String::from_str("node traffic batch backlog is full (");
                let d = u64_to_decimal(*capacity as u64);
                m.append(d.as_str());
                m.append(")");
                m
            },
            TrafficError::ReversedInterval => String::from_str("node traffic batch interval is reversed"),
            TrafficError::UploadFailed { first_error } => {
                let mut m = String::from_str("node traffic upload failed: ");
                let detail = first_error.message();
                m.append(detail.as_str());
                m
            },
            TrafficError::RetryableRecords => String::from_str(
                "node traffic upload returned retryable record results",
            ),
        }
    }
}


impl NodeTrafficReportBatch {
    /// A copy of this batch.
    pub fn duplicate(&self) -> (r: NodeTrafficReportBatch)
        ensures
            r@ == self@,
    {
        let mut records: Vec<NodeTrafficReport> = Vec::new();
        let mut i: usize = 0;
        while i < self.records.len()
            invariant
                i <= self.records@.len(),
                report_models(records@) =~= report_models(self.records@).take(i as int),
            decreases self.records@.len() - i,
        {
            let ghost before = records@;
            records.push(self.records[i].duplicate());
            assert(report_models(records@) =~= report_models(before).push(self.records@[i as int]@));
            i = i + 1;
        }
        assert(report_models(self.records@).take(self.records@.len() as int) =~= report_models(
            self.records@,
        ));
        NodeTrafficReportBatch { batch_id: self.batch_id, records }
    }
}

impl NodeTrafficQueue {
    /// Copies of the queued batches, oldest first.
    pub fn pending_batches(&self) -> (r: Vec<NodeTrafficReportBatch>)
        ensures
            r@.map_values(|b: NodeTrafficReportBatch| b@) == self.batches(),
    {
        let mut out: Vec<NodeTrafficReportBatch> = Vec::new();
        let mut i: usize = 0;
        while i < self.pending.len()
            invariant
                i <= self.pending@.len(),
                out@.map_values(|b: NodeTrafficReportBatch| b@) =~= self.batches().take(i as int),
            decreases self.pending@.len() - i,
        {
            let ghost before = out@;
            let b = self.pending[i].duplicate();
            out.push(b);
            assert(out@.map_values(|b: NodeTrafficReportBatch| b@) =~= before.map_values(
                |b: NodeTrafficReportBatch| b@,
            ).push(self.pending@[i as int]@));
            i = i + 1;
        }
        assert(self.batches().take(self.pending@.len() as int) =~= self.batches());
        out
    }
}

} // verus!
