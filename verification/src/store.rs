//! The rules of the control plane's store: proxy approval states and their
//! stored names, the range of stored integers, cumulative counters that
//! must not leave that range, and the transaction state of a connection.

use vstd::prelude::*;
use vstd::string::*;
use crate::order::same_text;
use crate::identity::{bytes_le, bytes_less_or_equal, NodeId};
use crate::proxy_info::{empty_payload, InfoModel, PnServerInfo};

verus! {

/// Whether the operator has let a proxy node serve clients.
#[derive(Clone, Copy, Debug, PartialEq, Eq, Structural)]
pub enum ProxyNodeApprovalStatus {
    Pending,
    Approved,
    Rejected,
}

/// The stored name of an approval status.
pub open spec fn status_text(s: ProxyNodeApprovalStatus) -> Seq<char> {
    match s {
        ProxyNodeApprovalStatus::Pending => seq!['p', 'e', 'n', 'd', 'i', 'n', 'g'],
        ProxyNodeApprovalStatus::Approved => seq!['a', 'p', 'p', 'r', 'o', 'v', 'e', 'd'],
        ProxyNodeApprovalStatus::Rejected => seq!['r', 'e', 'j', 'e', 'c', 't', 'e', 'd'],
    }
}

/// The status whose stored name is `text`, if any.
pub open spec fn status_of_text(text: Seq<char>) -> Option<ProxyNodeApprovalStatus> {
    if text == status_text(ProxyNodeApprovalStatus::Pending) {
        Some(ProxyNodeApprovalStatus::Pending)
    } else if text == status_text(ProxyNodeApprovalStatus::Approved) {
        Some(ProxyNodeApprovalStatus::Approved)
    } else if text == status_text(ProxyNodeApprovalStatus::Rejected) {
        Some(ProxyNodeApprovalStatus::Rejected)
    } else {
        None
    }
}

/// A stored status name that is not one of the three.
#[derive(Debug, PartialEq, Eq)]
pub struct InvalidApprovalStatus {
    pub status: String,
}

impl ProxyNodeApprovalStatus {
    /// The stored name of the status.
    pub fn as_str(self) -> (r: &'static str)
        ensures
            r@ == status_text(self),
    {
        proof {
            reveal_strlit("pending");
            reveal_strlit("approved");
            reveal_strlit("rejected");
        }
        match self {
            ProxyNodeApprovalStatus::Pending => "pending",
            ProxyNodeApprovalStatus::Approved => "approved",
            ProxyNodeApprovalStatus::Rejected => "rejected",
        }
    }

    /// The status named `status`; any other text is refused.
    pub fn from_str(status: &str) -> (r: Result<ProxyNodeApprovalStatus, InvalidApprovalStatus>)
        ensures
            status_of_text(status@) matches Some(s) ==> r == Ok::<
                ProxyNodeApprovalStatus,
                InvalidApprovalStatus,
            >(s),
            status_of_text(status@) is None ==> (r matches Err(e) && e.status@ == status@),
    {
        let pending = ProxyNodeApprovalStatus::Pending;
        let approved = ProxyNodeApprovalStatus::Approved;
        let rejected = ProxyNodeApprovalStatus::Rejected;
        if same_text(status, pending.as_str()) {
            Ok(pending)
        } else if same_text(status, approved.as_str()) {
            Ok(approved)
        } else if same_text(status, rejected.as_str()) {
            Ok(rejected)
        } else {
            Err(InvalidApprovalStatus { status: String::from_str(status) })
        }
    }
}

/// Reading back the stored name of a status gives the status.
pub proof fn lemma_status_text_round_trip(s: ProxyNodeApprovalStatus)
    ensures
        status_of_text(status_text(s)) == Some(s),
{
    let p = status_text(ProxyNodeApprovalStatus::Pending);
    let a = status_text(ProxyNodeApprovalStatus::Approved);
    let r = status_text(ProxyNodeApprovalStatus::Rejected);
    assert(p[0] != a[0]);
    assert(p[0] != r[0]);
    assert(a[0] != r[0]);
}

/// The operator's decision about one proxy node.
#[derive(Debug, PartialEq, Eq)]
pub struct ProxyNodeApproval {
    pub pn_server_id: String,
    pub status: ProxyNodeApprovalStatus,
    pub updated_at: u64,
    pub comment: String,
}

/// Bytes sent and received.
#[derive(Clone, Copy, Debug, Default, PartialEq, Eq, Structural)]
pub struct PersistedTrafficStats {
    pub tx_bytes: u64,
    pub rx_bytes: u64,
}

/// A value that does not fit a stored (signed 64-bit) integer.
#[derive(Debug, PartialEq, Eq)]
pub struct OutOfSqliteRange {
    pub field: String,
}

/// The value as a stored integer; values beyond `i64::MAX` are refused.
pub fn sqlite_i64(value: u64, field: &str) -> (r: Result<i64, OutOfSqliteRange>)
    ensures
        value <= i64::MAX ==> r == Ok::<i64, OutOfSqliteRange>(value as i64),
        value > i64::MAX ==> (r matches Err(e) && e.field@ == field@),
{
    if value <= 9223372036854775807u64 {
        Ok(value as i64)
    } else {
        Err(OutOfSqliteRange { field: String::from_str(field) })
    }
}

/// A stored cumulative counter after adding `delta`: the sums, unless one
/// of them would leave the stored integer range. A counter that is not
/// stored yet starts from the delta.
pub fn cumulative_add(current: Option<(i64, i64)>, delta: (i64, i64)) -> (r: Option<(i64, i64)>)
    requires
        delta.0 >= 0,
        delta.1 >= 0,
    ensures
        current is None ==> r == Some(delta),
        current matches Some(c) ==> (c.0 <= i64::MAX - delta.0 && c.1 <= i64::MAX - delta.1
            ==> r == Some(((c.0 + delta.0) as i64, (c.1 + delta.1) as i64))),
        current matches Some(c) ==> (!(c.0 <= i64::MAX - delta.0 && c.1 <= i64::MAX - delta.1)
            ==> r is None),
{
    match current {
        None => Some(delta),
        Some(c) => {
            if c.0 <= i64::MAX - delta.0 && c.1 <= i64::MAX - delta.1 {
                Some((c.0 + delta.0, c.1 + delta.1))
            } else {
                None
            }
        },
    }
}

/// Where a store connection stands with respect to transactions.
#[derive(Clone, Copy, Debug, PartialEq, Eq, Structural)]
pub enum SqliteTransactionState {
    /// No transaction is open.
    Idle,
    /// A transaction is open.
    Active,
    /// A commit or rollback failed; the connection is not used again.
    Poisoned,
}

/// What a transaction step asks of the connection.
#[derive(Clone, Copy, Debug, PartialEq, Eq, Structural)]
pub enum TransactionStep {
    Begin,
    Commit,
    Rollback,
}

/// The state a step is allowed from: `begin` from an idle connection,
/// `commit` and `rollback` from an open transaction.
pub open spec fn step_allowed(state: SqliteTransactionState, step: TransactionStep) -> bool {
    match step {
        TransactionStep::Begin => state == SqliteTransactionState::Idle,
        _ => state == SqliteTransactionState::Active,
    }
}

/// The state after an allowed step ran on the connection and succeeded or
/// failed: `begin` opens a transaction only when it succeeds; a failed
/// `commit` or `rollback` poisons the connection.
pub open spec fn state_after_step(
    state: SqliteTransactionState,
    step: TransactionStep,
    succeeded: bool,
) -> SqliteTransactionState {
    match step {
        TransactionStep::Begin => if succeeded {
            SqliteTransactionState::Active
        } else {
            state
        },
        _ => if succeeded {
            SqliteTransactionState::Idle
        } else {
            SqliteTransactionState::Poisoned
        },
    }
}

impl SqliteTransactionState {
    /// Whether the connection may run `step` now.
    pub fn allows(&self, step: TransactionStep) -> (r: bool)
        ensures
            r == step_allowed(*self, step),
    {
        match step {
            TransactionStep::Begin => *self == SqliteTransactionState::Idle,
            _ => *self == SqliteTransactionState::Active,
        }
    }

    /// The state once an allowed step ran and succeeded or failed.
    pub fn after(&self, step: TransactionStep, succeeded: bool) -> (r: SqliteTransactionState)
        requires
            step_allowed(*self, step),
        ensures
            r == state_after_step(*self, step, succeeded),
    {
        match step {
            TransactionStep::Begin => if succeeded {
                SqliteTransactionState::Active
            } else {
                *self
            },
            _ => if succeeded {
                SqliteTransactionState::Idle
            } else {
                SqliteTransactionState::Poisoned
            },
        }
    }
}

/// A poisoned connection stays poisoned: no step is allowed from it.
pub proof fn lemma_poisoned_is_final(step: TransactionStep)
    ensures
        !step_allowed(SqliteTransactionState::Poisoned, step),
{
}

/// A transaction opened on an idle connection can be ended by a commit or
/// a rollback; the end returns the connection to idle when it succeeds,
/// ready for the next transaction, and poisons it when it fails.
pub proof fn lemma_transaction_round_trip(end: TransactionStep, succeeded: bool)
    requires
        end != TransactionStep::Begin,
    ensures
        step_allowed(
            state_after_step(SqliteTransactionState::Idle, TransactionStep::Begin, true),
            end,
        ),
        state_after_step(
            state_after_step(SqliteTransactionState::Idle, TransactionStep::Begin, true),
            end,
            succeeded,
        ) == if succeeded {
            SqliteTransactionState::Idle
        } else {
            SqliteTransactionState::Poisoned
        },
        step_allowed(
            state_after_step(
                state_after_step(SqliteTransactionState::Idle, TransactionStep::Begin, true),
                end,
                succeeded,
            ),
            TransactionStep::Begin,
        ) == succeeded,
{
}

/// How a unit of work that ran inside a transaction ends.
#[derive(Debug, PartialEq, Eq)]
pub enum TransactionEnd<E> {
    /// The work succeeded and was committed.
    Committed,
    /// The work succeeded but its commit failed; the rollback that followed
    /// worked, and the commit's error stands.
    CommitFailed(E),
    /// The work succeeded, its commit failed and so did the rollback.
    CommitAndRollbackFailed(E, E),
    /// The work failed and was rolled back; its error stands.
    OperationFailed(E),
    /// The work failed and its rollback failed too.
    OperationAndRollbackFailed(E, E),
}

/// The outcome of a finished transaction: the operation's error, the
/// commit's and the rollback's, as they came.
pub fn finish_transaction<E>(
    operation_error: Option<E>,
    commit_error: Option<E>,
    rollback_error: Option<E>,
) -> (r: TransactionEnd<E>)
    ensures
        operation_error is None && commit_error is None ==> r == TransactionEnd::<E>::Committed,
        operation_error is None ==> (commit_error matches Some(c) ==> r == (match rollback_error {
            None => TransactionEnd::CommitFailed(c),
            Some(b) => TransactionEnd::CommitAndRollbackFailed(c, b),
        })),
        operation_error matches Some(o) ==> r == (match rollback_error {
            None => TransactionEnd::OperationFailed(o),
            Some(b) => TransactionEnd::OperationAndRollbackFailed(o, b),
        }),
{
    match operation_error {
        None => match commit_error {
            None => TransactionEnd::Committed,
            Some(c) => match rollback_error {
                None => TransactionEnd::CommitFailed(c),
                Some(b) => TransactionEnd::CommitAndRollbackFailed(c, b),
            },
        },
        Some(o) => match rollback_error {
            None => TransactionEnd::OperationFailed(o),
            Some(b) => TransactionEnd::OperationAndRollbackFailed(o, b),
        },
    }
}


/// What a proxy traffic sample adds to the stored totals.
#[derive(Debug, PartialEq, Eq)]
pub struct SampleContributions {
    /// The source node sends what went from source to destination and
    /// receives what came back.
    pub source: PersistedTrafficStats,
    /// The destination node, the other way round.
    pub dest: PersistedTrafficStats,
    /// The network group counts the sample's whole traffic both ways.
    pub group: PersistedTrafficStats,
}

/// What a sample of `source_to_dest` and `dest_to_source` bytes adds to
/// the stored totals; none when the sample's whole traffic does not fit
/// in `u64`.
pub fn proxy_sample_contributions(source_to_dest: u64, dest_to_source: u64) -> (r: Option<
    SampleContributions,
>)
    ensures
        source_to_dest + dest_to_source > u64::MAX <==> r is None,
        r matches Some(c) ==> c == (SampleContributions {
            source: PersistedTrafficStats { tx_bytes: source_to_dest, rx_bytes: dest_to_source },
            dest: PersistedTrafficStats { tx_bytes: dest_to_source, rx_bytes: source_to_dest },
            group: PersistedTrafficStats {
                tx_bytes: (source_to_dest + dest_to_source) as u64,
                rx_bytes: (source_to_dest + dest_to_source) as u64,
            },
        }),
{
    match source_to_dest.checked_add(dest_to_source) {
        Some(total) => Some(SampleContributions {
            source: PersistedTrafficStats { tx_bytes: source_to_dest, rx_bytes: dest_to_source },
            dest: PersistedTrafficStats { tx_bytes: dest_to_source, rx_bytes: source_to_dest },
            group: PersistedTrafficStats { tx_bytes: total, rx_bytes: total },
        }),
        None => None,
    }
}

/// The proxy a network row names: none when the stored id is empty, else
/// the proxy known by that id alone.
pub fn network_pn_server_from_db(id: String) -> (r: Option<PnServerInfo>)
    ensures
        id@.len() == 0 <==> r is None,
        r matches Some(p) ==> p@ == (InfoModel { id: id@, payload: empty_payload() }),
{
    if id.as_str().unicode_len() == 0 {
        return None;
    }
    Some(PnServerInfo::new_bare(id))
}

/// The id a network row stores for its proxy: empty when there is none.
pub fn network_pn_server_db_id(pn_server: Option<&PnServerInfo>) -> (r: String)
    ensures
        pn_server matches Some(p) ==> r@ == p.id@,
        pn_server is None ==> r@ == Seq::<char>::empty(),
{
    match pn_server {
        Some(p) => p.id.clone(),
        None => String::new(),
    }
}

/// Whether a report recorded at `applied_at_ms` is still remembered at
/// `now_ms`, when records are kept for `retention_ms`: a record exactly
/// that old has expired.
pub open spec fn report_remembered(applied_at_ms: u64, now_ms: u64, retention_ms: u64) -> bool {
    applied_at_ms + retention_ms > now_ms
}

/// A node's stored totals after adding a report's bytes, when they stay in
/// the stored integer range; a node with no totals yet starts from them.
pub open spec fn added_totals(current: Option<(i64, i64)>, delta: (u64, u64)) -> Option<(i64, i64)> {
    if delta.0 > i64::MAX || delta.1 > i64::MAX {
        None
    } else {
        match current {
            None => Some((delta.0 as i64, delta.1 as i64)),
            Some(c) => if c.0 + delta.0 <= i64::MAX && c.1 + delta.1 <= i64::MAX {
                Some(((c.0 + delta.0) as i64, (c.1 + delta.1) as i64))
            } else {
                None
            },
        }
    }
}

/// What applying a node traffic report does.
#[derive(Clone, Copy, Debug, PartialEq, Eq, Structural)]
pub enum NodeTrafficReportEffect {
    /// A report of the same id is remembered: nothing changes.
    Duplicate,
    /// The report is recorded and the node's totals become these.
    Applied { tx_bytes: i64, rx_bytes: i64 },
}

/// Why a node traffic report is refused.
#[derive(Debug, PartialEq, Eq)]
pub enum NodeTrafficReportError {
    /// The report's window ends before it starts.
    InvalidRange,
    /// A timestamp does not fit a stored integer.
    OutOfRange(OutOfSqliteRange),
    /// The node's totals would leave the stored integer range.
    TotalsOutOfRange,
}

/// Decides what a node traffic report does, checked in order: its window
/// must not end before it starts and its timestamps must fit the store;
/// a report whose id was recorded for the same proxy at
/// `earlier_applied_at_ms` and is still remembered at `now_ms` is a
/// duplicate; otherwise the report's bytes `delta` are added to the
/// node's stored totals `current`.
pub fn node_traffic_report_effect(
    started_at_ms: u64,
    ended_at_ms: u64,
    earlier_applied_at_ms: Option<u64>,
    now_ms: u64,
    retention_ms: u64,
    current: Option<(i64, i64)>,
    delta: (u64, u64),
) -> (r: Result<NodeTrafficReportEffect, NodeTrafficReportError>)
    ensures
        started_at_ms > ended_at_ms ==> r == Err::<NodeTrafficReportEffect, NodeTrafficReportError>(
            NodeTrafficReportError::InvalidRange,
        ),
        started_at_ms <= ended_at_ms && ended_at_ms > i64::MAX ==> (r matches Err(
            NodeTrafficReportError::OutOfRange(_),
        )),
        started_at_ms <= ended_at_ms <= i64::MAX ==> (
        (earlier_applied_at_ms matches Some(a) && report_remembered(a, now_ms, retention_ms)) ==> r
            == Ok::<NodeTrafficReportEffect, NodeTrafficReportError>(NodeTrafficReportEffect::Duplicate)),
        started_at_ms <= ended_at_ms <= i64::MAX ==> (!(earlier_applied_at_ms matches Some(a)
            && report_remembered(a, now_ms, retention_ms)) ==> match added_totals(current, delta) {
            Some(t) => r == Ok::<NodeTrafficReportEffect, NodeTrafficReportError>(
                NodeTrafficReportEffect::Applied { tx_bytes: t.0, rx_bytes: t.1 },
            ),
            None => r == Err::<NodeTrafficReportEffect, NodeTrafficReportError>(
                NodeTrafficReportError::TotalsOutOfRange,
            ),
        }),
{
    if started_at_ms > ended_at_ms {
        return Err(NodeTrafficReportError::InvalidRange);
    }
    if let Err(e) = sqlite_i64(started_at_ms, "node report start timestamp") {
        return Err(NodeTrafficReportError::OutOfRange(e));
    }
    if let Err(e) = sqlite_i64(ended_at_ms, "node report end timestamp") {
        return Err(NodeTrafficReportError::OutOfRange(e));
    }
    if let Some(a) = earlier_applied_at_ms {
        if a as u128 + retention_ms as u128 > now_ms as u128 {
            return Ok(NodeTrafficReportEffect::Duplicate);
        }
    }
    let tx = match sqlite_i64(delta.0, "node report tx bytes") {
        Ok(v) => v,
        Err(_) => {
            return Err(NodeTrafficReportError::TotalsOutOfRange);
        },
    };
    let rx = match sqlite_i64(delta.1, "node report rx bytes") {
        Ok(v) => v,
        Err(_) => {
            return Err(NodeTrafficReportError::TotalsOutOfRange);
        },
    };
    match cumulative_add(current, (tx, rx)) {
        Some(totals) => Ok(NodeTrafficReportEffect::Applied { tx_bytes: totals.0, rx_bytes: totals.1 }),
        None => Err(NodeTrafficReportError::TotalsOutOfRange),
    }
}

/// How long a traffic speed is used after it was recorded, in milliseconds,
/// unless the cache is made with another time to live.
pub const PROXY_TRAFFIC_SPEED_TTL_MS: u64 = 15000;

/// `now` plus `ttl`, stopping at `u64::MAX`: when an entry recorded at
/// `now` expires.
pub open spec fn expiry(now: u64, ttl: u64) -> u64 {
    if now + ttl > u64::MAX {
        u64::MAX
    } else {
        (now + ttl) as u64
    }
}

/// The speeds a proxy measured between two nodes of a network at the end
/// of a report window.
#[derive(Debug, PartialEq, Eq)]
pub struct SpeedSample {
    pub network_id: u64,
    pub source_id: NodeId,
    pub dest_id: NodeId,
    pub source_to_dest_speed: u64,
    pub dest_to_source_speed: u64,
    pub ended_at_ms: u64,
}

/// A pair of nodes of a network, the smaller id first.
#[derive(Debug, PartialEq, Eq)]
pub struct TrafficSpeedKey {
    pub network_id: u64,
    pub node_a: NodeId,
    pub node_b: NodeId,
}

/// The latest speeds between a pair of nodes.
#[derive(Clone, Copy, Debug, PartialEq, Eq, Structural)]
pub struct TrafficSpeedEntry {
    pub node_a_to_b: u64,
    pub node_b_to_a: u64,
    pub ended_at_ms: u64,
    pub expires_at_ms: u64,
}

/// The abstract value of a [`TrafficSpeedKey`].
pub struct KeyModel {
    pub network_id: u64,
    pub node_a: Seq<u8>,
    pub node_b: Seq<u8>,
}

impl View for TrafficSpeedKey {
    type V = KeyModel;

    open spec fn view(&self) -> KeyModel {
        KeyModel { network_id: self.network_id, node_a: self.node_a@, node_b: self.node_b@ }
    }
}

/// The key of a sample: its network and its two nodes, the smaller first.
pub open spec fn sample_key(s: SpeedSample) -> KeyModel {
    if bytes_le(s.source_id@, s.dest_id@) {
        KeyModel { network_id: s.network_id, node_a: s.source_id@, node_b: s.dest_id@ }
    } else {
        KeyModel { network_id: s.network_id, node_a: s.dest_id@, node_b: s.source_id@ }
    }
}

/// The entry of a sample recorded at `now`: the speeds from the smaller
/// node and toward it, kept for `ttl` milliseconds.
pub open spec fn sample_entry(s: SpeedSample, now: u64, ttl: u64) -> TrafficSpeedEntry {
    let forward = bytes_le(s.source_id@, s.dest_id@);
    TrafficSpeedEntry {
        node_a_to_b: if forward {
            s.source_to_dest_speed
        } else {
            s.dest_to_source_speed
        },
        node_b_to_a: if forward {
            s.dest_to_source_speed
        } else {
            s.source_to_dest_speed
        },
        ended_at_ms: s.ended_at_ms,
        expires_at_ms: expiry(now, ttl),
    }
}

/// The latest speeds a node reported for itself.
#[derive(Clone, Copy, Debug, PartialEq, Eq, Structural)]
pub struct NodeSpeedEntry {
    pub tx_speed: u64,
    pub rx_speed: u64,
    pub expires_at_ms: u64,
}

/// The abstract values of the node entries.
pub open spec fn node_models(s: Seq<(NodeId, NodeSpeedEntry)>) -> Seq<(Seq<u8>, NodeSpeedEntry)> {
    s.map_values(|p: (NodeId, NodeSpeedEntry)| (p.0@, p.1))
}

/// The node entries kept at `now`: those that expire later, except the
/// entries of `dropped`, if a node is named.
pub open spec fn kept_node_entries(
    es: Seq<(Seq<u8>, NodeSpeedEntry)>,
    now: u64,
    dropped: Option<Seq<u8>>,
) -> Seq<(Seq<u8>, NodeSpeedEntry)>
    decreases es.len(),
{
    if es.len() == 0 {
        seq![]
    } else {
        let rest = kept_node_entries(es.drop_last(), now, dropped);
        if es.last().1.expires_at_ms > now && dropped != Some(es.last().0) {
            rest.push(es.last())
        } else {
            rest
        }
    }
}

/// The speeds a node reported for itself, over the entries.
pub open spec fn node_report_sums(es: Seq<(Seq<u8>, NodeSpeedEntry)>, node: Seq<u8>) -> (nat, nat)
    decreases es.len(),
{
    if es.len() == 0 {
        (0, 0)
    } else {
        let (tx, rx) = node_report_sums(es.drop_last(), node);
        if es.last().0 == node {
            (tx + es.last().1.tx_speed as nat, rx + es.last().1.rx_speed as nat)
        } else {
            (tx, rx)
        }
    }
}

/// The entries still in use at `now`: those that expire later.
pub open spec fn live_entries(es: Seq<(KeyModel, TrafficSpeedEntry)>, now: u64) -> Seq<
    (KeyModel, TrafficSpeedEntry),
>
    decreases es.len(),
{
    if es.len() == 0 {
        seq![]
    } else {
        let rest = live_entries(es.drop_last(), now);
        if es.last().1.expires_at_ms > now {
            rest.push(es.last())
        } else {
            rest
        }
    }
}

/// The entry of `k`, if any.
pub open spec fn entry_of(es: Seq<(KeyModel, TrafficSpeedEntry)>, k: KeyModel) -> Option<
    TrafficSpeedEntry,
>
    decreases es.len(),
{
    if es.len() == 0 {
        None
    } else if es.last().0 == k {
        Some(es.last().1)
    } else {
        entry_of(es.drop_last(), k)
    }
}

/// The entries with the (last) entry of `k` replaced by `e`.
pub open spec fn replaced(es: Seq<(KeyModel, TrafficSpeedEntry)>, k: KeyModel, e: TrafficSpeedEntry) -> Seq<
    (KeyModel, TrafficSpeedEntry),
>
    decreases es.len(),
{
    if es.len() == 0 {
        es
    } else if es.last().0 == k {
        es.drop_last().push((k, e))
    } else {
        replaced(es.drop_last(), k, e).push(es.last())
    }
}

/// The entries with the entry of `k` set to `e`: replaced in place when
/// there is one, else added at the end.
pub open spec fn with_entry(es: Seq<(KeyModel, TrafficSpeedEntry)>, k: KeyModel, e: TrafficSpeedEntry) -> Seq<
    (KeyModel, TrafficSpeedEntry),
> {
    if entry_of(es, k) is Some {
        replaced(es, k, e)
    } else {
        es.push((k, e))
    }
}

/// The speeds a node sends and receives over the entries: as the pair's
/// first node it sends what goes from it, as the second what goes toward
/// the first.
pub open spec fn node_speed_sums(es: Seq<(KeyModel, TrafficSpeedEntry)>, node: Seq<u8>) -> (nat, nat)
    decreases es.len(),
{
    if es.len() == 0 {
        (0, 0)
    } else {
        let (tx, rx) = node_speed_sums(es.drop_last(), node);
        let (k, e) = es.last();
        if k.node_a == node {
            (tx + e.node_a_to_b as nat, rx + e.node_b_to_a as nat)
        } else if k.node_b == node {
            (tx + e.node_b_to_a as nat, rx + e.node_a_to_b as nat)
        } else {
            (tx, rx)
        }
    }
}

/// The speeds of all pairs of the given networks, both directions.
pub open spec fn network_speed_sum(es: Seq<(KeyModel, TrafficSpeedEntry)>, networks: Seq<u64>) -> nat
    decreases es.len(),
{
    if es.len() == 0 {
        0
    } else {
        let rest = network_speed_sum(es.drop_last(), networks);
        let (k, e) = es.last();
        if networks.contains(k.network_id) {
            rest + e.node_a_to_b as nat + e.node_b_to_a as nat
        } else {
            rest
        }
    }
}

/// A sum that stops at `u64::MAX`.
pub open spec fn capped(n: nat) -> u64 {
    if n > u64::MAX {
        u64::MAX
    } else {
        n as u64
    }
}

/// The latest traffic speeds between pairs of nodes, as proxies report
/// them, and of single nodes, as their traffic reports give them; each is
/// used for the cache's time to live after it was recorded.
pub struct TrafficSpeedCache {
    pairs: Vec<(TrafficSpeedKey, TrafficSpeedEntry)>,
    nodes: Vec<(NodeId, NodeSpeedEntry)>,
    ttl_ms: u64,
}

/// The abstract values of the cache's entries.
pub open spec fn pair_models(s: Seq<(TrafficSpeedKey, TrafficSpeedEntry)>) -> Seq<(KeyModel, TrafficSpeedEntry)> {
    s.map_values(|p: (TrafficSpeedKey, TrafficSpeedEntry)| (p.0@, p.1))
}

impl TrafficSpeedKey {
    /// Whether two keys name the same pair.
    pub fn same_as(&self, other: &TrafficSpeedKey) -> (r: bool)
        ensures
            r == (self@ == other@),
    {
        self.network_id == other.network_id && self.node_a.same_as(&other.node_a)
            && self.node_b.same_as(&other.node_b)
    }
}

impl TrafficSpeedCache {
    /// The entries, in the order they were first recorded.
    pub closed spec fn entries(&self) -> Seq<(KeyModel, TrafficSpeedEntry)> {
        pair_models(self.pairs@)
    }

    /// The speeds of single nodes, in the order they were recorded.
    pub closed spec fn node_entries(&self) -> Seq<(Seq<u8>, NodeSpeedEntry)> {
        node_models(self.nodes@)
    }

    /// How long an entry is used after it was recorded, in milliseconds.
    pub closed spec fn ttl(&self) -> u64 {
        self.ttl_ms
    }

    /// An empty cache whose entries are used for [`PROXY_TRAFFIC_SPEED_TTL_MS`].
    pub fn new() -> (r: TrafficSpeedCache)
        ensures
            r.entries() == Seq::<(KeyModel, TrafficSpeedEntry)>::empty(),
            r.node_entries() == Seq::<(Seq<u8>, NodeSpeedEntry)>::empty(),
            r.ttl() == PROXY_TRAFFIC_SPEED_TTL_MS,
    {
        TrafficSpeedCache::new_with_ttl(PROXY_TRAFFIC_SPEED_TTL_MS)
    }

    /// An empty cache whose entries are used for `ttl_ms` milliseconds.
    pub fn new_with_ttl(ttl_ms: u64) -> (r: TrafficSpeedCache)
        ensures
            r.entries() == Seq::<(KeyModel, TrafficSpeedEntry)>::empty(),
            r.node_entries() == Seq::<(Seq<u8>, NodeSpeedEntry)>::empty(),
            r.ttl() == ttl_ms,
    {
        let r = TrafficSpeedCache { pairs: Vec::new(), nodes: Vec::new(), ttl_ms };
        assert(r.entries() =~= Seq::<(KeyModel, TrafficSpeedEntry)>::empty());
        assert(r.node_entries() =~= Seq::<(Seq<u8>, NodeSpeedEntry)>::empty());
        r
    }

    /// Drops the node entries that have expired at `now`, and those of
    /// `node_id` too when `drop_node` holds.
    fn retain_nodes(&mut self, now: u64, drop_node: bool, node_id: &NodeId)
        ensures
            final(self).node_entries() == kept_node_entries(
                old(self).node_entries(),
                now,
                if drop_node {
                    Some(node_id@)
                } else {
                    None
                },
            ),
            final(self).entries() == old(self).entries(),
            final(self).ttl() == old(self).ttl(),
    {
        let ghost orig = self.node_entries();
        let ghost dropped = if drop_node {
            Some(node_id@)
        } else {
            None
        };
        let mut kept: Vec<(NodeId, NodeSpeedEntry)> = Vec::new();
        let n = self.nodes.len();
        let mut i: usize = 0;
        while i < n
            invariant
                n == self.nodes@.len(),
                orig == self.node_entries(),
                dropped == if drop_node {
                    Some(node_id@)
                } else {
                    None
                },
                i <= n,
                node_models(kept@) == kept_node_entries(orig.take(i as int), now, dropped),
            decreases n - i,
        {
            assert(orig.take(i + 1).drop_last() =~= orig.take(i as int));
            assert(orig.take(i + 1).last() == orig[i as int]);
            assert(orig[i as int] == (self.nodes@[i as int].0@, self.nodes@[i as int].1));
            let e = self.nodes[i].1;
            let same = self.nodes[i].0.same_as(node_id);
            assert((dropped != Some(orig[i as int].0)) == !(drop_node && same));
            assert(kept_node_entries(orig.take(i + 1), now, dropped) == if e.expires_at_ms > now
                && !(drop_node && same) {
                kept_node_entries(orig.take(i as int), now, dropped).push(orig[i as int])
            } else {
                kept_node_entries(orig.take(i as int), now, dropped)
            });
            if e.expires_at_ms > now && !(drop_node && same) {
                let id = self.nodes[i].0.duplicate();
                let ghost kb = kept@;
                kept.push((id, e));
                assert(node_models(kept@) =~= node_models(kb).push(orig[i as int]));
            }
            i = i + 1;
        }
        assert(orig.take(n as int) =~= orig);
        self.nodes = kept;
    }

    /// Drops the entries that have expired at `now`.
    pub fn retain_live(&mut self, now: u64)
        ensures
            final(self).entries() == live_entries(old(self).entries(), now),
            final(self).node_entries() == kept_node_entries(old(self).node_entries(), now, None),
            final(self).ttl() == old(self).ttl(),
    {
        let no_node = NodeId { bytes: Vec::new() };
        self.retain_nodes(now, false, &no_node);
        let ghost orig = self.entries();
        let mut pending: Vec<(TrafficSpeedKey, TrafficSpeedEntry)> = Vec::new();
        std::mem::swap(&mut pending, &mut self.pairs);
        assert(pair_models(pending@) == orig);
        let mut kept: Vec<(TrafficSpeedKey, TrafficSpeedEntry)> = Vec::new();
        let n = pending.len();
        let mut i: usize = 0;
        assert(orig.skip(0) =~= orig);
        while i < n
            invariant
                n == orig.len(),
                i <= n,
                pair_models(pending@) == orig.skip(i as int),
                pair_models(kept@) == live_entries(orig.take(i as int), now),
            decreases n - i,
        {
            assert(orig.take(i + 1).drop_last() =~= orig.take(i as int));
            assert(orig.take(i + 1).last() == orig[i as int]);
            assert(pair_models(pending@).len() == pending@.len());
            let ghost before = pending@;
            let p = pending.remove(0);
            assert(pair_models(pending@) =~= orig.skip(i + 1)) by {
                assert(pending@ =~= before.subrange(1, before.len() as int));
                assert forall|k: int| 0 <= k < pending@.len() implies #[trigger] pair_models(
                    pending@,
                )[k] == orig.skip(i + 1)[k] by {
                    assert(pending@[k] == before[k + 1]);
                    assert(pair_models(before)[k + 1] == orig.skip(i as int)[k + 1]);
                }
            }
            assert((p.0@, p.1) == orig[i as int]) by {
                assert(pair_models(before)[0] == orig.skip(i as int)[0]);
            }
            if p.1.expires_at_ms > now {
                let ghost kb = kept@;
                let ghost pm = (p.0@, p.1);
                kept.push(p);
                assert(pair_models(kept@) =~= pair_models(kb).push(pm));
            }
            i = i + 1;
        }
        assert(orig.take(n as int) =~= orig);
        self.pairs = kept;
    }

    /// Records the speeds a node's traffic report gives at `now`, after
    /// dropping expired entries: they take the place of the node's earlier ones.
    pub fn record_node_speed(&mut self, node_id: &NodeId, tx_speed: u64, rx_speed: u64, now: u64)
        ensures
            final(self).entries() == live_entries(old(self).entries(), now),
            final(self).node_entries() == kept_node_entries(old(self).node_entries(), now, Some(node_id@)).push(
                (node_id@, NodeSpeedEntry { tx_speed, rx_speed, expires_at_ms: expiry(now, old(self).ttl()) }),
            ),
            final(self).ttl() == old(self).ttl(),
    {
        self.retain_live(now);
        self.retain_nodes(now, true, node_id);
        proof {
            lemma_kept_twice(old(self).node_entries(), now, node_id@);
        }
        let entry = NodeSpeedEntry { tx_speed, rx_speed, expires_at_ms: now.saturating_add(self.ttl_ms) };
        let ghost before = self.nodes@;
        self.nodes.push((node_id.duplicate(), entry));
        assert(self.node_entries() =~= node_models(before).push((node_id@, entry)));
    }

    /// Records a sample at `now`, after dropping expired entries: the pair's
    /// entry takes the sample's speeds, unless it holds a sample whose window
    /// ended later.
    pub fn update(&mut self, sample: &SpeedSample, now: u64)
        ensures
            final(self).node_entries() == kept_node_entries(old(self).node_entries(), now, None),
            final(self).ttl() == old(self).ttl(),
            ({
                let live = live_entries(old(self).entries(), now);
                let k = sample_key(*sample);
                if entry_of(live, k) matches Some(e) && e.ended_at_ms > sample.ended_at_ms {
                    final(self).entries() == live
                } else {
                    final(self).entries() == with_entry(live, k, sample_entry(*sample, now, old(self).ttl()))
                }
            }),
    {
        self.retain_live(now);
        let forward = bytes_less_or_equal(sample.source_id.bytes.as_slice(), sample.dest_id.bytes.as_slice());
        let (node_a, node_b, a_to_b, b_to_a) = if forward {
            (sample.source_id.duplicate(), sample.dest_id.duplicate(), sample.source_to_dest_speed, sample.dest_to_source_speed)
        } else {
            (sample.dest_id.duplicate(), sample.source_id.duplicate(), sample.dest_to_source_speed, sample.source_to_dest_speed)
        };
        let key = TrafficSpeedKey { network_id: sample.network_id, node_a, node_b };
        assert(key@ == sample_key(*sample));
        let entry = TrafficSpeedEntry {
            node_a_to_b: a_to_b,
            node_b_to_a: b_to_a,
            ended_at_ms: sample.ended_at_ms,
            expires_at_ms: now.saturating_add(self.ttl_ms),
        };
        assert(entry == sample_entry(*sample, now, self.ttl()));
        let ghost es = self.entries();
        let ghost km = key@;
        // find the last entry of the key, searching from the end as `entry_of` does
        let mut j: usize = self.pairs.len();
        assert(es.take(j as int) =~= es);
        assert(replaced(es, km, entry) + es.skip(j as int) =~= replaced(es, km, entry));
        while j > 0
            invariant
                j <= self.pairs@.len(),
                es == self.entries(),
                km == key@,
                entry_of(es, km) == entry_of(es.take(j as int), km),
                replaced(es, km, entry) == replaced(es.take(j as int), km, entry) + es.skip(j as int),
            ensures
                j <= self.pairs@.len(),
                entry_of(es, km) == entry_of(es.take(j as int), km),
                replaced(es, km, entry) == replaced(es.take(j as int), km, entry) + es.skip(j as int),
                j > 0 ==> es[j - 1].0 == km,
            decreases j,
        {
            assert(es.take(j as int).last() == es[j - 1]);
            assert(es.take(j as int).drop_last() =~= es.take(j - 1));
            assert(es[j - 1] == (self.pairs@[j - 1].0@, self.pairs@[j - 1].1));
            if self.pairs[j - 1].0.same_as(&key) {
                break;
            }
            assert(replaced(es.take(j - 1), km, entry).push(es[j - 1]) + es.skip(j as int)
                =~= replaced(es.take(j - 1), km, entry) + es.skip(j - 1));
            j = j - 1;
        }
        if j == 0 {
            assert(entry_of(es.take(0), km) is None);
            let ghost before = self.pairs@;
            self.pairs.push((key, entry));
            assert(self.entries() =~= es.push((km, entry))) by {
                assert(pair_models(self.pairs@) =~= pair_models(before).push((km, entry)));
            }
        } else {
            assert(entry_of(es.take(j as int), km) == Some(es[j - 1].1));
            assert(es[j - 1].1 == self.pairs@[j - 1].1);
            if self.pairs[j - 1].1.ended_at_ms > sample.ended_at_ms {
                return;
            }
            let ghost before = self.pairs@;
            self.pairs.set(j - 1, (key, entry));
            assert(self.entries() =~= es.update(j - 1, (km, entry)));
            assert(replaced(es.take(j as int), km, entry) =~= es.take(j - 1).push((km, entry)));
            assert(es.update(j - 1, (km, entry)) =~= es.take(j - 1).push((km, entry)) + es.skip(j as int));
        }
    }

    /// The speeds a node sends and receives, over the entries in use at
    /// `now`: those of its pairs and those its own reports gave; each total
    /// stops at `u64::MAX`. Expired entries are dropped.
    pub fn get_node_traffic_speed(&mut self, node_id: &NodeId, now: u64) -> (r: PersistedTrafficStats)
        ensures
            final(self).entries() == live_entries(old(self).entries(), now),
            final(self).node_entries() == kept_node_entries(old(self).node_entries(), now, None),
            final(self).ttl() == old(self).ttl(),
            r.tx_bytes == capped(node_speed_sums(final(self).entries(), node_id@).0 + node_report_sums(
                final(self).node_entries(),
                node_id@,
            ).0),
            r.rx_bytes == capped(node_speed_sums(final(self).entries(), node_id@).1 + node_report_sums(
                final(self).node_entries(),
                node_id@,
            ).1),
    {
        self.retain_live(now);
        let ghost es = self.entries();
        let mut tx: u64 = 0;
        let mut rx: u64 = 0;
        let mut i: usize = 0;
        while i < self.pairs.len()
            invariant
                i <= self.pairs@.len(),
                es == self.entries(),
                tx == capped(node_speed_sums(es.take(i as int), node_id@).0),
                rx == capped(node_speed_sums(es.take(i as int), node_id@).1),
            decreases self.pairs@.len() - i,
        {
            assert(es.take(i + 1).drop_last() =~= es.take(i as int));
            assert(es.take(i + 1).last() == es[i as int]);
            assert(es[i as int] == (self.pairs@[i as int].0@, self.pairs@[i as int].1));
            let (k, e) = (&self.pairs[i].0, self.pairs[i].1);
            if k.node_a.same_as(node_id) {
                tx = tx.saturating_add(e.node_a_to_b);
                rx = rx.saturating_add(e.node_b_to_a);
            } else if k.node_b.same_as(node_id) {
                tx = tx.saturating_add(e.node_b_to_a);
                rx = rx.saturating_add(e.node_a_to_b);
            }
            i = i + 1;
        }
        assert(es.take(self.pairs@.len() as int) =~= es);
        let ghost ns = self.node_entries();
        let mut ntx: u64 = 0;
        let mut nrx: u64 = 0;
        let mut j: usize = 0;
        while j < self.nodes.len()
            invariant
                j <= self.nodes@.len(),
                ns == self.node_entries(),
                ntx == capped(node_report_sums(ns.take(j as int), node_id@).0),
                nrx == capped(node_report_sums(ns.take(j as int), node_id@).1),
            decreases self.nodes@.len() - j,
        {
            assert(ns.take(j + 1).drop_last() =~= ns.take(j as int));
            assert(ns.take(j + 1).last() == ns[j as int]);
            assert(ns[j as int] == (self.nodes@[j as int].0@, self.nodes@[j as int].1));
            if self.nodes[j].0.same_as(node_id) {
                ntx = ntx.saturating_add(self.nodes[j].1.tx_speed);
                nrx = nrx.saturating_add(self.nodes[j].1.rx_speed);
            }
            j = j + 1;
        }
        assert(ns.take(self.nodes@.len() as int) =~= ns);
        PersistedTrafficStats { tx_bytes: tx.saturating_add(ntx), rx_bytes: rx.saturating_add(nrx) }
    }

    /// The speeds of all pairs of the given networks, both directions, over
    /// the entries in use at `now`; the total stops at `u64::MAX`.
    pub fn get_network_traffic_speed(&mut self, network_ids: &Vec<u64>, now: u64) -> (r: u64)
        ensures
            final(self).entries() == live_entries(old(self).entries(), now),
            final(self).node_entries() == kept_node_entries(old(self).node_entries(), now, None),
            final(self).ttl() == old(self).ttl(),
            r == capped(network_speed_sum(final(self).entries(), network_ids@)),
    {
        self.retain_live(now);
        let ghost es = self.entries();
        let mut total: u64 = 0;
        let mut i: usize = 0;
        while i < self.pairs.len()
            invariant
                i <= self.pairs@.len(),
                es == self.entries(),
                total == capped(network_speed_sum(es.take(i as int), network_ids@)),
            decreases self.pairs@.len() - i,
        {
            assert(es.take(i + 1).drop_last() =~= es.take(i as int));
            assert(es.take(i + 1).last() == es[i as int]);
            assert(es[i as int] == (self.pairs@[i as int].0@, self.pairs@[i as int].1));
            let net = self.pairs[i].0.network_id;
            let e = self.pairs[i].1;
            if contains_u64(network_ids, net) {
                total = total.saturating_add(e.node_a_to_b).saturating_add(e.node_b_to_a);
            }
            i = i + 1;
        }
        assert(es.take(self.pairs@.len() as int) =~= es);
        total
    }
}

/// Keeping the live entries and then the live entries other than a node's
/// is keeping the live entries other than that node's.
proof fn lemma_kept_twice(es: Seq<(Seq<u8>, NodeSpeedEntry)>, now: u64, node: Seq<u8>)
    ensures
        kept_node_entries(kept_node_entries(es, now, None), now, Some(node)) == kept_node_entries(
            es,
            now,
            Some(node),
        ),
    decreases es.len(),
{
    if es.len() > 0 {
        lemma_kept_twice(es.drop_last(), now, node);
        let rest = kept_node_entries(es.drop_last(), now, None);
        if es.last().1.expires_at_ms > now {
            assert(rest.push(es.last()).drop_last() =~= rest);
        }
    }
}

/// Whether `v` holds `x`.
pub fn contains_u64(v: &Vec<u64>, x: u64) -> (r: bool)
    ensures
        r == v@.contains(x),
{
    let mut i: usize = 0;
    while i < v.len()
        invariant
            i <= v@.len(),
            forall|k: int| 0 <= k < i ==> v@[k] != x,
        decreases v@.len() - i,
    {
        if v[i] == x {
            return true;
        }
        i = i + 1;
    }
    false
}

} // verus!
