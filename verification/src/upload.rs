//! What the uploader does with the control server's answers: which answers
//! fit the command they answer, which records they settle, and what is
//! left queued afterwards.

use vstd::prelude::*;
use crate::traffic::{
    report_models, resp_models, BatchModel, NodeTrafficReport, NodeTrafficReportResp,
    ReportApplyResult, ReportModel, RespModel, UploadFailure,
};
use vstd::arithmetic::div_mod::lemma_add_mod_noop;
use crate::chunking::{lemma_upload_plan_covers_every_record_once, upload_plan};

verus! {

/// The ids of a sequence of records.
pub open spec fn report_ids(s: Seq<ReportModel>) -> Seq<Seq<char>> {
    s.map_values(|r: ReportModel| r.report_id)
}

/// The ids of a sequence of answers.
pub open spec fn resp_ids(s: Seq<RespModel>) -> Seq<Seq<char>> {
    s.map_values(|r: RespModel| r.report_id)
}

/// An answer fits the command it answers: no id repeats on either side, and
/// both name the same ids.
pub open spec fn responses_match(requested: Seq<ReportModel>, responses: Seq<RespModel>) -> bool {
    &&& report_ids(requested).no_duplicates()
    &&& resp_ids(responses).no_duplicates()
    &&& forall|i: int|
        0 <= i < requested.len() ==> resp_ids(responses).contains(#[trigger] requested[i].report_id)
    &&& forall|i: int|
        0 <= i < responses.len() ==> report_ids(requested).contains(#[trigger] responses[i].report_id)
}

/// Some answer settles the record `id` for good: it is not a request to
/// send the record again.
pub open spec fn settles(resps: Seq<RespModel>, id: Seq<char>) -> bool {
    exists|i: int|
        0 <= i < resps.len() && resps[i].result != ReportApplyResult::Retryable && (#[trigger] resps[i]).report_id == id
}

/// Some answer asks for its record to be sent again.
pub open spec fn any_retryable(resps: Seq<RespModel>) -> bool {
    exists|i: int| 0 <= i < resps.len() && (#[trigger] resps[i]).result == ReportApplyResult::Retryable
}

/// How many answers reject their record for good.
pub open spec fn rejected_count(resps: Seq<RespModel>) -> nat
    decreases resps.len(),
{
    if resps.len() == 0 {
        0
    } else {
        rejected_count(resps.drop_last()) + if resps.last().result == ReportApplyResult::Rejected {
            1nat
        } else {
            0nat
        }
    }
}

/// The count of terminally rejected records after `resps` were reconciled,
/// starting from `before`; the counter wraps around as `u64` arithmetic does.
pub open spec fn rejected_after(before: u64, resps: Seq<RespModel>) -> u64 {
    ((before + rejected_count(resps)) % 0x1_0000_0000_0000_0000) as u64
}

/// Reconciling one more answer bumps the counter when the answer is a rejection.
pub proof fn lemma_rejected_after_step(before: u64, resps: Seq<RespModel>)
    requires
        resps.len() > 0,
    ensures
        rejected_after(before, resps) == if resps.last().result == ReportApplyResult::Rejected {
            vstd::wrapping::u64_specs::wrapping_add(rejected_after(before, resps.drop_last()), 1)
        } else {
            rejected_after(before, resps.drop_last())
        },
{
    let c = rejected_count(resps.drop_last());
    let m = 0x1_0000_0000_0000_0000int;
    if resps.last().result == ReportApplyResult::Rejected {
        lemma_add_mod_noop(before + c, 1, m);
        assert(1int % m == 1);
    }
}

/// The records that no answer settles, in order.
pub open spec fn remaining_records(recs: Seq<ReportModel>, resps: Seq<RespModel>) -> Seq<ReportModel>
    decreases recs.len(),
{
    if recs.len() == 0 {
        seq![]
    } else {
        let rest = remaining_records(recs.drop_last(), resps);
        if settles(resps, recs.last().report_id) {
            rest
        } else {
            rest.push(recs.last())
        }
    }
}

/// The batches after the answers: each keeps its id and the records no
/// answer settles; batches left empty are gone.
pub open spec fn remaining_batches(bs: Seq<BatchModel>, resps: Seq<RespModel>) -> Seq<BatchModel>
    decreases bs.len(),
{
    if bs.len() == 0 {
        seq![]
    } else {
        let rest = remaining_batches(bs.drop_last(), resps);
        let kept = remaining_records(bs.last().records, resps);
        if kept.len() > 0 {
            rest.push(BatchModel { batch_id: bs.last().batch_id, records: kept })
        } else {
            rest
        }
    }
}

/// Every record of a sequence of batches, batch after batch.
pub open spec fn queued_records(bs: Seq<BatchModel>) -> Seq<ReportModel>
    decreases bs.len(),
{
    if bs.len() == 0 {
        seq![]
    } else {
        queued_records(bs.drop_last()) + bs.last().records
    }
}

/// The records of each batch.
pub open spec fn batch_record_seqs(bs: Seq<BatchModel>) -> Seq<Seq<ReportModel>> {
    bs.map_values(|b: BatchModel| b.records)
}

/// The records that no answer settles, as a filter.
pub proof fn lemma_remaining_records_filter(recs: Seq<ReportModel>, resps: Seq<RespModel>)
    ensures
        remaining_records(recs, resps) == recs.filter(|r: ReportModel| !settles(resps, r.report_id)),
    decreases recs.len(),
{
    let pred = |r: ReportModel| !settles(resps, r.report_id);
    if recs.len() == 0 {
        reveal(Seq::filter);
        assert(recs.filter(pred) =~= Seq::<ReportModel>::empty());
    } else {
        lemma_remaining_records_filter(recs.drop_last(), resps);
        recs.drop_last().lemma_filter_push(recs.last(), pred);
        assert(recs.drop_last().push(recs.last()) =~= recs);
    }
}

/// After the answers are reconciled, the queue holds exactly the records
/// that no answer settled for good, in the order they were queued.
pub proof fn lemma_reconcile_keeps_exactly_unsettled(bs: Seq<BatchModel>, resps: Seq<RespModel>)
    ensures
        queued_records(remaining_batches(bs, resps)) == queued_records(bs).filter(
            |r: ReportModel| !settles(resps, r.report_id),
        ),
    decreases bs.len(),
{
    let pred = |r: ReportModel| !settles(resps, r.report_id);
    if bs.len() == 0 {
        reveal(Seq::filter);
        assert(queued_records(bs).filter(pred) =~= Seq::<ReportModel>::empty());
        assert(queued_records(remaining_batches(bs, resps)) =~= Seq::<ReportModel>::empty());
    } else {
        let rest = bs.drop_last();
        lemma_reconcile_keeps_exactly_unsettled(rest, resps);
        lemma_remaining_records_filter(bs.last().records, resps);
        Seq::filter_distributes_over_add(queued_records(rest), bs.last().records, pred);
        let kept = remaining_records(bs.last().records, resps);
        let rb = remaining_batches(rest, resps);
        if kept.len() > 0 {
            let nb = BatchModel { batch_id: bs.last().batch_id, records: kept };
            assert(rb.push(nb).drop_last() =~= rb);
            assert(queued_records(rb.push(nb)) == queued_records(rb) + kept);
        } else {
            assert(kept =~= Seq::<ReportModel>::empty());
            assert(queued_records(rb) + kept =~= queued_records(rb));
        }
    }
}

/// No batch left after reconciliation is empty.
pub proof fn lemma_remaining_batches_nonempty(bs: Seq<BatchModel>, resps: Seq<RespModel>)
    ensures
        forall|i: int|
            0 <= i < remaining_batches(bs, resps).len() ==> #[trigger] remaining_batches(
                bs,
                resps,
            )[i].records.len() > 0,
    decreases bs.len(),
{
    if bs.len() > 0 {
        lemma_remaining_batches_nonempty(bs.drop_last(), resps);
        let rb = remaining_batches(bs.drop_last(), resps);
        assert forall|i: int| 0 <= i < remaining_batches(bs, resps).len() implies #[trigger] remaining_batches(
            bs,
            resps,
        )[i].records.len() > 0 by {
            if i < rb.len() {
                assert(remaining_batches(bs, resps)[i] == rb[i]);
            }
        }
    }
}

/// Whether some answer settles the record `id` for good.
pub fn is_settled(responses: &Vec<NodeTrafficReportResp>, id: &String) -> (r: bool)
    ensures
        r == settles(resp_models(responses@), id@),
{
    let ghost rs = resp_models(responses@);
    let mut i: usize = 0;
    while i < responses.len()
        invariant
            i <= responses@.len(),
            rs == resp_models(responses@),
            forall|k: int|
                0 <= k < i ==> !((#[trigger] rs[k]).result != ReportApplyResult::Retryable
                    && rs[k].report_id == id@),
        decreases responses@.len() - i,
    {
        assert(rs[i as int] == responses@[i as int]@);
        if responses[i].result != ReportApplyResult::Retryable && responses[i].report_id == *id {
            return true;
        }
        i = i + 1;
    }
    false
}

/// Copies the records `recs[lo..hi]`.
pub fn copy_records(recs: &Vec<NodeTrafficReport>, lo: usize, hi: usize) -> (r: Vec<
    NodeTrafficReport,
>)
    requires
        lo <= hi <= recs@.len(),
    ensures
        report_models(r@) == report_models(recs@).subrange(lo as int, hi as int),
{
    let mut out: Vec<NodeTrafficReport> = Vec::new();
    let mut i: usize = lo;
    while i < hi
        invariant
            lo <= i <= hi <= recs@.len(),
            report_models(out@) =~= report_models(recs@).subrange(lo as int, i as int),
        decreases hi - i,
    {
        let ghost before = out@;
        let rec = recs[i].duplicate();
        out.push(rec);
        assert(report_models(out@) =~= report_models(before).push(recs@[i as int]@));
        i = i + 1;
    }
    out
}

/// Copies the records that no answer settles, in order.
pub fn keep_unsettled(recs: &Vec<NodeTrafficReport>, responses: &Vec<NodeTrafficReportResp>) -> (r:
    Vec<NodeTrafficReport>)
    ensures
        report_models(r@) == remaining_records(report_models(recs@), resp_models(responses@)),
{
    let ghost rm = report_models(recs@);
    let ghost rs = resp_models(responses@);
    let mut out: Vec<NodeTrafficReport> = Vec::new();
    let mut i: usize = 0;
    while i < recs.len()
        invariant
            i <= recs@.len(),
            rm == report_models(recs@),
            rs == resp_models(responses@),
            report_models(out@) == remaining_records(rm.take(i as int), rs),
        decreases recs@.len() - i,
    {
        assert(rm.take(i + 1).drop_last() =~= rm.take(i as int));
        assert(rm.take(i + 1).last() == recs@[i as int]@);
        if !is_settled(responses, &recs[i].report_id) {
            let ghost before = out@;
            out.push(recs[i].duplicate());
            assert(report_models(out@) =~= report_models(before).push(recs@[i as int]@));
        }
        i = i + 1;
    }
    assert(rm.take(recs@.len() as int) =~= rm);
    out
}

/// How one upload command ended.
#[derive(Debug)]
pub enum CommandOutcome {
    /// The control server answered with these per-record results.
    Answered(Vec<NodeTrafficReportResp>),
    /// The command failed with this message.
    Failed(String),
}

/// One upload command: the records it carried and how it ended.
#[derive(Debug)]
pub struct CommandResult {
    pub requested: Vec<NodeTrafficReport>,
    pub outcome: CommandOutcome,
}

/// The answers that count, from results in the order the commands ended:
/// those of every answered command whose answer fits what it carried.
pub open spec fn accepted_responses(results: Seq<CommandResult>) -> Seq<RespModel>
    decreases results.len(),
{
    if results.len() == 0 {
        seq![]
    } else {
        let rest = accepted_responses(results.drop_last());
        match results.last().outcome {
            CommandOutcome::Answered(resps) => if responses_match(
                report_models(results.last().requested@),
                resp_models(resps@),
            ) {
                rest + resp_models(resps@)
            } else {
                rest
            },
            CommandOutcome::Failed(_) => rest,
        }
    }
}

/// Why one command did not settle its records, if it did not.
pub open spec fn failure_of(c: CommandResult) -> Option<UploadFailure> {
    match c.outcome {
        CommandOutcome::Answered(resps) => if responses_match(
            report_models(c.requested@),
            resp_models(resps@),
        ) {
            None
        } else {
            Some(UploadFailure::ResponseMismatch)
        },
        CommandOutcome::Failed(message) => Some(UploadFailure::Command { message }),
    }
}

/// The failure of the first command, in the order they ended, that failed.
pub open spec fn first_failure(results: Seq<CommandResult>) -> Option<UploadFailure>
    decreases results.len(),
{
    if results.len() == 0 {
        None
    } else {
        match first_failure(results.drop_last()) {
            Some(f) => Some(f),
            None => failure_of(results.last()),
        }
    }
}

/// Appends copies of `more` to `acc`.
pub fn append_responses(acc: &mut Vec<NodeTrafficReportResp>, more: &Vec<NodeTrafficReportResp>)
    ensures
        resp_models(final(acc)@) == resp_models(old(acc)@) + resp_models(more@),
{
    let ghost start = resp_models(acc@);
    let mut i: usize = 0;
    while i < more.len()
        invariant
            i <= more@.len(),
            resp_models(acc@) =~= start + resp_models(more@).take(i as int),
        decreases more@.len() - i,
    {
        let ghost before = acc@;
        acc.push(more[i].duplicate());
        assert(resp_models(acc@) =~= resp_models(before).push(more@[i as int]@));
        i = i + 1;
    }
    assert(resp_models(more@).take(more@.len() as int) =~= resp_models(more@));
}

/// The texts of a sequence of strings.
pub open spec fn string_views(v: Seq<String>) -> Seq<Seq<char>> {
    v.map_values(|s: String| s@)
}

/// Whether `id` is among the first `n` ids of `ids`.
fn id_in(ids: &Vec<String>, n: usize, id: &String) -> (r: bool)
    requires
        n <= ids@.len(),
    ensures
        r == string_views(ids@).take(n as int).contains(id@),
{
    let ghost v = string_views(ids@);
    let mut i: usize = 0;
    while i < n
        invariant
            i <= n <= ids@.len(),
            v == string_views(ids@),
            forall|k: int| 0 <= k < i ==> v[k] != id@,
        decreases n - i,
    {
        if ids[i] == *id {
            assert(v.take(n as int)[i as int] == id@);
            return true;
        }
        i = i + 1;
    }
    false
}

/// Whether no id occurs twice.
fn ids_distinct(ids: &Vec<String>) -> (r: bool)
    ensures
        r == string_views(ids@).no_duplicates(),
{
    let ghost v = string_views(ids@);
    let mut i: usize = 0;
    while i < ids.len()
        invariant
            i <= ids@.len(),
            v == string_views(ids@),
            v.take(i as int).no_duplicates(),
        decreases ids@.len() - i,
    {
        if id_in(ids, i, &ids[i]) {
            proof {
                let k = choose|k: int| 0 <= k < i && v.take(i as int)[k] == ids@[i as int]@;
                assert(v[k] == v[i as int]);
            }
            return false;
        }
        assert(v.take(i + 1) =~= v.take(i as int).push(v[i as int]));
        i = i + 1;
    }
    assert(v.take(ids@.len() as int) =~= v);
    true
}

/// Whether every id of `a` occurs in `b`.
fn ids_within(a: &Vec<String>, b: &Vec<String>) -> (r: bool)
    ensures
        r == forall|i: int|
            0 <= i < a@.len() ==> string_views(b@).contains(#[trigger] string_views(a@)[i]),
{
    let ghost va = string_views(a@);
    let ghost vb = string_views(b@);
    let mut i: usize = 0;
    while i < a.len()
        invariant
            i <= a@.len(),
            va == string_views(a@),
            vb == string_views(b@),
            forall|j: int| 0 <= j < i ==> vb.contains(#[trigger] va[j]),
        decreases a@.len() - i,
    {
        let found = id_in(b, b.len(), &a[i]);
        assert(vb.take(b@.len() as int) =~= vb);
        if !found {
            assert(va[i as int] == a@[i as int]@);
            return false;
        }
        i = i + 1;
    }
    true
}

/// Copies the ids of some records.
fn request_ids(requested: &Vec<NodeTrafficReport>) -> (r: Vec<String>)
    ensures
        string_views(r@) == report_ids(report_models(requested@)),
{
    let mut a: Vec<String> = Vec::new();
    let mut i: usize = 0;
    while i < requested.len()
        invariant
            i <= requested@.len(),
            string_views(a@) =~= report_ids(report_models(requested@)).take(i as int),
        decreases requested@.len() - i,
    {
        let ghost before = a@;
        let id = requested[i].report_id.clone();
        assert(report_ids(report_models(requested@))[i as int] == id@);
        a.push(id);
        assert(string_views(a@) =~= string_views(before).push(id@));
        i = i + 1;
    }
    assert(report_ids(report_models(requested@)).take(requested@.len() as int) =~= report_ids(
        report_models(requested@),
    ));
    a
}

/// Copies the ids of some answers.
fn response_ids(responses: &Vec<NodeTrafficReportResp>) -> (r: Vec<String>)
    ensures
        string_views(r@) == resp_ids(resp_models(responses@)),
{
    let mut b: Vec<String> = Vec::new();
    let mut j: usize = 0;
    while j < responses.len()
        invariant
            j <= responses@.len(),
            string_views(b@) =~= resp_ids(resp_models(responses@)).take(j as int),
        decreases responses@.len() - j,
    {
        let ghost before = b@;
        let id = responses[j].report_id.clone();
        assert(resp_ids(resp_models(responses@))[j as int] == id@);
        b.push(id);
        assert(string_views(b@) =~= string_views(before).push(id@));
        j = j + 1;
    }
    assert(resp_ids(resp_models(responses@)).take(responses@.len() as int) =~= resp_ids(
        resp_models(responses@),
    ));
    b
}

/// Checks that an answer fits the command it answers: no id repeats on
/// either side, and both name the same ids.
pub fn validate_node_report_responses(
    requested: &Vec<NodeTrafficReport>,
    responses: &Vec<NodeTrafficReportResp>,
) -> (r: Result<(), UploadFailure>)
    ensures
        r is Ok <==> responses_match(report_models(requested@), resp_models(responses@)),
        r is Err ==> r == Err::<(), UploadFailure>(UploadFailure::ResponseMismatch),
{
    let ghost req = report_models(requested@);
    let ghost resp = resp_models(responses@);
    let a = request_ids(requested);
    let b = response_ids(responses);
    let ok = ids_distinct(&a) && ids_distinct(&b) && ids_within(&a, &b) && ids_within(&b, &a);
    proof {
        let ra = report_ids(req);
        let rb = resp_ids(resp);
        assert(string_views(a@) == ra);
        assert(string_views(b@) == rb);
        assert forall|x: int| 0 <= x < req.len() implies ra[x] == #[trigger] req[x].report_id by {}
        assert forall|x: int| 0 <= x < resp.len() implies rb[x] == #[trigger] resp[x].report_id by {}
        if responses_match(req, resp) {
            assert forall|x: int| 0 <= x < ra.len() implies rb.contains(#[trigger] ra[x]) by {
                assert(rb.contains(req[x].report_id));
            }
            assert forall|x: int| 0 <= x < rb.len() implies ra.contains(#[trigger] rb[x]) by {
                assert(ra.contains(resp[x].report_id));
            }
        }
        if ok {
            assert forall|x: int| 0 <= x < req.len() implies rb.contains(
                #[trigger] req[x].report_id,
            ) by {
                assert(rb.contains(ra[x]));
            }
            assert forall|x: int| 0 <= x < resp.len() implies ra.contains(
                #[trigger] resp[x].report_id,
            ) by {
                assert(ra.contains(rb[x]));
            }
        }
    }
    if ok {
        Ok(())
    } else {
        Err(UploadFailure::ResponseMismatch)
    }
}

/// What the uploader does next with the planned commands.
#[derive(Clone, Copy, Debug, PartialEq, Eq, Structural)]
pub enum DispatchAction {
    /// Send the planned command of this index.
    Start(usize),
    /// Wait until a command in flight ends.
    Await,
    /// Every planned command was sent and has ended.
    Done,
}

/// The sending of `total` planned commands, at most `limit` in flight at a
/// time, each sent once, in plan order.
pub struct UploadDispatch {
    total: usize,
    limit: usize,
    next: usize,
    in_flight: usize,
    sent: Ghost<Seq<usize>>,
}

impl UploadDispatch {
    /// How many commands were planned.
    pub closed spec fn total(&self) -> nat {
        self.total as nat
    }

    /// How many commands may be in flight at a time.
    pub closed spec fn limit(&self) -> nat {
        self.limit as nat
    }

    /// How many commands are in flight.
    pub closed spec fn in_flight(&self) -> nat {
        self.in_flight as nat
    }

    /// The indices of the commands sent so far, in the order they were sent.
    pub closed spec fn sent(&self) -> Seq<usize> {
        self.sent@
    }

    /// The dispatch's invariant: the commands sent are those of the plan's
    /// first indices, in order, and no more than the limit are in flight.
    pub closed spec fn wf(&self) -> bool {
        &&& 1 <= self.limit
        &&& self.next <= self.total
        &&& self.in_flight <= self.limit
        &&& self.in_flight <= self.next
        &&& self.sent@ == Seq::new(self.next as nat, |i: int| i as usize)
    }

    /// A dispatch of `total` commands, at most `limit` at a time, none sent yet.
    pub fn new(total: usize, limit: usize) -> (r: UploadDispatch)
        requires
            limit >= 1,
        ensures
            r.wf(),
            r.total() == total,
            r.limit() == limit,
            r.in_flight() == 0,
            r.sent() == Seq::<usize>::empty(),
    {
        let r = UploadDispatch { total, limit, next: 0, in_flight: 0, sent: Ghost(Seq::empty()) };
        assert(r.sent@ =~= Seq::new(0nat, |i: int| i as usize));
        r
    }

    /// The next thing to do: send the next planned command while fewer than
    /// the limit are in flight; else wait for one in flight; when all were
    /// sent and none is in flight, nothing is left.
    pub fn step(&mut self) -> (a: DispatchAction)
        requires
            old(self).wf(),
        ensures
            final(self).wf(),
            final(self).total() == old(self).total(),
            final(self).limit() == old(self).limit(),
            old(self).sent().len() < old(self).total() && old(self).in_flight() < old(self).limit() ==> (
            a == DispatchAction::Start(old(self).sent().len() as usize) && final(self).sent() == old(
                self,
            ).sent().push(old(self).sent().len() as usize) && final(self).in_flight() == old(self).in_flight()
                + 1),
            !(old(self).sent().len() < old(self).total() && old(self).in_flight() < old(self).limit())
                ==> (final(self).sent() == old(self).sent() && final(self).in_flight() == old(
                self,
            ).in_flight()),
            !(old(self).sent().len() < old(self).total() && old(self).in_flight() < old(self).limit())
                && old(self).in_flight() > 0 ==> a == DispatchAction::Await,
            !(old(self).sent().len() < old(self).total() && old(self).in_flight() < old(self).limit())
                && old(self).in_flight() == 0 ==> a == DispatchAction::Done,
            a == DispatchAction::Done ==> final(self).sent().len() == final(self).total(),
    {
        if self.next < self.total && self.in_flight < self.limit {
            let i = self.next;
            self.next = self.next + 1;
            self.in_flight = self.in_flight + 1;
            let ghost before = self.sent@;
            self.sent = Ghost(before.push(i));
            assert(self.sent@ =~= Seq::new(self.next as nat, |k: int| k as usize));
            DispatchAction::Start(i)
        } else if self.in_flight > 0 {
            DispatchAction::Await
        } else {
            DispatchAction::Done
        }
    }

    /// Notes that a command in flight ended.
    pub fn command_finished(&mut self)
        requires
            old(self).wf(),
            old(self).in_flight() > 0,
        ensures
            final(self).wf(),
            final(self).total() == old(self).total(),
            final(self).limit() == old(self).limit(),
            final(self).sent() == old(self).sent(),
            final(self).in_flight() == old(self).in_flight() - 1,
    {
        self.in_flight = self.in_flight - 1;
    }

    /// How many commands are in flight.
    pub fn in_flight_count(&self) -> (r: usize)
        ensures
            r == self.in_flight(),
    {
        self.in_flight
    }
}

/// Each planned command is sent once: the commands sent so far are
/// distinct indices of the plan, never more than the limit are in flight,
/// and once the dispatch is done every planned command was sent, in order.
pub proof fn lemma_dispatch_sends_each_command_once(d: UploadDispatch)
    requires
        d.wf(),
    ensures
        d.in_flight() <= d.limit(),
        d.sent().len() <= d.total(),
        forall|i: int, j: int| 0 <= i < j < d.sent().len() ==> d.sent()[i] != d.sent()[j],
        forall|i: int| 0 <= i < d.sent().len() ==> d.sent()[i] == i && (d.sent()[i] as nat) < d.total(),
        d.sent().len() == d.total() ==> d.sent() == Seq::new(d.total(), |i: int| i as usize),
{
}

/// The reporter is given every queued record exactly once: when the
/// dispatch of an upload plan is done, the commands it sent, in the order
/// it sent them, carry together what the batches held.
pub proof fn lemma_dispatched_plan_carries_every_record_once<A>(
    bs: Seq<Seq<A>>,
    n: nat,
    d: UploadDispatch,
)
    requires
        n > 0,
        d.wf(),
        d.total() == upload_plan(bs, n).len(),
        d.sent().len() == d.total(),
    ensures
        d.sent().map_values(|i: usize| upload_plan(bs, n)[i as int]).flatten().to_multiset()
            =~= bs.flatten().to_multiset(),
{
    assert(d.sent().map_values(|i: usize| upload_plan(bs, n)[i as int]) =~= upload_plan(bs, n));
    lemma_upload_plan_covers_every_record_once(bs, n);
}

/// A record is kept by [`remaining_records`] exactly when no answer
/// settles it, and only records given are kept.
proof fn lemma_remaining_records_members(recs: Seq<ReportModel>, resps: Seq<RespModel>)
    ensures
        forall|k: int|
            #![trigger remaining_records(recs, resps)[k]]
            0 <= k < remaining_records(recs, resps).len() ==> !settles(
                resps,
                remaining_records(recs, resps)[k].report_id,
            ) && recs.contains(remaining_records(recs, resps)[k]),
        forall|k: int|
            0 <= k < recs.len() && !settles(resps, #[trigger] recs[k].report_id) ==> remaining_records(
                recs,
                resps,
            ).contains(recs[k]),
    decreases recs.len(),
{
    if recs.len() > 0 {
        let init = recs.drop_last();
        lemma_remaining_records_members(init, resps);
        let rest = remaining_records(init, resps);
        let out = remaining_records(recs, resps);
        assert forall|k: int| 0 <= k < out.len() implies !settles(resps, (#[trigger] out[k]).report_id)
            && recs.contains(out[k]) by {
            if k < rest.len() {
                assert(out[k] == rest[k]);
                assert(!settles(resps, rest[k].report_id) && init.contains(rest[k]));
                let w = choose|w: int| 0 <= w < init.len() && init[w] == rest[k];
                assert(recs[w] == init[w]);
            } else {
                assert(out[k] == recs.last());
                assert(recs[recs.len() - 1] == recs.last());
            }
        }
        assert forall|k: int| 0 <= k < recs.len() && !settles(resps, #[trigger] recs[k].report_id)
            implies out.contains(recs[k]) by {
            if k < recs.len() - 1 {
                assert(init[k] == recs[k]);
                let w = choose|w: int| 0 <= w < rest.len() && rest[w] == init[k];
                if !settles(resps, recs.last().report_id) {
                    assert(out[w] == rest[w]);
                } else {
                    assert(out[w] == rest[w]);
                }
            } else {
                assert(recs[k] == recs.last());
                assert(out[out.len() - 1] == recs.last());
            }
        }
    }
}

/// The records queued after the answers are exactly those queued before
/// that no answer settles.
proof fn lemma_remaining_batches_members(bs: Seq<BatchModel>, resps: Seq<RespModel>)
    ensures
        forall|k: int|
            0 <= k < queued_records(remaining_batches(bs, resps)).len() ==> !settles(
                resps,
                #[trigger] queued_records(remaining_batches(bs, resps))[k].report_id,
            ),
        forall|k: int|
            0 <= k < queued_records(bs).len() && !settles(resps, #[trigger] queued_records(bs)[k].report_id)
                ==> queued_records(remaining_batches(bs, resps)).contains(queued_records(bs)[k]),
    decreases bs.len(),
{
    if bs.len() > 0 {
        let init = bs.drop_last();
        lemma_remaining_batches_members(init, resps);
        lemma_remaining_records_members(bs.last().records, resps);
        let rest = remaining_batches(init, resps);
        let kept = remaining_records(bs.last().records, resps);
        let out = remaining_batches(bs, resps);
        let qrest = queued_records(rest);
        assert(queued_records(out) == if kept.len() > 0 {
            qrest + kept
        } else {
            qrest
        }) by {
            if kept.len() > 0 {
                let nb = BatchModel { batch_id: bs.last().batch_id, records: kept };
                assert(rest.push(nb).drop_last() =~= rest);
            }
        }
        assert forall|k: int| 0 <= k < queued_records(out).len() implies !settles(
            resps,
            #[trigger] queued_records(out)[k].report_id,
        ) by {
            if k < qrest.len() {
                assert(queued_records(out)[k] == qrest[k]);
            } else {
                assert(queued_records(out)[k] == kept[k - qrest.len()]);
            }
        }
        let qinit = queued_records(init);
        assert(queued_records(bs) == qinit + bs.last().records);
        assert forall|k: int|
            0 <= k < queued_records(bs).len() && !settles(resps, #[trigger] queued_records(bs)[k].report_id)
            implies queued_records(out).contains(queued_records(bs)[k]) by {
            let r = queued_records(bs)[k];
            if k < qinit.len() {
                assert(qinit[k] == r);
                let w = choose|w: int| 0 <= w < qrest.len() && qrest[w] == r;
                assert(queued_records(out)[w] == qrest[w]);
            } else {
                let m = k - qinit.len();
                assert(bs.last().records[m] == r);
                let w = choose|w: int| 0 <= w < kept.len() && kept[w] == r;
                assert(queued_records(out)[qrest.len() + w] == kept[w]);
            }
        }
    }
}

/// An answer that does not ask for a resend settles its record for good:
/// once the answers are reconciled, no queued record has the id of an
/// answer that applied it, found it a duplicate or rejected it; and every
/// record whose answers, if any, all ask for a resend stays queued.
pub proof fn lemma_answered_records_leave_queue(bs: Seq<BatchModel>, resps: Seq<RespModel>)
    ensures
        forall|k: int, j: int|
            0 <= k < queued_records(remaining_batches(bs, resps)).len() && 0 <= j < resps.len() && (
            resps[j].result == ReportApplyResult::Applied || resps[j].result
                == ReportApplyResult::Duplicate || resps[j].result == ReportApplyResult::Rejected)
                ==> #[trigger] queued_records(remaining_batches(bs, resps))[k].report_id
                != #[trigger] resps[j].report_id,
        forall|k: int|
            0 <= k < queued_records(bs).len() && (forall|j: int|
                0 <= j < resps.len() && #[trigger] resps[j].report_id == queued_records(bs)[k].report_id
                    ==> resps[j].result == ReportApplyResult::Retryable) ==> queued_records(
                remaining_batches(bs, resps),
            ).contains(#[trigger] queued_records(bs)[k]),
{
    lemma_remaining_batches_members(bs, resps);
    let q = queued_records(remaining_batches(bs, resps));
    assert forall|k: int, j: int|
        0 <= k < q.len() && 0 <= j < resps.len() && (resps[j].result == ReportApplyResult::Applied
            || resps[j].result == ReportApplyResult::Duplicate || resps[j].result
            == ReportApplyResult::Rejected) implies #[trigger] q[k].report_id != #[trigger] resps[j].report_id by {
        assert(!settles(resps, q[k].report_id));
    }
    assert forall|k: int|
        0 <= k < queued_records(bs).len() && (forall|j: int|
            0 <= j < resps.len() && #[trigger] resps[j].report_id == queued_records(bs)[k].report_id
                ==> resps[j].result == ReportApplyResult::Retryable) implies q.contains(
        #[trigger] queued_records(bs)[k],
    ) by {
        assert(!settles(resps, queued_records(bs)[k].report_id));
    }
}

} // verus!
