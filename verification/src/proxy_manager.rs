//! The control plane's view of proxy nodes: the proxies configured with the
//! server, and the remote proxies that announce themselves by heartbeats.
//! A remote proxy is live while its last heartbeat is no older than the
//! time-to-live; what it announced and what its control connection showed
//! are merged into the address clients are given.

use vstd::prelude::*;
use crate::order::same_text;
use crate::proxy_info::{
    client_view, client_visible_pn_server, connectable, has_connectable_endpoint, info_models,
    merge_remote_pn_server, merged_view, same_connectable, is_same_connectable_pn_server,
    EndpointModel, InfoModel, PnServerEndpoint, PnServerInfo,
};
use crate::proxy_select::{select_among, selection};
use crate::store::{ProxyNodeApproval, ProxyNodeApprovalStatus};
use crate::upload::string_views;

verus! {

/// What the control plane holds about one remote proxy.
#[derive(Debug)]
pub struct RemotePnServerState {
    /// What the proxy last reported about itself.
    pub reported: Option<PnServerInfo>,
    /// What its control connection last showed.
    pub observed: Option<PnServerInfo>,
    /// The two merged: what the control plane uses.
    pub current: PnServerInfo,
    /// When its last heartbeat came, in milliseconds of the monotonic clock.
    pub last_heartbeat: Option<u64>,
    /// Whether its going offline was already noted.
    pub offline_logged: bool,
}

/// The abstract value of an optional proxy.
pub open spec fn opt_info(o: Option<PnServerInfo>) -> Option<InfoModel> {
    match o {
        Some(p) => Some(p@),
        None => None,
    }
}

/// The abstract value of a [`RemotePnServerState`].
pub struct RemoteModel {
    pub reported: Option<InfoModel>,
    pub observed: Option<InfoModel>,
    pub current: InfoModel,
    pub last_heartbeat: Option<u64>,
    pub offline_logged: bool,
}

impl View for RemotePnServerState {
    type V = RemoteModel;

    open spec fn view(&self) -> RemoteModel {
        RemoteModel {
            reported: opt_info(self.reported),
            observed: opt_info(self.observed),
            current: self.current@,
            last_heartbeat: self.last_heartbeat,
            offline_logged: self.offline_logged,
        }
    }
}

/// A remote proxy under its id.
#[derive(Debug)]
pub struct RemoteEntry {
    pub id: String,
    pub state: RemotePnServerState,
}

/// The remote proxies as (id, state) pairs.
pub open spec fn entry_models(s: Seq<RemoteEntry>) -> Seq<(Seq<char>, RemoteModel)> {
    s.map_values(|e: RemoteEntry| (e.id@, e.state@))
}

/// How long ago the heartbeat at `last` came, at `now`; a heartbeat
/// stamped after `now` is counted as just now.
pub open spec fn heartbeat_age(last: u64, now: u64) -> int {
    if now >= last {
        now - last
    } else {
        0
    }
}

/// A remote proxy is live when its last heartbeat is no older than the ttl.
pub open spec fn live_at(s: RemoteModel, now: u64, ttl: u64) -> bool {
    match s.last_heartbeat {
        Some(t) => heartbeat_age(t, now) <= ttl,
        None => false,
    }
}

/// A remote proxy has expired when it had a heartbeat, older than the ttl.
pub open spec fn expired_at(s: RemoteModel, now: u64, ttl: u64) -> bool {
    match s.last_heartbeat {
        Some(t) => heartbeat_age(t, now) > ttl,
        None => false,
    }
}

/// The remote proxies after expired ones were noted offline and dropped,
/// unless their control connection was seen: such a proxy is kept, so that
/// the address it was seen at survives until it comes back.
pub open spec fn pruned(es: Seq<(Seq<char>, RemoteModel)>, now: u64, ttl: u64) -> Seq<
    (Seq<char>, RemoteModel),
>
    decreases es.len(),
{
    if es.len() == 0 {
        seq![]
    } else {
        let rest = pruned(es.drop_last(), now, ttl);
        let (id, s) = es.last();
        if expired_at(s, now, ttl) {
            if s.observed is Some {
                rest.push((id, RemoteModel { offline_logged: true, ..s }))
            } else {
                rest
            }
        } else {
            rest.push((id, s))
        }
    }
}

/// The state of the remote proxy `id`, if there is one.
pub open spec fn find_remote(es: Seq<(Seq<char>, RemoteModel)>, id: Seq<char>) -> Option<RemoteModel>
    decreases es.len(),
{
    if es.len() == 0 {
        None
    } else if es.last().0 == id {
        Some(es.last().1)
    } else {
        find_remote(es.drop_last(), id)
    }
}

/// What the control plane uses of the live remote proxies, in order.
pub open spec fn live_currents(es: Seq<(Seq<char>, RemoteModel)>, now: u64, ttl: u64) -> Seq<
    InfoModel,
>
    decreases es.len(),
{
    if es.len() == 0 {
        seq![]
    } else {
        let rest = live_currents(es.drop_last(), now, ttl);
        if live_at(es.last().1, now, ttl) {
            rest.push(es.last().1.current)
        } else {
            rest
        }
    }
}

/// The first configured proxy with id `id`, if any.
pub open spec fn find_local(locals: Seq<InfoModel>, id: Seq<char>) -> Option<InfoModel>
    decreases locals.len(),
{
    if locals.len() == 0 {
        None
    } else if locals[0].id == id {
        Some(locals[0])
    } else {
        find_local(locals.drop_first(), id)
    }
}

/// The live remote proxy `id`, as the control plane uses it.
pub open spec fn live_remote(es: Seq<(Seq<char>, RemoteModel)>, id: Seq<char>, now: u64, ttl: u64) -> Option<
    InfoModel,
> {
    match find_remote(es, id) {
        Some(s) => if live_at(s, now, ttl) {
            Some(s.current)
        } else {
            None
        },
        None => None,
    }
}

/// The first endpoint of an observation, if there is one.
pub open spec fn observed_primary(o: Option<InfoModel>) -> Option<EndpointModel> {
    match o {
        Some(p) => if p.payload.endpoints.len() > 0 {
            Some(p.payload.endpoints[0])
        } else {
            None
        },
        None => None,
    }
}

/// What is in memory of the proxy `id`: a configured proxy with that id
/// (without an observed address), else the live remote proxy with the
/// address its control connection was seen at.
pub open spec fn in_memory_view(
    locals: Seq<InfoModel>,
    es: Seq<(Seq<char>, RemoteModel)>,
    id: Seq<char>,
    now: u64,
    ttl: u64,
) -> (Option<InfoModel>, Option<EndpointModel>) {
    match find_local(locals, id) {
        Some(l) => (Some(l), None),
        None => match find_remote(es, id) {
            Some(s) => if live_at(s, now, ttl) {
                (Some(s.current), observed_primary(s.observed))
            } else {
                (None, None)
            },
            None => (None, None),
        },
    }
}

/// The proxies of a sequence that have an endpoint with a concrete address.
pub open spec fn connectable_only(s: Seq<InfoModel>) -> Seq<InfoModel>
    decreases s.len(),
{
    if s.len() == 0 {
        seq![]
    } else {
        let rest = connectable_only(s.drop_last());
        if connectable(s.last()) {
            rest.push(s.last())
        } else {
            rest
        }
    }
}

/// The id under which a heartbeat is recorded: the reported proxy's id,
/// else the observed one's, else the id derived from the peer.
pub open spec fn heartbeat_id(
    reported: Option<InfoModel>,
    observation: Option<InfoModel>,
    fallback: Seq<char>,
) -> Seq<char> {
    match reported {
        Some(r) => r.id,
        None => match observation {
            Some(o) => o.id,
            None => fallback,
        },
    }
}

/// The state of a remote proxy after a heartbeat at `now` that reported
/// `reported` and whose control connection showed `observation`; what the
/// heartbeat does not carry is kept from `prev`.
pub open spec fn after_heartbeat(
    prev: Option<RemoteModel>,
    reported: Option<InfoModel>,
    observation: Option<InfoModel>,
    now: u64,
) -> RemoteModel {
    let rep = match reported {
        Some(r) => Some(r),
        None => match prev {
            Some(p) => p.reported,
            None => None,
        },
    };
    let obs = match observation {
        Some(o) => Some(o),
        None => match prev {
            Some(p) => p.observed,
            None => None,
        },
    };
    RemoteModel {
        reported: rep,
        observed: obs,
        current: merged_view(obs, rep),
        last_heartbeat: Some(now),
        offline_logged: false,
    }
}

/// Whether a sequence of texts holds `t`.
pub open spec fn names(texts: Seq<Seq<char>>, t: Seq<char>) -> bool {
    texts.contains(t)
}

/// Why a heartbeat was refused.
#[derive(Debug, PartialEq, Eq)]
pub enum HeartbeatError {
    /// The control connection's proxy is not the peer that sent the heartbeat.
    ObservationMismatch { observed_id: String },
    /// Nothing is known of the proxy and the heartbeat carries nothing.
    NoRegisteredMetadata { id: String },
}

/// Whether a proxy may be used for a client's network.
#[derive(Debug, PartialEq, Eq)]
pub enum Validity {
    /// It is valid.
    Valid,
    /// It is not.
    Invalid,
    /// It is valid if the operator approved it.
    IfApproved,
}

/// Where a proxy named by a client can be found.
#[derive(Debug, PartialEq, Eq)]
pub enum Resolution {
    /// Among the configured proxies; shown as clients see it.
    Found(PnServerInfo),
    /// Among the live remote proxies; usable if the operator approved it.
    IfApproved(PnServerInfo),
    /// Nowhere usable.
    NotFound,
}

/// Whether connections from a peer are accepted.
#[derive(Debug, PartialEq, Eq)]
pub enum Acceptance {
    /// A configured proxy is that peer.
    Accept,
    /// No proxy is that peer.
    Refuse,
    /// A live remote proxy is that peer; accepted if the operator approved it.
    IfApproved(PnServerInfo),
}

/// One proxy node as the operator sees it.
#[derive(Debug, PartialEq, Eq)]
pub struct ProxyNodeState {
    pub pn_server: PnServerInfo,
    pub observed_addr: Option<PnServerEndpoint>,
    pub status: ProxyNodeApprovalStatus,
    pub live: bool,
    pub updated_at: u64,
    pub comment: String,
}

/// The proxies the control plane knows.
pub struct PnServerManager {
    pn_servers: Vec<PnServerInfo>,
    remote: Vec<RemoteEntry>,
    remote_ttl_ms: u64,
}

/// The default time-to-live of a remote proxy's heartbeat.
pub const DEFAULT_REMOTE_TTL_MS: u64 = 15000;

impl PnServerManager {
    /// The configured proxies.
    pub closed spec fn locals(&self) -> Seq<InfoModel> {
        info_models(self.pn_servers@)
    }

    /// The remote proxies, as (id, state) pairs.
    pub closed spec fn remotes(&self) -> Seq<(Seq<char>, RemoteModel)> {
        entry_models(self.remote@)
    }

    /// How long a heartbeat keeps a remote proxy live, in milliseconds.
    pub closed spec fn ttl(&self) -> u64 {
        self.remote_ttl_ms
    }

    /// The manager's invariant: one entry per id, and every entry knows
    /// what its proxy reported or what its connection showed, and uses the
    /// two merged.
    pub open spec fn wf(&self) -> bool {
        &&& ids_unique(self.remotes())
        &&& entries_wf(self.remotes())
    }

    /// A manager of the configured proxies whose remote proxies stay live
    /// for `remote_ttl_ms` after each heartbeat.
    pub fn new_with_remote_ttl(pn_servers: Vec<PnServerInfo>, remote_ttl_ms: u64) -> (r: PnServerManager)
        ensures
            r.wf(),
            r.locals() == info_models(pn_servers@),
            r.remotes() == Seq::<(Seq<char>, RemoteModel)>::empty(),
            r.ttl() == remote_ttl_ms,
    {
        let r = PnServerManager { pn_servers, remote: Vec::new(), remote_ttl_ms };
        assert(r.remotes() =~= Seq::<(Seq<char>, RemoteModel)>::empty());
        r
    }

    /// A manager of the configured proxies with the default time-to-live.
    pub fn new(pn_servers: Vec<PnServerInfo>) -> (r: PnServerManager)
        ensures
            r.wf(),
            r.locals() == info_models(pn_servers@),
            r.remotes() == Seq::<(Seq<char>, RemoteModel)>::empty(),
            r.ttl() == DEFAULT_REMOTE_TTL_MS,
    {
        PnServerManager::new_with_remote_ttl(pn_servers, DEFAULT_REMOTE_TTL_MS)
    }

    /// How often liveness is checked, in nanoseconds: a third of the
    /// time-to-live, at least a millisecond when that is zero, at most five
    /// seconds.
    pub fn remote_liveness_check_interval_ns(&self) -> (r: u64)
        ensures
            r == if (self.ttl() as int * 1_000_000) / 3 == 0 {
                1_000_000
            } else if (self.ttl() as int * 1_000_000) / 3 > 5_000_000_000 {
                5_000_000_000
            } else {
                (self.ttl() as int * 1_000_000) / 3
            },
    {
        let third = (self.remote_ttl_ms as u128) * 1_000_000 / 3;
        if third == 0 {
            1_000_000
        } else if third > 5_000_000_000 {
            5_000_000_000
        } else {
            third as u64
        }
    }
}

/// A remote entry knows what its proxy reported or what its connection
/// showed, and uses the two merged.
pub open spec fn entry_wf(s: RemoteModel) -> bool {
    &&& (s.reported is Some || s.observed is Some)
    &&& s.current == merged_view(s.observed, s.reported)
}

/// No id occurs twice among the entries.
pub open spec fn ids_unique(es: Seq<(Seq<char>, RemoteModel)>) -> bool {
    forall|i: int, j: int|
        0 <= i < es.len() && 0 <= j < es.len() && i != j ==> #[trigger] es[i].0 != #[trigger] es[j].0
}

/// Every entry is well formed.
pub open spec fn entries_wf(es: Seq<(Seq<char>, RemoteModel)>) -> bool {
    forall|i: int| 0 <= i < es.len() ==> entry_wf(#[trigger] es[i].1)
}

/// With one entry per id, the entry found for an entry's id is that entry;
/// an id no entry has finds nothing.
pub proof fn lemma_find_remote(es: Seq<(Seq<char>, RemoteModel)>, id: Seq<char>)
    requires
        ids_unique(es),
    ensures
        forall|i: int| 0 <= i < es.len() && es[i].0 == id ==> find_remote(es, id) == Some(es[i].1),
        (forall|i: int| 0 <= i < es.len() ==> es[i].0 != id) ==> find_remote(es, id) is None,
    decreases es.len(),
{
    if es.len() > 0 {
        let rest = es.drop_last();
        assert(ids_unique(rest)) by {
            assert forall|i: int, j: int|
                0 <= i < rest.len() && 0 <= j < rest.len() && i != j implies #[trigger] rest[i].0
                != #[trigger] rest[j].0 by {
                assert(rest[i] == es[i]);
                assert(rest[j] == es[j]);
            }
        }
        lemma_find_remote(rest, id);
        assert forall|i: int| 0 <= i < es.len() && es[i].0 == id implies find_remote(es, id) == Some(
            es[i].1,
        ) by {
            if i < es.len() - 1 {
                assert(es[i] == rest[i]);
                assert(es[i].0 != es[es.len() - 1].0);
            }
        }
        if forall|i: int| 0 <= i < es.len() ==> es[i].0 != id {
            assert forall|i: int| 0 <= i < rest.len() implies rest[i].0 != id by {
                assert(rest[i] == es[i]);
            }
            assert(es[es.len() - 1].0 != id);
        }
    }
}

/// Replacing the entry of `id` changes what is found for `id` alone.
pub proof fn lemma_find_remote_update(
    es: Seq<(Seq<char>, RemoteModel)>,
    i: int,
    s: RemoteModel,
    other: Seq<char>,
)
    requires
        ids_unique(es),
        0 <= i < es.len(),
    ensures
        find_remote(es.update(i, (es[i].0, s)), es[i].0) == Some(s),
        other != es[i].0 ==> find_remote(es.update(i, (es[i].0, s)), other) == find_remote(es, other),
        ids_unique(es.update(i, (es[i].0, s))),
    decreases es.len(),
{
    let u = es.update(i, (es[i].0, s));
    assert(ids_unique(u)) by {
        assert forall|a: int, b: int|
            0 <= a < u.len() && 0 <= b < u.len() && a != b implies #[trigger] u[a].0
            != #[trigger] u[b].0 by {
            assert(u[a].0 == es[a].0);
            assert(u[b].0 == es[b].0);
        }
    }
    lemma_find_remote(u, es[i].0);
    assert(u[i] == (es[i].0, s));
    if other != es[i].0 {
        lemma_find_remote_other(es, i, s, other);
    }
}

/// Replacing one entry does not change what is found for another id.
proof fn lemma_find_remote_other(
    es: Seq<(Seq<char>, RemoteModel)>,
    i: int,
    s: RemoteModel,
    other: Seq<char>,
)
    requires
        0 <= i < es.len(),
        other != es[i].0,
    ensures
        find_remote(es.update(i, (es[i].0, s)), other) == find_remote(es, other),
    decreases es.len(),
{
    let u = es.update(i, (es[i].0, s));
    if i == es.len() - 1 {
        assert(u.drop_last() =~= es.drop_last());
    } else {
        assert(u.drop_last() =~= es.drop_last().update(i, (es[i].0, s)));
        assert(es.drop_last()[i] == es[i]);
        lemma_find_remote_other(es.drop_last(), i, s, other);
    }
}

/// Pruning keeps one entry per id and well-formed entries, keeps the ids
/// of entries it keeps, and finds for an id what the entry was, noted
/// offline if it expired, unless it expired without an observation.
pub proof fn lemma_pruned(es: Seq<(Seq<char>, RemoteModel)>, now: u64, ttl: u64, id: Seq<char>)
    requires
        ids_unique(es),
        entries_wf(es),
    ensures
        ids_unique(pruned(es, now, ttl)),
        entries_wf(pruned(es, now, ttl)),
        forall|k: int|
            0 <= k < pruned(es, now, ttl).len() ==> exists|i: int|
                0 <= i < es.len() && #[trigger] pruned(es, now, ttl)[k].0 == es[i].0,
        find_remote(pruned(es, now, ttl), id) == match find_remote(es, id) {
            Some(s) => if expired_at(s, now, ttl) {
                if s.observed is Some {
                    Some(RemoteModel { offline_logged: true, ..s })
                } else {
                    None::<RemoteModel>
                }
            } else {
                Some(s)
            },
            None => None,
        },
    decreases es.len(),
{
    if es.len() > 0 {
        let rest = es.drop_last();
        assert(ids_unique(rest)) by {
            assert forall|i: int, j: int|
                0 <= i < rest.len() && 0 <= j < rest.len() && i != j implies #[trigger] rest[i].0
                != #[trigger] rest[j].0 by {
                assert(rest[i] == es[i]);
                assert(rest[j] == es[j]);
            }
        }
        assert(entries_wf(rest)) by {
            assert forall|i: int| 0 <= i < rest.len() implies entry_wf(#[trigger] rest[i].1) by {
                assert(rest[i] == es[i]);
            }
        }
        lemma_pruned(rest, now, ttl, id);
        let pr = pruned(rest, now, ttl);
        let last = es.last();
        let p = pruned(es, now, ttl);
        assert(entry_wf(es[es.len() - 1].1));
        assert forall|k: int| 0 <= k < pr.len() implies pr[k].0 != last.0 by {
            let i = choose|i: int| 0 <= i < rest.len() && #[trigger] pr[k].0 == rest[i].0;
            assert(rest[i] == es[i]);
        }
        assert forall|k: int| 0 <= k < p.len() implies exists|i: int|
            0 <= i < es.len() && #[trigger] p[k].0 == es[i].0 by {
            if k < pr.len() {
                assert(p[k] == pr[k]);
                let i = choose|i: int| 0 <= i < rest.len() && #[trigger] pr[k].0 == rest[i].0;
                assert(rest[i] == es[i]);
            } else {
                assert(p[k].0 == es[es.len() - 1].0);
            }
        }
        assert(ids_unique(p)) by {
            assert forall|a: int, b: int|
                0 <= a < p.len() && 0 <= b < p.len() && a != b implies #[trigger] p[a].0
                != #[trigger] p[b].0 by {
                if a < pr.len() && b < pr.len() {
                    assert(p[a] == pr[a]);
                    assert(p[b] == pr[b]);
                } else if a < pr.len() {
                    assert(p[a] == pr[a]);
                } else if b < pr.len() {
                    assert(p[b] == pr[b]);
                }
            }
        }
        assert(entries_wf(p)) by {
            assert forall|k: int| 0 <= k < p.len() implies entry_wf(#[trigger] p[k].1) by {
                if k < pr.len() {
                    assert(p[k] == pr[k]);
                }
            }
        }
        if last.0 != id {
            if p.len() > pr.len() {
                assert(p.drop_last() =~= pr);
            } else {
                assert(p == pr);
            }
        } else {
            lemma_find_remote(rest, id);
            assert forall|i: int| 0 <= i < rest.len() implies rest[i].0 != id by {
                assert(rest[i] == es[i]);
            }
            lemma_find_remote(pr, id);
            assert forall|k: int| 0 <= k < pr.len() implies pr[k].0 != id by {}
        }
    }
}


impl RemotePnServerState {
    /// A copy of this state.
    pub fn duplicate(&self) -> (r: RemotePnServerState)
        ensures
            r@ == self@,
    {
        RemotePnServerState {
            reported: match &self.reported {
                Some(p) => Some(p.duplicate()),
                None => None,
            },
            observed: match &self.observed {
                Some(p) => Some(p.duplicate()),
                None => None,
            },
            current: self.current.duplicate(),
            last_heartbeat: self.last_heartbeat,
            offline_logged: self.offline_logged,
        }
    }
}

/// Whether a heartbeat at `last` is older than `ttl` at `now`.
pub fn heartbeat_expired(last: Option<u64>, now: u64, ttl: u64) -> (r: bool)
    ensures
        r == match last {
            Some(t) => heartbeat_age(t, now) > ttl,
            None => false,
        },
{
    match last {
        Some(t) => {
            let age = if now >= t {
                now - t
            } else {
                0
            };
            age > ttl
        },
        None => false,
    }
}

impl PnServerManager {
    /// Notes expired remote proxies offline and drops them, unless their
    /// control connection was seen.
    pub fn prune_expired_remote_pn_servers(&mut self, now: u64)
        requires
            old(self).wf(),
        ensures
            final(self).wf(),
            final(self).remotes() == pruned(old(self).remotes(), now, old(self).ttl()),
            final(self).locals() == old(self).locals(),
            final(self).ttl() == old(self).ttl(),
    {
        let ghost orig = self.remotes();
        let ttl = self.remote_ttl_ms;
        let mut pending: Vec<RemoteEntry> = Vec::new();
        std::mem::swap(&mut pending, &mut self.remote);
        assert(entry_models(pending@) == orig);
        let mut kept: Vec<RemoteEntry> = Vec::new();
        let n = pending.len();
        let mut i: usize = 0;
        assert(orig.skip(0) =~= orig);
        while i < n
            invariant
                n == orig.len(),
                i <= n,
                entry_models(pending@) == orig.skip(i as int),
                entry_models(kept@) == pruned(orig.take(i as int), now, ttl),
            decreases n - i,
        {
            assert(orig.take(i + 1).drop_last() =~= orig.take(i as int));
            assert(orig.take(i + 1).last() == orig[i as int]);
            assert(entry_models(pending@).len() == pending@.len());
            assert(entry_models(pending@)[0] == orig[i as int]);
            let ghost before = pending@;
            let mut e = pending.remove(0);
            assert(entry_models(pending@) =~= orig.skip(i + 1)) by {
                assert(pending@ =~= before.subrange(1, before.len() as int));
                assert(entry_models(before) == orig.skip(i as int));
                assert forall|k: int| 0 <= k < pending@.len() implies #[trigger] entry_models(
                    pending@,
                )[k] == orig.skip(i + 1)[k] by {
                    assert(pending@[k] == before[k + 1]);
                    assert(entry_models(before)[k + 1] == orig.skip(i as int)[k + 1]);
                }
            }
            let ghost em = (e.id@, e.state@);
            assert(em == orig[i as int]);
            let expired = heartbeat_expired(e.state.last_heartbeat, now, ttl);
            if expired {
                if e.state.observed.is_some() {
                    e.state.offline_logged = true;
                    let ghost kb = kept@;
                    let ghost em2 = (e.id@, e.state@);
                    kept.push(e);
                    assert(entry_models(kept@) =~= entry_models(kb).push(em2));
                }
            } else {
                let ghost kb = kept@;
                kept.push(e);
                assert(entry_models(kept@) =~= entry_models(kb).push(em));
            }
            i = i + 1;
        }
        assert(orig.take(n as int) =~= orig);
        self.remote = kept;
        proof {
            lemma_pruned(orig, now, ttl, seq![]);
        }
    }

    /// The position of the remote proxy `id`, if there is one.
    fn find_remote_index(&self, id: &str) -> (r: Option<usize>)
        requires
            self.wf(),
        ensures
            match r {
                Some(i) => i < self.remotes().len() && self.remotes()[i as int].0 == id@
                    && find_remote(self.remotes(), id@) == Some(self.remotes()[i as int].1),
                None => find_remote(self.remotes(), id@) is None && forall|k: int|
                    0 <= k < self.remotes().len() ==> self.remotes()[k].0 != id@,
            },
    {
        let ghost es = self.remotes();
        proof {
            lemma_find_remote(es, id@);
        }
        let mut i: usize = 0;
        while i < self.remote.len()
            invariant
                i <= self.remote@.len(),
                es == self.remotes(),
                self.wf(),
                forall|k: int| 0 <= k < i ==> es[k].0 != id@,
            decreases self.remote@.len() - i,
        {
            assert(es[i as int].0 == self.remote@[i as int].id@);
            if same_text(self.remote[i].id.as_str(), id) {
                assert(es[i as int].0 == id@);
                proof {
                    lemma_find_remote(es, id@);
                }
                assert(find_remote(es, id@) == Some(es[i as int].1));
                return Some(i);
            }
            i = i + 1;
        }
        None
    }

    /// The position of the first configured proxy with id `id`, if any.
    fn find_local_index(&self, id: &str) -> (r: Option<usize>)
        ensures
            match r {
                Some(i) => i < self.locals().len() && find_local(self.locals(), id@) == Some(
                    self.locals()[i as int],
                ),
                None => find_local(self.locals(), id@) is None,
            },
    {
        let ghost ls = self.locals();
        let mut i: usize = 0;
        assert(ls.skip(0) =~= ls);
        while i < self.pn_servers.len()
            invariant
                i <= self.pn_servers@.len(),
                ls == self.locals(),
                find_local(ls, id@) == find_local(ls.skip(i as int), id@),
            decreases self.pn_servers@.len() - i,
        {
            assert(ls.skip(i as int)[0] == self.pn_servers@[i as int]@);
            if same_text(self.pn_servers[i].id.as_str(), id) {
                return Some(i);
            }
            assert(ls.skip(i as int).drop_first() =~= ls.skip(i + 1));
            i = i + 1;
        }
        None
    }

    /// The live remote proxies, as the control plane uses them, after
    /// expired ones were pruned.
    pub fn live_remote_pn_servers(&mut self, now: u64) -> (r: Vec<PnServerInfo>)
        requires
            old(self).wf(),
        ensures
            final(self).wf(),
            final(self).remotes() == pruned(old(self).remotes(), now, old(self).ttl()),
            final(self).locals() == old(self).locals(),
            final(self).ttl() == old(self).ttl(),
            info_models(r@) == live_currents(final(self).remotes(), now, final(self).ttl()),
    {
        self.prune_expired_remote_pn_servers(now);
        let ghost es = self.remotes();
        let ttl = self.remote_ttl_ms;
        let mut out: Vec<PnServerInfo> = Vec::new();
        let mut i: usize = 0;
        while i < self.remote.len()
            invariant
                i <= self.remote@.len(),
                es == self.remotes(),
                ttl == self.ttl(),
                info_models(out@) == live_currents(es.take(i as int), now, ttl),
            decreases self.remote@.len() - i,
        {
            assert(es.take(i + 1).drop_last() =~= es.take(i as int));
            assert(es.take(i + 1).last() == es[i as int]);
            assert(es[i as int] == (self.remote@[i as int].id@, self.remote@[i as int].state@));
            let last = self.remote[i].state.last_heartbeat;
            let live = match last {
                Some(t) => !heartbeat_expired(Some(t), now, ttl),
                None => false,
            };
            if live {
                let ghost ob = out@;
                let c = self.remote[i].state.current.duplicate();
                out.push(c);
                assert(info_models(out@) =~= info_models(ob).push(es[i as int].1.current));
            }
            i = i + 1;
        }
        assert(es.take(es.len() as int) =~= es);
        out
    }

    /// The live remote proxy `id`, as the control plane uses it, after
    /// expired ones were pruned.
    pub fn live_remote_pn_server(&mut self, id: &str, now: u64) -> (r: Option<PnServerInfo>)
        requires
            old(self).wf(),
        ensures
            final(self).wf(),
            final(self).remotes() == pruned(old(self).remotes(), now, old(self).ttl()),
            final(self).locals() == old(self).locals(),
            final(self).ttl() == old(self).ttl(),
            opt_info(r) == live_remote(final(self).remotes(), id@, now, final(self).ttl()),
    {
        self.prune_expired_remote_pn_servers(now);
        match self.find_remote_index(id) {
            Some(i) => {
                let st = &self.remote[i].state;
                assert(self.remotes()[i as int].1 == st@);
                if heartbeat_expired(st.last_heartbeat, now, self.remote_ttl_ms)
                    || st.last_heartbeat.is_none() {
                    None
                } else {
                    Some(st.current.duplicate())
                }
            },
            None => None,
        }
    }

    /// Whether the proxy is usable: configured, or remote and live.
    pub fn is_live(&mut self, pn_server: &PnServerInfo, now: u64) -> (r: bool)
        requires
            old(self).wf(),
        ensures
            final(self).wf(),
            final(self).locals() == old(self).locals(),
            final(self).ttl() == old(self).ttl(),
            find_local(old(self).locals(), pn_server@.id) is Some ==> r && final(self).remotes()
                == old(self).remotes(),
            find_local(old(self).locals(), pn_server@.id) is None ==> final(self).remotes()
                == pruned(old(self).remotes(), now, old(self).ttl()) && r == live_remote(
                final(self).remotes(),
                pn_server@.id,
                now,
                old(self).ttl(),
            ) is Some,
    {
        if self.find_local_index(pn_server.id.as_str()).is_some() {
            return true;
        }
        self.live_remote_pn_server(pn_server.id.as_str(), now).is_some()
    }

    /// What is in memory of the proxy `id`: a configured proxy with that id,
    /// else the live remote proxy and the address its control connection
    /// was seen at. Expired remote proxies are pruned first unless a
    /// configured proxy answers.
    pub fn in_memory_proxy_node(&mut self, id: &str, now: u64) -> (r: (
        Option<PnServerInfo>,
        Option<PnServerEndpoint>,
    ))
        requires
            old(self).wf(),
        ensures
            final(self).wf(),
            final(self).locals() == old(self).locals(),
            final(self).ttl() == old(self).ttl(),
            find_local(old(self).locals(), id@) is Some ==> final(self).remotes() == old(self).remotes(),
            find_local(old(self).locals(), id@) is None ==> final(self).remotes() == pruned(
                old(self).remotes(),
                now,
                old(self).ttl(),
            ),
            (opt_info(r.0), match r.1 {
                Some(e) => Some(e@),
                None => None::<EndpointModel>,
            }) == in_memory_view(old(self).locals(), final(self).remotes(), id@, now, old(self).ttl()),
    {
        match self.find_local_index(id) {
            Some(i) => {
                return (Some(self.pn_servers[i].duplicate()), None);
            },
            None => {},
        }
        self.prune_expired_remote_pn_servers(now);
        match self.find_remote_index(id) {
            Some(i) => {
                let st = &self.remote[i].state;
                assert(self.remotes()[i as int].1 == st@);
                if heartbeat_expired(st.last_heartbeat, now, self.remote_ttl_ms)
                    || st.last_heartbeat.is_none() {
                    (None, None)
                } else {
                    let observed_addr = match &st.observed {
                        Some(o) => match o.payload.primary_endpoint() {
                            Some(e) => Some(e.duplicate()),
                            None => None,
                        },
                        None => None,
                    };
                    (Some(st.current.duplicate()), observed_addr)
                }
            },
            None => (None, None),
        }
    }
}


/// The heartbeat was refused because its control connection's proxy is not
/// the peer, and the error names the observed proxy.
pub open spec fn is_mismatch_error(
    r: Result<PnServerInfo, HeartbeatError>,
    observation: Option<PnServerInfo>,
) -> bool {
    match (r, observation) {
        (Err(HeartbeatError::ObservationMismatch { observed_id }), Some(o)) => observed_id@ == o.id@,
        _ => false,
    }
}

/// The heartbeat was refused because nothing is known of the proxy `id`.
pub open spec fn is_no_metadata_error(r: Result<PnServerInfo, HeartbeatError>, id: Seq<char>) -> bool {
    match r {
        Err(HeartbeatError::NoRegisteredMetadata { id: i }) => i@ == id,
        _ => false,
    }
}

/// The remote proxies `new` are `old` with the entry of `id` now `s`.
pub open spec fn entry_replaced(
    old: Seq<(Seq<char>, RemoteModel)>,
    new: Seq<(Seq<char>, RemoteModel)>,
    id: Seq<char>,
    s: RemoteModel,
) -> bool {
    &&& find_remote(new, id) == Some(s)
    &&& forall|other: Seq<char>| other != id ==> #[trigger] find_remote(new, other) == find_remote(old, other)
}

/// The state after a heartbeat, built from the previous state and what the
/// heartbeat carries.
fn state_after_heartbeat(
    prev: Option<RemotePnServerState>,
    reported: Option<PnServerInfo>,
    observation: Option<PnServerInfo>,
    now: u64,
) -> (r: RemotePnServerState)
    requires
        reported is Some || observation is Some || (prev matches Some(p) && entry_wf(p@)),
    ensures
        r@ == after_heartbeat(
            match prev {
                Some(p) => Some(p@),
                None => None,
            },
            opt_info(reported),
            opt_info(observation),
            now,
        ),
        entry_wf(r@),
{
    let (prev_reported, prev_observed) = match prev {
        Some(p) => (p.reported, p.observed),
        None => (None, None),
    };
    let rep = match reported {
        Some(r) => Some(r),
        None => prev_reported,
    };
    let obs = match observation {
        Some(o) => Some(o),
        None => prev_observed,
    };
    let current = merge_remote_pn_server(obs.as_ref(), rep.as_ref());
    RemotePnServerState {
        reported: rep,
        observed: obs,
        current,
        last_heartbeat: Some(now),
        offline_logged: false,
    }
}

impl PnServerManager {
    /// Records a heartbeat of a remote proxy at `now`. The heartbeat may
    /// carry what the proxy reported about itself, and the control
    /// connection it came on may show the proxy (`observation`); an
    /// observation of another peer than the sender is refused. The heartbeat
    /// is recorded under the reported id, else the observed one, else the id
    /// derived from the peer; a proxy not seen before needs one of the two.
    /// What the heartbeat does not carry is kept, the proxy is live again
    /// from `now`, and what the control plane now uses of it is returned.
    pub fn update_heartbeat_with_observation(
        &mut self,
        fallback_id: String,
        reported: Option<PnServerInfo>,
        observation: Option<PnServerInfo>,
        observation_matches_peer: bool,
        now: u64,
    ) -> (r: Result<PnServerInfo, HeartbeatError>)
        requires
            old(self).wf(),
        ensures
            final(self).wf(),
            final(self).locals() == old(self).locals(),
            final(self).ttl() == old(self).ttl(),
            observation is Some && !observation_matches_peer ==> is_mismatch_error(r, observation),
            r is Err ==> final(self).remotes() == old(self).remotes(),
            !(observation is Some && !observation_matches_peer) && find_remote(
                old(self).remotes(),
                heartbeat_id(opt_info(reported), opt_info(observation), fallback_id@),
            ) is None && reported is None && observation is None ==> is_no_metadata_error(
                r,
                fallback_id@,
            ),
            r matches Ok(c) ==> entry_replaced(
                old(self).remotes(),
                final(self).remotes(),
                heartbeat_id(opt_info(reported), opt_info(observation), fallback_id@),
                after_heartbeat(
                    find_remote(
                        old(self).remotes(),
                        heartbeat_id(opt_info(reported), opt_info(observation), fallback_id@),
                    ),
                    opt_info(reported),
                    opt_info(observation),
                    now,
                ),
            ) && c@ == after_heartbeat(
                find_remote(
                    old(self).remotes(),
                    heartbeat_id(opt_info(reported), opt_info(observation), fallback_id@),
                ),
                opt_info(reported),
                opt_info(observation),
                now,
            ).current,
            !(observation is Some && !observation_matches_peer) && (find_remote(
                old(self).remotes(),
                heartbeat_id(opt_info(reported), opt_info(observation), fallback_id@),
            ) is Some || reported is Some || observation is Some) ==> (r is Ok),
    {
        match &observation {
            Some(o) => {
                if !observation_matches_peer {
                    return Err(HeartbeatError::ObservationMismatch { observed_id: o.id.clone() });
                }
            },
            None => {},
        }
        let id: String = match &reported {
            Some(p) => p.id.clone(),
            None => match &observation {
                Some(o) => o.id.clone(),
                None => fallback_id,
            },
        };
        let ghost key = heartbeat_id(opt_info(reported), opt_info(observation), fallback_id@);
        assert(id@ == key);
        let ghost es = self.remotes();
        match self.find_remote_index(id.as_str()) {
            None => {
                if reported.is_none() && observation.is_none() {
                    return Err(HeartbeatError::NoRegisteredMetadata { id });
                }
                let state = state_after_heartbeat(None, reported, observation, now);
                let current = state.current.duplicate();
                let ghost sm = state@;
                let ghost entry = (id@, sm);
                self.remote.push(RemoteEntry { id, state });
                assert(self.remotes() =~= es.push(entry));
                assert(find_remote(es.push(entry), key) == Some(sm));
                assert forall|other: Seq<char>| other != key implies #[trigger] find_remote(
                    self.remotes(),
                    other,
                ) == find_remote(es, other) by {
                    assert(es.push(entry).drop_last() =~= es);
                }
                assert(ids_unique(self.remotes())) by {
                    assert forall|a: int, b: int|
                        0 <= a < self.remotes().len() && 0 <= b < self.remotes().len() && a != b
                            implies #[trigger] self.remotes()[a].0 != #[trigger] self.remotes()[b].0 by {
                        if a < es.len() && b < es.len() {
                            assert(self.remotes()[a] == es[a]);
                            assert(self.remotes()[b] == es[b]);
                        } else if a < es.len() {
                            assert(self.remotes()[a] == es[a]);
                        } else if b < es.len() {
                            assert(self.remotes()[b] == es[b]);
                        }
                    }
                }
                assert(entries_wf(self.remotes())) by {
                    assert forall|k: int| 0 <= k < self.remotes().len() implies entry_wf(
                        #[trigger] self.remotes()[k].1,
                    ) by {
                        if k < es.len() {
                            assert(self.remotes()[k] == es[k]);
                        }
                    }
                }
                Ok(current)
            },
            Some(i) => {
                let ghost before = self.remote@;
                let old_entry = self.remote.remove(i);
                assert(entry_wf(es[i as int].1));
                assert(old_entry.state@ == es[i as int].1);
                let state = state_after_heartbeat(Some(old_entry.state), reported, observation, now);
                let current = state.current.duplicate();
                let ghost sm = state@;
                let new_entry = RemoteEntry { id: old_entry.id, state };
                assert(new_entry.id@ == es[i as int].0);
                self.remote.insert(i, new_entry);
                assert(self.remote@ =~= before.update(i as int, new_entry));
                assert(self.remotes() =~= es.update(i as int, (es[i as int].0, sm)));
                proof {
                    assert forall|other: Seq<char>| other != key implies #[trigger] find_remote(
                        self.remotes(),
                        other,
                    ) == find_remote(es, other) by {
                        lemma_find_remote_update(es, i as int, sm, other);
                    }
                    lemma_find_remote_update(es, i as int, sm, key);
                }
                assert(entries_wf(self.remotes())) by {
                    assert forall|k: int| 0 <= k < self.remotes().len() implies entry_wf(
                        #[trigger] self.remotes()[k].1,
                    ) by {
                        if k != i {
                            assert(self.remotes()[k] == es[k]);
                        }
                    }
                }
                Ok(current)
            },
        }
    }
}


/// Pruning twice at the same time prunes nothing more.
pub proof fn lemma_pruned_idempotent(es: Seq<(Seq<char>, RemoteModel)>, now: u64, ttl: u64)
    ensures
        pruned(pruned(es, now, ttl), now, ttl) == pruned(es, now, ttl),
    decreases es.len(),
{
    if es.len() > 0 {
        let rest = es.drop_last();
        lemma_pruned_idempotent(rest, now, ttl);
        let p = pruned(es, now, ttl);
        let pr = pruned(rest, now, ttl);
        if p.len() > pr.len() {
            assert(p.drop_last() =~= pr);
        } else {
            assert(p == pr);
        }
    }
}

/// Some configured proxy is the same for a client as `pn`.
pub open spec fn some_local_same(locals: Seq<InfoModel>, pn: InfoModel) -> bool {
    exists|i: int| 0 <= i < locals.len() && same_connectable(#[trigger] locals[i], pn)
}

/// A proxy is the same for a client as a configured one exactly when some
/// configured proxy has its id, its name and its very endpoint list: two
/// proxies whose endpoints differ are never the same.
pub proof fn lemma_same_for_client(locals: Seq<InfoModel>, pn: InfoModel)
    ensures
        some_local_same(locals, pn) <==> exists|i: int|
            0 <= i < locals.len() && (#[trigger] locals[i]).id == pn.id && locals[i].payload.name
                == pn.payload.name && locals[i].payload.endpoints == pn.payload.endpoints,
        forall|a: InfoModel, b: InfoModel|
            #![trigger same_connectable(a, pn), same_connectable(b, pn)]
            same_connectable(a, pn) && same_connectable(b, pn) ==> a.payload.endpoints
                == b.payload.endpoints,
{
    if some_local_same(locals, pn) {
        let i = choose|i: int| 0 <= i < locals.len() && same_connectable(#[trigger] locals[i], pn);
        assert(locals[i].id == pn.id && locals[i].payload.endpoints == pn.payload.endpoints);
    }
    if exists|i: int|
        0 <= i < locals.len() && (#[trigger] locals[i]).id == pn.id && locals[i].payload.name
            == pn.payload.name && locals[i].payload.endpoints == pn.payload.endpoints {
        let i = choose|i: int|
            0 <= i < locals.len() && (#[trigger] locals[i]).id == pn.id && locals[i].payload.name
                == pn.payload.name && locals[i].payload.endpoints == pn.payload.endpoints;
        assert(same_connectable(locals[i], pn));
    }
}

/// A live remote proxy is usable, once approved, for a proxy a client names
/// only if it has that proxy's id, name and very endpoint list.
pub proof fn lemma_remote_same_for_client(
    es: Seq<(Seq<char>, RemoteModel)>,
    pn: InfoModel,
    now: u64,
    ttl: u64,
)
    ensures
        live_remote(es, pn.id, now, ttl) matches Some(l) ==> (same_connectable(l, pn) ==> l.id == pn.id
            && l.payload.name == pn.payload.name && l.payload.endpoints == pn.payload.endpoints),
{
}

/// The first configured proxy with id `id` and a connectable endpoint.
pub open spec fn find_local_connectable(locals: Seq<InfoModel>, id: Seq<char>) -> Option<InfoModel>
    decreases locals.len(),
{
    if locals.len() == 0 {
        None
    } else if locals[0].id == id && connectable(locals[0]) {
        Some(locals[0])
    } else {
        find_local_connectable(locals.drop_first(), id)
    }
}

/// The first proxy whose id is one of `names`.
pub open spec fn first_named(s: Seq<InfoModel>, names: Seq<Seq<char>>) -> Option<InfoModel>
    decreases s.len(),
{
    if s.len() == 0 {
        None
    } else if names.contains(s[0].id) {
        Some(s[0])
    } else {
        first_named(s.drop_first(), names)
    }
}

/// The abstract value of an operator's decision about a proxy.
pub struct ApprovalModel {
    pub pn_server_id: Seq<char>,
    pub status: ProxyNodeApprovalStatus,
    pub updated_at: u64,
    pub comment: Seq<char>,
}

impl View for ProxyNodeApproval {
    type V = ApprovalModel;

    open spec fn view(&self) -> ApprovalModel {
        ApprovalModel {
            pn_server_id: self.pn_server_id@,
            status: self.status,
            updated_at: self.updated_at,
            comment: self.comment@,
        }
    }
}

/// The abstract value of a [`ProxyNodeState`].
pub struct NodeStateModel {
    pub pn_server: InfoModel,
    pub observed_addr: Option<EndpointModel>,
    pub status: ProxyNodeApprovalStatus,
    pub live: bool,
    pub updated_at: u64,
    pub comment: Seq<char>,
}

impl View for ProxyNodeState {
    type V = NodeStateModel;

    open spec fn view(&self) -> NodeStateModel {
        NodeStateModel {
            pn_server: self.pn_server@,
            observed_addr: match self.observed_addr {
                Some(e) => Some(e@),
                None => None,
            },
            status: self.status,
            live: self.live,
            updated_at: self.updated_at,
            comment: self.comment@,
        }
    }
}

/// What the operator is shown of a proxy: the operator's decision, and
/// what is in memory of the proxy as clients would see it; a proxy with
/// nothing in memory is shown by its id alone and not live.
pub open spec fn node_state_view(
    a: ApprovalModel,
    mem: (Option<InfoModel>, Option<EndpointModel>),
) -> NodeStateModel {
    NodeStateModel {
        pn_server: client_view(
            match mem.0 {
                Some(p) => p,
                None => InfoModel { id: a.pn_server_id, payload: crate::proxy_info::empty_payload() },
            },
        ),
        observed_addr: mem.1,
        status: a.status,
        live: mem.0 is Some,
        updated_at: a.updated_at,
        comment: a.comment,
    }
}

/// Some decision names a proxy that is not configured.
pub open spec fn any_remote_lookup(approvals: Seq<ProxyNodeApproval>, locals: Seq<InfoModel>) -> bool {
    exists|k: int|
        0 <= k < approvals.len() && find_local(locals, (#[trigger] approvals[k]).pn_server_id@) is None
}

/// The proxies of a sequence that have an endpoint with a concrete address.
pub fn connectable_servers(s: &Vec<PnServerInfo>) -> (r: Vec<PnServerInfo>)
    ensures
        info_models(r@) == connectable_only(info_models(s@)),
{
    let ghost sm = info_models(s@);
    let mut out: Vec<PnServerInfo> = Vec::new();
    let mut i: usize = 0;
    while i < s.len()
        invariant
            i <= s@.len(),
            sm == info_models(s@),
            info_models(out@) == connectable_only(sm.take(i as int)),
        decreases s@.len() - i,
    {
        assert(sm.take(i + 1).drop_last() =~= sm.take(i as int));
        assert(sm.take(i + 1).last() == s@[i as int]@);
        if has_connectable_endpoint(&s[i]) {
            let ghost ob = out@;
            out.push(s[i].duplicate());
            assert(info_models(out@) =~= info_models(ob).push(sm[i as int]));
        }
        i = i + 1;
    }
    assert(sm.take(s@.len() as int) =~= sm);
    out
}

/// Whether `id` is one of `names`.
pub fn is_named(names: &Vec<String>, id: &str) -> (r: bool)
    ensures
        r == string_views(names@).contains(id@),
{
    let ghost v = string_views(names@);
    let mut i: usize = 0;
    while i < names.len()
        invariant
            i <= names@.len(),
            v == string_views(names@),
            forall|k: int| 0 <= k < i ==> v[k] != id@,
        decreases names@.len() - i,
    {
        if same_text(names[i].as_str(), id) {
            assert(v[i as int] == id@);
            return true;
        }
        i = i + 1;
    }
    false
}

impl PnServerManager {
    /// Whether the proxy `pn` may be used: a configured proxy that clients
    /// would see the same way makes it valid; else the live remote proxy of
    /// its id must have a connectable endpoint and look the same to
    /// clients, and then the operator's approval decides.
    pub fn check_valid(&mut self, pn: &PnServerInfo, now: u64) -> (r: Validity)
        requires
            old(self).wf(),
        ensures
            final(self).wf(),
            final(self).locals() == old(self).locals(),
            final(self).ttl() == old(self).ttl(),
            some_local_same(old(self).locals(), pn@) ==> r == Validity::Valid && final(self).remotes()
                == old(self).remotes(),
            !some_local_same(old(self).locals(), pn@) ==> final(self).remotes() == pruned(
                old(self).remotes(),
                now,
                old(self).ttl(),
            ),
            r == Validity::Valid ==> exists|i: int|
                0 <= i < old(self).locals().len() && (#[trigger] old(self).locals()[i]).id == pn@.id
                    && old(self).locals()[i].payload.name == pn@.payload.name
                    && old(self).locals()[i].payload.endpoints == pn@.payload.endpoints,
            !some_local_same(old(self).locals(), pn@) ==> r == (match live_remote(
                final(self).remotes(),
                pn@.id,
                now,
                old(self).ttl(),
            ) {
                Some(l) => if connectable(l) && same_connectable(l, pn@) {
                    Validity::IfApproved
                } else {
                    Validity::Invalid
                },
                None => Validity::Invalid,
            }),
    {
        let ghost ls = self.locals();
        let ghost rs0 = self.remotes();
        let ghost t0 = self.ttl();
        let mut i: usize = 0;
        while i < self.pn_servers.len()
            invariant
                i <= self.pn_servers@.len(),
                ls == self.locals(),
                self.wf(),
                self.remotes() == rs0,
                self.ttl() == t0,
                forall|k: int| 0 <= k < i ==> !same_connectable(#[trigger] ls[k], pn@),
            decreases self.pn_servers@.len() - i,
        {
            assert(ls[i as int] == self.pn_servers@[i as int]@);
            if is_same_connectable_pn_server(&self.pn_servers[i], pn) {
                proof {
                    lemma_same_for_client(ls, pn@);
                }
                return Validity::Valid;
            }
            i = i + 1;
        }
        match self.live_remote_pn_server(pn.id.as_str(), now) {
            Some(l) => {
                if has_connectable_endpoint(&l) && is_same_connectable_pn_server(&l, pn) {
                    Validity::IfApproved
                } else {
                    Validity::Invalid
                }
            },
            None => Validity::Invalid,
        }
    }

    /// Where the proxy `pn` named by a client can be found: the first
    /// configured proxy with its id and a connectable endpoint, else the
    /// live remote proxy of its id if it has a connectable endpoint, usable
    /// once approved; both as clients see them.
    pub fn resolve(&mut self, pn: &PnServerInfo, now: u64) -> (r: Resolution)
        requires
            old(self).wf(),
        ensures
            final(self).wf(),
            final(self).locals() == old(self).locals(),
            final(self).ttl() == old(self).ttl(),
            find_local_connectable(old(self).locals(), pn@.id) matches Some(l) ==> (r matches Resolution::Found(f) && f@
                == client_view(l)) && final(self).remotes() == old(self).remotes(),
            find_local_connectable(old(self).locals(), pn@.id) is None ==> final(self).remotes()
                == pruned(old(self).remotes(), now, old(self).ttl()),
            find_local_connectable(old(self).locals(), pn@.id) is None ==> match live_remote(
                final(self).remotes(),
                pn@.id,
                now,
                old(self).ttl(),
            ) {
                Some(l) => if connectable(l) {
                    r matches Resolution::IfApproved(f) && f@ == client_view(l)
                } else {
                    r == Resolution::NotFound
                },
                None => r == Resolution::NotFound,
            },
    {
        let ghost ls = self.locals();
        let mut i: usize = 0;
        assert(ls.skip(0) =~= ls);
        let ghost rs0 = self.remotes();
        let ghost t0 = self.ttl();
        while i < self.pn_servers.len()
            invariant
                i <= self.pn_servers@.len(),
                ls == self.locals(),
                self.wf(),
                self.remotes() == rs0,
                self.ttl() == t0,
                find_local_connectable(ls, pn@.id) == find_local_connectable(ls.skip(i as int), pn@.id),
            decreases self.pn_servers@.len() - i,
        {
            assert(ls.skip(i as int)[0] == self.pn_servers@[i as int]@);
            if same_text(self.pn_servers[i].id.as_str(), pn.id.as_str()) && has_connectable_endpoint(
                &self.pn_servers[i],
            ) {
                return Resolution::Found(client_visible_pn_server(&self.pn_servers[i]));
            }
            assert(ls.skip(i as int).drop_first() =~= ls.skip(i + 1));
            i = i + 1;
        }
        match self.live_remote_pn_server(pn.id.as_str(), now) {
            Some(l) => {
                if has_connectable_endpoint(&l) {
                    Resolution::IfApproved(client_visible_pn_server(&l))
                } else {
                    Resolution::NotFound
                }
            },
            None => Resolution::NotFound,
        }
    }

    /// The live remote proxies with a connectable endpoint, after expired
    /// ones were pruned: the remote candidates of a selection, each usable
    /// once approved.
    pub fn remote_select_candidates(&mut self, now: u64) -> (r: Vec<PnServerInfo>)
        requires
            old(self).wf(),
        ensures
            final(self).wf(),
            final(self).locals() == old(self).locals(),
            final(self).ttl() == old(self).ttl(),
            final(self).remotes() == pruned(old(self).remotes(), now, old(self).ttl()),
            info_models(r@) == connectable_only(
                live_currents(final(self).remotes(), now, old(self).ttl()),
            ),
    {
        let live = self.live_remote_pn_servers(now);
        connectable_servers(&live)
    }

    /// The proxy for network `network_id`, chosen among the configured
    /// proxies with a connectable endpoint and the approved remote ones.
    pub fn select(&self, approved_remotes: &Vec<PnServerInfo>, network_id: u64) -> (r: Option<
        PnServerInfo,
    >)
        ensures
            opt_info(r) == selection(
                connectable_only(self.locals()) + connectable_only(info_models(approved_remotes@)),
                network_id,
            ),
    {
        let mut candidates = connectable_servers(&self.pn_servers);
        let mut remotes = connectable_servers(approved_remotes);
        let ghost a = info_models(candidates@);
        let ghost b = info_models(remotes@);
        candidates.append(&mut remotes);
        assert(info_models(candidates@) =~= a + b);
        match select_among(candidates, network_id) {
            Some(p) => Some(p),
            None => None,
        }
    }

    /// Whether connections from the peer whose ids are `peer_names` are
    /// accepted: yes when a configured proxy has one of those ids; else the
    /// first live remote proxy with one of them decides by its approval;
    /// else no.
    pub fn connection_acceptance(&mut self, peer_names: &Vec<String>, now: u64) -> (r: Acceptance)
        requires
            old(self).wf(),
        ensures
            final(self).wf(),
            final(self).locals() == old(self).locals(),
            final(self).ttl() == old(self).ttl(),
            first_named(old(self).locals(), string_views(peer_names@)) is Some ==> r
                == Acceptance::Accept && final(self).remotes() == old(self).remotes(),
            first_named(old(self).locals(), string_views(peer_names@)) is None ==> final(self).remotes() == pruned(old(self).remotes(), now, old(self).ttl()),
            first_named(old(self).locals(), string_views(peer_names@)) is None ==> match first_named(
                live_currents(final(self).remotes(), now, old(self).ttl()),
                string_views(peer_names@),
            ) {
                Some(p) => r matches Acceptance::IfApproved(f) && f@ == p,
                None => r == Acceptance::Refuse,
            },
    {
        let ghost names = string_views(peer_names@);
        let ghost ls = self.locals();
        let mut i: usize = 0;
        assert(ls.skip(0) =~= ls);
        let ghost rs0 = self.remotes();
        let ghost t0 = self.ttl();
        while i < self.pn_servers.len()
            invariant
                i <= self.pn_servers@.len(),
                ls == self.locals(),
                self.wf(),
                self.remotes() == rs0,
                self.ttl() == t0,
                names == string_views(peer_names@),
                first_named(ls, names) == first_named(ls.skip(i as int), names),
            decreases self.pn_servers@.len() - i,
        {
            assert(ls.skip(i as int)[0] == self.pn_servers@[i as int]@);
            if is_named(peer_names, self.pn_servers[i].id.as_str()) {
                return Acceptance::Accept;
            }
            assert(ls.skip(i as int).drop_first() =~= ls.skip(i + 1));
            i = i + 1;
        }
        let live = self.live_remote_pn_servers(now);
        let ghost lm = info_models(live@);
        let ghost rs1 = self.remotes();
        let mut j: usize = 0;
        assert(lm.skip(0) =~= lm);
        while j < live.len()
            invariant
                j <= live@.len(),
                self.wf(),
                self.locals() == ls,
                ls == old(self).locals(),
                t0 == old(self).ttl(),
                first_named(ls, names) is None,
                rs1 == pruned(old(self).remotes(), now, t0),
                lm == live_currents(rs1, now, t0),
                self.remotes() == rs1,
                self.ttl() == t0,
                lm == info_models(live@),
                names == string_views(peer_names@),
                first_named(lm, names) == first_named(lm.skip(j as int), names),
            decreases live@.len() - j,
        {
            assert(lm.skip(j as int)[0] == live@[j as int]@);
            if is_named(peer_names, live[j].id.as_str()) {
                return Acceptance::IfApproved(live[j].duplicate());
            }
            assert(lm.skip(j as int).drop_first() =~= lm.skip(j + 1));
            j = j + 1;
        }
        Acceptance::Refuse
    }

    /// The proxy nodes as the operator sees them, one per decision, in the
    /// order of the decisions.
    pub fn list_proxy_nodes(&mut self, approvals: Vec<ProxyNodeApproval>, now: u64) -> (r: Vec<
        ProxyNodeState,
    >)
        requires
            old(self).wf(),
        ensures
            final(self).wf(),
            final(self).locals() == old(self).locals(),
            final(self).ttl() == old(self).ttl(),
            final(self).remotes() == if any_remote_lookup(approvals@, old(self).locals()) {
                pruned(old(self).remotes(), now, old(self).ttl())
            } else {
                old(self).remotes()
            },
            r@.len() == approvals@.len(),
            forall|k: int|
                0 <= k < approvals@.len() ==> (#[trigger] r@[k])@ == node_state_view(
                    approvals@[k]@,
                    in_memory_view(
                        old(self).locals(),
                        pruned(old(self).remotes(), now, old(self).ttl()),
                        approvals@[k].pn_server_id@,
                        now,
                        old(self).ttl(),
                    ),
                ),
    {
        let ghost orig = self.remotes();
        let ghost ls = self.locals();
        let ghost ttl = self.ttl();
        let ghost pr = pruned(orig, now, ttl);
        proof {
            lemma_pruned_idempotent(orig, now, ttl);
        }
        let mut out: Vec<ProxyNodeState> = Vec::new();
        let mut k: usize = 0;
        while k < approvals.len()
            invariant
                k <= approvals@.len(),
                self.wf(),
                self.locals() == ls,
                self.ttl() == ttl,
                pr == pruned(orig, now, ttl),
                pruned(pr, now, ttl) == pr,
                self.remotes() == if any_remote_lookup(approvals@.take(k as int), ls) {
                    pr
                } else {
                    orig
                },
                out@.len() == k,
                forall|j: int|
                    0 <= j < k ==> (#[trigger] out@[j])@ == node_state_view(
                        approvals@[j]@,
                        in_memory_view(ls, pr, approvals@[j].pn_server_id@, now, ttl),
                    ),
            decreases approvals@.len() - k,
        {
            let a = &approvals[k];
            let ghost before_remotes = self.remotes();
            let (found, observed_addr) = self.in_memory_proxy_node(a.pn_server_id.as_str(), now);
            let live = found.is_some();
            let shown = match &found {
                Some(p) => client_visible_pn_server(p),
                None => client_visible_pn_server(&PnServerInfo::new_bare(a.pn_server_id.clone())),
            };
            let state = ProxyNodeState {
                pn_server: shown,
                observed_addr,
                status: a.status,
                live,
                updated_at: a.updated_at,
                comment: a.comment.clone(),
            };
            proof {
                if find_local(ls, a.pn_server_id@) is None {
                    assert(any_remote_lookup(approvals@.take(k + 1), ls)) by {
                        assert(approvals@.take(k + 1)[k as int] == approvals@[k as int]);
                    }
                } else {
                    if any_remote_lookup(approvals@.take(k + 1), ls) {
                        let j = choose|j: int|
                            0 <= j < k + 1 && find_local(
                                ls,
                                (#[trigger] approvals@.take(k + 1)[j]).pn_server_id@,
                            ) is None;
                        assert(j != k);
                        assert(approvals@.take(k + 1)[j] == approvals@.take(k as int)[j]);
                        assert(any_remote_lookup(approvals@.take(k as int), ls));
                    } else {
                        if any_remote_lookup(approvals@.take(k as int), ls) {
                            let j = choose|j: int|
                                0 <= j < k && find_local(
                                    ls,
                                    (#[trigger] approvals@.take(k as int)[j]).pn_server_id@,
                                ) is None;
                            assert(approvals@.take(k + 1)[j] == approvals@.take(k as int)[j]);
                        }
                    }
                }
            }
            out.push(state);
            k = k + 1;
        }
        assert(approvals@.take(approvals@.len() as int) =~= approvals@);
        out
    }
}


/// A heartbeat keeps a remote proxy live for the time-to-live: from the
/// heartbeat on, until `ttl` milliseconds have passed, its entry is live.
pub proof fn lemma_heartbeat_live_for_ttl(
    prev: Option<RemoteModel>,
    reported: Option<InfoModel>,
    observation: Option<InfoModel>,
    now: u64,
    ttl: u64,
    t: u64,
)
    requires
        now <= t,
        t <= now + ttl,
    ensures
        live_at(after_heartbeat(prev, reported, observation, now), t, ttl),
{
}

/// Once the time-to-live has passed since the last heartbeat, the proxy is
/// no longer live.
pub proof fn lemma_live_ends_after_ttl(s: RemoteModel, last: u64, ttl: u64, t: u64)
    requires
        s.last_heartbeat == Some(last),
        t > last + ttl,
    ensures
        !live_at(s, t, ttl),
        expired_at(s, t, ttl),
{
}

/// Pruning never drops a proxy whose control connection was seen, and it
/// keeps what was seen; it never makes a proxy live again.
pub proof fn lemma_prune_keeps_observation(
    es: Seq<(Seq<char>, RemoteModel)>,
    now: u64,
    ttl: u64,
    id: Seq<char>,
)
    requires
        ids_unique(es),
        entries_wf(es),
        find_remote(es, id) matches Some(s) && s.observed is Some,
    ensures
        find_remote(pruned(es, now, ttl), id) matches Some(p) && p.observed == find_remote(
            es,
            id,
        )->0.observed && p.last_heartbeat == find_remote(es, id)->0.last_heartbeat,
        live_remote(pruned(es, now, ttl), id, now, ttl) == live_remote(es, id, now, ttl),
{
    lemma_pruned(es, now, ttl, id);
}

/// An observation outlives expiry: a proxy whose control connection was
/// seen and whose heartbeats stopped is pruned to an entry that is not live
/// but keeps what was seen. When the proxy heartbeats again at `later`, it
/// is live again; with no new observation it is used at the last seen
/// address, with a new one at that one.
pub proof fn lemma_observation_outlives_expiry(
    es: Seq<(Seq<char>, RemoteModel)>,
    id: Seq<char>,
    now: u64,
    ttl: u64,
    reported: Option<InfoModel>,
    observation: Option<InfoModel>,
    later: u64,
)
    requires
        ids_unique(es),
        entries_wf(es),
        find_remote(es, id) matches Some(s) && s.observed is Some && expired_at(s, now, ttl),
    ensures
        live_remote(pruned(es, now, ttl), id, now, ttl) is None,
        find_remote(pruned(es, now, ttl), id) matches Some(p) && p.observed == find_remote(
            es,
            id,
        )->0.observed,
        live_at(after_heartbeat(find_remote(pruned(es, now, ttl), id), reported, observation, later), later, ttl),
        observation is None ==> after_heartbeat(
            find_remote(pruned(es, now, ttl), id),
            reported,
            observation,
            later,
        ).current == merged_view(
            find_remote(es, id)->0.observed,
            match reported {
                Some(r) => Some(r),
                None => find_remote(es, id)->0.reported,
            },
        ),
        observation is Some ==> after_heartbeat(
            find_remote(pruned(es, now, ttl), id),
            reported,
            observation,
            later,
        ).current == merged_view(
            observation,
            match reported {
                Some(r) => Some(r),
                None => find_remote(es, id)->0.reported,
            },
        ),
{
    lemma_pruned(es, now, ttl, id);
}

/// A proxy that was not live is not live after pruning, and one that was
/// live stays as it was.
pub proof fn lemma_prune_preserves_liveness(
    es: Seq<(Seq<char>, RemoteModel)>,
    now: u64,
    ttl: u64,
    id: Seq<char>,
)
    requires
        ids_unique(es),
        entries_wf(es),
    ensures
        live_remote(pruned(es, now, ttl), id, now, ttl) == live_remote(es, id, now, ttl),
{
    lemma_pruned(es, now, ttl, id);
}


/// Every proxy kept by [`connectable_only`] is connectable, and each was given.
pub proof fn lemma_connectable_only(s: Seq<InfoModel>)
    ensures
        forall|i: int|
            0 <= i < connectable_only(s).len() ==> connectable(#[trigger] connectable_only(s)[i])
                && s.contains(connectable_only(s)[i]),
    decreases s.len(),
{
    if s.len() > 0 {
        lemma_connectable_only(s.drop_last());
        let rest = connectable_only(s.drop_last());
        assert forall|i: int| 0 <= i < connectable_only(s).len() implies connectable(
            #[trigger] connectable_only(s)[i],
        ) && s.contains(connectable_only(s)[i]) by {
            if i < rest.len() {
                assert(connectable_only(s)[i] == rest[i]);
                let j = choose|j: int| 0 <= j < s.drop_last().len() && s.drop_last()[j] == rest[i];
                assert(s[j] == rest[i]);
            } else {
                assert(s[s.len() - 1] == connectable_only(s)[i]);
            }
        }
    }
}

/// The proxy chosen for a network always offers clients at least one
/// endpoint, and only endpoints with a concrete address; one is chosen
/// whenever some configured or approved remote proxy is connectable.
pub proof fn lemma_selected_proxy_is_reachable(
    locals: Seq<InfoModel>,
    approved: Seq<InfoModel>,
    network_id: u64,
)
    ensures
        (selection(connectable_only(locals) + connectable_only(approved), network_id) is Some)
            == (connectable_only(locals).len() + connectable_only(approved).len() > 0),
        selection(connectable_only(locals) + connectable_only(approved), network_id) matches Some(p)
            ==> p.payload.endpoints.len() > 0 && forall|i: int|
            0 <= i < p.payload.endpoints.len() ==> !crate::proxy_info::ip_unspecified(
                #[trigger] p.payload.endpoints[i].ip,
            ),
{
    let c = connectable_only(locals) + connectable_only(approved);
    crate::proxy_select::lemma_selection_is_candidate(c, network_id);
    lemma_connectable_only(locals);
    lemma_connectable_only(approved);
    if selection(c, network_id) is Some {
        let p = selection(c, network_id)->0;
        let i = choose|i: int| 0 <= i < c.len() && p == client_view(#[trigger] c[i]);
        if i < connectable_only(locals).len() {
            assert(c[i] == connectable_only(locals)[i]);
        } else {
            assert(c[i] == connectable_only(approved)[i - connectable_only(locals).len()]);
        }
        crate::proxy_info::lemma_client_view_of_connectable(c[i]);
        crate::proxy_info::lemma_client_view_endpoints_concrete(c[i]);
    }
}


/// Whether the proxy is the peer whose ids are `peer_names`.
pub fn matches_pn_node(pn_server: &PnServerInfo, peer_names: &Vec<String>) -> (r: bool)
    ensures
        r == string_views(peer_names@).contains(pn_server@.id),
{
    is_named(peer_names, pn_server.id.as_str())
}

/// Why a proxy's traffic report over its control connection was refused.
#[derive(Debug, PartialEq, Eq)]
pub enum TrafficReportRefusal {
    /// The report does not say which proxy sent it.
    MissingPnServer,
    /// The proxy it names is not the peer that sent it.
    PeerMismatch { pn_server_id: String },
}

/// Whether a traffic report sent by the peer whose ids are `peer_names`
/// may be applied: it must name its proxy, and that proxy must be the peer.
pub fn check_traffic_report_sender(pn_server: Option<&PnServerInfo>, peer_names: &Vec<String>) -> (r:
    Result<(), TrafficReportRefusal>)
    ensures
        pn_server is None ==> r == Err::<(), TrafficReportRefusal>(TrafficReportRefusal::MissingPnServer),
        pn_server matches Some(p) ==> (string_views(peer_names@).contains(p@.id) <==> r is Ok),
        pn_server matches Some(p) ==> (!string_views(peer_names@).contains(p@.id) ==> (r matches Err(
            TrafficReportRefusal::PeerMismatch { pn_server_id },
        ) && pn_server_id@ == p@.id)),
{
    match pn_server {
        None => Err(TrafficReportRefusal::MissingPnServer),
        Some(p) => if matches_pn_node(p, peer_names) {
            Ok(())
        } else {
            Err(TrafficReportRefusal::PeerMismatch { pn_server_id: p.id.clone() })
        },
    }
}

impl PnServerManager {
    /// The number of remote proxies held.
    pub fn remote_count(&self) -> (r: usize)
        ensures
            r == self.remotes().len(),
    {
        self.remote.len()
    }

    /// A copy of what is held about the remote proxy `id`, without pruning.
    pub fn remote_state(&self, id: &str) -> (r: Option<RemotePnServerState>)
        requires
            self.wf(),
        ensures
            match r {
                Some(s) => find_remote(self.remotes(), id@) == Some(s@),
                None => find_remote(self.remotes(), id@) is None,
            },
    {
        match self.find_remote_index(id) {
            Some(i) => {
                assert(self.remotes()[i as int].1 == self.remote@[i as int].state@);
                Some(self.remote[i].state.duplicate())
            },
            None => None,
        }
    }

    /// Whether the remote state is live at `now`.
    pub fn remote_state_is_live(&self, state: &RemotePnServerState, now: u64) -> (r: bool)
        ensures
            r == live_at(state@, now, self.ttl()),
    {
        match state.last_heartbeat {
            Some(t) => !heartbeat_expired(Some(t), now, self.remote_ttl_ms),
            None => false,
        }
    }
}

} // verus!
