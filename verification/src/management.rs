//! What the management API computes: who is calling and what they may
//! touch, traffic totals and their decimal rendering, the address types it
//! exchanges, and which relayed connections the proxy accepts.

use vstd::prelude::*;
use vstd::string::*;
use crate::identity::NodeId;
use crate::store::PersistedTrafficStats;
use crate::text::{decimal, u64_to_decimal};
use crate::traffic::UserTrafficSnapshot;

verus! {

/// The management API; its routes are registered by the server around it.
pub struct Api;

/// The sum of two counters, stopping at `u64::MAX`.
pub open spec fn saturating_sum(a: u64, b: u64) -> u64 {
    if a + b > u64::MAX {
        u64::MAX
    } else {
        (a + b) as u64
    }
}

/// Adds `item` to the running `snapshot`, each field stopping at `u64::MAX`.
pub fn accumulate_traffic_stats(snapshot: &mut UserTrafficSnapshot, item: &UserTrafficSnapshot)
    ensures
        final(snapshot).tx_bytes == saturating_sum(old(snapshot).tx_bytes, item.tx_bytes),
        final(snapshot).tx_speed == saturating_sum(old(snapshot).tx_speed, item.tx_speed),
        final(snapshot).rx_bytes == saturating_sum(old(snapshot).rx_bytes, item.rx_bytes),
        final(snapshot).rx_speed == saturating_sum(old(snapshot).rx_speed, item.rx_speed),
{
    snapshot.tx_bytes = snapshot.tx_bytes.saturating_add(item.tx_bytes);
    snapshot.tx_speed = snapshot.tx_speed.saturating_add(item.tx_speed);
    snapshot.rx_bytes = snapshot.rx_bytes.saturating_add(item.rx_bytes);
    snapshot.rx_speed = snapshot.rx_speed.saturating_add(item.rx_speed);
}

/// Traffic totals as the management API returns them: decimal strings, so
/// that clients that read JSON numbers as doubles lose no precision.
#[derive(Debug, PartialEq, Eq)]
pub struct JsonUserTrafficStats {
    pub tx_bytes: String,
    pub tx_speed: String,
    pub rx_bytes: String,
    pub rx_speed: String,
}

impl JsonUserTrafficStats {
    /// The totals of a snapshot, each in decimal.
    pub fn from_snapshot(snapshot: UserTrafficSnapshot) -> (r: JsonUserTrafficStats)
        ensures
            r.tx_bytes@ == decimal(snapshot.tx_bytes as nat),
            r.tx_speed@ == decimal(snapshot.tx_speed as nat),
            r.rx_bytes@ == decimal(snapshot.rx_bytes as nat),
            r.rx_speed@ == decimal(snapshot.rx_speed as nat),
    {
        JsonUserTrafficStats {
            tx_bytes: u64_to_decimal(snapshot.tx_bytes),
            tx_speed: u64_to_decimal(snapshot.tx_speed),
            rx_bytes: u64_to_decimal(snapshot.rx_bytes),
            rx_speed: u64_to_decimal(snapshot.rx_speed),
        }
    }
}

/// A node's or group's traffic: the stored totals, and the speeds now.
pub fn traffic_snapshot(persisted: PersistedTrafficStats, speed: PersistedTrafficStats) -> (r:
    UserTrafficSnapshot)
    ensures
        r.tx_bytes == persisted.tx_bytes,
        r.rx_bytes == persisted.rx_bytes,
        r.tx_speed == speed.tx_bytes,
        r.rx_speed == speed.rx_bytes,
{
    UserTrafficSnapshot {
        tx_bytes: persisted.tx_bytes,
        tx_speed: speed.tx_bytes,
        rx_bytes: persisted.rx_bytes,
        rx_speed: speed.rx_bytes,
    }
}

/// A proxy address as the management API exchanges it.
#[derive(Debug, PartialEq, Eq)]
pub struct JsonPnServerAddress {
    pub protocol: String,
    pub ip: String,
    pub port: u16,
}

/// The transport an address has when the request names none.
pub fn default_pn_server_address_protocol() -> (r: String)
    ensures
        r@ == crate::proxy_info::quic_text(),
{
    String::from_str(crate::proxy_info::protocol_quic())
}

/// A proxy as the management API exchanges it: its id, its primary address
/// and its other addresses.
#[derive(Debug, PartialEq, Eq)]
pub struct JsonPnServerInfo {
    pub id: String,
    pub ip: String,
    pub port: u16,
    pub addresses: Vec<JsonPnServerAddress>,
}

/// A node's membership of a network group.
#[derive(Clone, Copy, Debug, PartialEq, Eq, Structural)]
pub struct GroupMembership {
    pub group_id: u64,
    pub allow_join: bool,
}

/// Two nodes share a group that lets both join.
pub open spec fn share_allowed_group(source: Seq<GroupMembership>, target: Seq<GroupMembership>) -> bool {
    exists|i: int, j: int|
        0 <= i < source.len() && 0 <= j < target.len() && source[i].allow_join
            && target[j].allow_join && (#[trigger] source[i]).group_id == (#[trigger] target[j]).group_id
}

/// Two nodes relay exactly when some group of the source, at any position,
/// and some group of the target, at any position, are the same group and
/// both let the node join; which node is the source does not matter.
pub proof fn lemma_shared_group_anywhere(source: Seq<GroupMembership>, target: Seq<GroupMembership>)
    ensures
        forall|i: int, j: int|
            0 <= i < source.len() && 0 <= j < target.len() && source[i].allow_join && target[j].allow_join
                && #[trigger] source[i].group_id == #[trigger] target[j].group_id ==> share_allowed_group(
                source,
                target,
            ),
        share_allowed_group(source, target) == share_allowed_group(target, source),
        !(exists|i: int| 0 <= i < source.len() && #[trigger] source[i].allow_join) ==> !share_allowed_group(
            source,
            target,
        ),
{
    assert forall|i: int, j: int|
        0 <= i < source.len() && 0 <= j < target.len() && source[i].allow_join && target[j].allow_join
            && #[trigger] source[i].group_id == #[trigger] target[j].group_id implies share_allowed_group(
        source,
        target,
    ) by {
        assert(source[i].group_id == target[j].group_id);
    }
    if share_allowed_group(source, target) {
        let (i, j) = choose|i: int, j: int|
            0 <= i < source.len() && 0 <= j < target.len() && source[i].allow_join && target[j].allow_join
                && (#[trigger] source[i]).group_id == (#[trigger] target[j]).group_id;
        assert(target[j].group_id == source[i].group_id);
        assert(share_allowed_group(target, source));
    }
    if share_allowed_group(target, source) {
        let (i, j) = choose|i: int, j: int|
            0 <= i < target.len() && 0 <= j < source.len() && target[i].allow_join && source[j].allow_join
                && (#[trigger] target[i]).group_id == (#[trigger] source[j]).group_id;
        assert(source[j].group_id == target[i].group_id);
        assert(share_allowed_group(source, target));
    }
}

/// Whether a relayed connection between two nodes is allowed: they must
/// share a group that lets both of them join.
pub fn has_common_allowed_group(source: &Vec<GroupMembership>, target: &Vec<GroupMembership>) -> (r: bool)
    ensures
        r == share_allowed_group(source@, target@),
{
    let mut i: usize = 0;
    while i < source.len()
        invariant
            i <= source@.len(),
            forall|a: int, b: int|
                0 <= a < i && 0 <= b < target@.len() ==> !(source@[a].allow_join
                    && target@[b].allow_join && (#[trigger] source@[a]).group_id == (
                #[trigger] target@[b]).group_id),
        decreases source@.len() - i,
    {
        if source[i].allow_join {
            let mut j: usize = 0;
            while j < target.len()
                invariant
                    i < source@.len(),
                    j <= target@.len(),
                    source@[i as int].allow_join,
                    forall|b: int|
                        0 <= b < j ==> !(target@[b].allow_join && source@[i as int].group_id == (
                        #[trigger] target@[b]).group_id),
                decreases target@.len() - j,
            {
                if target[j].allow_join && target[j].group_id == source[i].group_id {
                    assert(source@[i as int].group_id == target@[j as int].group_id);
                    return true;
                }
                j = j + 1;
            }
        }
        i = i + 1;
    }
    false
}

/// A control server's answer to whether a connection may be relayed.
#[derive(Debug, PartialEq, Eq)]
pub enum RelayVerdict {
    Accept,
    Reject,
}

/// A connection is relayed when the control server names a network both
/// ends belong to.
pub fn relay_verdict(network_id: Option<u64>) -> (r: RelayVerdict)
    ensures
        network_id is Some <==> r == RelayVerdict::Accept,
{
    match network_id {
        Some(_) => RelayVerdict::Accept,
        None => RelayVerdict::Reject,
    }
}

/// The scheme that opens an authorization header, in lower case.
pub open spec fn bearer_lower() -> Seq<char> {
    seq!['b', 'e', 'a', 'r', 'e', 'r', ' ']
}

/// The scheme that opens an authorization header, in upper case.
pub open spec fn bearer_upper() -> Seq<char> {
    seq!['B', 'E', 'A', 'R', 'E', 'R', ' ']
}

/// Whether a header opens with `Bearer `, in any mix of cases.
pub open spec fn has_bearer_scheme(h: Seq<char>) -> bool {
    h.len() >= 7 && forall|i: int|
        0 <= i < 7 ==> (#[trigger] h[i] == bearer_lower()[i] || h[i] == bearer_upper()[i])
}

/// The session token of an authorization header: what follows `Bearer `,
/// the scheme matched in any case; none when the header has another scheme.
pub fn bearer_session(header: &str) -> (r: Option<String>)
    ensures
        has_bearer_scheme(header@) <==> r is Some,
        r matches Some(t) ==> t@ == header@.subrange(7, header@.len() as int),
{
    let n = header.unicode_len();
    if n < 7 {
        return None;
    }
    let lower = "bearer ";
    let upper = "BEARER ";
    proof {
        reveal_strlit("bearer ");
        reveal_strlit("BEARER ");
    }
    let mut i: usize = 0;
    while i < 7
        invariant
            i <= 7,
            n == header@.len(),
            n >= 7,
            lower@ == bearer_lower(),
            upper@ == bearer_upper(),
            forall|k: int|
                0 <= k < i ==> (#[trigger] header@[k] == bearer_lower()[k] || header@[k]
                    == bearer_upper()[k]),
        decreases 7 - i,
    {
        let c = header.get_char(i);
        if c != lower.get_char(i) && c != upper.get_char(i) {
            assert(!(header@[i as int] == bearer_lower()[i as int] || header@[i as int]
                == bearer_upper()[i as int]));
            return None;
        }
        i = i + 1;
    }
    Some(String::from_str(header.substring_char(7, n)))
}

/// Whether `node_id` is one of the nodes joined to the caller's network
/// group: the caller may only act on those.
pub fn is_joined(joined: &Vec<NodeId>, node_id: &NodeId) -> (r: bool)
    ensures
        r == exists|i: int| 0 <= i < joined@.len() && (#[trigger] joined@[i])@ == node_id@,
{
    let mut i: usize = 0;
    while i < joined.len()
        invariant
            i <= joined@.len(),
            forall|k: int| 0 <= k < i ==> (#[trigger] joined@[k])@ != node_id@,
        decreases joined@.len() - i,
    {
        if joined[i].same_as(node_id) {
            return true;
        }
        i = i + 1;
    }
    false
}

/// Why a management request on a network was refused.
#[derive(Debug, PartialEq, Eq)]
pub enum AccessError {
    /// The network does not exist.
    InvalidParam,
    /// The network belongs to another group.
    NoPermission,
}

/// Whether the caller of group `user_group` may act on a network of group
/// `network_group` (none when the network does not exist).
pub fn network_access(network_group: Option<u64>, user_group: u64) -> (r: Result<(), AccessError>)
    ensures
        network_group is None ==> r == Err::<(), AccessError>(AccessError::InvalidParam),
        network_group matches Some(g) ==> (g == user_group ==> r is Ok),
        network_group matches Some(g) ==> (g != user_group ==> r == Err::<(), AccessError>(
            AccessError::NoPermission,
        )),
{
    match network_group {
        None => Err(AccessError::InvalidParam),
        Some(g) => if g == user_group {
            Ok(())
        } else {
            Err(AccessError::NoPermission)
        },
    }
}

} // verus!
