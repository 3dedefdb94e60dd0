//! The proxy control channel: the dedicated service name proxies connect
//! to, and what the control plane learns from a control connection.

use vstd::prelude::*;
use vstd::string::*;
use crate::proxy_info::{EndpointModel, PnServerInfo, PnServerInfoPayload};
use crate::server_config::{p2p_endpoint_to_pn_endpoint, protocol_text_of, ServiceEndpoint};

verus! {

/// The name of the service that proxy control connections ask for.
pub open spec fn proxy_control_service_text() -> Seq<char> {
    seq!['v', 'p', 'n', '_', 'p', 'r', 'o', 'x', 'y', '_', 'c', 'o', 'n', 't', 'r', 'o', 'l']
}

/// The name of the service that proxy control connections ask for, which
/// no other service of the server uses.
pub fn proxy_control_service() -> (r: &'static str)
    ensures
        r@ == proxy_control_service_text(),
{
    proof {
        reveal_strlit("vpn_proxy_control");
    }
    "vpn_proxy_control"
}

/// How many times the control connection of a proxy is looked for: the
/// configured number, at least once.
pub fn observation_attempts(max_attempts: usize) -> (r: usize)
    ensures
        r == if max_attempts == 0 {
            1
        } else {
            max_attempts
        },
{
    if max_attempts == 0 {
        1
    } else {
        max_attempts
    }
}

/// Whether another look follows attempt number `attempt` (from zero),
/// after a pause.
pub fn observation_retries(attempt: usize, attempts: usize) -> (r: bool)
    ensures
        r == (attempt + 1 < attempts),
{
    attempt < attempts && attempt + 1 < attempts
}

/// What the control plane learns of a proxy `id` from its control
/// connection: the address the connection came from, as its one endpoint.
pub fn observed_control_connection(id: String, remote: &ServiceEndpoint) -> (r: PnServerInfo)
    ensures
        r@.id == id@,
        r@.payload.endpoints == seq![
            EndpointModel { protocol: protocol_text_of(remote.protocol), ip: remote.ip, port: remote.port },
        ],
        r@.payload.name is None,
        r@.payload.advertised_ip is None,
        r@.payload.port_mapping is None,
{
    let primary = p2p_endpoint_to_pn_endpoint(remote);
    let others: Vec<crate::proxy_info::PnServerEndpoint> = Vec::new();
    assert(crate::proxy_info::endpoint_models(others@) =~= Seq::<EndpointModel>::empty());
    let payload = PnServerInfoPayload::new_with_primary_address(primary, others);
    PnServerInfo { id, payload }
}

} // verus!
