use vpn_server::proxy_info::{
    client_visible_pn_server, merge_remote_pn_server, IpAddress, PnServerEndpoint, PnServerInfo,
    PnServerInfoPayload, PnServerPortMapping,
};
use vpn_server::proxy_manager::{
    check_traffic_report_sender, matches_pn_node, TrafficReportRefusal, Acceptance, HeartbeatError, PnServerManager, Resolution, Validity,
};
use vpn_server::proxy_select::select_among;
use vpn_server::store::{ProxyNodeApproval, ProxyNodeApprovalStatus};

fn v4(text: &str) -> IpAddress {
    let mut value: u32 = 0;
    let mut parts = 0;
    for part in text.split('.') {
        value = (value << 8) | part.parse::<u8>().unwrap() as u32;
        parts += 1;
    }
    assert_eq!(parts, 4, "{text}");
    IpAddress::V4(value)
}

fn v6(text: &str) -> IpAddress {
    let groups = |part: &str| -> Vec<u128> {
        if part.is_empty() {
            Vec::new()
        } else {
            part.split(':').map(|g| u128::from_str_radix(g, 16).unwrap()).collect()
        }
    };
    let (head, tail) = match text.split_once("::") {
        Some((h, t)) => (groups(h), groups(t)),
        None => (groups(text), Vec::new()),
    };
    let mut all = head.clone();
    all.resize(8 - tail.len(), 0);
    all.extend(tail);
    IpAddress::V6(all.iter().fold(0u128, |acc, g| (acc << 16) | g))
}

fn pn_server(id: &str, ip: IpAddress, port: u16) -> PnServerInfo {
    PnServerInfo {
        id: id.to_string(),
        payload: PnServerInfoPayload::new_with_endpoint(PnServerEndpoint::new(ip, port)),
    }
}

fn pn_server_with_payload(id: &str, payload: PnServerInfoPayload) -> PnServerInfo {
    PnServerInfo { id: id.to_string(), payload }
}

fn quic_mapping(quic: Option<u16>, tcp: Option<u16>) -> Option<PnServerPortMapping> {
    Some(PnServerPortMapping { quic, tcp })
}

/// Without a store every live remote proxy counts as approved.
fn select(selector: &mut PnServerManager, network_id: u64, now: u64) -> Option<PnServerInfo> {
    let approved = selector.remote_select_candidates(now);
    selector.select(&approved, network_id)
}

fn is_valid(selector: &mut PnServerManager, pn: &PnServerInfo, now: u64) -> bool {
    match selector.check_valid(pn, now) {
        Validity::Valid => true,
        Validity::Invalid => false,
        Validity::IfApproved => true,
    }
}

fn heartbeat(selector: &mut PnServerManager, pn: &PnServerInfo, now: u64) {
    selector
        .update_heartbeat_with_observation(pn.id.clone(), Some(pn.duplicate()), None, true, now)
        .unwrap();
}

fn heartbeat_with_observation(selector: &mut PnServerManager, reported: &PnServerInfo, observed: &PnServerInfo, now: u64) {
    selector
        .update_heartbeat_with_observation(
            reported.id.clone(),
            Some(reported.duplicate()),
            Some(observed.duplicate()),
            true,
            now,
        )
        .unwrap();
}

fn observed_heartbeat(selector: &mut PnServerManager, observed: &PnServerInfo, now: u64) {
    selector
        .update_heartbeat_with_observation(observed.id.clone(), None, Some(observed.duplicate()), true, now)
        .unwrap();
}

fn suppressed_address_report(id: &str) -> PnServerInfo {
    let mut payload = PnServerInfoPayload::new_with_primary_address(
        PnServerEndpoint::new_with_protocol("quic", v4("0.0.0.0"), 3625),
        vec![PnServerEndpoint::new_tcp(v4("0.0.0.0"), 3625)],
    );
    payload.port_mapping = quic_mapping(Some(3625), Some(3625));
    pn_server_with_payload(id, payload)
}

#[test]
fn reported_only_proxy_is_not_selectable() {
    let mut selector = PnServerManager::new_with_remote_ttl(Vec::new(), 30_000);
    let remote_proxy = pn_server("remote-node-id", v4("127.0.0.1"), 4600);

    assert_eq!(select(&mut selector, 1, 0), None);
    assert!(!is_valid(&mut selector, &remote_proxy, 0));

    heartbeat(&mut selector, &remote_proxy, 0);

    assert!(!is_valid(&mut selector, &remote_proxy, 1));
    assert_eq!(select(&mut selector, 1, 1), None);
}

#[test]
fn reported_only_proxy_remains_unselectable_after_ttl() {
    let mut selector = PnServerManager::new_with_remote_ttl(Vec::new(), 5);
    let remote_proxy = pn_server("remote-node-id", v4("127.0.0.1"), 4600);

    heartbeat(&mut selector, &remote_proxy, 0);
    assert!(!is_valid(&mut selector, &remote_proxy, 0));
    assert!(!is_valid(&mut selector, &remote_proxy, 15));
    assert_eq!(select(&mut selector, 1, 15), None);
}

#[test]
fn remote_proxy_observed_address_survives_reported_heartbeat() {
    let mut selector = PnServerManager::new_with_remote_ttl(Vec::new(), 30_000);
    let observed_proxy = pn_server("peer-7", v4("127.0.0.1"), 4600);
    let mut payload = PnServerInfoPayload::new_with_endpoint(PnServerEndpoint::new(v4("10.0.0.2"), 3624));
    payload.name = Some("remote-proxy".to_string());
    payload.port_mapping = quic_mapping(Some(443), None);
    let reported_proxy = pn_server_with_payload("peer-7", payload);

    heartbeat_with_observation(&mut selector, &reported_proxy, &observed_proxy, 0);

    let selected = select(&mut selector, 1, 1).unwrap();
    assert_eq!(selected.payload.name.as_deref(), Some("remote-proxy"));
    assert_eq!(selected.payload.endpoints, vec![PnServerEndpoint::new(v4("127.0.0.1"), 443)]);
}

#[test]
fn remote_proxy_advertised_ip_overrides_observed_address() {
    let mut selector = PnServerManager::new_with_remote_ttl(Vec::new(), 30_000);
    let advertised_ip = v4("203.0.113.8");
    let mut payload = PnServerInfoPayload::new_with_endpoint(PnServerEndpoint::new(v4("10.0.0.2"), 3624));
    payload.name = Some("remote-proxy".to_string());
    payload.advertised_ip = Some(advertised_ip);
    payload.port_mapping = quic_mapping(Some(443), None);
    let reported_proxy = pn_server_with_payload("peer-7", payload);
    let observed_proxy = pn_server("peer-7", v4("127.0.0.1"), 56000);

    heartbeat_with_observation(&mut selector, &reported_proxy, &observed_proxy, 0);

    let selected = select(&mut selector, 1, 1).unwrap();
    assert_eq!(selected.payload.name.as_deref(), Some("remote-proxy"));
    assert_eq!(selected.payload.endpoints, vec![PnServerEndpoint::new(advertised_ip, 443)]);
}

#[test]
fn remote_proxy_suppressed_local_address_uses_observed_ip_and_mapped_ports() {
    let mut selector = PnServerManager::new_with_remote_ttl(Vec::new(), 30_000);
    let mut payload = PnServerInfoPayload::new_with_primary_address(
        PnServerEndpoint::new_with_protocol("quic", v4("0.0.0.0"), 3624),
        vec![PnServerEndpoint::new_tcp(v4("0.0.0.0"), 3624)],
    );
    payload.port_mapping = quic_mapping(Some(43624), Some(443));
    let reported_proxy = pn_server_with_payload("peer-7", payload);
    let observed_proxy = pn_server("peer-7", v4("47.113.93.155"), 56000);

    heartbeat_with_observation(&mut selector, &reported_proxy, &observed_proxy, 0);

    let selected = select(&mut selector, 1, 1).unwrap();
    assert_eq!(
        selected.payload.endpoints,
        vec![
            PnServerEndpoint::new_with_protocol("quic", v4("47.113.93.155"), 43624),
            PnServerEndpoint::new_tcp(v4("47.113.93.155"), 443),
        ]
    );
}

#[test]
fn remote_proxy_without_port_mapping_is_selectable_with_reported_listen_port() {
    let mut selector = PnServerManager::new_with_remote_ttl(Vec::new(), 30_000);
    let payload = PnServerInfoPayload::new_with_primary_address(
        PnServerEndpoint::new_with_protocol("quic", v4("172.17.0.5"), 3625),
        vec![PnServerEndpoint::new_tcp(v4("172.17.0.5"), 3625)],
    );
    let reported_proxy = pn_server_with_payload("peer-7", payload);
    let observed_proxy = pn_server("peer-7", v4("47.113.93.155"), 56000);

    heartbeat_with_observation(&mut selector, &reported_proxy, &observed_proxy, 0);

    let selected = select(&mut selector, 1, 1).unwrap();
    assert_eq!(
        selected.payload.endpoints,
        vec![
            PnServerEndpoint::new_with_protocol("quic", v4("47.113.93.155"), 3625),
            PnServerEndpoint::new_tcp(v4("47.113.93.155"), 3625),
        ]
    );
}

#[test]
fn remote_proxy_observed_address_survives_reported_heartbeat_in_store() {
    let mut selector = PnServerManager::new_with_remote_ttl(Vec::new(), 30_000);
    let observed_proxy = pn_server("peer-7", v4("127.0.0.1"), 4600);
    let mut payload = PnServerInfoPayload::new_with_endpoint(PnServerEndpoint::new(v4("10.0.0.2"), 3624));
    payload.name = Some("remote-proxy".to_string());
    payload.port_mapping = quic_mapping(Some(443), None);
    let reported_proxy = pn_server_with_payload("peer-7", payload);

    heartbeat_with_observation(&mut selector, &reported_proxy, &observed_proxy, 0);
    let approvals = vec![ProxyNodeApproval {
        pn_server_id: "peer-7".to_string(),
        status: ProxyNodeApprovalStatus::Pending,
        updated_at: 0,
        comment: String::new(),
    }];

    let nodes = selector.list_proxy_nodes(approvals, 1);
    assert_eq!(nodes.len(), 1);
    assert_eq!(nodes[0].pn_server.payload.name.as_deref(), Some("remote-proxy"));
    assert_eq!(nodes[0].pn_server.payload.endpoints, vec![PnServerEndpoint::new(v4("127.0.0.1"), 443)]);
    assert_eq!(nodes[0].observed_addr, Some(PnServerEndpoint::new(v4("127.0.0.1"), 4600)));
    assert!(nodes[0].live);
}

#[test]
fn offline_proxy_node_list_omits_runtime_pn_details() {
    let mut selector = PnServerManager::new_with_remote_ttl(Vec::new(), 1);
    let mut payload = PnServerInfoPayload::new_with_endpoint(PnServerEndpoint::new(v4("10.0.0.2"), 3624));
    payload.name = Some("remote-proxy".to_string());
    let remote_proxy = pn_server_with_payload("remote-node-id", payload);

    heartbeat(&mut selector, &remote_proxy, 0);
    let approvals = vec![ProxyNodeApproval {
        pn_server_id: "remote-node-id".to_string(),
        status: ProxyNodeApprovalStatus::Approved,
        updated_at: 7,
        comment: "ok".to_string(),
    }];

    let nodes = selector.list_proxy_nodes(approvals, 5);
    assert_eq!(nodes.len(), 1);
    assert_eq!(nodes[0].pn_server.id, "remote-node-id");
    assert_eq!(nodes[0].pn_server.payload.name, None);
    assert!(nodes[0].pn_server.payload.endpoints.is_empty());
    assert_eq!(nodes[0].observed_addr, None);
    assert!(!nodes[0].live);
    assert_eq!(nodes[0].status, ProxyNodeApprovalStatus::Approved);
    assert_eq!(nodes[0].updated_at, 7);
    assert_eq!(nodes[0].comment, "ok");
}

#[test]
fn local_proxy_node_applies_port_mapping_without_heartbeat() {
    let mut payload = PnServerInfoPayload::new_with_endpoint(PnServerEndpoint::new(v4("127.0.0.1"), 4600));
    payload.port_mapping = quic_mapping(Some(443), None);
    let local_proxy = pn_server_with_payload("local-peer", payload);
    let mut selector = PnServerManager::new_with_remote_ttl(vec![local_proxy.duplicate()], 30_000);
    let names = vec!["local-peer".to_string()];

    assert_eq!(selector.connection_acceptance(&names, 0), Acceptance::Accept);
    assert!(matches_pn_node(&local_proxy, &names));
    let selected = select(&mut selector, 1, 0).unwrap();
    assert_eq!(selected.payload.endpoints, vec![PnServerEndpoint::new(v4("127.0.0.1"), 443)]);
}

#[test]
fn remote_proxy_node_must_be_live_and_approved_to_accept_connections() {
    let mut selector = PnServerManager::new_with_remote_ttl(Vec::new(), 30_000);
    let remote_proxy = pn_server("peer-7", v4("127.0.0.1"), 4700);
    let names = vec!["peer-7".to_string()];

    assert_eq!(selector.connection_acceptance(&names, 0), Acceptance::Refuse);

    heartbeat(&mut selector, &remote_proxy, 0);
    match selector.connection_acceptance(&names, 1) {
        Acceptance::IfApproved(p) => assert_eq!(p.id, "peer-7"),
        other => panic!("unexpected {:?}", other),
    }
    assert_eq!(selector.connection_acceptance(&names, 40_000), Acceptance::Refuse);
}

#[test]
fn observed_only_addressless_proxy_is_not_selectable() {
    let mut selector = PnServerManager::new_with_remote_ttl(Vec::new(), 30_000);
    let observed_proxy = pn_server("peer-7", v4("198.51.100.7"), 56000);

    observed_heartbeat(&mut selector, &observed_proxy, 0);

    assert_eq!(select(&mut selector, 1, 0), None);
}

#[test]
fn dedicated_heartbeat_controls_remote_online_state() {
    let mut selector = PnServerManager::new_with_remote_ttl(Vec::new(), 5);
    let remote_proxy = pn_server("peer-7", v4("127.0.0.1"), 4600);

    observed_heartbeat(&mut selector, &remote_proxy, 0);
    assert!(selector.is_live(&remote_proxy, 0));
    assert!(selector.is_live(&remote_proxy, 5));
    assert!(!selector.is_live(&remote_proxy, 15));
}

#[test]
fn observed_source_port_change_does_not_change_client_endpoint() {
    let mut selector = PnServerManager::new_with_remote_ttl(Vec::new(), 30_000);
    let mut payload = PnServerInfoPayload::new_with_endpoint(PnServerEndpoint::new(v4("10.0.0.2"), 3624));
    payload.port_mapping = quic_mapping(Some(443), None);
    let reported_proxy = pn_server_with_payload("peer-7", payload);
    let first_observed = pn_server("peer-7", v4("198.51.100.7"), 56000);
    let second_observed = pn_server("peer-7", v4("198.51.100.7"), 57000);

    heartbeat_with_observation(&mut selector, &reported_proxy, &first_observed, 0);
    let first = select(&mut selector, 1, 1).unwrap();
    heartbeat_with_observation(&mut selector, &reported_proxy, &second_observed, 2);
    let second = select(&mut selector, 1, 3).unwrap();

    assert_eq!(first.payload.endpoints, second.payload.endpoints);
    assert_eq!(second.payload.endpoints, vec![PnServerEndpoint::new(v4("198.51.100.7"), 443)]);
}

#[test]
fn reonline_heartbeat_refreshes_address_from_current_control_tunnel() {
    let mut selector = PnServerManager::new_with_remote_ttl(Vec::new(), 50);
    let reported = suppressed_address_report("peer-7");
    let first = pn_server("peer-7", v4("47.113.93.155"), 56000);
    let reonline = pn_server("peer-7", v4("47.113.93.156"), 57000);

    heartbeat_with_observation(&mut selector, &reported, &first, 0);
    assert_eq!(select(&mut selector, 1, 1).unwrap().payload.endpoints[0].ip, v4("47.113.93.155"));

    selector.prune_expired_remote_pn_servers(100);
    assert_eq!(select(&mut selector, 1, 100), None);

    heartbeat_with_observation(&mut selector, &reported, &reonline, 101);
    assert_eq!(select(&mut selector, 1, 102).unwrap().payload.endpoints[0].ip, v4("47.113.93.156"));
}

#[test]
fn same_address_reonline_heartbeat_recovers_after_timeout() {
    let mut selector = PnServerManager::new_with_remote_ttl(Vec::new(), 50);
    let reported = suppressed_address_report("peer-8");
    let observed = pn_server("peer-8", v4("47.113.93.155"), 56000);

    heartbeat_with_observation(&mut selector, &reported, &observed, 0);
    selector.prune_expired_remote_pn_servers(100);
    assert_eq!(select(&mut selector, 1, 100), None);

    heartbeat_with_observation(&mut selector, &reported, &observed, 101);
    assert_eq!(select(&mut selector, 1, 102).unwrap().payload.endpoints[0].ip, v4("47.113.93.155"));
}

#[test]
fn unavailable_reonline_observation_keeps_last_valid_address() {
    let mut selector = PnServerManager::new_with_remote_ttl(Vec::new(), 50);
    let reported = suppressed_address_report("peer-9");
    let observed = pn_server("peer-9", v4("47.113.93.155"), 56000);

    heartbeat_with_observation(&mut selector, &reported, &observed, 0);
    selector.prune_expired_remote_pn_servers(100);
    assert_eq!(select(&mut selector, 1, 100), None);

    heartbeat(&mut selector, &reported, 101);
    assert_eq!(select(&mut selector, 1, 102).unwrap().payload.endpoints[0].ip, v4("47.113.93.155"));
}

#[test]
fn repeated_pruning_retains_observation_but_does_not_extend_liveness() {
    let mut selector = PnServerManager::new_with_remote_ttl(Vec::new(), 50);
    let reported = suppressed_address_report("peer-10");
    let observed = pn_server("peer-10", v4("47.113.93.155"), 56000);

    heartbeat_with_observation(&mut selector, &reported, &observed, 0);
    selector.prune_expired_remote_pn_servers(100);
    selector.prune_expired_remote_pn_servers(100);

    let state = selector.remote_state("peer-10").unwrap();
    assert!(state.offline_logged);
    assert!(state.observed.is_some());
    assert!(!selector.remote_state_is_live(&state, 100));
}

#[test]
fn mismatched_observation_is_rejected_without_creating_state() {
    let mut selector = PnServerManager::new_with_remote_ttl(Vec::new(), 30_000);
    let reported = suppressed_address_report("peer-11");
    let other_observation = pn_server("peer-12", v4("47.113.93.155"), 56000);

    let err = selector
        .update_heartbeat_with_observation(
            "peer-11".to_string(),
            Some(reported),
            Some(other_observation),
            false,
            0,
        )
        .unwrap_err();

    assert_eq!(err, HeartbeatError::ObservationMismatch { observed_id: "peer-12".to_string() });
    assert_eq!(selector.remote_count(), 0);
}

#[test]
fn heartbeat_without_metadata_for_unknown_proxy_is_refused() {
    let mut selector = PnServerManager::new_with_remote_ttl(Vec::new(), 30_000);
    let err = selector
        .update_heartbeat_with_observation("peer-x".to_string(), None, None, true, 0)
        .unwrap_err();
    assert_eq!(err, HeartbeatError::NoRegisteredMetadata { id: "peer-x".to_string() });
    assert_eq!(selector.remote_count(), 0);
}

#[test]
fn selection_is_by_network_among_distinct_ids() {
    let a = pn_server("a-proxy", v4("10.0.0.1"), 1);
    let b = pn_server("b-proxy", v4("10.0.0.2"), 2);
    let b_again = pn_server("b-proxy", v4("10.0.0.3"), 3);
    let selector = PnServerManager::new_with_remote_ttl(vec![b_again, a.duplicate(), b.duplicate()], 30_000);
    let none: Vec<PnServerInfo> = Vec::new();
    assert_eq!(selector.select(&none, 0).unwrap().id, "a-proxy");
    let second = selector.select(&none, 1).unwrap();
    assert_eq!(second.id, "b-proxy");
    // the smaller endpoints win among candidates with the same id
    assert_eq!(second.payload.endpoints, vec![PnServerEndpoint::new(v4("10.0.0.2"), 2)]);
    assert_eq!(selector.select(&none, 2).unwrap().id, "a-proxy");
}

#[test]
fn selection_does_not_depend_on_candidate_order() {
    let make = || {
        vec![
            pn_server("c-proxy", v4("10.0.0.5"), 5),
            pn_server("a-proxy", v4("10.0.0.1"), 1),
            pn_server("b-proxy", v4("10.0.0.3"), 3),
            pn_server("b-proxy", v4("10.0.0.2"), 2),
        ]
    };
    for network_id in 0..6u64 {
        let forward = select_among(make(), network_id).unwrap();
        let mut reversed_candidates = make();
        reversed_candidates.reverse();
        let reversed = select_among(reversed_candidates, network_id).unwrap();
        assert_eq!(forward, reversed, "network {network_id}");
    }
    assert_eq!(select_among(make(), 1).unwrap().payload.endpoints, vec![PnServerEndpoint::new(v4("10.0.0.2"), 2)]);
    assert!(select_among(Vec::new(), 3).is_none());
}

#[test]
fn resolve_prefers_local_then_live_remote() {
    let local = pn_server("local", v4("10.0.0.1"), 1);
    let mut selector = PnServerManager::new_with_remote_ttl(vec![local.duplicate()], 30_000);
    match selector.resolve(&local, 0) {
        Resolution::Found(p) => assert_eq!(p.id, "local"),
        other => panic!("unexpected {:?}", other),
    }
    let remote = suppressed_address_report("remote");
    let observed = pn_server("remote", v4("198.51.100.1"), 9);
    assert_eq!(selector.resolve(&remote, 0), Resolution::NotFound);
    heartbeat_with_observation(&mut selector, &remote, &observed, 0);
    match selector.resolve(&remote, 1) {
        Resolution::IfApproved(p) => {
            assert_eq!(p.payload.endpoints[0].ip, v4("198.51.100.1"));
            assert_eq!(p.payload.port_mapping, None);
        }
        other => panic!("unexpected {:?}", other),
    }
}

#[test]
fn client_view_hides_unspecified_and_maps_ports() {
    let mut payload = PnServerInfoPayload::new_with_primary_address(
        PnServerEndpoint::new(v6("::"), 3624),
        vec![PnServerEndpoint::new_tcp(v6("2001:db8::7"), 3624)],
    );
    payload.port_mapping = quic_mapping(None, Some(443));
    payload.advertised_ip = Some(v6("2001:db8::7"));
    let visible = client_visible_pn_server(&pn_server_with_payload("p", payload));
    assert_eq!(visible.payload.endpoints, vec![PnServerEndpoint::new_tcp(v6("2001:db8::7"), 443)]);
    assert_eq!(visible.payload.advertised_ip, None);
    assert_eq!(visible.payload.port_mapping, None);
}

#[test]
fn merge_of_observation_alone_keeps_only_its_name() {
    let mut payload = PnServerInfoPayload::new_with_endpoint(PnServerEndpoint::new(v4("1.2.3.4"), 5));
    payload.name = Some("seen".to_string());
    let observed = pn_server_with_payload("o", payload);
    let merged = merge_remote_pn_server(Some(&observed), None);
    assert_eq!(merged.id, "o");
    assert_eq!(merged.payload.name.as_deref(), Some("seen"));
    assert!(merged.payload.endpoints.is_empty());
}

#[test]
fn traffic_report_must_name_the_sending_proxy() {
    let proxy = pn_server("proxy-a", v4("10.0.0.1"), 1);
    let peer = vec!["proxy-a".to_string(), "other-form".to_string()];
    assert_eq!(check_traffic_report_sender(Some(&proxy), &peer), Ok(()));
    assert_eq!(
        check_traffic_report_sender(None, &peer),
        Err(TrafficReportRefusal::MissingPnServer)
    );
    assert_eq!(
        check_traffic_report_sender(Some(&proxy), &vec!["proxy-b".to_string()]),
        Err(TrafficReportRefusal::PeerMismatch { pn_server_id: "proxy-a".to_string() })
    );
}
