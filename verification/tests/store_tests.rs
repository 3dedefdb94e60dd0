use vpn_server::accounts::PasswordCache;
use vpn_server::control::{
    observation_attempts, observation_retries, observed_control_connection, proxy_control_service,
};
use vpn_server::identity::NodeId;
use vpn_server::management::{
    bearer_session, is_joined, network_access, AccessError, accumulate_traffic_stats, default_pn_server_address_protocol, has_common_allowed_group,
    relay_verdict, traffic_snapshot, GroupMembership, JsonUserTrafficStats, RelayVerdict,
};
use vpn_server::proxy_info::{IpAddress, PnServerEndpoint, PnServerInfo};
use vpn_server::server_config::{ServiceEndpoint, Transport};
use vpn_server::store::{
    network_pn_server_db_id, network_pn_server_from_db, proxy_sample_contributions,
    SampleContributions, cumulative_add, finish_transaction, sqlite_i64, PersistedTrafficStats,
    ProxyNodeApprovalStatus, SpeedSample, SqliteTransactionState, TrafficSpeedCache,
    TransactionEnd, TransactionStep, PROXY_TRAFFIC_SPEED_TTL_MS, node_traffic_report_effect,
    NodeTrafficReportEffect, NodeTrafficReportError,
};
use vpn_server::text::{parse_u64, trim_text, u64_to_decimal};
use vpn_server::traffic::UserTrafficSnapshot;

#[test]
fn accumulate_traffic_stats_sums_all_fields() {
    let mut total = UserTrafficSnapshot { tx_bytes: 10, tx_speed: 20, rx_bytes: 30, rx_speed: 40 };
    let item = UserTrafficSnapshot { tx_bytes: 1, tx_speed: 2, rx_bytes: 3, rx_speed: 4 };

    accumulate_traffic_stats(&mut total, &item);

    assert_eq!(
        total,
        UserTrafficSnapshot { tx_bytes: 11, tx_speed: 22, rx_bytes: 33, rx_speed: 44 }
    );
}

#[test]
fn accumulate_traffic_stats_saturates() {
    let mut total = UserTrafficSnapshot { tx_bytes: u64::MAX - 1, tx_speed: 0, rx_bytes: 0, rx_speed: 0 };
    let item = UserTrafficSnapshot { tx_bytes: 5, tx_speed: 1, rx_bytes: 1, rx_speed: 1 };
    accumulate_traffic_stats(&mut total, &item);
    assert_eq!(total.tx_bytes, u64::MAX);
    assert_eq!(total.tx_speed, 1);
}

#[test]
fn json_user_traffic_stats_uses_decimal_strings() {
    let stats = JsonUserTrafficStats::from_snapshot(UserTrafficSnapshot {
        tx_bytes: 1024,
        tx_speed: 64,
        rx_bytes: 2048,
        rx_speed: 32,
    });

    assert_eq!(stats.tx_bytes, "1024");
    assert_eq!(stats.tx_speed, "64");
    assert_eq!(stats.rx_bytes, "2048");
    assert_eq!(stats.rx_speed, "32");
}

#[test]
fn decimal_rendering_of_extremes() {
    assert_eq!(u64_to_decimal(0), "0");
    assert_eq!(u64_to_decimal(u64::MAX), "18446744073709551615");
}

#[test]
fn traffic_snapshot_takes_totals_and_speeds() {
    let s = traffic_snapshot(
        PersistedTrafficStats { tx_bytes: 100, rx_bytes: 200 },
        PersistedTrafficStats { tx_bytes: 3, rx_bytes: 4 },
    );
    assert_eq!(s, UserTrafficSnapshot { tx_bytes: 100, tx_speed: 3, rx_bytes: 200, rx_speed: 4 });
}

#[test]
fn pn_control_server_proxy_control_purpose_is_dedicated() {
    let proxy_control = proxy_control_service();
    assert_ne!(proxy_control, "sn_service");
    assert_eq!(proxy_control, "vpn_proxy_control");
}

#[test]
fn vpn_control_client_proxy_control_purpose_is_dedicated() {
    let proxy_control = proxy_control_service();
    assert_ne!(proxy_control, "sn_service");
    assert_eq!(proxy_control, proxy_control_service());
}

#[test]
fn observation_attempts_are_at_least_one() {
    assert_eq!(observation_attempts(0), 1);
    assert_eq!(observation_attempts(3), 3);
    assert!(observation_retries(0, 3));
    assert!(observation_retries(1, 3));
    assert!(!observation_retries(2, 3));
    assert!(!observation_retries(0, 1));
}

#[test]
fn control_connection_gives_its_remote_address() {
    let remote = ServiceEndpoint {
        protocol: Transport::Quic,
        ip: IpAddress::V4(u32::from_be_bytes([47, 113, 93, 155])),
        port: 3625,
    };
    let info = observed_control_connection("proxy".to_string(), &remote);
    assert_eq!(info.id, "proxy");
    assert_eq!(info.payload.endpoints, vec![PnServerEndpoint::new(remote.ip, 3625)]);
    assert_eq!(info.payload.port_mapping, None);
}

#[test]
fn default_address_protocol_is_quic() {
    assert_eq!(default_pn_server_address_protocol(), "quic");
}

#[test]
fn relay_needs_a_shared_allowed_group() {
    let g = |group_id: u64, allow_join: bool| GroupMembership { group_id, allow_join };
    assert!(has_common_allowed_group(&vec![g(1, true), g(2, true)], &vec![g(2, true)]));
    assert!(!has_common_allowed_group(&vec![g(1, true)], &vec![g(2, true)]));
    assert!(!has_common_allowed_group(&vec![g(1, false)], &vec![g(1, true)]));
    assert!(!has_common_allowed_group(&vec![g(1, true)], &vec![g(1, false)]));
    assert!(matches!(relay_verdict(Some(7)), RelayVerdict::Accept));
    assert!(matches!(relay_verdict(None), RelayVerdict::Reject));
}

#[test]
fn approval_status_names_round_trip() {
    for status in [
        ProxyNodeApprovalStatus::Pending,
        ProxyNodeApprovalStatus::Approved,
        ProxyNodeApprovalStatus::Rejected,
    ] {
        assert_eq!(ProxyNodeApprovalStatus::from_str(status.as_str()), Ok(status));
    }
    assert_eq!(ProxyNodeApprovalStatus::Approved.as_str(), "approved");
    let err = ProxyNodeApprovalStatus::from_str("Approved").unwrap_err();
    assert_eq!(err.status, "Approved");
}

#[test]
fn stored_integers_stay_in_range() {
    assert_eq!(sqlite_i64(42, "tx_bytes"), Ok(42));
    assert_eq!(sqlite_i64(i64::MAX as u64, "tx_bytes"), Ok(i64::MAX));
    let err = sqlite_i64(i64::MAX as u64 + 1, "rx_bytes").unwrap_err();
    assert_eq!(err.field, "rx_bytes");

    assert_eq!(cumulative_add(None, (10, 20)), Some((10, 20)));
    assert_eq!(cumulative_add(Some((100, 200)), (10, 20)), Some((110, 220)));
    assert_eq!(cumulative_add(Some((i64::MAX, 0)), (1, 0)), None);
}

#[test]
fn transaction_states_follow_their_steps() {
    let idle = SqliteTransactionState::Idle;
    assert!(idle.allows(TransactionStep::Begin));
    assert!(!idle.allows(TransactionStep::Commit));
    let active = idle.after(TransactionStep::Begin, true);
    assert_eq!(active, SqliteTransactionState::Active);
    assert_eq!(idle.after(TransactionStep::Begin, false), SqliteTransactionState::Idle);
    assert_eq!(active.after(TransactionStep::Commit, true), SqliteTransactionState::Idle);
    assert_eq!(active.after(TransactionStep::Rollback, false), SqliteTransactionState::Poisoned);
    let poisoned = SqliteTransactionState::Poisoned;
    assert!(!poisoned.allows(TransactionStep::Begin));
    assert!(!poisoned.allows(TransactionStep::Rollback));
}

#[test]
fn rollback_transaction_discards_pending_traffic_write() {
    assert_eq!(finish_transaction::<&str>(None, None, None), TransactionEnd::Committed);
    assert_eq!(
        finish_transaction(Some("write failed"), None, None),
        TransactionEnd::OperationFailed("write failed")
    );
    assert_eq!(
        finish_transaction(Some("write failed"), None, Some("rollback failed")),
        TransactionEnd::OperationAndRollbackFailed("write failed", "rollback failed")
    );
    assert_eq!(
        finish_transaction(None, Some("commit failed"), None),
        TransactionEnd::CommitFailed("commit failed")
    );
    assert_eq!(
        finish_transaction(None, Some("commit failed"), Some("rollback failed")),
        TransactionEnd::CommitAndRollbackFailed("commit failed", "rollback failed")
    );
}

fn node(b: u8) -> NodeId {
    NodeId::from_bytes(&[b; 4])
}

fn sample(network_id: u64, source: u8, dest: u8, up: u64, down: u64, ended_at_ms: u64) -> SpeedSample {
    SpeedSample {
        network_id,
        source_id: node(source),
        dest_id: node(dest),
        source_to_dest_speed: up,
        dest_to_source_speed: down,
        ended_at_ms,
    }
}

#[test]
fn speed_cache_keeps_latest_window_per_pair_until_expiry() {
    let mut cache = TrafficSpeedCache::new();
    cache.update(&sample(1, 2, 1, 10, 20, 1_000), 1_000);
    let s = cache.get_node_traffic_speed(&node(2), 1_000);
    assert_eq!((s.tx_bytes, s.rx_bytes), (10, 20));
    let s = cache.get_node_traffic_speed(&node(1), 1_000);
    assert_eq!((s.tx_bytes, s.rx_bytes), (20, 10));

    // the same pair reported from the other side, for a later window
    cache.update(&sample(1, 1, 2, 5, 6, 2_000), 2_000);
    let s = cache.get_node_traffic_speed(&node(1), 2_000);
    assert_eq!((s.tx_bytes, s.rx_bytes), (5, 6));

    // an older window does not replace a newer one
    cache.update(&sample(1, 1, 2, 99, 99, 1_500), 2_100);
    let s = cache.get_node_traffic_speed(&node(1), 2_100);
    assert_eq!((s.tx_bytes, s.rx_bytes), (5, 6));

    cache.update(&sample(2, 3, 4, 7, 8, 2_000), 2_000);
    assert_eq!(cache.get_network_traffic_speed(&vec![1], 2_000), 11);
    assert_eq!(cache.get_network_traffic_speed(&vec![1, 2], 2_000), 26);
    assert_eq!(cache.get_network_traffic_speed(&vec![3], 2_000), 0);

    let later = 2_000 + PROXY_TRAFFIC_SPEED_TTL_MS;
    assert_eq!(cache.get_network_traffic_speed(&vec![1, 2], later), 0);
    let s = cache.get_node_traffic_speed(&node(1), later);
    assert_eq!((s.tx_bytes, s.rx_bytes), (0, 0));
}

#[test]
fn password_read_gives_last_write() {
    let mut cache = PasswordCache::new();
    assert_eq!(cache.get_password("alice"), None);
    cache.update_password("alice", "one");
    cache.update_password("bob", "two");
    cache.update_password("alice", "three");
    assert_eq!(cache.get_password("alice").as_deref(), Some("three"));
    assert_eq!(cache.get_password("bob").as_deref(), Some("two"));
    assert_eq!(cache.get_password("carol"), None);
}

#[test]
fn text_trimming_and_number_parsing() {
    assert_eq!(trim_text("  proxy-a \t"), "proxy-a");
    assert_eq!(trim_text("   "), "");
    assert_eq!(parse_u64("600"), Some(600));
    assert_eq!(parse_u64("+7"), Some(7));
    assert_eq!(parse_u64("18446744073709551615"), Some(u64::MAX));
    assert_eq!(parse_u64("18446744073709551616"), None);
    assert_eq!(parse_u64(""), None);
    assert_eq!(parse_u64("1.5"), None);
    assert_eq!(parse_u64("-1"), None);
}

#[test]
fn proxy_sample_adds_to_both_nodes_and_the_group() {
    assert_eq!(
        proxy_sample_contributions(100, 30),
        Some(SampleContributions {
            source: PersistedTrafficStats { tx_bytes: 100, rx_bytes: 30 },
            dest: PersistedTrafficStats { tx_bytes: 30, rx_bytes: 100 },
            group: PersistedTrafficStats { tx_bytes: 130, rx_bytes: 130 },
        })
    );
    assert_eq!(proxy_sample_contributions(u64::MAX, 1), None);
}

#[test]
fn network_rows_store_proxy_ids() {
    assert!(network_pn_server_from_db(String::new()).is_none());
    let proxy = network_pn_server_from_db("proxy-a".to_string()).unwrap();
    assert_eq!(proxy.id, "proxy-a");
    assert!(proxy.payload.endpoints.is_empty());
    assert_eq!(network_pn_server_db_id(Some(&proxy)), "proxy-a");
    assert_eq!(network_pn_server_db_id(None::<&PnServerInfo>), "");
}

fn joined(group_id: u64, allow_join: bool) -> Vec<GroupMembership> {
    vec![GroupMembership { group_id, allow_join }]
}

#[test]
fn accept_when_nodes_share_allowed_group() {
    assert!(has_common_allowed_group(&joined(1, true), &joined(1, true)));
}

#[test]
fn reject_when_nodes_do_not_share_group() {
    assert!(!has_common_allowed_group(&joined(1, true), &joined(2, true)));
}

#[test]
fn reject_when_source_allow_join_is_false() {
    assert!(!has_common_allowed_group(&joined(1, false), &joined(1, true)));
}

#[test]
fn reject_when_target_allow_join_is_false() {
    assert!(!has_common_allowed_group(&joined(1, true), &joined(1, false)));
}

#[test]
fn remote_validator_accepts_selected_network_without_exporting_context() {
    assert_eq!(relay_verdict(Some(3)), RelayVerdict::Accept);
}

#[test]
fn remote_validator_rejects_when_control_returns_no_network() {
    assert_eq!(relay_verdict(None), RelayVerdict::Reject);
}

/// Looks for a proxy's control connection the way the control server does:
/// the connection shows up on look number `available_after` (from zero).
fn observe_control_connection(
    available_after: usize,
    max_attempts: usize,
    remote: &ServiceEndpoint,
) -> (Option<PnServerInfo>, usize) {
    let attempts = observation_attempts(max_attempts);
    let mut calls = 0;
    for attempt in 0..attempts {
        calls += 1;
        if attempt >= available_after {
            return (Some(observed_control_connection("proxy-7".to_string(), remote)), calls);
        }
        if !observation_retries(attempt, attempts) {
            break;
        }
    }
    (None, calls)
}

fn control_remote() -> ServiceEndpoint {
    ServiceEndpoint {
        protocol: Transport::Quic,
        ip: IpAddress::V4(u32::from_be_bytes([47, 113, 93, 155])),
        port: 3625,
    }
}

#[test]
fn first_reonline_heartbeat_waits_for_exact_tunnel_registration() {
    let (observed, calls) = observe_control_connection(2, 3, &control_remote());
    let observed = observed.unwrap();
    assert_eq!(observed.payload.endpoints[0].ip, IpAddress::V4(u32::from_be_bytes([47, 113, 93, 155])));
    assert_eq!(observed.payload.endpoints[0].port, 3625);
    assert_eq!(calls, 3);
}

#[test]
fn missing_exact_tunnel_uses_bounded_fallback() {
    let (observed, calls) = observe_control_connection(usize::MAX, 3, &control_remote());
    assert!(observed.is_none());
    assert_eq!(calls, 3);
}

#[test]
fn bearer_token_is_read_in_any_case() {
    assert_eq!(bearer_session("Bearer abc.def").as_deref(), Some("abc.def"));
    assert_eq!(bearer_session("bEaReR token").as_deref(), Some("token"));
    assert_eq!(bearer_session("Bearer ").as_deref(), Some(""));
    assert_eq!(bearer_session("Basic abc"), None);
    assert_eq!(bearer_session("Bearer"), None);
    assert_eq!(bearer_session("Bearerabc"), None);
}

#[test]
fn callers_act_only_on_their_own_nodes_and_networks() {
    let joined = vec![node(1), node(2)];
    assert!(is_joined(&joined, &node(2)));
    assert!(!is_joined(&joined, &node(3)));
    assert_eq!(network_access(Some(7), 7), Ok(()));
    assert_eq!(network_access(Some(8), 7), Err(AccessError::NoPermission));
    assert_eq!(network_access(None, 7), Err(AccessError::InvalidParam));
}

#[test]
fn node_traffic_retention_ttl_duplicate_boundary_and_expired_replay_accumulate() {
    let retention_ms = 10_000;
    let base_ms = 1_000_000;
    let delta = (10, 20);

    let first = node_traffic_report_effect(10, 20, None, base_ms, retention_ms, None, delta).unwrap();
    assert_eq!(first, NodeTrafficReportEffect::Applied { tx_bytes: 10, rx_bytes: 20 });
    let totals = Some((10, 20));

    assert_eq!(
        node_traffic_report_effect(10, 20, Some(base_ms), base_ms + 9_999, retention_ms, totals, delta),
        Ok(NodeTrafficReportEffect::Duplicate)
    );

    // a row at the exact retention cutoff is expired
    let at_cutoff =
        node_traffic_report_effect(10, 20, Some(base_ms), base_ms + 10_000, retention_ms, totals, delta);
    assert_eq!(at_cutoff, Ok(NodeTrafficReportEffect::Applied { tx_bytes: 20, rx_bytes: 40 }));

    // a replay beyond the retention horizon is a new application
    let replay = node_traffic_report_effect(
        10,
        20,
        Some(base_ms + 10_000),
        base_ms + 20_001,
        retention_ms,
        Some((20, 40)),
        delta,
    );
    assert_eq!(replay, Ok(NodeTrafficReportEffect::Applied { tx_bytes: 30, rx_bytes: 60 }));
}

#[test]
fn node_traffic_report_refusals() {
    assert_eq!(
        node_traffic_report_effect(20, 10, None, 0, 1_000, None, (1, 1)),
        Err(NodeTrafficReportError::InvalidRange)
    );
    assert!(matches!(
        node_traffic_report_effect(0, u64::MAX, None, 0, 1_000, None, (1, 1)),
        Err(NodeTrafficReportError::OutOfRange(_))
    ));
    assert_eq!(
        node_traffic_report_effect(0, 1, None, 0, 1_000, Some((i64::MAX, 0)), (1, 0)),
        Err(NodeTrafficReportError::TotalsOutOfRange)
    );
    assert_eq!(
        node_traffic_report_effect(0, 1, None, 0, 1_000, None, (u64::MAX, 0)),
        Err(NodeTrafficReportError::TotalsOutOfRange)
    );
}

#[test]
fn node_traffic_retention_ttl_speed_uses_configured_ttl_not_report_window() {
    let configured_ttl_ms = 150;
    let mut cache = TrafficSpeedCache::new_with_ttl(configured_ttl_ms);
    let now = 5_000;
    let reports = [
        ("short-window-speed", 93u8, 10u64, 11u64),
        ("normal-window-speed", 94, 10, 5_010),
        ("long-idle-window-speed", 95, 1, 30 * 24 * 60 * 60 * 1000),
        ("rollback-shaped-window-speed", 96, 0, 1),
    ];
    for (report_id, node_byte, started_at_ms, ended_at_ms) in reports {
        assert_eq!(
            node_traffic_report_effect(started_at_ms, ended_at_ms, None, now, 600_000, None, (10, 20)),
            Ok(NodeTrafficReportEffect::Applied { tx_bytes: 10, rx_bytes: 20 }),
            "report_id={report_id}"
        );
        cache.record_node_speed(&node(node_byte), 3, 4, now);
        assert_eq!(
            cache.get_node_traffic_speed(&node(node_byte), now),
            PersistedTrafficStats { tx_bytes: 3, rx_bytes: 4 },
            "report_id={report_id}"
        );
    }
    let later = now + configured_ttl_ms + 50;
    for (report_id, node_byte, _, _) in reports {
        assert_eq!(
            cache.get_node_traffic_speed(&node(node_byte), later),
            PersistedTrafficStats::default(),
            "report window must not extend configured cache expiry: {report_id}"
        );
    }
}

#[test]
fn node_speed_replaces_earlier_report_and_adds_to_pair_speeds() {
    let mut cache = TrafficSpeedCache::new();
    cache.update(&sample(1, 1, 2, 10, 20, 1_000), 1_000);
    cache.record_node_speed(&node(1), 3, 4, 1_000);
    cache.record_node_speed(&node(1), 5, 6, 1_100);
    let s = cache.get_node_traffic_speed(&node(1), 1_200);
    assert_eq!((s.tx_bytes, s.rx_bytes), (15, 26));
    assert_eq!(cache.get_network_traffic_speed(&vec![1], 1_200), 30);
    let s = cache.get_node_traffic_speed(&node(1), 1_000 + PROXY_TRAFFIC_SPEED_TTL_MS);
    assert_eq!((s.tx_bytes, s.rx_bytes), (5, 6));
}
