use vpn_server::proxy_info::{IpAddress, PnServerEndpoint, PnServerPortMapping};
use vpn_server::server_config::{
    advertised_ip_for, first_non_loopback_interface_ip, get_pn_port_mapping_config,
    InterfaceAddress, endpoint_to_pn_server, endpoints_to_pn_server, get_node_traffic_idempotency_retention_secs,
    get_pn_traffic_upload_config, get_server_name_config, get_sn_admin_config,
    get_sn_http_config, get_sn_jwt_config, get_sn_server_config, is_standalone_proxy_node,
    pn_server_config_from, read_pn_server_lookups, resolve_service_endpoints,
    select_default_config_file, should_start_pn_server, validate_server_mode,
    DiscoveredAddresses, PnControlServerConfig, PnPortMappingConfig, PnServerConfig,
    PnTrafficUploadConfig, PnTransportMode, ServerConfigError, ServiceEndpoint, SnAdminConfig, SnHttpConfig,
    SnJwtConfig, SnServerConfig, Transport, DEFAULT_NODE_TRAFFIC_IDEMPOTENCY_RETENTION_SECS,
};

fn config_from_yaml(yaml: &str) -> config::Config {
    config::Config::builder()
        .add_source(config::File::from_str(yaml, config::FileFormat::Yaml))
        .build()
        .unwrap()
}

fn ipv4(a: u8, b: u8, c: u8, d: u8) -> IpAddress {
    IpAddress::V4(u32::from_be_bytes([a, b, c, d]))
}

fn quic_endpoint(ip: IpAddress, port: u16) -> ServiceEndpoint {
    ServiceEndpoint { protocol: Transport::Quic, ip, port }
}

fn pn_config(enabled: bool) -> PnServerConfig {
    pn_config_with(enabled, PnTransportMode::Dual)
}

fn pn_config_with(enabled: bool, transport: PnTransportMode) -> PnServerConfig {
    PnServerConfig {
        enabled,
        transport,
        control_server: None,
        report_interval_secs: 5,
        heartbeat_interval_secs: 5,
        heartbeat_timeout_secs: 15,
        advertised_ip: None,
        port_mapping: PnPortMappingConfig::default(),
        report_local_address: true,
    }
}

fn no_discovery() -> DiscoveredAddresses {
    DiscoveredAddresses { v4: IpAddress::V4(0), v6: IpAddress::V6(0) }
}

/// The proxy configuration of a YAML text whose control endpoint and
/// advertised address, if any, read as the given values.
fn pn_from_yaml(
    yaml: &str,
    control_endpoint: Option<Result<(IpAddress, u16), String>>,
    advertised_ip: Option<Result<IpAddress, String>>,
) -> Result<PnServerConfig, ServerConfigError> {
    let config = config_from_yaml(yaml);
    pn_server_config_from(read_pn_server_lookups(&config), control_endpoint, advertised_ip)
}

#[test]
fn default_config_prefers_yaml_over_legacy_toml() {
    assert_eq!(select_default_config_file(true), "config.yaml");
}

#[test]
fn default_config_falls_back_to_legacy_toml_when_yaml_missing() {
    assert_eq!(select_default_config_file(false), "config.toml");
}

#[test]
fn sn_and_pn_default_enabled_without_config_file() {
    let config = config_from_yaml("");
    let sn_config = get_sn_server_config(&config);
    let pn_config =
        pn_server_config_from(read_pn_server_lookups(&config), None, None).unwrap();

    assert!(sn_config.enabled);
    assert!(pn_config.enabled);
    assert_eq!(pn_config.report_interval_secs, 5);
    assert_eq!(pn_config.heartbeat_interval_secs, 5);
    assert_eq!(pn_config.heartbeat_timeout_secs, 15);
}

#[test]
fn yaml_can_enable_pn_server() {
    let pn_config = pn_from_yaml("\npn:\n  enabled: true\n", None, None).unwrap();
    assert!(pn_config.enabled);
}

#[test]
fn yaml_can_disable_default_sn_and_pn_servers() {
    let yaml = "\nsn:\n  enabled: false\npn:\n  enabled: false\n";
    let config = config_from_yaml(yaml);
    let sn_config = get_sn_server_config(&config);
    let pn_config = pn_from_yaml(yaml, None, None).unwrap();

    assert!(!sn_config.enabled);
    assert!(!pn_config.enabled);
}

#[test]
fn yaml_can_configure_server_name() {
    let config = config_from_yaml("\nname: \" proxy-a \"\n");
    assert_eq!(get_server_name_config(&config).as_deref(), Some("proxy-a"));
}

#[test]
fn blank_server_name_is_no_name() {
    let config = config_from_yaml("\nname: \"   \"\n");
    assert_eq!(get_server_name_config(&config), None);
    let config = config_from_yaml("");
    assert_eq!(get_server_name_config(&config), None);
}

#[test]
fn yaml_can_configure_sn_owned_management_config() {
    let config = config_from_yaml(
        r#"
sn:
  http:
    ip: "127.0.0.1"
    port: 8080
  admin:
    name: "owner"
    password: "secret"
  jwt:
    key: "sn-jwt-secret"
"#,
    );
    let http_config = get_sn_http_config(&config).unwrap();
    let admin_config = get_sn_admin_config(&config).unwrap();
    let jwt_config = get_sn_jwt_config(&config).unwrap();

    assert_eq!(http_config, SnHttpConfig { ip: "127.0.0.1".to_string(), port: 8080 });
    assert_eq!(
        admin_config,
        SnAdminConfig { name: "owner".to_string(), password: "secret".to_string() }
    );
    assert_eq!(jwt_config, SnJwtConfig { key: "sn-jwt-secret".to_string() });
}

#[test]
fn legacy_top_level_management_config_remains_compatible() {
    let config = config_from_yaml(
        r#"
http:
  ip: "127.0.0.2"
  port: 9090
admin:
  name: "legacy"
  password: "legacy-secret"
jwt:
  key: "legacy-jwt-secret"
"#,
    );
    let http_config = get_sn_http_config(&config).unwrap();
    let admin_config = get_sn_admin_config(&config).unwrap();
    let jwt_config = get_sn_jwt_config(&config).unwrap();

    assert_eq!(http_config, SnHttpConfig { ip: "127.0.0.2".to_string(), port: 9090 });
    assert_eq!(
        admin_config,
        SnAdminConfig { name: "legacy".to_string(), password: "legacy-secret".to_string() }
    );
    assert_eq!(jwt_config, SnJwtConfig { key: "legacy-jwt-secret".to_string() });
}

#[test]
fn management_port_out_of_range_is_refused() {
    let config = config_from_yaml("sn:\n  http:\n    ip: \"127.0.0.1\"\n    port: 70000\n");
    match get_sn_http_config(&config) {
        Err(ServerConfigError::InvalidPort { key, value }) => {
            assert_eq!(key, "sn.http.port");
            assert_eq!(value, 70000);
        }
        other => panic!("unexpected result: {other:?}"),
    }
    let config = config_from_yaml("sn:\n  http:\n    port: 80\n");
    assert!(matches!(get_sn_http_config(&config), Err(ServerConfigError::Config(_))));
}

#[test]
fn pn_server_start_depends_on_pn_enabled_only() {
    let enabled_sn = SnServerConfig { enabled: true };
    let disabled_sn = SnServerConfig { enabled: false };
    let enabled_pn = pn_config(true);
    let disabled_pn = pn_config(false);

    assert!(should_start_pn_server(&enabled_sn, &enabled_pn));
    assert!(should_start_pn_server(&disabled_sn, &enabled_pn));
    assert!(!should_start_pn_server(&enabled_sn, &disabled_pn));
    assert!(!should_start_pn_server(&disabled_sn, &disabled_pn));
}

#[test]
fn standalone_proxy_node_requires_disabled_sn_and_enabled_pn() {
    let enabled_sn = SnServerConfig { enabled: true };
    let disabled_sn = SnServerConfig { enabled: false };
    let enabled_pn = pn_config(true);
    let disabled_pn = pn_config(false);

    assert!(is_standalone_proxy_node(&disabled_sn, &enabled_pn));
    assert!(!is_standalone_proxy_node(&enabled_sn, &enabled_pn));
    assert!(!is_standalone_proxy_node(&disabled_sn, &disabled_pn));
}

#[test]
fn proxy_address_defaults_to_control_endpoint_without_static_proxy_addresses() {
    let sn = SnServerConfig { enabled: true };
    let pn = pn_config(true);
    let sn_endpoint = quic_endpoint(ipv4(127, 0, 0, 1), 3624);

    let endpoints = resolve_service_endpoints(sn_endpoint, &sn, &pn);

    assert_eq!(endpoints.len(), 2);
    assert_eq!(format!("{:?}", endpoints[0]), format!("{:?}", sn_endpoint));
    assert_eq!(endpoints[1].protocol, Transport::Tcp);
    assert_eq!((endpoints[1].ip, endpoints[1].port), (sn_endpoint.ip, sn_endpoint.port));
}

#[test]
fn service_endpoints_do_not_include_static_proxy_addresses() {
    let sn = SnServerConfig { enabled: true };
    let disabled_sn = SnServerConfig { enabled: false };
    let pn = pn_config(true);
    let sn_endpoint = quic_endpoint(ipv4(127, 0, 0, 1), 3624);

    let endpoints = resolve_service_endpoints(sn_endpoint, &sn, &pn);
    assert_eq!(endpoints.len(), 2);

    let endpoints = resolve_service_endpoints(sn_endpoint, &disabled_sn, &pn);
    assert_eq!(endpoints.len(), 2);
}

#[test]
fn tcp_service_endpoint_is_not_doubled() {
    let sn = SnServerConfig { enabled: true };
    let pn = pn_config(true);
    let tcp = ServiceEndpoint { protocol: Transport::Tcp, ip: ipv4(127, 0, 0, 1), port: 3624 };
    assert_eq!(resolve_service_endpoints(tcp, &sn, &pn), vec![tcp]);
}

#[test]
fn endpoint_to_pn_server_preserves_unspecified_ip() {
    let endpoint = quic_endpoint(ipv4(0, 0, 0, 0), 4600);

    let pn_server = endpoint_to_pn_server("remote-node-id", &endpoint);

    assert_eq!(pn_server.id, "remote-node-id");
    assert_eq!(pn_server.payload.endpoints, vec![PnServerEndpoint::new(ipv4(0, 0, 0, 0), 4600)]);
}

#[test]
fn endpoints_to_pn_server_reports_advertised_ip_and_port_mapping() {
    let quic = quic_endpoint(ipv4(127, 0, 0, 1), 3624);
    let tcp = ServiceEndpoint { protocol: Transport::Tcp, ..quic };
    let advertised_ip = ipv4(203, 0, 113, 7);
    let port_mapping = PnPortMappingConfig { quic: Some(43624), tcp: Some(443) };

    let pn_server = endpoints_to_pn_server(
        "remote-node-id",
        &quic,
        &vec![quic, tcp],
        Some(advertised_ip),
        &port_mapping,
        true,
        no_discovery(),
    );

    let payload = &pn_server.payload;
    assert_eq!(
        payload.endpoints,
        vec![
            PnServerEndpoint::new_with_protocol("quic", advertised_ip, 3624),
            PnServerEndpoint::new_tcp(advertised_ip, 3624),
        ]
    );
    assert_eq!(payload.advertised_ip, Some(advertised_ip));
    assert_eq!(payload.port_mapping, Some(PnServerPortMapping { quic: Some(43624), tcp: Some(443) }));

    let without_mapping = endpoints_to_pn_server(
        "remote-node-id",
        &quic,
        &vec![quic, tcp],
        Some(advertised_ip),
        &PnPortMappingConfig::default(),
        true,
        no_discovery(),
    );
    assert_eq!(without_mapping.payload.port_mapping, None);
    assert!(without_mapping.payload.endpoints.iter().all(|endpoint| endpoint.port == 3624));
}

#[test]
fn advertised_ip_overrides_discovery_and_report_local_false() {
    let quic = quic_endpoint(ipv4(0, 0, 0, 0), 3624);
    let tcp = ServiceEndpoint { protocol: Transport::Tcp, ..quic };
    let advertised_ip = ipv4(198, 51, 100, 9);
    let port_mapping = PnPortMappingConfig { quic: Some(43624), tcp: Some(443) };
    let discovered = DiscoveredAddresses { v4: ipv4(127, 0, 0, 1), v6: IpAddress::V6(0) };

    let pn_server = endpoints_to_pn_server(
        "remote-node-id",
        &quic,
        &vec![quic, tcp],
        Some(advertised_ip),
        &port_mapping,
        false,
        discovered,
    );

    let payload = &pn_server.payload;
    assert_eq!(
        payload.endpoints,
        vec![
            PnServerEndpoint::new_with_protocol("quic", advertised_ip, 3624),
            PnServerEndpoint::new_tcp(advertised_ip, 3624),
        ]
    );
    assert_eq!(payload.advertised_ip, Some(advertised_ip));
    assert_eq!(payload.port_mapping, Some(PnServerPortMapping { quic: Some(43624), tcp: Some(443) }));
}

#[test]
fn unspecified_listener_reports_discovered_or_unspecified_address() {
    let quic = quic_endpoint(ipv4(0, 0, 0, 0), 3624);
    let tcp = ServiceEndpoint { protocol: Transport::Tcp, ..quic };
    let discovered = DiscoveredAddresses { v4: ipv4(10, 0, 0, 7), v6: IpAddress::V6(0) };

    let reported = endpoints_to_pn_server(
        "node",
        &quic,
        &vec![quic, tcp],
        None,
        &PnPortMappingConfig::default(),
        true,
        discovered,
    );
    assert_eq!(
        reported.payload.endpoints,
        vec![
            PnServerEndpoint::new(ipv4(10, 0, 0, 7), 3624),
            PnServerEndpoint::new_tcp(ipv4(10, 0, 0, 7), 3624),
        ]
    );

    let suppressed = endpoints_to_pn_server(
        "node",
        &quic,
        &vec![quic, tcp],
        None,
        &PnPortMappingConfig::default(),
        false,
        discovered,
    );
    assert_eq!(
        suppressed.payload.endpoints,
        vec![
            PnServerEndpoint::new(ipv4(0, 0, 0, 0), 3624),
            PnServerEndpoint::new_tcp(ipv4(0, 0, 0, 0), 3624),
        ]
    );
}

#[test]
fn yaml_can_configure_pn_control_server() {
    let pn_config = pn_from_yaml(
        r#"
pn:
  control_server:
    id: "server-peer"
    endpoint: "127.0.0.1:3624"
  report_interval_secs: 9
"#,
        Some(Ok((ipv4(127, 0, 0, 1), 3624))),
        None,
    )
    .unwrap();

    assert_eq!(
        pn_config.control_server,
        Some(PnControlServerConfig {
            id: "server-peer".to_string(),
            name: None,
            endpoints: vec![
                quic_endpoint(ipv4(127, 0, 0, 1), 3624),
                ServiceEndpoint { protocol: Transport::Tcp, ip: ipv4(127, 0, 0, 1), port: 3624 },
            ],
        })
    );
    assert_eq!(pn_config.report_interval_secs, 9);
    assert_eq!(pn_config.heartbeat_interval_secs, 5);
    assert_eq!(pn_config.heartbeat_timeout_secs, 15);
}

#[test]
fn control_server_endpoint_without_id_is_refused() {
    let err = pn_from_yaml(
        "pn:\n  control_server:\n    endpoint: \"127.0.0.1:3624\"\n",
        Some(Ok((ipv4(127, 0, 0, 1), 3624))),
        None,
    )
    .unwrap_err();
    match err {
        ServerConfigError::ControlServerIdRequired { prefix } => {
            assert_eq!(prefix, "pn.control_server")
        }
        other => panic!("unexpected error: {other:?}"),
    }
}

#[test]
fn unreadable_control_endpoint_is_refused() {
    let err = pn_from_yaml(
        "pn:\n  control_server:\n    id: \"peer\"\n    endpoint: \"nowhere\"\n",
        Some(Err("invalid socket address syntax".to_string())),
        None,
    )
    .unwrap_err();
    match err {
        ServerConfigError::InvalidControlEndpoint { address, reason } => {
            assert_eq!(address, "nowhere");
            assert_eq!(reason, "invalid socket address syntax");
        }
        other => panic!("unexpected error: {other:?}"),
    }
}

#[test]
fn heartbeat_timeout_must_exceed_interval() {
    let err = pn_from_yaml(
        "pn:\n  heartbeat_interval_secs: 20\n  heartbeat_timeout_secs: 20\n",
        None,
        None,
    )
    .unwrap_err();
    match err {
        ServerConfigError::HeartbeatTimeoutNotAfterInterval { timeout_secs, interval_secs } => {
            assert_eq!((timeout_secs, interval_secs), (20, 20));
        }
        other => panic!("unexpected error: {other:?}"),
    }
    let ok = pn_from_yaml("pn:\n  heartbeat_interval_secs: 0\n", None, None).unwrap();
    assert_eq!((ok.heartbeat_interval_secs, ok.heartbeat_timeout_secs), (5, 15));
}

#[test]
fn yaml_can_configure_pn_advertised_ip_ipv4_ipv6_and_port_mapping() {
    let pn_config = pn_from_yaml(
        r#"
pn:
  advertised_ip: "203.0.113.7"
  port_mapping:
    quic: 43624
    tcp: 443
"#,
        None,
        Some(Ok(ipv4(203, 0, 113, 7))),
    )
    .unwrap();

    assert_eq!(pn_config.advertised_ip, Some(ipv4(203, 0, 113, 7)));
    assert_eq!(pn_config.port_mapping, PnPortMappingConfig { quic: Some(43624), tcp: Some(443) });
    assert!(pn_config.report_local_address);

    let v6 = IpAddress::V6(0x2001_0db8_0000_0000_0000_0000_0000_0007);
    let pn_config = pn_from_yaml(
        "\npn:\n  advertised_ip: \"2001:db8::7\"\n  report_local_address: false\n",
        None,
        Some(Ok(v6)),
    )
    .unwrap();
    assert_eq!(pn_config.advertised_ip, Some(v6));
    assert!(!pn_config.report_local_address);
}

#[test]
fn legacy_map_ports_are_read_and_invalid_ports_refused() {
    let pn_config =
        pn_from_yaml("pn:\n  map_ports:\n    quic: 1000\n", None, None).unwrap();
    assert_eq!(pn_config.port_mapping, PnPortMappingConfig { quic: Some(1000), tcp: None });

    let err = pn_from_yaml("pn:\n  port_mapping:\n    tcp: 0\n", None, None).unwrap_err();
    assert!(matches!(err, ServerConfigError::InvalidPort { value: 0, .. }));
}

#[test]
fn yaml_rejects_invalid_or_unspecified_pn_advertised_ip() {
    let cases: [(&str, Result<IpAddress, String>); 3] = [
        ("not-an-ip", Err("invalid IP address syntax".to_string())),
        ("0.0.0.0", Ok(IpAddress::V4(0))),
        ("::", Ok(IpAddress::V6(0))),
    ];
    for (text, parsed) in cases {
        let yaml = format!("pn:\n  advertised_ip: \"{text}\"\n");
        assert!(
            pn_from_yaml(&yaml, None, Some(parsed)).is_err(),
            "advertised_ip {text:?} must be rejected"
        );
    }
}

#[test]
fn sn_control_server_is_not_pn_control_config() {
    let pn_config = pn_from_yaml(
        "\nsn:\n  control_server:\n    id: \"sn-server-peer\"\n    endpoint: \"127.0.0.1:4624\"\n",
        None,
        None,
    )
    .unwrap();
    assert_eq!(pn_config.control_server, None);
}

#[test]
fn server_mode_rules() {
    let sn = SnServerConfig { enabled: true };
    let standalone = SnServerConfig { enabled: false };
    let mut pn = pn_config(true);

    assert!(validate_server_mode(&sn, &pn, None).is_ok());
    assert!(matches!(
        validate_server_mode(&standalone, &pn, None),
        Err(ServerConfigError::StandaloneNeedsControlServer)
    ));

    pn.control_server = Some(PnControlServerConfig {
        id: "peer".to_string(),
        name: None,
        endpoints: vec![quic_endpoint(ipv4(127, 0, 0, 1), 4624)],
    });
    assert!(matches!(
        validate_server_mode(&sn, &pn, None),
        Err(ServerConfigError::ControlServerInSameProcess)
    ));
    assert!(validate_server_mode(&standalone, &pn, None).is_ok());
    assert!(matches!(
        validate_server_mode(&standalone, &pn, Some("bad id".to_string())),
        Err(ServerConfigError::InvalidControlServerId { .. })
    ));
    assert!(validate_server_mode(&standalone, &pn_config(false), None).is_ok());
}

#[test]
fn node_traffic_retention_ttl_config_default_override_and_invalid_values() {
    let config = config::Config::builder()
        .set_default(
            "pn.node_traffic_idempotency_retention_secs",
            DEFAULT_NODE_TRAFFIC_IDEMPOTENCY_RETENTION_SECS as i64,
        )
        .unwrap()
        .build()
        .unwrap();
    assert_eq!(get_node_traffic_idempotency_retention_secs(&config).unwrap(), 600);

    let config = config_from_yaml("pn:\n  node_traffic_idempotency_retention_secs: 37\n");
    assert_eq!(get_node_traffic_idempotency_retention_secs(&config).unwrap(), 37);
    let config = config_from_yaml("pn:\n  node_traffic_idempotency_retention_secs: \"600\"\n");
    assert_eq!(get_node_traffic_idempotency_retention_secs(&config).unwrap(), 600);

    for (case, value) in [
        ("zero", "0"),
        ("negative", "-1"),
        ("floating-point", "1.5"),
        ("non-numeric", "\"not-a-number\""),
        ("over-u64", "18446744073709551616"),
    ] {
        let built = config::Config::builder()
            .add_source(config::File::from_str(
                &format!("pn:\n  node_traffic_idempotency_retention_secs: {value}\n"),
                config::FileFormat::Yaml,
            ))
            .build();
        if let Ok(config) = built {
            assert!(
                get_node_traffic_idempotency_retention_secs(&config).is_err(),
                "invalid explicit retention must be rejected: case={case}"
            );
        }
    }
    let config = config_from_yaml("pn:\n  node_traffic_idempotency_retention_secs: 0\n");
    match get_node_traffic_idempotency_retention_secs(&config) {
        Err(ServerConfigError::NotPositiveU64 { key }) => {
            assert_eq!(key, "pn.node_traffic_idempotency_retention_secs")
        }
        other => panic!("unexpected result: {other:?}"),
    }
}

#[test]
fn traffic_upload_limits_default_and_range() {
    assert_eq!(
        PnTrafficUploadConfig::default(),
        PnTrafficUploadConfig {
            records_per_command: 128,
            concurrent_commands: 4,
            backlog_batches: 64,
            retry_delay_ms: 250,
            shutdown_drain_secs: 5,
        }
    );
    let config = config_from_yaml(
        "pn:\n  traffic_upload:\n    records_per_command: 10\n    concurrent_commands: 2\n    backlog_batches: 8\n    retry_delay_ms: 100\n    shutdown_drain_secs: 3\n",
    );
    assert_eq!(
        get_pn_traffic_upload_config(&config, 256).unwrap(),
        PnTrafficUploadConfig {
            records_per_command: 10,
            concurrent_commands: 2,
            backlog_batches: 8,
            retry_delay_ms: 100,
            shutdown_drain_secs: 3,
        }
    );
    match get_pn_traffic_upload_config(&config, 5) {
        Err(ServerConfigError::OutOfRange { key, max, value }) => {
            assert_eq!(key, "pn.traffic_upload.records_per_command");
            assert_eq!((max, value), (5, 10));
        }
        other => panic!("unexpected result: {other:?}"),
    }
}

#[test]
fn port_mapping_prefers_new_keys_over_legacy_ones() {
    let config = config_from_yaml(
        "pn:\n  port_mapping:\n    quic: 43624\n  map_ports:\n    quic: 1000\n    tcp: 443\n",
    );
    assert_eq!(
        get_pn_port_mapping_config(&config).unwrap(),
        PnPortMappingConfig { quic: Some(43624), tcp: Some(443) }
    );
    let config = config_from_yaml("pn:\n  map_ports:\n    tcp: 70000\n");
    match get_pn_port_mapping_config(&config) {
        Err(ServerConfigError::InvalidPort { key, value }) => {
            assert_eq!(key, "pn.port_mapping.tcp");
            assert_eq!(value, 70000);
        }
        other => panic!("unexpected result: {other:?}"),
    }
}

#[test]
fn discovered_address_prefers_listener_then_route_then_interface() {
    let unspecified = IpAddress::V4(0);
    let listener = ipv4(10, 0, 0, 1);
    let routed = ipv4(192, 168, 1, 5);
    let interface = ipv4(172, 16, 0, 9);
    assert_eq!(advertised_ip_for(listener, Some(routed), Some(interface)), listener);
    assert_eq!(advertised_ip_for(unspecified, Some(routed), Some(interface)), routed);
    assert_eq!(advertised_ip_for(unspecified, Some(unspecified), Some(interface)), interface);
    assert_eq!(advertised_ip_for(unspecified, None, Some(interface)), interface);
    assert_eq!(advertised_ip_for(unspecified, None, None), unspecified);
}

#[test]
fn first_interface_skips_loopback_and_other_family() {
    let interfaces = vec![
        InterfaceAddress { ip: ipv4(127, 0, 0, 1), is_loopback: true },
        InterfaceAddress { ip: IpAddress::V6(0x2001_0db8_0000_0000_0000_0000_0000_0001), is_loopback: false },
        InterfaceAddress { ip: ipv4(10, 1, 2, 3), is_loopback: false },
        InterfaceAddress { ip: ipv4(10, 9, 9, 9), is_loopback: false },
    ];
    assert_eq!(first_non_loopback_interface_ip(&interfaces, IpAddress::V4(0)), Some(ipv4(10, 1, 2, 3)));
    assert_eq!(
        first_non_loopback_interface_ip(&interfaces, IpAddress::V6(0)),
        Some(IpAddress::V6(0x2001_0db8_0000_0000_0000_0000_0000_0001))
    );
    assert_eq!(first_non_loopback_interface_ip(&interfaces[..1].to_vec(), IpAddress::V4(0)), None);
}

#[test]
fn configuration_values_read_as_the_configuration_converts_them() {
    let config = config_from_yaml("sn:\n  enabled: 0\nname: 42\n");
    assert!(!get_sn_server_config(&config).enabled);
    assert_eq!(get_server_name_config(&config).as_deref(), Some("42"));

    let config = config_from_yaml("pn:\n  node_traffic_idempotency_retention_secs: true\n");
    assert!(get_node_traffic_idempotency_retention_secs(&config).is_err());

    let config = config_from_yaml("pn:\n  port_mapping:\n    quic: true\n");
    assert_eq!(
        get_pn_port_mapping_config(&config).unwrap(),
        PnPortMappingConfig { quic: Some(1), tcp: None }
    );

    let config = config_from_yaml("");
    assert!(get_sn_jwt_config(&config).is_err());
    assert!(get_sn_admin_config(&config).is_err());
}

fn protocols_of(endpoints: &[ServiceEndpoint]) -> Vec<Transport> {
    endpoints.iter().map(|endpoint| endpoint.protocol).collect()
}

#[test]
fn pn_transport_config_parses_exact_modes_and_control_candidate_order() {
    let expected = [
        ("tcp", PnTransportMode::Tcp, vec![Transport::Tcp]),
        ("quic", PnTransportMode::Quic, vec![Transport::Quic]),
        ("dual", PnTransportMode::Dual, vec![Transport::Quic, Transport::Tcp]),
    ];

    for (value, mode, protocols) in expected {
        let pn = pn_from_yaml(
            &format!(
                "\npn:\n  transport: {value}\n  control_server:\n    id: control-peer\n    endpoint: \"127.0.0.1:4624\"\n"
            ),
            Some(Ok((ipv4(127, 0, 0, 1), 4624))),
            None,
        )
        .unwrap();

        assert_eq!(pn.transport, mode);
        let control = pn.control_server.unwrap();
        assert_eq!(protocols_of(&control.endpoints), protocols);
        assert!(control
            .endpoints
            .iter()
            .all(|endpoint| (endpoint.ip, endpoint.port) == (ipv4(127, 0, 0, 1), 4624)));
    }
}

#[test]
fn pn_transport_config_omission_defaults_to_dual() {
    let pn = pn_from_yaml("pn:\n  enabled: true\n", None, None).unwrap();

    assert_eq!(pn.transport, PnTransportMode::Dual);
}

#[test]
fn pn_transport_config_rejects_unknown_blank_case_variant_and_non_string_values() {
    for (yaml, text) in [
        ("pn:\n  transport: udp\n", "udp"),
        ("pn:\n  transport: \"\"\n", ""),
        ("pn:\n  transport: TCP\n", "TCP"),
        ("pn:\n  transport: 1\n", "1"),
        ("pn:\n  transport: true\n", "true"),
    ] {
        match pn_from_yaml(yaml, None, None).unwrap_err() {
            ServerConfigError::InvalidTransport { text: got } => assert_eq!(got, text),
            other => panic!("unexpected error: {other:?}"),
        }
    }
}

#[test]
fn pn_transport_config_modes_drive_service_primary_report_and_mapping() {
    let sn = SnServerConfig { enabled: false };
    let listen = quic_endpoint(IpAddress::V4(0), 3624);
    let advertised_ip = ipv4(203, 0, 113, 8);
    let mapping = PnPortMappingConfig { quic: Some(43624), tcp: Some(443) };
    let expected = [
        (
            PnTransportMode::Tcp,
            vec![Transport::Tcp],
            Some(PnServerPortMapping { quic: None, tcp: Some(443) }),
        ),
        (
            PnTransportMode::Quic,
            vec![Transport::Quic],
            Some(PnServerPortMapping { quic: Some(43624), tcp: None }),
        ),
        (
            PnTransportMode::Dual,
            vec![Transport::Quic, Transport::Tcp],
            Some(PnServerPortMapping { quic: Some(43624), tcp: Some(443) }),
        ),
    ];

    for (mode, protocols, expected_mapping) in expected {
        let mut pn = pn_config_with(true, mode);
        pn.advertised_ip = Some(advertised_ip);
        pn.port_mapping = mapping;
        let endpoints = resolve_service_endpoints(listen, &sn, &pn);
        let filtered_mapping = mode.filter_port_mapping(&pn.port_mapping);

        assert_eq!(protocols_of(&endpoints), protocols);
        let report = endpoints_to_pn_server(
            "standalone-pn",
            endpoints.first().unwrap(),
            &endpoints,
            pn.advertised_ip,
            &filtered_mapping,
            true,
            no_discovery(),
        );
        let reported_protocols: Vec<String> =
            report.payload.endpoints.iter().map(|endpoint| endpoint.protocol.clone()).collect();
        let expected_reported: Vec<String> = protocols
            .iter()
            .map(|protocol| match protocol {
                Transport::Quic => "quic".to_string(),
                Transport::Tcp => "tcp".to_string(),
                Transport::Ext => unreachable!(),
            })
            .collect();

        assert_eq!(reported_protocols, expected_reported);
        assert_eq!(report.payload.endpoints[0].protocol, expected_reported[0]);
        assert_eq!(report.payload.port_mapping, expected_mapping);
    }
}

#[test]
fn pn_transport_config_sn_only_keeps_dual_endpoints_and_combined_rejects_single_protocol() {
    let sn = SnServerConfig { enabled: true };
    let listen = quic_endpoint(ipv4(127, 0, 0, 1), 3624);

    for mode in [PnTransportMode::Tcp, PnTransportMode::Quic] {
        let disabled_pn = pn_config_with(false, mode);
        assert!(validate_server_mode(&sn, &disabled_pn, None).is_ok());
        assert_eq!(
            protocols_of(&resolve_service_endpoints(listen, &sn, &disabled_pn)),
            vec![Transport::Quic, Transport::Tcp]
        );

        let combined = pn_config_with(true, mode);
        match validate_server_mode(&sn, &combined, None) {
            Err(ServerConfigError::TransportMustBeDual { mode: got }) => assert_eq!(got, mode),
            other => panic!("unexpected result: {other:?}"),
        }
    }

    let combined_dual = pn_config_with(true, PnTransportMode::Dual);
    assert!(validate_server_mode(&sn, &combined_dual, None).is_ok());
}

fn text_settings_config(retry_delay_ms: &str) -> config::Config {
    config::Config::builder()
        .set_override("pn.enabled", "Off")
        .unwrap()
        .set_override("pn.report_interval_secs", "+9")
        .unwrap()
        .set_override("pn.report_local_address", "YES")
        .unwrap()
        .set_override("pn.traffic_upload.records_per_command", "7")
        .unwrap()
        .set_override("pn.traffic_upload.concurrent_commands", "on")
        .unwrap()
        .set_override("pn.traffic_upload.backlog_batches", 4)
        .unwrap()
        .set_override("pn.traffic_upload.retry_delay_ms", retry_delay_ms)
        .unwrap()
        .set_override("pn.traffic_upload.shutdown_drain_secs", "5")
        .unwrap()
        .build()
        .unwrap()
}

#[test]
fn text_settings_read_as_numbers_and_switches() {
    let config = text_settings_config("250");
    let pn = pn_server_config_from(read_pn_server_lookups(&config), None, None).unwrap();
    assert!(!pn.enabled);
    assert_eq!(pn.report_interval_secs, 9);
    assert!(pn.report_local_address);

    let upload = get_pn_traffic_upload_config(&config, 128).unwrap();
    assert_eq!(upload.records_per_command, 7);
    assert_eq!(upload.concurrent_commands, 1);
    assert_eq!(upload.backlog_batches, 4);
    assert_eq!(upload.retry_delay_ms, 250);
    assert_eq!(upload.shutdown_drain_secs, 5);

    // a negative text is read as the negative number it writes, out of range
    let config = text_settings_config("-0250");
    assert!(matches!(
        get_pn_traffic_upload_config(&config, 128),
        Err(ServerConfigError::OutOfRange { value: -250, .. })
    ));
}

#[test]
fn text_settings_that_name_nothing_are_refused() {
    let config = config::Config::builder()
        .set_override("pn.enabled", "maybe")
        .unwrap()
        .build()
        .unwrap();
    // a switch that reads as nothing falls back to its default
    let pn = pn_server_config_from(read_pn_server_lookups(&config), None, None).unwrap();
    assert!(pn.enabled);

    let config = config::Config::builder()
        .set_override("pn.traffic_upload.records_per_command", "seven")
        .unwrap()
        .build()
        .unwrap();
    assert!(get_pn_traffic_upload_config(&config, 128).is_err());
}
