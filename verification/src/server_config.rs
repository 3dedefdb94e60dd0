//! Server configuration: the values the server runs with and the rules that
//! check them.

use vstd::prelude::*;
use vstd::string::*;
use crate::proxy_info::{
    endpoint_models, ip_unspecified, protocol_quic, protocol_tcp, quic_text, tcp_text,
    with_endpoint, with_endpoints, EndpointModel, IpAddress, PnServerEndpoint, PnServerInfo,
    PnServerInfoPayload, PnServerPortMapping,
};
use crate::order::same_text;
use crate::text::{all_ascii, ascii_lowered, decimal, parsed_i64, parsed_u64, parse_u64, trim_text, trimmed};

verus! {

/// Limits of the proxy's traffic upload pipeline.
#[derive(Clone, Copy, Debug, PartialEq, Eq)]
pub struct PnTrafficUploadConfig {
    pub records_per_command: usize,
    pub concurrent_commands: usize,
    pub backlog_batches: usize,
    pub retry_delay_ms: u64,
    pub shutdown_drain_secs: u64,
}

/// The upload limits used when the configuration names none.
pub open spec fn default_upload_config() -> PnTrafficUploadConfig {
    PnTrafficUploadConfig {
        records_per_command: 128,
        concurrent_commands: 4,
        backlog_batches: 64,
        retry_delay_ms: 250,
        shutdown_drain_secs: 5,
    }
}

impl PnTrafficUploadConfig {
    /// The limits used when the configuration names none.
    pub fn default_config() -> (r: PnTrafficUploadConfig)
        ensures
            r == default_upload_config(),
    {
        PnTrafficUploadConfig {
            records_per_command: 128,
            concurrent_commands: 4,
            backlog_batches: 64,
            retry_delay_ms: 250,
            shutdown_drain_secs: 5,
        }
    }
}

impl Default for PnTrafficUploadConfig {
    fn default() -> (r: PnTrafficUploadConfig)
        ensures
            r == default_upload_config(),
    {
        PnTrafficUploadConfig::default_config()
    }
}


/// The configuration file used when none is named: `config.yaml` when it
/// exists, else the legacy `config.toml`.
pub fn select_default_config_file(yaml_exists: bool) -> (r: &'static str)
    ensures
        yaml_exists ==> r@ == seq!['c', 'o', 'n', 'f', 'i', 'g', '.', 'y', 'a', 'm', 'l'],
        !yaml_exists ==> r@ == seq!['c', 'o', 'n', 'f', 'i', 'g', '.', 't', 'o', 'm', 'l'],
{
    proof {
        reveal_strlit("config.yaml");
        reveal_strlit("config.toml");
    }
    if yaml_exists {
        "config.yaml"
    } else {
        "config.toml"
    }
}

/// The server's loaded configuration (`config::Config`), held as it is:
/// nothing of what it holds is visible to the proofs.
#[verifier::external_type_specification]
#[verifier::external_body]
pub struct ExConfig(config::Config);

/// Why the configuration could not give a value (`config::ConfigError`),
/// held as it is.
#[verifier::external_type_specification]
#[verifier::external_body]
pub struct ExConfigError(config::ConfigError);

/// A configuration value as it is held: an integer of some width, a
/// string, a boolean, or anything else (a float, nothing, a table or an
/// array).
#[derive(Debug, PartialEq, Eq)]
pub enum ConfigValue {
    I64(i64),
    I128(i128),
    U64(u64),
    U128(u128),
    Text(String),
    Bool(bool),
    Other,
}

/// What a configuration holds, as its lookups see it: for each key text
/// that reads as a path, the kind of the value found there, or none when
/// nothing is there. Key texts that do not read as a path are not in the map.
pub uninterp spec fn config_entries(config: config::Config) -> Map<Seq<char>, Option<ConfigValue>>;

/// What a lookup of `key` finds: none when the key does not read as a path;
/// else the value found there, if any.
pub open spec fn entry_at(entries: Map<Seq<char>, Option<ConfigValue>>, key: Seq<char>) -> Option<
    Option<ConfigValue>,
> {
    if entries.contains_key(key) {
        Some(entries[key])
    } else {
        None
    }
}

/// What a lookup gave, when it found a value.
pub open spec fn lookup_found<T>(r: Lookup<T>) -> Option<T> {
    match r {
        Lookup::Found(v) => Some(v),
        _ => None,
    }
}

/// The text a lookup gave, when it found one.
pub open spec fn text_found(r: Lookup<String>) -> Option<Seq<char>> {
    match r {
        Lookup::Found(v) => Some(v@),
        _ => None,
    }
}

/// How a lookup agrees with what the configuration holds (`entry`): it
/// reports the key missing exactly when nothing is there, and, where
/// `setting` says what the value reads as (`Some(None)`: nothing can be
/// read), it found exactly that.
pub open spec fn agrees<T>(
    entry: Option<Option<ConfigValue>>,
    setting: Option<Option<T>>,
    missing: bool,
    found: Option<T>,
) -> bool {
    &&& (missing <==> entry == Some(None::<ConfigValue>))
    &&& (setting matches Some(o) ==> found == o)
}

/// The text of an integer, as `to_string` writes it.
pub open spec fn signed_decimal(x: int) -> Seq<char> {
    if x < 0 {
        seq!['-'] + decimal((-x) as nat)
    } else {
        decimal(x as nat)
    }
}

/// The words a text value reads as true, ignoring case.
pub open spec fn true_word(w: Seq<char>) -> bool {
    w == seq!['t', 'r', 'u', 'e'] || w == seq!['o', 'n'] || w == seq!['y', 'e', 's']
}

/// The words a text value reads as false, ignoring case.
pub open spec fn false_word(w: Seq<char>) -> bool {
    w == seq!['f', 'a', 'l', 's', 'e'] || w == seq!['o', 'f', 'f'] || w == seq!['n', 'o']
}

/// What a value reads as an integer (`Value::into_int`): `Some(None)` when
/// it cannot be read; none where this is not stated (floats, and texts
/// with characters beyond ASCII). A text reads as 1 or 0 when it is a true
/// or a false word, else as the number it writes.
pub open spec fn int_from_value(v: ConfigValue) -> Option<Option<i64>> {
    match v {
        ConfigValue::I64(x) => Some(Some(x)),
        ConfigValue::I128(x) => if i64::MIN <= x <= i64::MAX {
            Some(Some(x as i64))
        } else {
            Some(None)
        },
        ConfigValue::U64(x) => if x <= i64::MAX {
            Some(Some(x as i64))
        } else {
            Some(None)
        },
        ConfigValue::U128(x) => if x <= i64::MAX {
            Some(Some(x as i64))
        } else {
            Some(None)
        },
        ConfigValue::Bool(b) => Some(Some(if b {
            1i64
        } else {
            0i64
        })),
        ConfigValue::Text(t) => if !all_ascii(t@) {
            None
        } else if true_word(ascii_lowered(t@)) {
            Some(Some(1i64))
        } else if false_word(ascii_lowered(t@)) {
            Some(Some(0i64))
        } else {
            Some(parsed_i64(t@))
        },
        ConfigValue::Other => None,
    }
}

/// What a value reads as a boolean (`Value::into_bool`): numbers are true
/// unless zero; a text is true when it is `1` or a true word, false when
/// it is `0` or a false word, and cannot be read otherwise; none where this
/// is not stated (floats, and texts with characters beyond ASCII).
pub open spec fn bool_from_value(v: ConfigValue) -> Option<Option<bool>> {
    match v {
        ConfigValue::Bool(b) => Some(Some(b)),
        ConfigValue::I64(x) => Some(Some(x != 0)),
        ConfigValue::I128(x) => Some(Some(x != 0)),
        ConfigValue::U64(x) => Some(Some(x != 0)),
        ConfigValue::U128(x) => Some(Some(x != 0)),
        ConfigValue::Text(t) => if !all_ascii(t@) {
            None
        } else if ascii_lowered(t@) == seq!['1'] || true_word(ascii_lowered(t@)) {
            Some(Some(true))
        } else if ascii_lowered(t@) == seq!['0'] || false_word(ascii_lowered(t@)) {
            Some(Some(false))
        } else {
            Some(None)
        },
        ConfigValue::Other => None,
    }
}

/// What a value reads as a string (`Value::into_string`); none where this
/// is not stated (floats and the rest).
pub open spec fn text_from_value(v: ConfigValue) -> Option<Option<Seq<char>>> {
    match v {
        ConfigValue::Text(t) => Some(Some(t@)),
        ConfigValue::Bool(b) => Some(Some(if b {
            seq!['t', 'r', 'u', 'e']
        } else {
            seq!['f', 'a', 'l', 's', 'e']
        })),
        ConfigValue::I64(x) => Some(Some(signed_decimal(x as int))),
        ConfigValue::I128(x) => Some(Some(signed_decimal(x as int))),
        ConfigValue::U64(x) => Some(Some(decimal(x as nat))),
        ConfigValue::U128(x) => Some(Some(decimal(x as nat))),
        ConfigValue::Other => None,
    }
}

/// What a value reads as a raw value (`Config::get::<Value>`): unsigned
/// integers come back signed when they fit, and cannot be read otherwise;
/// none where this is not stated (floats and the rest).
pub open spec fn raw_from_value(v: ConfigValue) -> Option<Option<ConfigValue>> {
    match v {
        ConfigValue::I64(x) => Some(Some(ConfigValue::I64(x))),
        ConfigValue::I128(x) => Some(Some(ConfigValue::I128(x))),
        ConfigValue::U64(x) => if x <= i64::MAX {
            Some(Some(ConfigValue::I64(x as i64)))
        } else {
            Some(None)
        },
        ConfigValue::U128(x) => if x <= i128::MAX {
            Some(Some(ConfigValue::I128(x as i128)))
        } else {
            Some(None)
        },
        ConfigValue::Text(t) => Some(Some(ConfigValue::Text(t))),
        ConfigValue::Bool(b) => Some(Some(ConfigValue::Bool(b))),
        ConfigValue::Other => None,
    }
}

/// What the integer setting `key` reads as: `Some(None)` when nothing can
/// be read; none where this is not stated.
pub open spec fn int_setting(entries: Map<Seq<char>, Option<ConfigValue>>, key: Seq<char>) -> Option<Option<i64>> {
    match entry_at(entries, key) {
        Some(Some(v)) => int_from_value(v),
        _ => Some(None),
    }
}

/// What the boolean setting `key` reads as.
pub open spec fn bool_setting(entries: Map<Seq<char>, Option<ConfigValue>>, key: Seq<char>) -> Option<Option<bool>> {
    match entry_at(entries, key) {
        Some(Some(v)) => bool_from_value(v),
        _ => Some(None),
    }
}

/// What the string setting `key` reads as.
pub open spec fn text_setting(entries: Map<Seq<char>, Option<ConfigValue>>, key: Seq<char>) -> Option<Option<Seq<char>>> {
    match entry_at(entries, key) {
        Some(Some(v)) => text_from_value(v),
        _ => Some(None),
    }
}

/// What the raw setting `key` reads as.
pub open spec fn raw_setting(entries: Map<Seq<char>, Option<ConfigValue>>, key: Seq<char>) -> Option<Option<ConfigValue>> {
    match entry_at(entries, key) {
        Some(Some(v)) => raw_from_value(v),
        _ => Some(None),
    }
}

/// The key a setting is read from: the preferred one, unless nothing is
/// there; then the legacy one.
pub open spec fn preferred_key(entries: Map<Seq<char>, Option<ConfigValue>>, preferred: Seq<char>, legacy: Seq<char>) -> Seq<
    char,
> {
    if entry_at(entries, preferred) == Some(None::<ConfigValue>) {
        legacy
    } else {
        preferred
    }
}

/// Reads an integer from the configuration with `Config::get_int`,
/// telling a missing key (`ConfigError::NotFound`) from other errors. The
/// claim: the key is reported missing exactly when it reads as a path and
/// nothing is there; a value found is read as `Value::into_int` reads it.
/// Left unsaid: how floats, and texts with characters beyond ASCII (which
/// the crate lowers by Unicode's rules), read as integers.
#[verifier::external_body]
fn config_get_int(config: &config::Config, key: &str) -> (r: Lookup<i64>)
    ensures
        agrees(entry_at(config_entries(*config), key@), int_setting(config_entries(*config), key@), r is Missing, lookup_found(r)),
{
    match config.get_int(key) {
        Ok(v) => Lookup::Found(v),
        Err(e @ config::ConfigError::NotFound(_)) => Lookup::Missing(e),
        Err(e) => Lookup::Failed(e),
    }
}

/// Reads a string from the configuration with `Config::get_string`,
/// telling a missing key from other errors. The claim: as for integers,
/// with values read as `Value::into_string` reads them. Left unsaid: how
/// floats and other values read.
#[verifier::external_body]
fn config_get_string(config: &config::Config, key: &str) -> (r: Lookup<String>)
    ensures
        agrees(entry_at(config_entries(*config), key@), text_setting(config_entries(*config), key@), r is Missing, text_found(r)),
{
    match config.get_string(key) {
        Ok(v) => Lookup::Found(v),
        Err(e @ config::ConfigError::NotFound(_)) => Lookup::Missing(e),
        Err(e) => Lookup::Failed(e),
    }
}

/// Reads a boolean from the configuration with `Config::get_bool`,
/// telling a missing key from other errors. The claim: as for integers,
/// with values read as `Value::into_bool` reads them. Left unsaid: how
/// floats, and texts with characters beyond ASCII, read as booleans.
#[verifier::external_body]
fn config_get_bool(config: &config::Config, key: &str) -> (r: Lookup<bool>)
    ensures
        agrees(entry_at(config_entries(*config), key@), bool_setting(config_entries(*config), key@), r is Missing, lookup_found(r)),
{
    match config.get_bool(key) {
        Ok(v) => Lookup::Found(v),
        Err(e @ config::ConfigError::NotFound(_)) => Lookup::Missing(e),
        Err(e) => Lookup::Failed(e),
    }
}

/// Reads a raw value from the configuration with `Config::get::<Value>`
/// and tells its kind, and a missing key from other errors. The claim: as
/// for integers, with values read as a `Value` is read back. Left unsaid:
/// how floats, tables and arrays read.
#[verifier::external_body]
fn config_get_value(config: &config::Config, key: &str) -> (r: Lookup<ConfigValue>)
    ensures
        agrees(entry_at(config_entries(*config), key@), raw_setting(config_entries(*config), key@), r is Missing, lookup_found(r)),
{
    match config.get::<config::Value>(key) {
        Ok(value) => Lookup::Found(match value.kind {
            config::ValueKind::I64(v) => ConfigValue::I64(v),
            config::ValueKind::I128(v) => ConfigValue::I128(v),
            config::ValueKind::U64(v) => ConfigValue::U64(v),
            config::ValueKind::U128(v) => ConfigValue::U128(v),
            config::ValueKind::String(v) => ConfigValue::Text(v),
            config::ValueKind::Boolean(v) => ConfigValue::Bool(v),
            _ => ConfigValue::Other,
        }),
        Err(e @ config::ConfigError::NotFound(_)) => Lookup::Missing(e),
        Err(e) => Lookup::Failed(e),
    }
}

/// What a configuration lookup gave.
#[derive(Debug)]
pub enum Lookup<T> {
    /// The value.
    Found(T),
    /// The key is not there; the configuration's own error.
    Missing(config::ConfigError),
    /// The key is there but could not be read; the configuration's error.
    Failed(config::ConfigError),
}

/// Reads an integer.
fn lookup_int(config: &config::Config, key: &str) -> (r: Lookup<i64>)
    ensures
        agrees(entry_at(config_entries(*config), key@), int_setting(config_entries(*config), key@), r is Missing, lookup_found(r)),
{
    config_get_int(config, key)
}

/// Reads a string.
fn lookup_string(config: &config::Config, key: &str) -> (r: Lookup<String>)
    ensures
        agrees(entry_at(config_entries(*config), key@), text_setting(config_entries(*config), key@), r is Missing, text_found(r)),
{
    config_get_string(config, key)
}

/// Reads a boolean.
fn lookup_bool(config: &config::Config, key: &str) -> (r: Lookup<bool>)
    ensures
        agrees(entry_at(config_entries(*config), key@), bool_setting(config_entries(*config), key@), r is Missing, lookup_found(r)),
{
    config_get_bool(config, key)
}

/// Reads a raw value.
fn lookup_value(config: &config::Config, key: &str) -> (r: Lookup<ConfigValue>)
    ensures
        agrees(entry_at(config_entries(*config), key@), raw_setting(config_entries(*config), key@), r is Missing, lookup_found(r)),
{
    config_get_value(config, key)
}

/// Reads a value under its preferred key, and under its legacy key when
/// the preferred one is not there.
fn lookup_string_prefer(config: &config::Config, preferred: &str, legacy: &str) -> (r: Lookup<
    String,
>)
    ensures
        agrees(
            entry_at(config_entries(*config), preferred_key(config_entries(*config), preferred@, legacy@)),
            text_setting(config_entries(*config), preferred_key(config_entries(*config), preferred@, legacy@)),
            r is Missing,
            text_found(r),
        ),
{
    match lookup_string(config, preferred) {
        Lookup::Missing(_) => lookup_string(config, legacy),
        other => other,
    }
}

/// Reads an integer under its preferred key, and under its legacy key when
/// the preferred one is not there.
fn lookup_int_prefer(config: &config::Config, preferred: &str, legacy: &str) -> (r: Lookup<i64>)
    ensures
        agrees(
            entry_at(config_entries(*config), preferred_key(config_entries(*config), preferred@, legacy@)),
            int_setting(config_entries(*config), preferred_key(config_entries(*config), preferred@, legacy@)),
            r is Missing,
            lookup_found(r),
        ),
{
    match lookup_int(config, preferred) {
        Lookup::Missing(_) => lookup_int(config, legacy),
        other => other,
    }
}

/// Why the configuration was refused.
#[derive(Debug)]
pub enum ServerConfigError {
    /// The configuration could not give a value that is needed.
    Config(config::ConfigError),
    /// `{key} must be within 1..={max}, got {value}`.
    OutOfRange { key: String, max: u64, value: i64 },
    /// `{key} contains invalid port {value}`.
    InvalidPort { key: String, value: i64 },
    /// The heartbeat timeout is not longer than the heartbeat interval.
    HeartbeatTimeoutNotAfterInterval { timeout_secs: u64, interval_secs: u64 },
    /// `{key} must be a positive integer that fits in u64`.
    NotPositiveU64 { key: String },
    /// The advertised address is not an IP address.
    InvalidAdvertisedIp { text: String, reason: String },
    /// The advertised address is the unspecified address.
    UnspecifiedAdvertisedIp { ip: IpAddress },
    /// `{prefix}.id` is missing while its endpoint or name is configured.
    ControlServerIdRequired { prefix: String },
    /// The control server's endpoint is not a socket address.
    InvalidControlEndpoint { address: String, reason: String },
    /// A control server is configured while the control plane runs in the
    /// same process.
    ControlServerInSameProcess,
    /// A standalone proxy has no control server.
    StandaloneNeedsControlServer,
    /// The control server's id is not a P2P identity.
    InvalidControlServerId { reason: String },
    /// `pn.transport` names no transport mode.
    InvalidTransport { text: String },
    /// The proxy runs in the control plane's process on a single transport.
    TransportMustBeDual { mode: PnTransportMode },
}

/// The value as a number of `1..=max`, else the range error of `key`.
pub fn bounded_positive(key: &str, value: i64, max: u64) -> (r: Result<u64, ServerConfigError>)
    ensures
        0 < value <= max ==> (r matches Ok(v) && v == value),
        !(0 < value <= max) ==> (r matches Err(ServerConfigError::OutOfRange { key: k, max: m, value: v })
            && k@ == key@ && m == max && v == value),
{
    if value <= 0 || value as u64 > max {
        return Err(ServerConfigError::OutOfRange { key: String::from_str(key), max, value });
    }
    Ok(value as u64)
}

/// The value a lookup found, else its error.
pub fn required<T>(l: Lookup<T>) -> (r: Result<T, ServerConfigError>)
    ensures
        l matches Lookup::Found(v) ==> r == Ok::<T, ServerConfigError>(v),
        l matches Lookup::Missing(e) ==> (r matches Err(ServerConfigError::Config(x)) && x == e),
        l matches Lookup::Failed(e) ==> (r matches Err(ServerConfigError::Config(x)) && x == e),
{
    match l {
        Lookup::Found(v) => Ok(v),
        Lookup::Missing(e) => Err(ServerConfigError::Config(e)),
        Lookup::Failed(e) => Err(ServerConfigError::Config(e)),
    }
}

/// The number a lookup found if it is positive, else `default`: a key that
/// is missing, unreadable or not positive falls back.
pub fn positive_or(l: &Lookup<i64>, default: u64) -> (r: u64)
    ensures
        (l matches Lookup::Found(v) && v > 0) ==> r == l->Found_0,
        !(l matches Lookup::Found(v) && v > 0) ==> r == default,
{
    match l {
        Lookup::Found(v) => if *v > 0 {
            *v as u64
        } else {
            default
        },
        _ => default,
    }
}

/// The boolean a lookup found, else `default`.
pub fn bool_or(l: &Lookup<bool>, default: bool) -> (r: bool)
    ensures
        l matches Lookup::Found(v) ==> r == v,
        !(l is Found) ==> r == default,
{
    match l {
        Lookup::Found(v) => *v,
        _ => default,
    }
}

/// The limits of the traffic upload pipeline from the five configured
/// numbers, each checked against its range in turn: records per command
/// `1..=max_records_per_command`, concurrent commands `1..=64`, backlog
/// `1..=4096`, retry delay `1..=60000` ms, shutdown drain `1..=300` s.
pub fn traffic_upload_config_from(
    records_per_command: Lookup<i64>,
    concurrent_commands: Lookup<i64>,
    backlog_batches: Lookup<i64>,
    retry_delay_ms: Lookup<i64>,
    shutdown_drain_secs: Lookup<i64>,
    max_records_per_command: u64,
) -> (r: Result<PnTrafficUploadConfig, ServerConfigError>)
    requires
        max_records_per_command <= usize::MAX,
    ensures
        (records_per_command matches Lookup::Found(a) && 0 < a <= max_records_per_command)
            && (concurrent_commands matches Lookup::Found(b) && 0 < b <= 64)
            && (backlog_batches matches Lookup::Found(c) && 0 < c <= 4096)
            && (retry_delay_ms matches Lookup::Found(d) && 0 < d <= 60000)
            && (shutdown_drain_secs matches Lookup::Found(e) && 0 < e <= 300) <==> r is Ok,
        r matches Ok(cfg) ==> cfg.records_per_command == records_per_command->Found_0
            && cfg.concurrent_commands == concurrent_commands->Found_0 && cfg.backlog_batches
            == backlog_batches->Found_0 && cfg.retry_delay_ms == retry_delay_ms->Found_0
            && cfg.shutdown_drain_secs == shutdown_drain_secs->Found_0,
{
    let a = bounded_positive_lookup(records_per_command, "pn.traffic_upload.records_per_command", max_records_per_command)?;
    let b = bounded_positive_lookup(concurrent_commands, "pn.traffic_upload.concurrent_commands", 64)?;
    let c = bounded_positive_lookup(backlog_batches, "pn.traffic_upload.backlog_batches", 4096)?;
    let d = bounded_positive_lookup(retry_delay_ms, "pn.traffic_upload.retry_delay_ms", 60000)?;
    let e = bounded_positive_lookup(shutdown_drain_secs, "pn.traffic_upload.shutdown_drain_secs", 300)?;
    Ok(PnTrafficUploadConfig {
        records_per_command: a as usize,
        concurrent_commands: b as usize,
        backlog_batches: c as usize,
        retry_delay_ms: d,
        shutdown_drain_secs: e,
    })
}

/// The number a lookup found if it is within `1..=max`, else the
/// lookup's error or the range error.
fn bounded_positive_lookup(l: Lookup<i64>, key: &str, max: u64) -> (r: Result<u64, ServerConfigError>)
    ensures
        (l matches Lookup::Found(v) && 0 < v <= max) <==> r is Ok,
        r matches Ok(v) ==> v == l->Found_0,
{
    match l {
        Lookup::Found(v) => bounded_positive(key, v, max),
        Lookup::Missing(e) => Err(ServerConfigError::Config(e)),
        Lookup::Failed(e) => Err(ServerConfigError::Config(e)),
    }
}

/// The upload limits from the five settings as read, when all of them are
/// there and within their ranges.
pub open spec fn upload_from_settings(
    records_per_command: Option<i64>,
    concurrent_commands: Option<i64>,
    backlog_batches: Option<i64>,
    retry_delay_ms: Option<i64>,
    shutdown_drain_secs: Option<i64>,
    max_records_per_command: u64,
) -> Option<PnTrafficUploadConfig> {
    match (records_per_command, concurrent_commands, backlog_batches, retry_delay_ms, shutdown_drain_secs) {
        (Some(a), Some(b), Some(c), Some(d), Some(e)) => if 0 < a <= max_records_per_command && 0
            < b <= 64 && 0 < c <= 4096 && 0 < d <= 60000 && 0 < e <= 300 {
            Some(
                PnTrafficUploadConfig {
                    records_per_command: a as usize,
                    concurrent_commands: b as usize,
                    backlog_batches: c as usize,
                    retry_delay_ms: d as u64,
                    shutdown_drain_secs: e as u64,
                },
            )
        } else {
            None
        },
        _ => None,
    }
}

/// Reads the limits of the traffic upload pipeline; each must be within
/// its range.
pub fn get_pn_traffic_upload_config(config: &config::Config, max_records_per_command: u64) -> (r:
    Result<PnTrafficUploadConfig, ServerConfigError>)
    requires
        max_records_per_command <= usize::MAX,
    ensures
        int_setting(config_entries(*config), "pn.traffic_upload.records_per_command"@) matches Some(a)
            ==> (int_setting(config_entries(*config), "pn.traffic_upload.concurrent_commands"@)
            matches Some(b) ==> (int_setting(config_entries(*config), "pn.traffic_upload.backlog_batches"@)
            matches Some(c) ==> (int_setting(config_entries(*config), "pn.traffic_upload.retry_delay_ms"@)
            matches Some(d) ==> (int_setting(config_entries(*config), "pn.traffic_upload.shutdown_drain_secs"@)
            matches Some(e) ==> match upload_from_settings(a, b, c, d, e, max_records_per_command) {
            Some(cfg) => r == Ok::<PnTrafficUploadConfig, ServerConfigError>(cfg),
            None => r is Err,
        })))),
        int_setting(config_entries(*config), "pn.traffic_upload.records_per_command"@) == Some(None::<i64>)
            || int_setting(config_entries(*config), "pn.traffic_upload.concurrent_commands"@) == Some(None::<i64>)
            || int_setting(config_entries(*config), "pn.traffic_upload.backlog_batches"@) == Some(None::<i64>)
            || int_setting(config_entries(*config), "pn.traffic_upload.retry_delay_ms"@) == Some(None::<i64>)
            || int_setting(config_entries(*config), "pn.traffic_upload.shutdown_drain_secs"@) == Some(None::<i64>)
            ==> r is Err,
        r matches Ok(cfg) ==> 0 < cfg.records_per_command <= max_records_per_command && 0
            < cfg.concurrent_commands <= 64 && 0 < cfg.backlog_batches <= 4096 && 0
            < cfg.retry_delay_ms <= 60000 && 0 < cfg.shutdown_drain_secs <= 300,
{
    traffic_upload_config_from(
        lookup_int(config, "pn.traffic_upload.records_per_command"),
        lookup_int(config, "pn.traffic_upload.concurrent_commands"),
        lookup_int(config, "pn.traffic_upload.backlog_batches"),
        lookup_int(config, "pn.traffic_upload.retry_delay_ms"),
        lookup_int(config, "pn.traffic_upload.shutdown_drain_secs"),
        max_records_per_command,
    )
}


/// Whether the control plane (the "sn" service) runs in this process.
#[derive(Clone, Copy, Debug, PartialEq, Eq, Structural)]
pub struct SnServerConfig {
    pub enabled: bool,
}

/// Where the management API listens.
#[derive(Debug, PartialEq, Eq)]
pub struct SnHttpConfig {
    pub ip: String,
    pub port: u16,
}

/// The management API's administrator account.
#[derive(Debug, PartialEq, Eq)]
pub struct SnAdminConfig {
    pub name: String,
    pub password: String,
}

/// The key that signs management API tokens.
#[derive(Debug, PartialEq, Eq)]
pub struct SnJwtConfig {
    pub key: String,
}

/// The public ports a router maps to the proxy's listeners.
#[derive(Clone, Copy, Debug, Default, PartialEq, Eq, Structural)]
pub struct PnPortMappingConfig {
    pub quic: Option<u16>,
    pub tcp: Option<u16>,
}

/// The transport of a service endpoint.
#[derive(Clone, Copy, Debug, PartialEq, Eq, Structural)]
pub enum Transport {
    Quic,
    Tcp,
    /// A transport of an extension.
    Ext,
}

/// An endpoint the server's P2P stack listens on or connects to.
#[derive(Clone, Copy, Debug, PartialEq, Eq, Structural)]
pub struct ServiceEndpoint {
    pub protocol: Transport,
    pub ip: IpAddress,
    pub port: u16,
}

/// The transports the proxy service runs on (`pn.transport`).
#[derive(Clone, Copy, Debug, PartialEq, Eq, Structural)]
pub enum PnTransportMode {
    /// TCP alone.
    Tcp,
    /// QUIC alone.
    Quic,
    /// QUIC and TCP.
    Dual,
}

/// The name of the mode with both transports.
pub open spec fn dual_text() -> Seq<char> {
    seq!['d', 'u', 'a', 'l']
}

/// The mode a `pn.transport` text names: exactly `tcp`, `quic` or `dual`,
/// in lower case; any other text names none.
pub open spec fn transport_mode_named(text: Seq<char>) -> Option<PnTransportMode> {
    if text == tcp_text() {
        Some(PnTransportMode::Tcp)
    } else if text == quic_text() {
        Some(PnTransportMode::Quic)
    } else if text == dual_text() {
        Some(PnTransportMode::Dual)
    } else {
        None
    }
}

/// The endpoints of a service at `ip:port` in a transport mode: TCP alone,
/// QUIC alone, or QUIC and then TCP.
pub open spec fn mode_endpoints(mode: PnTransportMode, ip: IpAddress, port: u16) -> Seq<ServiceEndpoint> {
    let tcp = ServiceEndpoint { protocol: Transport::Tcp, ip, port };
    let quic = ServiceEndpoint { protocol: Transport::Quic, ip, port };
    match mode {
        PnTransportMode::Tcp => seq![tcp],
        PnTransportMode::Quic => seq![quic],
        PnTransportMode::Dual => seq![quic, tcp],
    }
}

/// The mode a text names, if it names one.
pub fn transport_mode_from_text(text: &str) -> (r: Option<PnTransportMode>)
    ensures
        r == transport_mode_named(text@),
{
    let dual = "dual";
    proof {
        reveal_strlit("dual");
        assert(dual@ =~= dual_text());
        assert(tcp_text() != quic_text() && tcp_text() != dual_text() && quic_text() != dual_text()) by {
            assert(tcp_text().len() != quic_text().len());
            assert(tcp_text().len() != dual_text().len());
            assert(quic_text()[0] != dual_text()[0]);
        }
    }
    if same_text(text, protocol_tcp()) {
        Some(PnTransportMode::Tcp)
    } else if same_text(text, protocol_quic()) {
        Some(PnTransportMode::Quic)
    } else if same_text(text, dual) {
        Some(PnTransportMode::Dual)
    } else {
        None
    }
}

impl PnTransportMode {
    /// The mapped ports announced in this mode: those of the transports it runs.
    pub fn filter_port_mapping(&self, port_mapping: &PnPortMappingConfig) -> (r: PnPortMappingConfig)
        ensures
            r.quic == (if *self == PnTransportMode::Tcp {
                None
            } else {
                port_mapping.quic
            }),
            r.tcp == (if *self == PnTransportMode::Quic {
                None
            } else {
                port_mapping.tcp
            }),
    {
        match self {
            PnTransportMode::Tcp => PnPortMappingConfig { quic: None, tcp: port_mapping.tcp },
            PnTransportMode::Quic => PnPortMappingConfig { quic: port_mapping.quic, tcp: None },
            PnTransportMode::Dual => *port_mapping,
        }
    }

    /// The endpoints of a service at `ip:port` in this mode.
    pub fn endpoints_at(&self, ip: IpAddress, port: u16) -> (r: Vec<ServiceEndpoint>)
        ensures
            r@ == mode_endpoints(*self, ip, port),
    {
        let tcp = ServiceEndpoint { protocol: Transport::Tcp, ip, port };
        let quic = ServiceEndpoint { protocol: Transport::Quic, ip, port };
        let mut out: Vec<ServiceEndpoint> = Vec::new();
        match self {
            PnTransportMode::Tcp => {
                out.push(tcp);
            },
            PnTransportMode::Quic => {
                out.push(quic);
            },
            PnTransportMode::Dual => {
                out.push(quic);
                out.push(tcp);
            },
        }
        proof {
            assert(out@ =~= mode_endpoints(*self, ip, port));
        }
        out
    }
}

/// The transport mode a lookup of `pn.transport` gives, when it gives one:
/// dual when nothing is configured, else the mode the text names.
pub open spec fn transport_value(l: Lookup<String>) -> Option<PnTransportMode> {
    match l {
        Lookup::Found(t) => transport_mode_named(t@),
        Lookup::Missing(_) => Some(PnTransportMode::Dual),
        Lookup::Failed(_) => None,
    }
}

/// The transport mode from the lookup of `pn.transport`: dual when it is
/// not configured; a text that names no mode is refused.
pub fn transport_mode_from(l: Lookup<String>) -> (r: Result<PnTransportMode, ServerConfigError>)
    ensures
        transport_value(l) matches Some(m) ==> r == Ok::<PnTransportMode, ServerConfigError>(m),
        transport_value(l) is None ==> r is Err,
        l matches Lookup::Found(t) ==> (transport_mode_named(t@) is None ==> (r matches Err(
            ServerConfigError::InvalidTransport { text },
        ) && text@ == t@)),
        l matches Lookup::Failed(e) ==> (r matches Err(ServerConfigError::Config(x)) && x == e),
{
    match l {
        Lookup::Found(t) => match transport_mode_from_text(t.as_str()) {
            Some(m) => Ok(m),
            None => Err(ServerConfigError::InvalidTransport { text: t }),
        },
        Lookup::Missing(_) => Ok(PnTransportMode::Dual),
        Lookup::Failed(e) => Err(ServerConfigError::Config(e)),
    }
}

/// The control server a standalone proxy reports to, at each endpoint of
/// the proxy's transport mode.
#[derive(Debug, PartialEq, Eq)]
pub struct PnControlServerConfig {
    pub id: String,
    pub name: Option<String>,
    pub endpoints: Vec<ServiceEndpoint>,
}

/// How the proxy ("pn") service runs.
#[derive(Debug, PartialEq, Eq)]
pub struct PnServerConfig {
    pub enabled: bool,
    pub transport: PnTransportMode,
    pub control_server: Option<PnControlServerConfig>,
    pub report_interval_secs: u64,
    pub heartbeat_interval_secs: u64,
    pub heartbeat_timeout_secs: u64,
    pub advertised_ip: Option<IpAddress>,
    pub port_mapping: PnPortMappingConfig,
    pub report_local_address: bool,
}

/// Whether the control plane runs: `sn.enabled`, on by default.
pub fn get_sn_server_config(config: &config::Config) -> (r: SnServerConfig)
    ensures
        bool_setting(config_entries(*config), "sn.enabled"@) matches Some(o) ==> r.enabled == match o {
            Some(b) => b,
            None => true,
        },
{
    SnServerConfig { enabled: bool_or(&lookup_bool(config, "sn.enabled"), true) }
}

/// The text trimmed, unless nothing is left.
pub fn non_empty_trimmed(value: &str) -> (r: Option<String>)
    ensures
        trimmed(value@).len() == 0 ==> r is None,
        trimmed(value@).len() > 0 ==> (r matches Some(t) && t@ == trimmed(value@)),
{
    let t = trim_text(value);
    if t.as_str().unicode_len() == 0 {
        assert(t@.len() == 0);
        None
    } else {
        assert(t@.len() > 0);
        Some(t)
    }
}

/// The server's name: `name` trimmed, when it is there and not blank.
pub fn get_server_name_config(config: &config::Config) -> (r: Option<String>)
    ensures
        text_setting(config_entries(*config), "name"@) matches Some(o) ==> match o {
            Some(t) => if trimmed(t).len() > 0 {
                r matches Some(n) && n@ == trimmed(t)
            } else {
                r is None
            },
            None => r is None,
        },
        r matches Some(n) ==> n@.len() > 0 && n@ == trimmed(n@),
{
    match lookup_string(config, "name") {
        Lookup::Found(v) => {
            let r = non_empty_trimmed(v.as_str());
            proof {
                if r is Some {
                    crate::text::lemma_trimmed_idempotent(v@);
                }
            }
            r
        },
        _ => None,
    }
}

/// A port number: `1..=65535`, else the port error of `key`.
pub fn port_in_range(key: &str, value: i64) -> (r: Result<u16, ServerConfigError>)
    ensures
        0 < value <= 65535 ==> (r matches Ok(p) && p == value),
        !(0 < value <= 65535) ==> (r matches Err(ServerConfigError::InvalidPort { key: k, value: v })
            && k@ == key@ && v == value),
{
    if value <= 0 || value > 65535 {
        return Err(ServerConfigError::InvalidPort { key: String::from_str(key), value });
    }
    Ok(value as u16)
}

/// The management API's address from its looked-up ip and port.
pub fn sn_http_config_from(ip: Lookup<String>, port: Lookup<i64>) -> (r: Result<
    SnHttpConfig,
    ServerConfigError,
>)
    ensures
        (ip matches Lookup::Found(i) && port matches Lookup::Found(p) && 0 < p <= 65535) <==> r is Ok,
        r matches Ok(c) ==> c.ip@ == ip->Found_0@ && c.port == port->Found_0,
{
    let ip = required(ip)?;
    let port = required(port)?;
    proof {
        reveal_strlit("sn.http.port");
    }
    let port = port_in_range("sn.http.port", port)?;
    Ok(SnHttpConfig { ip, port })
}

/// Where the management API listens: `sn.http.ip` and `sn.http.port`, or
/// the legacy `http.ip` and `http.port`; the port must be valid.
pub fn get_sn_http_config(config: &config::Config) -> (r: Result<SnHttpConfig, ServerConfigError>)
    ensures
        text_setting(
            config_entries(*config),
            preferred_key(config_entries(*config), "sn.http.ip"@, "http.ip"@),
        ) matches Some(Some(ip)) ==> (int_setting(
            config_entries(*config),
            preferred_key(config_entries(*config), "sn.http.port"@, "http.port"@),
        ) matches Some(Some(p)) ==> (0 < p <= 65535 <==> r is Ok) && (r matches Ok(h) ==> h.ip@ == ip
            && h.port == p)),
        text_setting(
            config_entries(*config),
            preferred_key(config_entries(*config), "sn.http.ip"@, "http.ip"@),
        ) == Some(None::<Seq<char>>) ==> r is Err,
        int_setting(
            config_entries(*config),
            preferred_key(config_entries(*config), "sn.http.port"@, "http.port"@),
        ) == Some(None::<i64>) ==> r is Err,
        r matches Ok(c) ==> c.port > 0,
{
    let ip = lookup_string_prefer(config, "sn.http.ip", "http.ip");
    let port = lookup_int_prefer(config, "sn.http.port", "http.port");
    sn_http_config_from(ip, port)
}

/// The administrator account: `sn.admin.name` and `sn.admin.password`, or
/// the legacy `admin.name` and `admin.password`.
pub fn get_sn_admin_config(config: &config::Config) -> (r: Result<SnAdminConfig, ServerConfigError>)
    ensures
        text_setting(
            config_entries(*config),
            preferred_key(config_entries(*config), "sn.admin.name"@, "admin.name"@),
        ) matches Some(Some(n)) ==> (text_setting(
            config_entries(*config),
            preferred_key(config_entries(*config), "sn.admin.password"@, "admin.password"@),
        ) matches Some(Some(p)) ==> (r matches Ok(a) && a.name@ == n && a.password@ == p)),
        text_setting(
            config_entries(*config),
            preferred_key(config_entries(*config), "sn.admin.name"@, "admin.name"@),
        ) == Some(None::<Seq<char>>) ==> r is Err,
        text_setting(
            config_entries(*config),
            preferred_key(config_entries(*config), "sn.admin.password"@, "admin.password"@),
        ) == Some(None::<Seq<char>>) ==> r is Err,
{
    let name = required(lookup_string_prefer(config, "sn.admin.name", "admin.name"))?;
    let password = required(lookup_string_prefer(config, "sn.admin.password", "admin.password"))?;
    Ok(SnAdminConfig { name, password })
}

/// The token key: `sn.jwt.key`, or the legacy `jwt.key`.
pub fn get_sn_jwt_config(config: &config::Config) -> (r: Result<SnJwtConfig, ServerConfigError>)
    ensures
        text_setting(
            config_entries(*config),
            preferred_key(config_entries(*config), "sn.jwt.key"@, "jwt.key"@),
        ) matches Some(Some(k)) ==> (r matches Ok(j) && j.key@ == k),
        text_setting(
            config_entries(*config),
            preferred_key(config_entries(*config), "sn.jwt.key"@, "jwt.key"@),
        ) == Some(None::<Seq<char>>) ==> r is Err,
{
    let key = required(lookup_string_prefer(config, "sn.jwt.key", "jwt.key"))?;
    Ok(SnJwtConfig { key })
}

/// Whether a looked-up optional port is acceptable: not there, or a valid port.
pub open spec fn port_lookup_ok(value: Lookup<i64>) -> bool {
    match value {
        Lookup::Found(v) => 0 < v <= 65535,
        Lookup::Missing(_) => true,
        Lookup::Failed(_) => false,
    }
}

/// The optional port a lookup gives.
pub open spec fn port_of(value: Lookup<i64>) -> Option<u16> {
    match value {
        Lookup::Found(v) => Some(v as u16),
        _ => None,
    }
}

/// What an optional port setting under `preferred` (else `legacy`) gives:
/// `Some(Some(p))` when it is accepted as `p` (none when nothing is
/// there), `Some(None)` when it is refused; none where this is not stated.
pub open spec fn port_setting(
    entries: Map<Seq<char>, Option<ConfigValue>>,
    preferred: Seq<char>,
    legacy: Seq<char>,
) -> Option<Option<Option<u16>>> {
    let key = preferred_key(entries, preferred, legacy);
    if entry_at(entries, key) == Some(None::<ConfigValue>) {
        Some(Some(None))
    } else {
        match int_setting(entries, key) {
            Some(Some(v)) => if 0 < v <= 65535 {
                Some(Some(Some(v as u16)))
            } else {
                Some(None)
            },
            Some(None) => Some(None),
            None => None,
        }
    }
}

/// An optional port from its looked-up value: none when the key is not
/// there, else it must be a valid port.
pub fn optional_port_from(key: &str, value: Lookup<i64>) -> (r: Result<Option<u16>, ServerConfigError>)
    ensures
        r is Ok <==> port_lookup_ok(value),
        r matches Ok(p) ==> p == port_of(value),
        value is Missing ==> r == Ok::<Option<u16>, ServerConfigError>(None),
        value is Failed ==> r is Err,
        value matches Lookup::Found(v) ==> (0 < v <= 65535 ==> r == Ok::<
            Option<u16>,
            ServerConfigError,
        >(Some(v as u16))),
        value matches Lookup::Found(v) ==> (!(0 < v <= 65535) ==> (r matches Err(
            ServerConfigError::InvalidPort { key: k, value: x },
        ) && k@ == key@ && x == v)),
{
    match value {
        Lookup::Found(v) => match port_in_range(key, v) {
            Ok(p) => Ok(Some(p)),
            Err(e) => Err(e),
        },
        Lookup::Missing(_) => Ok(None),
        Lookup::Failed(e) => Err(ServerConfigError::Config(e)),
    }
}

/// Reads an optional port under its preferred key, else its legacy key.
pub fn get_optional_port_prefer(config: &config::Config, preferred: &str, legacy: &str) -> (r: Result<
    Option<u16>,
    ServerConfigError,
>)
    ensures
        port_setting(config_entries(*config), preferred@, legacy@) matches Some(o) ==> match o {
            Some(p) => r == Ok::<Option<u16>, ServerConfigError>(p),
            None => r is Err,
        },
        r matches Ok(Some(p)) ==> p > 0,
{
    optional_port_from(preferred, lookup_int_prefer(config, preferred, legacy))
}

/// The proxy's mapped ports: `pn.port_mapping.*`, or the legacy
/// `pn.map_ports.*`.
pub fn get_pn_port_mapping_config(config: &config::Config) -> (r: Result<
    PnPortMappingConfig,
    ServerConfigError,
>)
    ensures
        port_setting(config_entries(*config), "pn.port_mapping.quic"@, "pn.map_ports.quic"@) == Some(
            None::<Option<u16>>,
        ) ==> r is Err,
        port_setting(config_entries(*config), "pn.port_mapping.tcp"@, "pn.map_ports.tcp"@) == Some(
            None::<Option<u16>>,
        ) ==> r is Err,
        port_setting(config_entries(*config), "pn.port_mapping.quic"@, "pn.map_ports.quic"@) matches Some(
            Some(q),
        ) ==> (port_setting(config_entries(*config), "pn.port_mapping.tcp"@, "pn.map_ports.tcp"@)
            matches Some(Some(t)) ==> r == Ok::<PnPortMappingConfig, ServerConfigError>(
            PnPortMappingConfig { quic: q, tcp: t },
        )),
{
    let quic = get_optional_port_prefer(config, "pn.port_mapping.quic", "pn.map_ports.quic")?;
    let tcp = get_optional_port_prefer(config, "pn.port_mapping.tcp", "pn.map_ports.tcp")?;
    Ok(PnPortMappingConfig { quic, tcp })
}

/// The retention of node traffic idempotency records from the configured
/// value: an integer of any width, or a decimal string, that is positive
/// and fits in `u64`.
pub open spec fn retention_value(v: ConfigValue) -> Option<u64> {
    let parsed: Option<u64> = match v {
        ConfigValue::I64(x) => if x >= 0 {
            Some(x as u64)
        } else {
            None
        },
        ConfigValue::I128(x) => if 0 <= x <= u64::MAX {
            Some(x as u64)
        } else {
            None
        },
        ConfigValue::U64(x) => Some(x),
        ConfigValue::U128(x) => if x <= u64::MAX {
            Some(x as u64)
        } else {
            None
        },
        ConfigValue::Text(t) => parsed_u64(t@),
        ConfigValue::Bool(_) => None,
        ConfigValue::Other => None,
    };
    match parsed {
        Some(x) => if x > 0 {
            Some(x)
        } else {
            None
        },
        None => None,
    }
}

/// The retention from its looked-up value.
pub fn retention_secs_from(value: Lookup<ConfigValue>) -> (r: Result<u64, ServerConfigError>)
    ensures
        value matches Lookup::Found(v) ==> (retention_value(v) matches Some(x) ==> r == Ok::<
            u64,
            ServerConfigError,
        >(x)),
        value matches Lookup::Found(v) ==> (retention_value(v) is None ==> (r matches Err(
            ServerConfigError::NotPositiveU64 { key: k },
        ) && k@ == seq![
            'p', 'n', '.', 'n', 'o', 'd', 'e', '_', 't', 'r', 'a', 'f', 'f', 'i', 'c', '_', 'i',
            'd', 'e', 'm', 'p', 'o', 't', 'e', 'n', 'c', 'y', '_', 'r', 'e', 't', 'e', 'n', 't',
            'i', 'o', 'n', '_', 's', 'e', 'c', 's',
        ])),
        !(value is Found) ==> r is Err,
{
    let key = "pn.node_traffic_idempotency_retention_secs";
    proof {
        reveal_strlit("pn.node_traffic_idempotency_retention_secs");
    }
    let v = required(value)?;
    let parsed: Option<u64> = match &v {
        ConfigValue::I64(x) => if *x >= 0 {
            Some(*x as u64)
        } else {
            None
        },
        ConfigValue::I128(x) => if 0 <= *x && *x <= 18446744073709551615i128 {
            Some(*x as u64)
        } else {
            None
        },
        ConfigValue::U64(x) => Some(*x),
        ConfigValue::U128(x) => if *x <= 18446744073709551615u128 {
            Some(*x as u64)
        } else {
            None
        },
        ConfigValue::Text(t) => parse_u64(t.as_str()),
        ConfigValue::Bool(_) => None,
        ConfigValue::Other => None,
    };
    match parsed {
        Some(x) => if x > 0 {
            Ok(x)
        } else {
            Err(ServerConfigError::NotPositiveU64 { key: String::from_str(key) })
        },
        None => Err(ServerConfigError::NotPositiveU64 { key: String::from_str(key) }),
    }
}

/// How long node traffic idempotency records are kept, in seconds.
pub fn get_node_traffic_idempotency_retention_secs(config: &config::Config) -> (r: Result<
    u64,
    ServerConfigError,
>)
    ensures
        raw_setting(config_entries(*config), "pn.node_traffic_idempotency_retention_secs"@) matches Some(o)
            ==> match o {
            Some(v) => match retention_value(v) {
                Some(x) => r == Ok::<u64, ServerConfigError>(x),
                None => r is Err,
            },
            None => r is Err,
        },
        r matches Ok(x) ==> x > 0,
{
    retention_secs_from(lookup_value(config, "pn.node_traffic_idempotency_retention_secs"))
}

/// Whether the proxy service starts: exactly when it is enabled, whatever
/// the control plane does.
pub fn should_start_pn_server(sn_config: &SnServerConfig, pn_config: &PnServerConfig) -> (r: bool)
    ensures
        r == pn_config.enabled,
{
    pn_config.enabled
}

/// Whether this server is a proxy alone: the proxy runs and the control
/// plane does not.
pub fn is_standalone_proxy_node(sn_config: &SnServerConfig, pn_config: &PnServerConfig) -> (r: bool)
    ensures
        r == (!sn_config.enabled && pn_config.enabled),
{
    !sn_config.enabled && should_start_pn_server(sn_config, pn_config)
}

/// Checks that the two services are configured consistently. A proxy in
/// the control plane's process must not name a control server and must run
/// on both transports; a proxy alone must name a control server, whose id
/// must be a P2P identity (`control_id_error` is why it is not, if it is not).
pub fn validate_server_mode(
    sn_config: &SnServerConfig,
    pn_config: &PnServerConfig,
    control_id_error: Option<String>,
) -> (r: Result<(), ServerConfigError>)
    ensures
        !pn_config.enabled ==> r is Ok,
        pn_config.enabled && sn_config.enabled ==> (r is Ok <==> (pn_config.control_server is None
            && pn_config.transport == PnTransportMode::Dual)),
        pn_config.enabled && sn_config.enabled && pn_config.control_server is Some ==> (r matches Err(
            ServerConfigError::ControlServerInSameProcess,
        )),
        pn_config.enabled && sn_config.enabled && pn_config.control_server is None
            && pn_config.transport != PnTransportMode::Dual ==> (r matches Err(
            ServerConfigError::TransportMustBeDual { mode },
        ) && mode == pn_config.transport),
        pn_config.enabled && !sn_config.enabled && pn_config.control_server is None ==> (r matches Err(
            ServerConfigError::StandaloneNeedsControlServer,
        )),
        pn_config.enabled && !sn_config.enabled && pn_config.control_server is Some ==> (
        control_id_error is None <==> r is Ok),
        pn_config.enabled && !sn_config.enabled && pn_config.control_server is Some ==> (
        control_id_error matches Some(m) ==> (r matches Err(
            ServerConfigError::InvalidControlServerId { reason },
        ) && reason == m)),
{
    if !pn_config.enabled {
        return Ok(());
    }
    if sn_config.enabled {
        if pn_config.control_server.is_some() {
            return Err(ServerConfigError::ControlServerInSameProcess);
        }
        if pn_config.transport != PnTransportMode::Dual {
            return Err(ServerConfigError::TransportMustBeDual { mode: pn_config.transport });
        }
        return Ok(());
    }
    if pn_config.control_server.is_none() {
        return Err(ServerConfigError::StandaloneNeedsControlServer);
    }
    match control_id_error {
        Some(reason) => Err(ServerConfigError::InvalidControlServerId { reason }),
        None => Ok(()),
    }
}

/// The endpoints the service listens on. A proxy that runs on a single
/// transport listens on that transport alone, at the configured address;
/// otherwise the service listens on the configured endpoint and, unless it
/// is TCP already, on TCP at the same address.
pub fn resolve_service_endpoints(
    sn_endpoint: ServiceEndpoint,
    sn_config: &SnServerConfig,
    pn_config: &PnServerConfig,
) -> (r: Vec<ServiceEndpoint>)
    ensures
        pn_config.enabled && pn_config.transport != PnTransportMode::Dual ==> r@ == mode_endpoints(
            pn_config.transport,
            sn_endpoint.ip,
            sn_endpoint.port,
        ),
        !(pn_config.enabled && pn_config.transport != PnTransportMode::Dual) ==> (
        sn_endpoint.protocol == Transport::Tcp ==> r@ == seq![sn_endpoint]),
        !(pn_config.enabled && pn_config.transport != PnTransportMode::Dual) ==> (
        sn_endpoint.protocol != Transport::Tcp ==> r@ == seq![
            sn_endpoint,
            ServiceEndpoint { protocol: Transport::Tcp, ..sn_endpoint },
        ]),
{
    if pn_config.enabled && pn_config.transport != PnTransportMode::Dual {
        return pn_config.transport.endpoints_at(sn_endpoint.ip, sn_endpoint.port);
    }
    let tcp_endpoint = ServiceEndpoint { protocol: Transport::Tcp, ..sn_endpoint };
    let mut out: Vec<ServiceEndpoint> = Vec::new();
    out.push(sn_endpoint);
    if sn_endpoint.protocol != Transport::Tcp {
        out.push(tcp_endpoint);
    }
    proof {
        assert(out@ =~= if sn_endpoint.protocol == Transport::Tcp {
            seq![sn_endpoint]
        } else {
            seq![sn_endpoint, tcp_endpoint]
        });
    }
    out
}

/// The transport name an endpoint is announced with: `tcp` for TCP, else `quic`.
pub fn pn_endpoint_protocol(protocol: Transport) -> (r: &'static str)
    ensures
        protocol == Transport::Tcp ==> r@ == tcp_text(),
        protocol != Transport::Tcp ==> r@ == quic_text(),
{
    match protocol {
        Transport::Tcp => protocol_tcp(),
        _ => protocol_quic(),
    }
}

/// The announced transport name of a service endpoint.
pub open spec fn protocol_text_of(protocol: Transport) -> Seq<char> {
    if protocol == Transport::Tcp {
        tcp_text()
    } else {
        quic_text()
    }
}

/// A service endpoint as a proxy endpoint.
pub fn p2p_endpoint_to_pn_endpoint(endpoint: &ServiceEndpoint) -> (r: PnServerEndpoint)
    ensures
        r@ == (EndpointModel { protocol: protocol_text_of(endpoint.protocol), ip: endpoint.ip, port: endpoint.port }),
{
    PnServerEndpoint::new_with_protocol(pn_endpoint_protocol(endpoint.protocol), endpoint.ip, endpoint.port)
}

/// A proxy announcing the one endpoint, address kept as it is.
pub fn endpoint_to_pn_server(id: &str, endpoint: &ServiceEndpoint) -> (r: PnServerInfo)
    ensures
        r@.id == id@,
        r@.payload.endpoints == seq![
            EndpointModel { protocol: protocol_text_of(endpoint.protocol), ip: endpoint.ip, port: endpoint.port },
        ],
        r@.payload.name is None,
        r@.payload.advertised_ip is None,
        r@.payload.port_mapping is None,
{
    PnServerInfo {
        id: String::from_str(id),
        payload: PnServerInfoPayload::new_with_endpoint(p2p_endpoint_to_pn_endpoint(endpoint)),
    }
}

/// The port mapping to announce: the configured one, unless no port is mapped.
pub fn pn_server_port_mapping(port_mapping: &PnPortMappingConfig) -> (r: Option<PnServerPortMapping>)
    ensures
        port_mapping.quic is None && port_mapping.tcp is None ==> r is None,
        !(port_mapping.quic is None && port_mapping.tcp is None) ==> r == Some(
            PnServerPortMapping { quic: port_mapping.quic, tcp: port_mapping.tcp },
        ),
{
    let mapping = PnServerPortMapping { quic: port_mapping.quic, tcp: port_mapping.tcp };
    if mapping.is_empty() {
        None
    } else {
        Some(mapping)
    }
}

/// The address to announce for an endpoint listening at `listen_ip`:
/// the configured advertised address if there is one; else the listening
/// address when it is concrete or local addresses are not reported
/// (then as the unspecified address of its family); else the local
/// address discovered for its family (`discovered`, found by routing
/// toward the control server or from the interfaces).
pub open spec fn reported_ip(
    listen_ip: IpAddress,
    advertised_ip: Option<IpAddress>,
    report_local_address: bool,
    discovered: IpAddress,
) -> IpAddress {
    match advertised_ip {
        Some(a) => a,
        None => if report_local_address {
            if !ip_unspecified(listen_ip) {
                listen_ip
            } else {
                discovered
            }
        } else {
            match listen_ip {
                IpAddress::V4(_) => IpAddress::V4(0),
                IpAddress::V6(_) => IpAddress::V6(0),
            }
        },
    }
}

/// The address to announce for a listener at `listen_ip` when no address
/// is advertised: the listening address when it is concrete; else the local
/// address that routing toward the control server chose (`routed`, when it
/// is concrete), else a non-loopback interface address of the family
/// (`interface`), else the listening address itself.
pub open spec fn discovered_ip(
    listen_ip: IpAddress,
    routed: Option<IpAddress>,
    interface: Option<IpAddress>,
) -> IpAddress {
    if !ip_unspecified(listen_ip) {
        listen_ip
    } else {
        match routed {
            Some(r) => if !ip_unspecified(r) {
                r
            } else {
                match interface {
                    Some(i) => i,
                    None => listen_ip,
                }
            },
            None => match interface {
                Some(i) => i,
                None => listen_ip,
            },
        }
    }
}

/// The address to announce for a listener at `listen_ip`.
pub fn advertised_ip_for(
    listen_ip: IpAddress,
    routed: Option<IpAddress>,
    interface: Option<IpAddress>,
) -> (r: IpAddress)
    ensures
        r == discovered_ip(listen_ip, routed, interface),
{
    if !listen_ip.is_unspecified() {
        return listen_ip;
    }
    if let Some(r) = routed {
        if !r.is_unspecified() {
            return r;
        }
    }
    match interface {
        Some(i) => i,
        None => listen_ip,
    }
}

/// An address of a network interface, as the system lists it.
#[derive(Clone, Copy, Debug, PartialEq, Eq, Structural)]
pub struct InterfaceAddress {
    pub ip: IpAddress,
    pub is_loopback: bool,
}

/// The first address in `interfaces` that is not a loopback address and is
/// of the family of `listen_ip`.
pub open spec fn first_usable_interface(interfaces: Seq<InterfaceAddress>, listen_ip: IpAddress) -> Option<
    IpAddress,
>
    decreases interfaces.len(),
{
    if interfaces.len() == 0 {
        None
    } else if !interfaces[0].is_loopback && ((interfaces[0].ip is V4) == (listen_ip is V4)) {
        Some(interfaces[0].ip)
    } else {
        first_usable_interface(interfaces.drop_first(), listen_ip)
    }
}

/// The first non-loopback interface address of the family of `listen_ip`.
pub fn first_non_loopback_interface_ip(interfaces: &Vec<InterfaceAddress>, listen_ip: IpAddress) -> (r:
    Option<IpAddress>)
    ensures
        r == first_usable_interface(interfaces@, listen_ip),
{
    let mut i: usize = 0;
    assert(interfaces@.skip(0) =~= interfaces@);
    while i < interfaces.len()
        invariant
            i <= interfaces@.len(),
            first_usable_interface(interfaces@, listen_ip) == first_usable_interface(
                interfaces@.skip(i as int),
                listen_ip,
            ),
        decreases interfaces@.len() - i,
    {
        let iface = interfaces[i];
        assert(interfaces@.skip(i as int)[0] == iface);
        if !iface.is_loopback && iface.ip.same_family(&listen_ip) {
            return Some(iface.ip);
        }
        assert(interfaces@.skip(i as int).drop_first() =~= interfaces@.skip(i + 1));
        i = i + 1;
    }
    None
}

/// Local addresses found for each family, for listeners on the unspecified
/// address.
#[derive(Clone, Copy, Debug, PartialEq, Eq, Structural)]
pub struct DiscoveredAddresses {
    pub v4: IpAddress,
    pub v6: IpAddress,
}

/// The local address found for the family of `ip`.
pub open spec fn discovered_for(d: DiscoveredAddresses, ip: IpAddress) -> IpAddress {
    match ip {
        IpAddress::V4(_) => d.v4,
        IpAddress::V6(_) => d.v6,
    }
}

/// The endpoint a proxy announces for one of its listeners.
pub open spec fn reported_endpoint(
    e: ServiceEndpoint,
    advertised_ip: Option<IpAddress>,
    report_local_address: bool,
    d: DiscoveredAddresses,
) -> EndpointModel {
    EndpointModel {
        protocol: protocol_text_of(e.protocol),
        ip: reported_ip(e.ip, advertised_ip, report_local_address, discovered_for(d, e.ip)),
        port: e.port,
    }
}

/// The endpoint a proxy announces for one of its listeners.
pub fn p2p_endpoint_to_reported_pn_endpoint(
    endpoint: &ServiceEndpoint,
    configured_advertised_ip: Option<IpAddress>,
    report_local_address: bool,
    discovered: DiscoveredAddresses,
) -> (r: PnServerEndpoint)
    ensures
        r@ == reported_endpoint(*endpoint, configured_advertised_ip, report_local_address, discovered),
{
    let ip = match configured_advertised_ip {
        Some(a) => a,
        None => if report_local_address {
            if !endpoint.ip.is_unspecified() {
                endpoint.ip
            } else {
                match endpoint.ip {
                    IpAddress::V4(_) => discovered.v4,
                    IpAddress::V6(_) => discovered.v6,
                }
            }
        } else {
            endpoint.ip.unspecified_of_family()
        },
    };
    proof {
        if configured_advertised_ip is None && !report_local_address {
            assert(ip == match endpoint.ip {
                IpAddress::V4(_) => IpAddress::V4(0),
                IpAddress::V6(_) => IpAddress::V6(0),
            });
        }
    }
    PnServerEndpoint::new_with_protocol(pn_endpoint_protocol(endpoint.protocol), ip, endpoint.port)
}

/// What a proxy announces about itself: its primary endpoint and then its
/// other endpoints (each once), as announced for its listeners, with the
/// advertised address and the mapped ports.
pub fn endpoints_to_pn_server(
    id: &str,
    primary_endpoint: &ServiceEndpoint,
    endpoints: &Vec<ServiceEndpoint>,
    advertised_ip: Option<IpAddress>,
    port_mapping: &PnPortMappingConfig,
    report_local_address: bool,
    discovered: DiscoveredAddresses,
) -> (r: PnServerInfo)
    ensures
        r@.id == id@,
        r@.payload.name is None,
        r@.payload.endpoints == with_endpoints(
            seq![reported_endpoint(*primary_endpoint, advertised_ip, report_local_address, discovered)],
            endpoints@.map_values(
                |e: ServiceEndpoint| reported_endpoint(e, advertised_ip, report_local_address, discovered),
            ),
        ),
        r@.payload.advertised_ip == advertised_ip,
        r@.payload.port_mapping == if port_mapping.quic is None && port_mapping.tcp is None {
            None::<PnServerPortMapping>
        } else {
            Some(PnServerPortMapping { quic: port_mapping.quic, tcp: port_mapping.tcp })
        },
{
    let primary = p2p_endpoint_to_reported_pn_endpoint(
        primary_endpoint,
        advertised_ip,
        report_local_address,
        discovered,
    );
    let mut addresses: Vec<PnServerEndpoint> = Vec::new();
    let ghost target = endpoints@.map_values(
        |e: ServiceEndpoint| reported_endpoint(e, advertised_ip, report_local_address, discovered),
    );
    let mut i: usize = 0;
    while i < endpoints.len()
        invariant
            i <= endpoints@.len(),
            target == endpoints@.map_values(
                |e: ServiceEndpoint| reported_endpoint(e, advertised_ip, report_local_address, discovered),
            ),
            endpoint_models(addresses@) =~= target.take(i as int),
        decreases endpoints@.len() - i,
    {
        let ghost before = addresses@;
        let e = p2p_endpoint_to_reported_pn_endpoint(
            &endpoints[i],
            advertised_ip,
            report_local_address,
            discovered,
        );
        let ghost em = e@;
        addresses.push(e);
        assert(endpoint_models(addresses@) =~= endpoint_models(before).push(em));
        i = i + 1;
    }
    assert(target.take(endpoints@.len() as int) =~= target);
    let mut payload = PnServerInfoPayload::new_with_primary_address(primary, addresses);
    payload.advertised_ip = advertised_ip;
    payload.port_mapping = pn_server_port_mapping(port_mapping);
    PnServerInfo { id: String::from_str(id), payload }
}


/// The optional text a lookup found, trimmed: none when the key is not
/// there or the text is blank; a failed lookup is an error.
pub fn optional_trimmed_from(l: &Lookup<String>) -> (r: Result<Option<String>, ()>)
    ensures
        l is Failed <==> r is Err,
        l is Missing ==> r == Ok::<Option<String>, ()>(None),
        l matches Lookup::Found(v) ==> (trimmed(v@).len() == 0 ==> r == Ok::<Option<String>, ()>(None)),
        l matches Lookup::Found(v) ==> (trimmed(v@).len() > 0 ==> (r matches Ok(Some(t)) && t@
            == trimmed(v@))),
{
    match l {
        Lookup::Found(v) => Ok(non_empty_trimmed(v.as_str())),
        Lookup::Missing(_) => Ok(None),
        Lookup::Failed(_) => Err(()),
    }
}

/// What the configuration holds for the proxy service, as looked up.
#[derive(Debug)]
pub struct PnServerLookups {
    pub enabled: Lookup<bool>,
    pub transport: Lookup<String>,
    pub heartbeat_interval_secs: Lookup<i64>,
    pub heartbeat_timeout_secs: Lookup<i64>,
    pub control_server_id: Lookup<String>,
    pub control_server_endpoint: Lookup<String>,
    pub control_server_name: Lookup<String>,
    pub report_interval_secs: Lookup<i64>,
    pub advertised_ip: Lookup<String>,
    pub port_mapping_quic: Lookup<i64>,
    pub port_mapping_tcp: Lookup<i64>,
    pub report_local_address: Lookup<bool>,
}

/// Looks up everything the proxy service's configuration is made of.
pub fn read_pn_server_lookups(config: &config::Config) -> (r: PnServerLookups)
    ensures
        agrees(
            entry_at(config_entries(*config), "pn.enabled"@),
            bool_setting(config_entries(*config), "pn.enabled"@),
            r.enabled is Missing,
            lookup_found(r.enabled),
        ),
        agrees(
            entry_at(config_entries(*config), "pn.transport"@),
            text_setting(config_entries(*config), "pn.transport"@),
            r.transport is Missing,
            text_found(r.transport),
        ),
        agrees(
            entry_at(config_entries(*config), "pn.heartbeat_interval_secs"@),
            int_setting(config_entries(*config), "pn.heartbeat_interval_secs"@),
            r.heartbeat_interval_secs is Missing,
            lookup_found(r.heartbeat_interval_secs),
        ),
        agrees(
            entry_at(config_entries(*config), "pn.heartbeat_timeout_secs"@),
            int_setting(config_entries(*config), "pn.heartbeat_timeout_secs"@),
            r.heartbeat_timeout_secs is Missing,
            lookup_found(r.heartbeat_timeout_secs),
        ),
        agrees(
            entry_at(config_entries(*config), "pn.control_server.id"@),
            text_setting(config_entries(*config), "pn.control_server.id"@),
            r.control_server_id is Missing,
            text_found(r.control_server_id),
        ),
        agrees(
            entry_at(config_entries(*config), "pn.control_server.endpoint"@),
            text_setting(config_entries(*config), "pn.control_server.endpoint"@),
            r.control_server_endpoint is Missing,
            text_found(r.control_server_endpoint),
        ),
        agrees(
            entry_at(config_entries(*config), "pn.control_server.name"@),
            text_setting(config_entries(*config), "pn.control_server.name"@),
            r.control_server_name is Missing,
            text_found(r.control_server_name),
        ),
        agrees(
            entry_at(config_entries(*config), "pn.report_interval_secs"@),
            int_setting(config_entries(*config), "pn.report_interval_secs"@),
            r.report_interval_secs is Missing,
            lookup_found(r.report_interval_secs),
        ),
        agrees(
            entry_at(config_entries(*config), "pn.advertised_ip"@),
            text_setting(config_entries(*config), "pn.advertised_ip"@),
            r.advertised_ip is Missing,
            text_found(r.advertised_ip),
        ),
        agrees(
            entry_at(
                config_entries(*config),
                preferred_key(config_entries(*config), "pn.port_mapping.quic"@, "pn.map_ports.quic"@),
            ),
            int_setting(
                config_entries(*config),
                preferred_key(config_entries(*config), "pn.port_mapping.quic"@, "pn.map_ports.quic"@),
            ),
            r.port_mapping_quic is Missing,
            lookup_found(r.port_mapping_quic),
        ),
        agrees(
            entry_at(
                config_entries(*config),
                preferred_key(config_entries(*config), "pn.port_mapping.tcp"@, "pn.map_ports.tcp"@),
            ),
            int_setting(
                config_entries(*config),
                preferred_key(config_entries(*config), "pn.port_mapping.tcp"@, "pn.map_ports.tcp"@),
            ),
            r.port_mapping_tcp is Missing,
            lookup_found(r.port_mapping_tcp),
        ),
        agrees(
            entry_at(config_entries(*config), "pn.report_local_address"@),
            bool_setting(config_entries(*config), "pn.report_local_address"@),
            r.report_local_address is Missing,
            lookup_found(r.report_local_address),
        ),
{
    PnServerLookups {
        enabled: lookup_bool(config, "pn.enabled"),
        transport: lookup_string(config, "pn.transport"),
        heartbeat_interval_secs: lookup_int(config, "pn.heartbeat_interval_secs"),
        heartbeat_timeout_secs: lookup_int(config, "pn.heartbeat_timeout_secs"),
        control_server_id: lookup_string(config, "pn.control_server.id"),
        control_server_endpoint: lookup_string(config, "pn.control_server.endpoint"),
        control_server_name: lookup_string(config, "pn.control_server.name"),
        report_interval_secs: lookup_int(config, "pn.report_interval_secs"),
        advertised_ip: lookup_string(config, "pn.advertised_ip"),
        port_mapping_quic: lookup_int_prefer(config, "pn.port_mapping.quic", "pn.map_ports.quic"),
        port_mapping_tcp: lookup_int_prefer(config, "pn.port_mapping.tcp", "pn.map_ports.tcp"),
        report_local_address: lookup_bool(config, "pn.report_local_address"),
    }
}

impl PnServerLookups {
    /// The control server's endpoint text, which must be read as a socket address.
    pub fn control_endpoint_text(&self) -> (r: Option<String>)
        ensures
            self.control_server_endpoint matches Lookup::Found(t) ==> (r matches Some(x) && x@ == t@),
            !(self.control_server_endpoint is Found) ==> r is None,
    {
        match &self.control_server_endpoint {
            Lookup::Found(t) => Some(t.clone()),
            _ => None,
        }
    }

    /// The advertised address's text, trimmed, which must be read as an IP address.
    pub fn advertised_ip_text(&self) -> (r: Option<String>)
        ensures
            r matches Some(t) ==> (self.advertised_ip matches Lookup::Found(v) && t@ == trimmed(v@)
                && t@.len() > 0),
            self.advertised_ip matches Lookup::Found(v) ==> (trimmed(v@).len() > 0 ==> r is Some),
    {
        match optional_trimmed_from(&self.advertised_ip) {
            Ok(t) => t,
            Err(_) => None,
        }
    }
}

/// Whether the looked-up control server settings are acceptable: no id
/// and neither an endpoint nor a name, or an id and an endpoint that reads
/// as a socket address, with a readable name if any.
pub open spec fn control_lookups_ok(
    id: Lookup<String>,
    endpoint_text: Lookup<String>,
    name: Lookup<String>,
    endpoint: Option<Result<(IpAddress, u16), String>>,
) -> bool {
    ||| (id is Missing && !(endpoint_text is Found) && !(name is Found))
    ||| (id is Found && endpoint_text is Found && !(name is Failed) && endpoint matches Some(Ok(_)))
}

/// The control server a proxy reports to, from its looked-up id, endpoint
/// and name under `prefix`: none when no id is configured, unless an
/// endpoint or a name is, which is an error. `endpoint` is the endpoint
/// text read as a socket address, or why it could not be; the control
/// server is reached there on each transport of `mode`.
pub fn control_server_config_from(
    prefix: &str,
    mode: PnTransportMode,
    id: Lookup<String>,
    endpoint_text: Lookup<String>,
    name: Lookup<String>,
    endpoint: Option<Result<(IpAddress, u16), String>>,
) -> (r: Result<Option<PnControlServerConfig>, ServerConfigError>)
    ensures
        r is Ok <==> control_lookups_ok(id, endpoint_text, name, endpoint),
        r matches Ok(c) ==> (c is None <==> id is Missing),
        id is Missing && !(endpoint_text is Found) && !(name is Found) ==> r matches Ok(None),
        id is Missing && (endpoint_text is Found || name is Found) ==> (r matches Err(
            ServerConfigError::ControlServerIdRequired { prefix: p },
        ) && p@ == prefix@),
        id is Failed ==> r is Err,
        id is Found && !(endpoint_text is Found) ==> r is Err,
        id is Found && endpoint_text is Found && name is Failed ==> r is Err,
        endpoint matches Some(Err(reason)) ==> (id is Found && endpoint_text is Found && !(
        name is Failed) ==> (r matches Err(ServerConfigError::InvalidControlEndpoint { address, reason: why })
            && address@ == endpoint_text->Found_0@ && why == reason)),
        r matches Ok(Some(c)) ==> (id is Found && c.id@ == id->Found_0@ && (endpoint matches Some(
            Ok(e),
        ) && c.endpoints@ == mode_endpoints(mode, e.0, e.1))),
        r matches Ok(Some(c)) ==> (name matches Lookup::Found(n) ==> (trimmed(n@).len() > 0 ==> (
        c.name matches Some(x) && x@ == trimmed(n@)))),
        r matches Ok(Some(c)) ==> ((name is Found && trimmed(name->Found_0@).len() > 0) || c.name is None),
{
    let id = match id {
        Lookup::Found(id) => id,
        Lookup::Missing(_) => {
            if endpoint_text.is_found() || name.is_found() {
                return Err(ServerConfigError::ControlServerIdRequired { prefix: String::from_str(prefix) });
            }
            return Ok(None);
        },
        Lookup::Failed(e) => {
            return Err(ServerConfigError::Config(e));
        },
    };
    let text = required(endpoint_text)?;
    let name = match name {
        Lookup::Found(v) => non_empty_trimmed(v.as_str()),
        Lookup::Missing(_) => None,
        Lookup::Failed(e) => {
            return Err(ServerConfigError::Config(e));
        },
    };
    let (ip, port) = match endpoint {
        Some(Ok(e)) => e,
        Some(Err(reason)) => {
            return Err(ServerConfigError::InvalidControlEndpoint { address: text, reason });
        },
        None => {
            return Err(ServerConfigError::InvalidControlEndpoint { address: text, reason: String::new() });
        },
    };
    Ok(Some(PnControlServerConfig { id, name, endpoints: mode.endpoints_at(ip, port) }))
}

impl<T> Lookup<T> {
    /// Whether the lookup found a value.
    pub fn is_found(&self) -> (r: bool)
        ensures
            r == (self is Found),
    {
        match self {
            Lookup::Found(_) => true,
            _ => false,
        }
    }
}

/// The advertised address a lookup and the reading of its trimmed text
/// give, when they are acceptable: none when nothing (or only blanks) is
/// configured, else the address read, which must be concrete.
pub open spec fn advertised_value(
    lookup: Lookup<String>,
    parsed: Option<Result<IpAddress, String>>,
) -> Option<Option<IpAddress>> {
    match lookup {
        Lookup::Found(v) => if trimmed(v@).len() == 0 {
            Some(None)
        } else {
            match parsed {
                Some(Ok(ip)) => if ip_unspecified(ip) {
                    None
                } else {
                    Some(Some(ip))
                },
                _ => None,
            }
        },
        Lookup::Missing(_) => Some(None),
        Lookup::Failed(_) => None,
    }
}

/// The advertised address from its trimmed text and that text read as an
/// IP address: none when none is configured; it must be an IP address, and
/// a concrete one.
pub fn advertised_ip_from(
    lookup: Lookup<String>,
    parsed: Option<Result<IpAddress, String>>,
) -> (r: Result<Option<IpAddress>, ServerConfigError>)
    ensures
        advertised_value(lookup, parsed) matches Some(a) ==> r == Ok::<
            Option<IpAddress>,
            ServerConfigError,
        >(a),
        advertised_value(lookup, parsed) is None ==> r is Err,
        lookup is Missing ==> r == Ok::<Option<IpAddress>, ServerConfigError>(None),
        lookup matches Lookup::Failed(e) ==> (r matches Err(ServerConfigError::Config(x)) && x == e),
        lookup matches Lookup::Found(v) ==> (trimmed(v@).len() == 0 ==> r == Ok::<
            Option<IpAddress>,
            ServerConfigError,
        >(None)),
        lookup matches Lookup::Found(v) ==> (trimmed(v@).len() > 0 ==> match parsed {
            Some(Ok(ip)) => if ip_unspecified(ip) {
                r matches Err(ServerConfigError::UnspecifiedAdvertisedIp { ip: x }) && x == ip
            } else {
                r == Ok::<Option<IpAddress>, ServerConfigError>(Some(ip))
            },
            Some(Err(reason)) => r matches Err(ServerConfigError::InvalidAdvertisedIp { text, reason: why })
                && text@ == trimmed(v@) && why == reason,
            None => r is Err,
        }),
{
    let text = match lookup {
        Lookup::Found(v) => match non_empty_trimmed(v.as_str()) {
            Some(t) => t,
            None => {
                return Ok(None);
            },
        },
        Lookup::Missing(_) => {
            return Ok(None);
        },
        Lookup::Failed(e) => {
            return Err(ServerConfigError::Config(e));
        },
    };
    match parsed {
        Some(Ok(ip)) => if ip.is_unspecified() {
            Err(ServerConfigError::UnspecifiedAdvertisedIp { ip })
        } else {
            Ok(Some(ip))
        },
        Some(Err(reason)) => Err(ServerConfigError::InvalidAdvertisedIp { text, reason }),
        None => Err(ServerConfigError::InvalidAdvertisedIp { text, reason: String::new() }),
    }
}

/// How long node traffic idempotency records are kept when the
/// configuration names no retention, in seconds.
pub const DEFAULT_NODE_TRAFFIC_IDEMPOTENCY_RETENTION_SECS: u64 = 600;

/// How the proxy service runs, from what the configuration holds, checked
/// in order: the heartbeat timeout must be longer than the heartbeat
/// interval (each positive, else 5 and 15 seconds), then `pn.transport`
/// must name a transport mode (dual when it is not configured), then the
/// control server, the advertised address and the mapped ports must be valid. The
/// service is enabled and reports its local addresses unless configured
/// otherwise; reports go every `pn.report_interval_secs` (positive, else 5).
/// `control_endpoint` and `advertised_ip` are the control server's endpoint
/// text read as a socket address and the advertised address's trimmed text
/// read as an IP address.
pub fn pn_server_config_from(
    l: PnServerLookups,
    control_endpoint: Option<Result<(IpAddress, u16), String>>,
    advertised_ip: Option<Result<IpAddress, String>>,
) -> (r: Result<PnServerConfig, ServerConfigError>)
    ensures
        positive_or_spec(&l.heartbeat_timeout_secs, 15) <= positive_or_spec(&l.heartbeat_interval_secs, 5)
            ==> (r matches Err(ServerConfigError::HeartbeatTimeoutNotAfterInterval { timeout_secs: t, interval_secs: i })
            && t == positive_or_spec(&l.heartbeat_timeout_secs, 15) && i == positive_or_spec(&l.heartbeat_interval_secs, 5)),
        r matches Ok(c) ==> c.enabled == bool_or_spec(&l.enabled, true)
            && c.heartbeat_interval_secs == positive_or_spec(&l.heartbeat_interval_secs, 5)
            && c.heartbeat_timeout_secs == positive_or_spec(&l.heartbeat_timeout_secs, 15)
            && c.heartbeat_timeout_secs > c.heartbeat_interval_secs
            && c.report_interval_secs == positive_or_spec(&l.report_interval_secs, 5)
            && c.report_local_address == bool_or_spec(&l.report_local_address, true),
        positive_or_spec(&l.heartbeat_timeout_secs, 15) > positive_or_spec(&l.heartbeat_interval_secs, 5)
            ==> (l.transport matches Lookup::Found(t) ==> (transport_mode_named(t@) is None ==> (
        r matches Err(ServerConfigError::InvalidTransport { text }) && text@ == t@))),
        r matches Ok(c) ==> transport_value(l.transport) == Some(c.transport),
        r is Ok <==> positive_or_spec(&l.heartbeat_timeout_secs, 15) > positive_or_spec(
            &l.heartbeat_interval_secs,
            5,
        ) && transport_value(l.transport) is Some && control_lookups_ok(
            l.control_server_id,
            l.control_server_endpoint,
            l.control_server_name,
            control_endpoint,
        ) && advertised_value(l.advertised_ip, advertised_ip) is Some && port_lookup_ok(
            l.port_mapping_quic,
        ) && port_lookup_ok(l.port_mapping_tcp),
        r matches Ok(c) ==> Some(c.advertised_ip) == advertised_value(l.advertised_ip, advertised_ip),
        r matches Ok(c) ==> c.port_mapping == (PnPortMappingConfig {
            quic: port_of(l.port_mapping_quic),
            tcp: port_of(l.port_mapping_tcp),
        }),
        r matches Ok(c) ==> (c.control_server is None <==> l.control_server_id is Missing),
        r matches Ok(c) ==> (c.control_server matches Some(cs) ==> (cs.id@ == l.control_server_id->Found_0@
            && (control_endpoint matches Some(Ok(e)) && cs.endpoints@ == mode_endpoints(
            c.transport,
            e.0,
            e.1,
        )))),
        r matches Ok(c) ==> (c.control_server matches Some(cs) ==> (l.control_server_name is Found
            && trimmed(l.control_server_name->Found_0@).len() > 0 ==> (cs.name matches Some(x) && x@
            == trimmed(l.control_server_name->Found_0@)))),
        r matches Ok(c) ==> (c.control_server matches Some(cs) ==> ((l.control_server_name is Found
            && trimmed(l.control_server_name->Found_0@).len() > 0) || cs.name is None)),
{
    let enabled = bool_or(&l.enabled, true);
    let heartbeat_interval_secs = positive_or(&l.heartbeat_interval_secs, 5);
    let heartbeat_timeout_secs = positive_or(&l.heartbeat_timeout_secs, 15);
    if heartbeat_timeout_secs <= heartbeat_interval_secs {
        return Err(ServerConfigError::HeartbeatTimeoutNotAfterInterval {
            timeout_secs: heartbeat_timeout_secs,
            interval_secs: heartbeat_interval_secs,
        });
    }
    let transport = transport_mode_from(l.transport)?;
    let report_interval_secs = positive_or(&l.report_interval_secs, 5);
    let report_local_address = bool_or(&l.report_local_address, true);
    let advertised = advertised_ip_from(l.advertised_ip, advertised_ip);
    let control_server = control_server_config_from(
        "pn.control_server",
        transport,
        l.control_server_id,
        l.control_server_endpoint,
        l.control_server_name,
        control_endpoint,
    )?;
    let advertised_ip = advertised?;
    let quic = optional_port_from("pn.port_mapping.quic", l.port_mapping_quic)?;
    let tcp = optional_port_from("pn.port_mapping.tcp", l.port_mapping_tcp)?;
    Ok(PnServerConfig {
        enabled,
        transport,
        control_server,
        report_interval_secs,
        heartbeat_interval_secs,
        heartbeat_timeout_secs,
        advertised_ip,
        port_mapping: PnPortMappingConfig { quic, tcp },
        report_local_address,
    })
}

/// The number a lookup found if it is positive, else `default`.
pub open spec fn positive_or_spec(l: &Lookup<i64>, default: u64) -> u64 {
    match l {
        Lookup::Found(v) => if *v > 0 {
            *v as u64
        } else {
            default
        },
        _ => default,
    }
}

/// The boolean a lookup found, else `default`.
pub open spec fn bool_or_spec(l: &Lookup<bool>, default: bool) -> bool {
    match l {
        Lookup::Found(v) => *v,
        _ => default,
    }
}

} // verus!
