//! What a proxy node announces about itself: its endpoints, the address it
//! advertises and the ports its router maps, and how the control plane
//! turns what a proxy reports and what the control connection shows into
//! the addresses clients are given.

use vstd::prelude::*;
use vstd::string::*;
use crate::order::same_text;

verus! {

/// An IP address: four or sixteen bytes, held as a number.
#[derive(Clone, Copy, Debug, PartialEq, Eq, Structural)]
pub enum IpAddress {
    V4(u32),
    V6(u128),
}

/// The unspecified address (`0.0.0.0` or `::`) of either family.
pub open spec fn ip_unspecified(ip: IpAddress) -> bool {
    match ip {
        IpAddress::V4(a) => a == 0,
        IpAddress::V6(a) => a == 0,
    }
}

impl IpAddress {
    /// Whether this is the unspecified address of its family.
    pub fn is_unspecified(&self) -> (r: bool)
        ensures
            r == ip_unspecified(*self),
    {
        match self {
            IpAddress::V4(a) => *a == 0,
            IpAddress::V6(a) => *a == 0,
        }
    }

    /// Whether both addresses are of the same family.
    pub fn same_family(&self, other: &IpAddress) -> (r: bool)
        ensures
            r == ((*self is V4) == (*other is V4)),
    {
        match (self, other) {
            (IpAddress::V4(_), IpAddress::V4(_)) => true,
            (IpAddress::V6(_), IpAddress::V6(_)) => true,
            _ => false,
        }
    }

    /// The unspecified address of this address's family.
    pub fn unspecified_of_family(&self) -> (r: IpAddress)
        ensures
            ip_unspecified(r),
            (r is V4) == (*self is V4),
    {
        match self {
            IpAddress::V4(_) => IpAddress::V4(0),
            IpAddress::V6(_) => IpAddress::V6(0),
        }
    }
}

/// The transport name of QUIC endpoints.
pub open spec fn quic_text() -> Seq<char> {
    seq!['q', 'u', 'i', 'c']
}

/// The transport name of TCP endpoints.
pub open spec fn tcp_text() -> Seq<char> {
    seq!['t', 'c', 'p']
}

/// The transport name of QUIC endpoints.
pub fn protocol_quic() -> (r: &'static str)
    ensures
        r@ == quic_text(),
{
    proof {
        reveal_strlit("quic");
    }
    "quic"
}

/// The transport name of TCP endpoints.
pub fn protocol_tcp() -> (r: &'static str)
    ensures
        r@ == tcp_text(),
{
    proof {
        reveal_strlit("tcp");
    }
    "tcp"
}

/// An address at which a proxy accepts connections.
#[derive(Debug, PartialEq, Eq)]
pub struct PnServerEndpoint {
    pub protocol: String,
    pub ip: IpAddress,
    pub port: u16,
}

/// The abstract value of a [`PnServerEndpoint`].
pub struct EndpointModel {
    pub protocol: Seq<char>,
    pub ip: IpAddress,
    pub port: u16,
}

impl View for PnServerEndpoint {
    type V = EndpointModel;

    open spec fn view(&self) -> EndpointModel {
        EndpointModel { protocol: self.protocol@, ip: self.ip, port: self.port }
    }
}

impl PnServerEndpoint {
    /// A QUIC endpoint.
    pub fn new(ip: IpAddress, port: u16) -> (r: PnServerEndpoint)
        ensures
            r@ == (EndpointModel { protocol: quic_text(), ip, port }),
    {
        PnServerEndpoint { protocol: String::from_str(protocol_quic()), ip, port }
    }

    /// A TCP endpoint.
    pub fn new_tcp(ip: IpAddress, port: u16) -> (r: PnServerEndpoint)
        ensures
            r@ == (EndpointModel { protocol: tcp_text(), ip, port }),
    {
        PnServerEndpoint { protocol: String::from_str(protocol_tcp()), ip, port }
    }

    /// An endpoint of the named transport.
    pub fn new_with_protocol(protocol: &str, ip: IpAddress, port: u16) -> (r: PnServerEndpoint)
        ensures
            r@ == (EndpointModel { protocol: protocol@, ip, port }),
    {
        PnServerEndpoint { protocol: String::from_str(protocol), ip, port }
    }

    /// A copy of this endpoint.
    pub fn duplicate(&self) -> (r: PnServerEndpoint)
        ensures
            r@ == self@,
    {
        PnServerEndpoint { protocol: self.protocol.clone(), ip: self.ip, port: self.port }
    }

    /// Whether two endpoints are the same.
    pub fn same_as(&self, other: &PnServerEndpoint) -> (r: bool)
        ensures
            r == (self@ == other@),
    {
        self.ip == other.ip && self.port == other.port && same_text(
            self.protocol.as_str(),
            other.protocol.as_str(),
        )
    }
}

/// The public ports that a router in front of the proxy maps to its
/// QUIC and TCP listeners.
#[derive(Clone, Copy, Debug, PartialEq, Eq, Structural)]
pub struct PnServerPortMapping {
    pub quic: Option<u16>,
    pub tcp: Option<u16>,
}

impl PnServerPortMapping {
    /// Whether no port is mapped.
    pub fn is_empty(&self) -> (r: bool)
        ensures
            r == (self.quic is None && self.tcp is None),
    {
        self.quic.is_none() && self.tcp.is_none()
    }
}

/// What a proxy announces besides its id.
#[derive(Debug, PartialEq, Eq)]
pub struct PnServerInfoPayload {
    pub name: Option<String>,
    pub endpoints: Vec<PnServerEndpoint>,
    pub advertised_ip: Option<IpAddress>,
    pub port_mapping: Option<PnServerPortMapping>,
}

/// The abstract value of a [`PnServerInfoPayload`].
pub struct PayloadModel {
    pub name: Option<Seq<char>>,
    pub endpoints: Seq<EndpointModel>,
    pub advertised_ip: Option<IpAddress>,
    pub port_mapping: Option<PnServerPortMapping>,
}

/// The text of an optional string.
pub open spec fn opt_text(o: Option<String>) -> Option<Seq<char>> {
    match o {
        Some(s) => Some(s@),
        None => None,
    }
}

/// The abstract values of a sequence of endpoints.
pub open spec fn endpoint_models(s: Seq<PnServerEndpoint>) -> Seq<EndpointModel> {
    s.map_values(|e: PnServerEndpoint| e@)
}

impl View for PnServerInfoPayload {
    type V = PayloadModel;

    open spec fn view(&self) -> PayloadModel {
        PayloadModel {
            name: opt_text(self.name),
            endpoints: endpoint_models(self.endpoints@),
            advertised_ip: self.advertised_ip,
            port_mapping: self.port_mapping,
        }
    }
}

/// A copy of an optional string.
pub fn copy_opt_string(o: &Option<String>) -> (r: Option<String>)
    ensures
        opt_text(r) == opt_text(*o),
{
    match o {
        Some(s) => Some(s.clone()),
        None => None,
    }
}

/// Copies a sequence of endpoints.
pub fn copy_endpoints(es: &Vec<PnServerEndpoint>) -> (r: Vec<PnServerEndpoint>)
    ensures
        endpoint_models(r@) == endpoint_models(es@),
{
    let mut out: Vec<PnServerEndpoint> = Vec::new();
    let mut i: usize = 0;
    while i < es.len()
        invariant
            i <= es@.len(),
            endpoint_models(out@) =~= endpoint_models(es@).take(i as int),
        decreases es@.len() - i,
    {
        let ghost before = out@;
        out.push(es[i].duplicate());
        assert(endpoint_models(out@) =~= endpoint_models(before).push(es@[i as int]@));
        i = i + 1;
    }
    assert(endpoint_models(es@).take(es@.len() as int) =~= endpoint_models(es@));
    out
}

/// The endpoints after `e` was added to `es`: added at the end, unless it
/// is already there.
pub open spec fn with_endpoint(es: Seq<EndpointModel>, e: EndpointModel) -> Seq<EndpointModel> {
    if es.contains(e) {
        es
    } else {
        es.push(e)
    }
}

/// The endpoints after each of `more` was added to `es`, in order.
pub open spec fn with_endpoints(es: Seq<EndpointModel>, more: Seq<EndpointModel>) -> Seq<
    EndpointModel,
>
    decreases more.len(),
{
    if more.len() == 0 {
        es
    } else {
        with_endpoint(with_endpoints(es, more.drop_last()), more.last())
    }
}

/// An empty payload.
pub open spec fn empty_payload() -> PayloadModel {
    PayloadModel { name: None, endpoints: seq![], advertised_ip: None, port_mapping: None }
}

impl PnServerInfoPayload {
    /// An empty payload: no name, no endpoint, no advertised address, no
    /// mapped port.
    pub fn empty() -> (r: PnServerInfoPayload)
        ensures
            r@ == empty_payload(),
    {
        let r = PnServerInfoPayload {
            name: None,
            endpoints: Vec::new(),
            advertised_ip: None,
            port_mapping: None,
        };
        assert(r@.endpoints =~= Seq::<EndpointModel>::empty());
        r
    }

    /// A payload with one endpoint.
    pub fn new_with_endpoint(endpoint: PnServerEndpoint) -> (r: PnServerInfoPayload)
        ensures
            r@.name is None,
            r@.endpoints == seq![endpoint@],
            r@.advertised_ip is None,
            r@.port_mapping is None,
    {
        let mut r = PnServerInfoPayload::empty();
        r.add_endpoint(endpoint);
        r
    }

    /// A payload with a primary endpoint followed by further ones; an
    /// endpoint that is already there is not added again.
    pub fn new_with_primary_address(primary: PnServerEndpoint, addresses: Vec<PnServerEndpoint>) -> (r:
        PnServerInfoPayload)
        ensures
            r@.name is None,
            r@.endpoints == with_endpoints(seq![primary@], endpoint_models(addresses@)),
            r@.advertised_ip is None,
            r@.port_mapping is None,
    {
        let mut r = PnServerInfoPayload::new_with_endpoint(primary);
        let mut i: usize = 0;
        let ghost first = r@.endpoints;
        while i < addresses.len()
            invariant
                i <= addresses@.len(),
                r@.name is None,
                r@.advertised_ip is None,
                r@.port_mapping is None,
                r@.endpoints == with_endpoints(first, endpoint_models(addresses@).take(i as int)),
            decreases addresses@.len() - i,
        {
            assert(endpoint_models(addresses@).take(i + 1).drop_last() =~= endpoint_models(
                addresses@,
            ).take(i as int));
            r.add_endpoint(addresses[i].duplicate());
            i = i + 1;
        }
        assert(endpoint_models(addresses@).take(addresses@.len() as int) =~= endpoint_models(
            addresses@,
        ));
        r
    }

    /// Adds an endpoint at the end, unless it is already there.
    pub fn add_endpoint(&mut self, endpoint: PnServerEndpoint)
        ensures
            final(self)@.endpoints == with_endpoint(old(self)@.endpoints, endpoint@),
            final(self)@.name == old(self)@.name,
            final(self)@.advertised_ip == old(self)@.advertised_ip,
            final(self)@.port_mapping == old(self)@.port_mapping,
    {
        let ghost es = self@.endpoints;
        let mut i: usize = 0;
        while i < self.endpoints.len()
            invariant
                i <= self.endpoints@.len(),
                es == endpoint_models(self.endpoints@),
                forall|k: int| 0 <= k < i ==> es[k] != endpoint@,
            decreases self.endpoints@.len() - i,
        {
            if self.endpoints[i].same_as(&endpoint) {
                assert(es[i as int] == endpoint@);
                return;
            }
            i = i + 1;
        }
        let ghost before = self.endpoints@;
        let ghost e = endpoint@;
        self.endpoints.push(endpoint);
        assert(endpoint_models(self.endpoints@) =~= endpoint_models(before).push(e));
    }

    /// The first endpoint, if any.
    pub fn primary_endpoint(&self) -> (r: Option<&PnServerEndpoint>)
        ensures
            self.endpoints@.len() == 0 ==> r is None,
            self.endpoints@.len() > 0 ==> (r matches Some(e) && e@ == self@.endpoints[0]),
    {
        if self.endpoints.len() == 0 {
            None
        } else {
            Some(&self.endpoints[0])
        }
    }

    /// A copy of this payload.
    pub fn duplicate(&self) -> (r: PnServerInfoPayload)
        ensures
            r@ == self@,
    {
        PnServerInfoPayload {
            name: copy_opt_string(&self.name),
            endpoints: copy_endpoints(&self.endpoints),
            advertised_ip: self.advertised_ip,
            port_mapping: self.port_mapping,
        }
    }
}

/// A proxy node as the control plane knows it: its id and what it announces.
#[derive(Debug, PartialEq, Eq)]
pub struct PnServerInfo {
    pub id: String,
    pub payload: PnServerInfoPayload,
}

/// The abstract value of a [`PnServerInfo`].
pub struct InfoModel {
    pub id: Seq<char>,
    pub payload: PayloadModel,
}

impl View for PnServerInfo {
    type V = InfoModel;

    open spec fn view(&self) -> InfoModel {
        InfoModel { id: self.id@, payload: self.payload@ }
    }
}

impl PnServerInfo {
    /// A proxy known by its id alone.
    pub fn new_bare(id: String) -> (r: PnServerInfo)
        ensures
            r@ == (InfoModel { id: id@, payload: empty_payload() }),
    {
        PnServerInfo { id, payload: PnServerInfoPayload::empty() }
    }

    /// A copy of this proxy.
    pub fn duplicate(&self) -> (r: PnServerInfo)
        ensures
            r@ == self@,
    {
        PnServerInfo { id: self.id.clone(), payload: self.payload.duplicate() }
    }
}

/// The abstract values of a sequence of proxies.
pub open spec fn info_models(s: Seq<PnServerInfo>) -> Seq<InfoModel> {
    s.map_values(|p: PnServerInfo| p@)
}

/// The public port a mapping gives the endpoint's transport, if any.
pub open spec fn mapped_port(e: EndpointModel, m: Option<PnServerPortMapping>) -> Option<u16> {
    match m {
        None => None,
        Some(m) => if e.protocol == quic_text() {
            m.quic
        } else if e.protocol == tcp_text() {
            m.tcp
        } else {
            None
        },
    }
}

/// The port clients use for the endpoint: the mapped one, else its own.
pub open spec fn public_port(e: EndpointModel, m: Option<PnServerPortMapping>) -> u16 {
    match mapped_port(e, m) {
        Some(p) => p,
        None => e.port,
    }
}

/// The endpoint moved to `ip`, on its public port.
pub open spec fn rewritten_endpoint(
    e: EndpointModel,
    ip: IpAddress,
    m: Option<PnServerPortMapping>,
) -> EndpointModel {
    EndpointModel { protocol: e.protocol, ip, port: public_port(e, m) }
}

/// Every endpoint moved to `ip`, on its public port.
pub open spec fn rewritten_endpoints(
    es: Seq<EndpointModel>,
    ip: IpAddress,
    m: Option<PnServerPortMapping>,
) -> Seq<EndpointModel> {
    es.map_values(|e: EndpointModel| rewritten_endpoint(e, ip, m))
}

/// The endpoints clients can connect to: those with a concrete address,
/// each on its public port.
pub open spec fn visible_endpoints(es: Seq<EndpointModel>, m: Option<PnServerPortMapping>) -> Seq<
    EndpointModel,
>
    decreases es.len(),
{
    if es.len() == 0 {
        seq![]
    } else {
        let rest = visible_endpoints(es.drop_last(), m);
        let e = es.last();
        if ip_unspecified(e.ip) {
            rest
        } else {
            rest.push(EndpointModel { protocol: e.protocol, ip: e.ip, port: public_port(e, m) })
        }
    }
}

/// What clients are shown of a proxy: its id and name, and the endpoints
/// they can connect to on their public ports; the advertised address and
/// the port mapping are not shown.
pub open spec fn client_view(p: InfoModel) -> InfoModel {
    InfoModel {
        id: p.id,
        payload: PayloadModel {
            name: p.payload.name,
            endpoints: visible_endpoints(p.payload.endpoints, p.payload.port_mapping),
            advertised_ip: None,
            port_mapping: None,
        },
    }
}

/// Some endpoint of the proxy has a concrete address.
pub open spec fn connectable(p: InfoModel) -> bool {
    exists|i: int|
        0 <= i < p.payload.endpoints.len() && !ip_unspecified(
            #[trigger] p.payload.endpoints[i].ip,
        )
}

/// The address of the proxy's first endpoint, if it has one.
pub open spec fn primary_ip(p: PayloadModel) -> Option<IpAddress> {
    if p.endpoints.len() == 0 {
        None
    } else {
        Some(p.endpoints[0].ip)
    }
}

/// The endpoints of a reported proxy placed at `ip`, on their public ports,
/// each once.
pub open spec fn placed_endpoints(reported: PayloadModel, ip: IpAddress) -> Seq<EndpointModel> {
    with_endpoints(seq![], rewritten_endpoints(reported.endpoints, ip, reported.port_mapping))
}

/// What the control plane makes of a proxy it saw on a control connection
/// (`observed`) and that also reported itself (`reported`): the reported
/// endpoints, placed at the advertised address if the proxy has one, else
/// at the address the connection came from, on their public ports; the
/// reported name, else the observed one.
pub open spec fn observed_reported_view(observed: InfoModel, reported: InfoModel) -> InfoModel {
    let rp = reported.payload;
    let ip = match rp.advertised_ip {
        Some(a) => Some(a),
        None => primary_ip(observed.payload),
    };
    InfoModel {
        id: reported.id,
        payload: PayloadModel {
            name: match rp.name {
                Some(n) => Some(n),
                None => observed.payload.name,
            },
            endpoints: match ip {
                Some(ip) => placed_endpoints(rp, ip),
                None => seq![],
            },
            advertised_ip: rp.advertised_ip,
            port_mapping: rp.port_mapping,
        },
    }
}

/// What the control plane makes of a proxy from what it saw on a control
/// connection and what it reported, whichever of the two it has.
pub open spec fn merged_view(observed: Option<InfoModel>, reported: Option<InfoModel>) -> InfoModel {
    match (observed, reported) {
        (Some(o), Some(r)) => observed_reported_view(o, r),
        (Some(o), None) => InfoModel {
            id: o.id,
            payload: PayloadModel {
                name: o.payload.name,
                endpoints: seq![],
                advertised_ip: None,
                port_mapping: None,
            },
        },
        (None, Some(r)) => InfoModel {
            id: r.id,
            payload: PayloadModel {
                name: r.payload.name,
                endpoints: match r.payload.advertised_ip {
                    Some(a) => placed_endpoints(r.payload, a),
                    None => seq![],
                },
                advertised_ip: r.payload.advertised_ip,
                port_mapping: r.payload.port_mapping,
            },
        },
        (None, None) => InfoModel { id: seq![], payload: empty_payload() },
    }
}

/// Two proxies are the same for a client: same id, name and endpoints.
pub open spec fn same_connectable(a: InfoModel, b: InfoModel) -> bool {
    a.id == b.id && a.payload.name == b.payload.name && a.payload.endpoints == b.payload.endpoints
}

/// The public port that the mapping gives the endpoint's transport, if any.
pub fn mapped_endpoint_port(endpoint: &PnServerEndpoint, port_mapping: Option<PnServerPortMapping>) -> (r:
    Option<u16>)
    ensures
        r == mapped_port(endpoint@, port_mapping),
{
    let m = match port_mapping {
        Some(m) => m,
        None => {
            return None;
        },
    };
    if same_text(endpoint.protocol.as_str(), protocol_quic()) {
        m.quic
    } else if same_text(endpoint.protocol.as_str(), protocol_tcp()) {
        m.tcp
    } else {
        None
    }
}

/// The endpoint moved to `ip`, on its public port.
pub fn rewrite_endpoint_ip(
    endpoint: &PnServerEndpoint,
    ip: IpAddress,
    port_mapping: Option<PnServerPortMapping>,
) -> (r: PnServerEndpoint)
    ensures
        r@ == rewritten_endpoint(endpoint@, ip, port_mapping),
{
    let port = match mapped_endpoint_port(endpoint, port_mapping) {
        Some(p) => p,
        None => endpoint.port,
    };
    PnServerEndpoint { protocol: endpoint.protocol.clone(), ip, port }
}

/// The endpoints of `reported` placed at `ip` on their public ports, each once.
pub fn place_endpoints(reported: &PnServerInfoPayload, ip: IpAddress) -> (r: Vec<PnServerEndpoint>)
    ensures
        endpoint_models(r@) == placed_endpoints(reported@, ip),
{
    let ghost src = rewritten_endpoints(reported@.endpoints, ip, reported@.port_mapping);
    let mut acc = PnServerInfoPayload::empty();
    let mut i: usize = 0;
    while i < reported.endpoints.len()
        invariant
            i <= reported.endpoints@.len(),
            src == rewritten_endpoints(reported@.endpoints, ip, reported@.port_mapping),
            src.len() == reported.endpoints@.len(),
            acc@.endpoints == with_endpoints(seq![], src.take(i as int)),
        decreases reported.endpoints@.len() - i,
    {
        assert(src.take(i + 1).drop_last() =~= src.take(i as int));
        let e = rewrite_endpoint_ip(&reported.endpoints[i], ip, reported.port_mapping);
        assert(src.take(i + 1).last() == e@);
        acc.add_endpoint(e);
        i = i + 1;
    }
    assert(src.take(src.len() as int) =~= src);
    acc.endpoints
}

/// Whether some endpoint of the proxy has a concrete address.
pub fn has_connectable_endpoint(pn_server: &PnServerInfo) -> (r: bool)
    ensures
        r == connectable(pn_server@),
{
    let ghost es = pn_server@.payload.endpoints;
    let mut i: usize = 0;
    while i < pn_server.payload.endpoints.len()
        invariant
            i <= pn_server.payload.endpoints@.len(),
            es == pn_server@.payload.endpoints,
            forall|k: int| 0 <= k < i ==> ip_unspecified(#[trigger] es[k].ip),
        decreases pn_server.payload.endpoints@.len() - i,
    {
        assert(es[i as int] == pn_server.payload.endpoints@[i as int]@);
        if !pn_server.payload.endpoints[i].ip.is_unspecified() {
            assert(!ip_unspecified(pn_server@.payload.endpoints[i as int].ip));
            return true;
        }
        i = i + 1;
    }
    false
}

/// The address of the proxy's first endpoint, if it has one.
pub fn primary_endpoint_ip(pn_server: &PnServerInfo) -> (r: Option<IpAddress>)
    ensures
        r == primary_ip(pn_server@.payload),
{
    match pn_server.payload.primary_endpoint() {
        Some(e) => Some(e.ip),
        None => None,
    }
}

/// What clients are shown of a proxy.
pub fn client_visible_pn_server(pn_server: &PnServerInfo) -> (r: PnServerInfo)
    ensures
        r@ == client_view(pn_server@),
{
    let es = &pn_server.payload.endpoints;
    let m = pn_server.payload.port_mapping;
    let ghost em = endpoint_models(es@);
    let mut out: Vec<PnServerEndpoint> = Vec::new();
    let mut i: usize = 0;
    while i < es.len()
        invariant
            i <= es@.len(),
            em == endpoint_models(es@),
            endpoint_models(out@) == visible_endpoints(em.take(i as int), m),
        decreases es@.len() - i,
    {
        assert(em.take(i + 1).drop_last() =~= em.take(i as int));
        assert(em.take(i + 1).last() == es@[i as int]@);
        if !es[i].ip.is_unspecified() {
            let port = match mapped_endpoint_port(&es[i], m) {
                Some(p) => p,
                None => es[i].port,
            };
            let ghost before = out@;
            let e = PnServerEndpoint { protocol: es[i].protocol.clone(), ip: es[i].ip, port };
            let ghost em_e = e@;
            out.push(e);
            assert(endpoint_models(out@) =~= endpoint_models(before).push(em_e));
        }
        i = i + 1;
    }
    assert(em.take(es@.len() as int) =~= em);
    PnServerInfo {
        id: pn_server.id.clone(),
        payload: PnServerInfoPayload {
            name: copy_opt_string(&pn_server.payload.name),
            endpoints: out,
            advertised_ip: None,
            port_mapping: None,
        },
    }
}

/// What the control plane makes of a proxy it saw on a control connection
/// and that also reported itself.
pub fn observed_reported_pn_server(observed: &PnServerInfo, reported: &PnServerInfo) -> (r:
    PnServerInfo)
    ensures
        r@ == observed_reported_view(observed@, reported@),
{
    let rp = &reported.payload;
    let ip = match rp.advertised_ip {
        Some(a) => Some(a),
        None => primary_endpoint_ip(observed),
    };
    let endpoints = match ip {
        Some(ip) => place_endpoints(rp, ip),
        None => {
            let v: Vec<PnServerEndpoint> = Vec::new();
            assert(endpoint_models(v@) =~= Seq::<EndpointModel>::empty());
            v
        },
    };
    let name = match &rp.name {
        Some(n) => Some(n.clone()),
        None => copy_opt_string(&observed.payload.name),
    };
    PnServerInfo {
        id: reported.id.clone(),
        payload: PnServerInfoPayload {
            name,
            endpoints,
            advertised_ip: rp.advertised_ip,
            port_mapping: rp.port_mapping,
        },
    }
}

/// What the control plane makes of a proxy from what it saw on a control
/// connection and what it reported, whichever of the two it has.
pub fn merge_remote_pn_server(observed: Option<&PnServerInfo>, reported: Option<&PnServerInfo>) -> (r:
    PnServerInfo)
    requires
        observed is Some || reported is Some,
    ensures
        r@ == merged_view(
            match observed {
                Some(o) => Some(o@),
                None => None,
            },
            match reported {
                Some(p) => Some(p@),
                None => None,
            },
        ),
{
    match (observed, reported) {
        (Some(o), Some(p)) => observed_reported_pn_server(o, p),
        (Some(o), None) => {
            let mut payload = PnServerInfoPayload::empty();
            payload.name = copy_opt_string(&o.payload.name);
            PnServerInfo { id: o.id.clone(), payload }
        },
        (None, Some(p)) => {
            let mut payload = PnServerInfoPayload::empty();
            payload.name = copy_opt_string(&p.payload.name);
            match p.payload.advertised_ip {
                Some(a) => {
                    payload.endpoints = place_endpoints(&p.payload, a);
                    payload.advertised_ip = Some(a);
                },
                None => {},
            }
            payload.port_mapping = p.payload.port_mapping;
            PnServerInfo { id: p.id.clone(), payload }
        },
        (None, None) => PnServerInfo::new_bare(String::new()),
    }
}

/// Whether two endpoint lists are the same.
pub fn same_endpoints(a: &Vec<PnServerEndpoint>, b: &Vec<PnServerEndpoint>) -> (r: bool)
    ensures
        r == (endpoint_models(a@) == endpoint_models(b@)),
{
    if a.len() != b.len() {
        assert(endpoint_models(a@).len() != endpoint_models(b@).len());
        return false;
    }
    let mut i: usize = 0;
    while i < a.len()
        invariant
            a@.len() == b@.len(),
            i <= a@.len(),
            forall|k: int| 0 <= k < i ==> endpoint_models(a@)[k] == endpoint_models(b@)[k],
        decreases a@.len() - i,
    {
        if !a[i].same_as(&b[i]) {
            assert(endpoint_models(a@)[i as int] != endpoint_models(b@)[i as int]);
            return false;
        }
        i = i + 1;
    }
    assert(endpoint_models(a@) =~= endpoint_models(b@));
    true
}

/// Whether two optional names are the same.
pub fn same_name(a: &Option<String>, b: &Option<String>) -> (r: bool)
    ensures
        r == (opt_text(*a) == opt_text(*b)),
{
    match (a, b) {
        (Some(x), Some(y)) => same_text(x.as_str(), y.as_str()),
        (None, None) => true,
        _ => false,
    }
}

/// Whether two proxies are the same for a client: same id, name and endpoints.
pub fn is_same_connectable_pn_server(left: &PnServerInfo, right: &PnServerInfo) -> (r: bool)
    ensures
        r == same_connectable(left@, right@),
{
    same_text(left.id.as_str(), right.id.as_str()) && same_name(
        &left.payload.name,
        &right.payload.name,
    ) && same_endpoints(&left.payload.endpoints, &right.payload.endpoints)
}


/// Clients are shown only endpoints with a concrete address.
pub proof fn lemma_client_view_endpoints_concrete(p: InfoModel)
    ensures
        forall|i: int|
            0 <= i < client_view(p).payload.endpoints.len() ==> !ip_unspecified(
                #[trigger] client_view(p).payload.endpoints[i].ip,
            ),
{
    lemma_visible_endpoints_concrete(p.payload.endpoints, p.payload.port_mapping);
}

/// Every endpoint kept for clients has a concrete address.
pub proof fn lemma_visible_endpoints_concrete(es: Seq<EndpointModel>, m: Option<PnServerPortMapping>)
    ensures
        forall|i: int|
            0 <= i < visible_endpoints(es, m).len() ==> !ip_unspecified(
                #[trigger] visible_endpoints(es, m)[i].ip,
            ),
    decreases es.len(),
{
    if es.len() > 0 {
        lemma_visible_endpoints_concrete(es.drop_last(), m);
        let rest = visible_endpoints(es.drop_last(), m);
        assert forall|i: int| 0 <= i < visible_endpoints(es, m).len() implies !ip_unspecified(
            #[trigger] visible_endpoints(es, m)[i].ip,
        ) by {
            if i < rest.len() {
                assert(visible_endpoints(es, m)[i] == rest[i]);
            }
        }
    }
}

/// Adding endpoints only ever adds the given ones.
pub proof fn lemma_with_endpoints_from(es: Seq<EndpointModel>, more: Seq<EndpointModel>)
    ensures
        forall|i: int|
            0 <= i < with_endpoints(es, more).len() ==> es.contains(
                #[trigger] with_endpoints(es, more)[i],
            ) || more.contains(with_endpoints(es, more)[i]),
    decreases more.len(),
{
    if more.len() > 0 {
        lemma_with_endpoints_from(es, more.drop_last());
        let prev = with_endpoints(es, more.drop_last());
        assert forall|i: int| 0 <= i < with_endpoints(es, more).len() implies es.contains(
            #[trigger] with_endpoints(es, more)[i],
        ) || more.contains(with_endpoints(es, more)[i]) by {
            if i < prev.len() {
                assert(with_endpoints(es, more)[i] == prev[i]);
                if more.drop_last().contains(prev[i]) {
                    let k = choose|k: int| 0 <= k < more.drop_last().len() && more.drop_last()[k] == prev[i];
                    assert(more[k] == prev[i]);
                }
            } else {
                assert(with_endpoints(es, more)[i] == more.last());
                assert(more[more.len() - 1] == more.last());
            }
        }
    }
}

/// Adding endpoints keeps those there and gains each one added, none twice
/// when none was there twice.
pub proof fn lemma_with_endpoints_keeps(es: Seq<EndpointModel>, more: Seq<EndpointModel>)
    ensures
        forall|i: int| 0 <= i < more.len() ==> with_endpoints(es, more).contains(#[trigger] more[i]),
        forall|i: int| 0 <= i < es.len() ==> with_endpoints(es, more).contains(#[trigger] es[i]),
        es.no_duplicates() ==> with_endpoints(es, more).no_duplicates(),
    decreases more.len(),
{
    if more.len() > 0 {
        let init = more.drop_last();
        lemma_with_endpoints_keeps(es, init);
        let prev = with_endpoints(es, init);
        let out = with_endpoints(es, more);
        assert forall|x: EndpointModel| prev.contains(x) implies out.contains(x) by {
            let w = choose|w: int| 0 <= w < prev.len() && prev[w] == x;
            if !prev.contains(more.last()) {
                assert(out[w] == prev[w]);
            }
        }
        assert(out.contains(more.last())) by {
            if !prev.contains(more.last()) {
                assert(out[out.len() - 1] == more.last());
            }
        }
        assert forall|i: int| 0 <= i < more.len() implies out.contains(#[trigger] more[i]) by {
            if i < init.len() {
                assert(init[i] == more[i]);
                assert(prev.contains(init[i]));
            }
        }
        assert forall|i: int| 0 <= i < es.len() implies out.contains(#[trigger] es[i]) by {
            assert(prev.contains(es[i]));
        }
    }
}

/// A proxy that only reported itself, with an advertised address, is used
/// at that address: each endpoint it reported is there on its public port,
/// once, and there is no other endpoint.
pub proof fn lemma_reported_only_placed_at_advertised(r: InfoModel)
    requires
        r.payload.advertised_ip is Some,
    ensures
        merged_view(None, Some(r)).id == r.id,
        forall|i: int|
            0 <= i < r.payload.endpoints.len() ==> merged_view(None, Some(r)).payload.endpoints.contains(
                EndpointModel {
                    protocol: (#[trigger] r.payload.endpoints[i]).protocol,
                    ip: r.payload.advertised_ip->0,
                    port: public_port(r.payload.endpoints[i], r.payload.port_mapping),
                },
            ),
        forall|k: int|
            0 <= k < merged_view(None, Some(r)).payload.endpoints.len() ==> exists|i: int|
                0 <= i < r.payload.endpoints.len() && #[trigger] merged_view(None, Some(r)).payload.endpoints[k]
                    == (EndpointModel {
                    protocol: r.payload.endpoints[i].protocol,
                    ip: r.payload.advertised_ip->0,
                    port: public_port(r.payload.endpoints[i], r.payload.port_mapping),
                }),
        merged_view(None, Some(r)).payload.endpoints.no_duplicates(),
        !ip_unspecified(r.payload.advertised_ip->0) && r.payload.endpoints.len() > 0 ==> connectable(
            merged_view(None, Some(r)),
        ),
{
    let a = r.payload.advertised_ip->0;
    let src = rewritten_endpoints(r.payload.endpoints, a, r.payload.port_mapping);
    let out = merged_view(None, Some(r)).payload.endpoints;
    assert(out == with_endpoints(seq![], src));
    lemma_with_endpoints_keeps(seq![], src);
    lemma_with_endpoints_from(seq![], src);
    assert(Seq::<EndpointModel>::empty().no_duplicates());
    assert forall|i: int| 0 <= i < r.payload.endpoints.len() implies out.contains(
        EndpointModel {
            protocol: (#[trigger] r.payload.endpoints[i]).protocol,
            ip: a,
            port: public_port(r.payload.endpoints[i], r.payload.port_mapping),
        },
    ) by {
        assert(src[i] == rewritten_endpoint(r.payload.endpoints[i], a, r.payload.port_mapping));
        assert(out.contains(src[i]));
    }
    assert forall|k: int| 0 <= k < out.len() implies exists|i: int|
        0 <= i < r.payload.endpoints.len() && #[trigger] out[k] == (EndpointModel {
            protocol: r.payload.endpoints[i].protocol,
            ip: a,
            port: public_port(r.payload.endpoints[i], r.payload.port_mapping),
        }) by {
        assert(!Seq::<EndpointModel>::empty().contains(out[k]));
        let i = choose|i: int| 0 <= i < src.len() && src[i] == out[k];
        assert(src[i] == rewritten_endpoint(r.payload.endpoints[i], a, r.payload.port_mapping));
    }
    if !ip_unspecified(a) && r.payload.endpoints.len() > 0 {
        assert(src[0] == rewritten_endpoint(r.payload.endpoints[0], a, r.payload.port_mapping));
        assert(out.contains(src[0]));
        let w = choose|w: int| 0 <= w < out.len() && out[w] == src[0];
        assert(out[w].ip == a);
    }
}

/// A proxy that only reported itself, without an advertised address, has
/// no address clients could use: its reported addresses are its own view
/// of its network, and nothing confirms them.
pub proof fn lemma_reported_only_without_advertised_ip_not_connectable(r: InfoModel)
    requires
        r.payload.advertised_ip is None,
    ensures
        merged_view(None, Some(r)).payload.endpoints.len() == 0,
        !connectable(merged_view(None, Some(r))),
{
}

/// A proxy only seen on a control connection, that has not reported its
/// listening endpoints, has no address clients could use.
pub proof fn lemma_observed_only_not_connectable(o: InfoModel)
    ensures
        merged_view(Some(o), None).payload.endpoints.len() == 0,
        !connectable(merged_view(Some(o), None)),
{
}

/// Every endpoint placed at `ip` is at `ip`.
pub proof fn lemma_placed_endpoints_at(reported: PayloadModel, ip: IpAddress)
    ensures
        forall|i: int|
            0 <= i < placed_endpoints(reported, ip).len() ==> (#[trigger] placed_endpoints(
                reported,
                ip,
            )[i]).ip == ip,
{
    let src = rewritten_endpoints(reported.endpoints, ip, reported.port_mapping);
    lemma_with_endpoints_from(seq![], src);
    assert forall|i: int| 0 <= i < placed_endpoints(reported, ip).len() implies (
    #[trigger] placed_endpoints(reported, ip)[i]).ip == ip by {
        let e = placed_endpoints(reported, ip)[i];
        assert(!Seq::<EndpointModel>::empty().contains(e));
        let k = choose|k: int| 0 <= k < src.len() && src[k] == e;
    }
}

/// A proxy's advertised address overrides the address its control
/// connection came from: every endpoint the control plane uses is at the
/// advertised address.
pub proof fn lemma_advertised_ip_overrides_observed(observed: InfoModel, reported: InfoModel)
    requires
        reported.payload.advertised_ip is Some,
    ensures
        forall|i: int|
            0 <= i < observed_reported_view(observed, reported).payload.endpoints.len() ==> (
            #[trigger] observed_reported_view(observed, reported).payload.endpoints[i]).ip
                == reported.payload.advertised_ip->0,
{
    lemma_placed_endpoints_at(reported.payload, reported.payload.advertised_ip->0);
}

/// Without an advertised address, the endpoints the control plane uses
/// are at the address the control connection came from.
pub proof fn lemma_observed_ip_used_without_advertised(observed: InfoModel, reported: InfoModel)
    requires
        reported.payload.advertised_ip is None,
        primary_ip(observed.payload) is Some,
    ensures
        forall|i: int|
            0 <= i < observed_reported_view(observed, reported).payload.endpoints.len() ==> (
            #[trigger] observed_reported_view(observed, reported).payload.endpoints[i]).ip
                == primary_ip(observed.payload)->0,
{
    lemma_placed_endpoints_at(reported.payload, primary_ip(observed.payload)->0);
}

/// Only the address a control connection came from matters, not its
/// source port: two observations at the same address give the same view.
pub proof fn lemma_observed_source_port_irrelevant(o1: InfoModel, o2: InfoModel, r: InfoModel)
    requires
        primary_ip(o1.payload) == primary_ip(o2.payload),
        r.payload.name is Some || o1.payload.name == o2.payload.name,
    ensures
        observed_reported_view(o1, r) == observed_reported_view(o2, r),
{
}


/// A proxy with a connectable endpoint shows clients at least one endpoint.
pub proof fn lemma_client_view_of_connectable(p: InfoModel)
    requires
        connectable(p),
    ensures
        client_view(p).payload.endpoints.len() > 0,
{
    let i = choose|i: int|
        0 <= i < p.payload.endpoints.len() && !ip_unspecified(#[trigger] p.payload.endpoints[i].ip);
    lemma_visible_nonempty(p.payload.endpoints, p.payload.port_mapping, i);
}

/// Keeping the concrete endpoints keeps one when there is one.
pub proof fn lemma_visible_nonempty(es: Seq<EndpointModel>, m: Option<PnServerPortMapping>, i: int)
    requires
        0 <= i < es.len(),
        !ip_unspecified(es[i].ip),
    ensures
        visible_endpoints(es, m).len() > 0,
    decreases es.len(),
{
    if i < es.len() - 1 {
        assert(es.drop_last()[i] == es[i]);
        lemma_visible_nonempty(es.drop_last(), m, i);
    }
}

} // verus!
