//! Choosing the proxy node for a network: candidates are ordered by id and
//! endpoints, one candidate is kept per id, and the network id picks one of
//! them, so that every control server picks the same proxy for a network.

use vstd::prelude::*;
use crate::order::{
    compare_text, lemma_text_order_antisymmetric, lemma_text_order_equal,
    lemma_text_order_transitive, reverse_order, text_order, Order,
};
use crate::proxy_info::{
    client_view, client_visible_pn_server, info_models, EndpointModel, InfoModel, IpAddress,
    PnServerEndpoint, PnServerInfo, endpoint_models,
};

verus! {

/// The order of two numbers.
pub open spec fn num_order(a: int, b: int) -> Order {
    if a < b {
        Order::Less
    } else if a > b {
        Order::Greater
    } else {
        Order::Equal
    }
}

/// The order of IP addresses: every IPv4 address before every IPv6
/// address, and numerically within a family.
pub open spec fn ip_order(a: IpAddress, b: IpAddress) -> Order {
    match (a, b) {
        (IpAddress::V4(x), IpAddress::V4(y)) => num_order(x as int, y as int),
        (IpAddress::V6(x), IpAddress::V6(y)) => num_order(x as int, y as int),
        (IpAddress::V4(_), IpAddress::V6(_)) => Order::Less,
        (IpAddress::V6(_), IpAddress::V4(_)) => Order::Greater,
    }
}

/// The order of endpoints: by transport name, then address, then port.
pub open spec fn endpoint_order(a: EndpointModel, b: EndpointModel) -> Order {
    match text_order(a.protocol, b.protocol) {
        Order::Equal => match ip_order(a.ip, b.ip) {
            Order::Equal => num_order(a.port as int, b.port as int),
            o => o,
        },
        o => o,
    }
}

/// The lexicographic order of endpoint lists, a proper prefix first.
pub open spec fn endpoints_order(a: Seq<EndpointModel>, b: Seq<EndpointModel>) -> Order
    decreases a.len(),
{
    if a.len() == 0 {
        if b.len() == 0 {
            Order::Equal
        } else {
            Order::Less
        }
    } else if b.len() == 0 {
        Order::Greater
    } else {
        match endpoint_order(a[0], b[0]) {
            Order::Equal => endpoints_order(a.drop_first(), b.drop_first()),
            o => o,
        }
    }
}

/// The order in which candidates are ranked: by id, then by endpoints.
pub open spec fn info_order(a: InfoModel, b: InfoModel) -> Order {
    match text_order(a.id, b.id) {
        Order::Equal => endpoints_order(a.payload.endpoints, b.payload.endpoints),
        o => o,
    }
}

/// `x` placed into `s` after every element that does not rank above it,
/// scanning from the end: stable insertion.
pub open spec fn insert_ranked(s: Seq<InfoModel>, x: InfoModel) -> Seq<InfoModel>
    decreases s.len(),
{
    if s.len() == 0 {
        seq![x]
    } else if info_order(s.last(), x) == Order::Greater {
        insert_ranked(s.drop_last(), x).push(s.last())
    } else {
        s.push(x)
    }
}

/// The candidates ranked, equal ones kept in their given order.
pub open spec fn ranked(s: Seq<InfoModel>) -> Seq<InfoModel>
    decreases s.len(),
{
    if s.len() == 0 {
        seq![]
    } else {
        insert_ranked(ranked(s.drop_last()), s.last())
    }
}

/// The candidates with each run of equal ids reduced to its first one.
pub open spec fn first_per_id(s: Seq<InfoModel>) -> Seq<InfoModel>
    decreases s.len(),
{
    if s.len() == 0 {
        seq![]
    } else {
        let d = first_per_id(s.drop_last());
        if d.len() > 0 && d.last().id == s.last().id {
            d
        } else {
            d.push(s.last())
        }
    }
}

/// The proxy chosen for network `network_id` among `candidates`: the
/// candidates are ranked, one is kept per id, and the network id modulo
/// their number picks one, shown as clients see it. None without candidates.
pub open spec fn selection(candidates: Seq<InfoModel>, network_id: u64) -> Option<InfoModel> {
    let d = first_per_id(ranked(candidates));
    if d.len() == 0 {
        None
    } else {
        Some(client_view(d[(network_id as int) % (d.len() as int)]))
    }
}

/// Compares two addresses.
pub fn compare_ip(a: IpAddress, b: IpAddress) -> (r: Order)
    ensures
        r == ip_order(a, b),
{
    match (a, b) {
        (IpAddress::V4(x), IpAddress::V4(y)) => if x < y {
            Order::Less
        } else if x > y {
            Order::Greater
        } else {
            Order::Equal
        },
        (IpAddress::V6(x), IpAddress::V6(y)) => if x < y {
            Order::Less
        } else if x > y {
            Order::Greater
        } else {
            Order::Equal
        },
        (IpAddress::V4(_), IpAddress::V6(_)) => Order::Less,
        (IpAddress::V6(_), IpAddress::V4(_)) => Order::Greater,
    }
}

/// Compares two endpoints.
pub fn compare_endpoint(a: &PnServerEndpoint, b: &PnServerEndpoint) -> (r: Order)
    ensures
        r == endpoint_order(a@, b@),
{
    match compare_text(a.protocol.as_str(), b.protocol.as_str()) {
        Order::Equal => match compare_ip(a.ip, b.ip) {
            Order::Equal => if a.port < b.port {
                Order::Less
            } else if a.port > b.port {
                Order::Greater
            } else {
                Order::Equal
            },
            o => o,
        },
        o => o,
    }
}

/// Compares two endpoint lists.
pub fn compare_endpoints(a: &Vec<PnServerEndpoint>, b: &Vec<PnServerEndpoint>) -> (r: Order)
    ensures
        r == endpoints_order(endpoint_models(a@), endpoint_models(b@)),
{
    let ghost am = endpoint_models(a@);
    let ghost bm = endpoint_models(b@);
    let mut i: usize = 0;
    assert(am.skip(0) =~= am);
    assert(bm.skip(0) =~= bm);
    while i < a.len() && i < b.len()
        invariant
            am == endpoint_models(a@),
            bm == endpoint_models(b@),
            i <= a@.len(),
            i <= b@.len(),
            endpoints_order(am, bm) == endpoints_order(am.skip(i as int), bm.skip(i as int)),
        decreases a@.len() - i,
    {
        assert(am.skip(i as int)[0] == a@[i as int]@);
        assert(bm.skip(i as int)[0] == b@[i as int]@);
        match compare_endpoint(&a[i], &b[i]) {
            Order::Equal => {},
            o => {
                return o;
            },
        }
        assert(am.skip(i as int).drop_first() =~= am.skip(i + 1));
        assert(bm.skip(i as int).drop_first() =~= bm.skip(i + 1));
        i = i + 1;
    }
    if i == a.len() && i == b.len() {
        Order::Equal
    } else if i == a.len() {
        Order::Less
    } else {
        Order::Greater
    }
}

/// Compares two candidates by id, then by endpoints.
pub fn compare_candidates(a: &PnServerInfo, b: &PnServerInfo) -> (r: Order)
    ensures
        r == info_order(a@, b@),
{
    match compare_text(a.id.as_str(), b.id.as_str()) {
        Order::Equal => compare_endpoints(&a.payload.endpoints, &b.payload.endpoints),
        o => o,
    }
}

/// Inserts `x` into `s` after every element that does not rank above it,
/// scanning from the end.
fn insert_ranked_exec(s: &mut Vec<PnServerInfo>, x: PnServerInfo)
    ensures
        info_models(final(s)@) == insert_ranked(info_models(old(s)@), x@),
{
    let ghost m = info_models(s@);
    let ghost xm = x@;
    let mut j: usize = s.len();
    assert(m.take(m.len() as int) =~= m);
    assert(m + m.skip(m.len() as int) =~= m);
    while j > 0
        invariant
            j <= s@.len(),
            m == info_models(s@),
            xm == x@,
            insert_ranked(m, xm) == insert_ranked(m.take(j as int), xm) + m.skip(j as int),
        ensures
            j <= s@.len(),
            insert_ranked(m, xm) == insert_ranked(m.take(j as int), xm) + m.skip(j as int),
            j == 0 || info_order(m[j - 1], xm) != Order::Greater,
        decreases j,
    {
        assert(m.take(j as int).last() == s@[j - 1]@);
        assert(m.take(j as int).drop_last() =~= m.take(j - 1));
        match compare_candidates(&s[j - 1], &x) {
            Order::Greater => {
                assert(insert_ranked(m.take(j as int), xm) == insert_ranked(m.take(j - 1), xm).push(
                    m[j - 1],
                ));
                assert(insert_ranked(m.take(j - 1), xm).push(m[j - 1]) + m.skip(j as int)
                    =~= insert_ranked(m.take(j - 1), xm) + m.skip(j - 1));
                j = j - 1;
            },
            _ => {
                assert(m[j - 1] == s@[j - 1]@);
                break;
            },
        }
    }
    if j == 0 {
        assert(insert_ranked(m.take(0), xm) =~= m.take(0).push(xm));
    } else {
        assert(insert_ranked(m.take(j as int), xm) == m.take(j as int).push(xm));
    }
    let ghost before = s@;
    s.insert(j, x);
    assert(info_models(s@) =~= m.take(j as int).push(xm) + m.skip(j as int)) by {
        assert(s@ == before.insert(j as int, x));
    }
}

/// The candidates ranked, equal ones kept in their given order.
pub fn rank_candidates(candidates: Vec<PnServerInfo>) -> (r: Vec<PnServerInfo>)
    ensures
        info_models(r@) == ranked(info_models(candidates@)),
{
    let ghost cm = info_models(candidates@);
    let mut out: Vec<PnServerInfo> = Vec::new();
    let mut i: usize = 0;
    while i < candidates.len()
        invariant
            i <= candidates@.len(),
            cm == info_models(candidates@),
            info_models(out@) == ranked(cm.take(i as int)),
        decreases candidates@.len() - i,
    {
        assert(cm.take(i + 1).drop_last() =~= cm.take(i as int));
        assert(cm.take(i + 1).last() == candidates@[i as int]@);
        insert_ranked_exec(&mut out, candidates[i].duplicate());
        i = i + 1;
    }
    assert(cm.take(candidates@.len() as int) =~= cm);
    out
}

/// The candidates with each run of equal ids reduced to its first one.
pub fn keep_first_per_id(s: Vec<PnServerInfo>) -> (r: Vec<PnServerInfo>)
    ensures
        info_models(r@) == first_per_id(info_models(s@)),
{
    let ghost sm = info_models(s@);
    let mut out: Vec<PnServerInfo> = Vec::new();
    let mut i: usize = 0;
    while i < s.len()
        invariant
            i <= s@.len(),
            sm == info_models(s@),
            info_models(out@) == first_per_id(sm.take(i as int)),
        decreases s@.len() - i,
    {
        assert(sm.take(i + 1).drop_last() =~= sm.take(i as int));
        assert(sm.take(i + 1).last() == s@[i as int]@);
        let n = out.len();
        let same = if n > 0 {
            crate::order::same_text(out[n - 1].id.as_str(), s[i].id.as_str())
        } else {
            false
        };
        if !same {
            let ghost before = out@;
            let c = s[i].duplicate();
            out.push(c);
            assert(info_models(out@) =~= info_models(before).push(sm[i as int]));
        } else {
            assert(info_models(out@).last() == out@[n - 1]@);
        }
        i = i + 1;
    }
    assert(sm.take(s@.len() as int) =~= sm);
    out
}

/// The proxy chosen for network `network_id` among `candidates`.
pub fn select_among(candidates: Vec<PnServerInfo>, network_id: u64) -> (r: Option<PnServerInfo>)
    ensures
        match r {
            Some(p) => selection(info_models(candidates@), network_id) == Some(p@),
            None => selection(info_models(candidates@), network_id) is None,
        },
{
    let ranked_list = rank_candidates(candidates);
    let distinct = keep_first_per_id(ranked_list);
    let n = distinct.len();
    if n == 0 {
        return None;
    }
    let index = (network_id % (n as u64)) as usize;
    let ghost d = info_models(distinct@);
    assert(d[index as int] == distinct@[index as int]@);
    Some(client_visible_pn_server(&distinct[index]))
}


/// Stable insertion keeps the elements and adds `x`.
pub proof fn lemma_insert_ranked_members(s: Seq<InfoModel>, x: InfoModel)
    ensures
        insert_ranked(s, x).len() == s.len() + 1,
        insert_ranked(s, x).contains(x),
        forall|i: int|
            0 <= i < insert_ranked(s, x).len() ==> (#[trigger] insert_ranked(s, x)[i] == x
                || s.contains(insert_ranked(s, x)[i])),
    decreases s.len(),
{
    if s.len() > 0 {
        if info_order(s.last(), x) == Order::Greater {
            lemma_insert_ranked_members(s.drop_last(), x);
            let prev = insert_ranked(s.drop_last(), x);
            let r = insert_ranked(s, x);
            assert(r == prev.push(s.last()));
            let k = choose|k: int| 0 <= k < prev.len() && prev[k] == x;
            assert(r[k] == x);
            assert forall|i: int| 0 <= i < r.len() implies (#[trigger] r[i] == x || s.contains(r[i])) by {
                if i < prev.len() {
                    assert(r[i] == prev[i]);
                    if prev[i] != x {
                        let j = choose|j: int| 0 <= j < s.drop_last().len() && s.drop_last()[j] == prev[i];
                        assert(s[j] == prev[i]);
                    }
                } else {
                    assert(s[s.len() - 1] == r[i]);
                }
            }
        } else {
            let r = s.push(x);
            assert(r[s.len() as int] == x);
            assert forall|i: int| 0 <= i < r.len() implies (#[trigger] r[i] == x || s.contains(r[i])) by {
                if i < s.len() {
                    assert(r[i] == s[i]);
                }
            }
        }
    } else {
        assert(seq![x][0] == x);
    }
}

/// Ranking keeps the number of candidates, and every ranked one is a candidate.
pub proof fn lemma_ranked_members(s: Seq<InfoModel>)
    ensures
        ranked(s).len() == s.len(),
        forall|i: int| 0 <= i < ranked(s).len() ==> s.contains(#[trigger] ranked(s)[i]),
    decreases s.len(),
{
    if s.len() > 0 {
        lemma_ranked_members(s.drop_last());
        let prev = ranked(s.drop_last());
        lemma_insert_ranked_members(prev, s.last());
        assert forall|i: int| 0 <= i < ranked(s).len() implies s.contains(#[trigger] ranked(s)[i]) by {
            let r = ranked(s);
            if r[i] == s.last() {
                assert(s[s.len() - 1] == r[i]);
            } else {
                let k = choose|k: int| 0 <= k < prev.len() && prev[k] == r[i];
                let j = choose|j: int| 0 <= j < s.drop_last().len() && s.drop_last()[j] == prev[k];
                assert(s[j] == r[i]);
            }
        }
    }
}

/// Keeping the first of each id keeps at least one candidate when there is
/// one, and only candidates.
pub proof fn lemma_first_per_id_members(s: Seq<InfoModel>)
    ensures
        s.len() > 0 ==> first_per_id(s).len() > 0,
        first_per_id(s).len() <= s.len(),
        forall|i: int| 0 <= i < first_per_id(s).len() ==> s.contains(#[trigger] first_per_id(s)[i]),
    decreases s.len(),
{
    if s.len() > 0 {
        lemma_first_per_id_members(s.drop_last());
        let d = first_per_id(s.drop_last());
        assert forall|i: int| 0 <= i < first_per_id(s).len() implies s.contains(
            #[trigger] first_per_id(s)[i],
        ) by {
            let r = first_per_id(s);
            if i < d.len() {
                assert(r[i] == d[i]);
                let j = choose|j: int| 0 <= j < s.drop_last().len() && s.drop_last()[j] == d[i];
                assert(s[j] == r[i]);
            } else {
                assert(s[s.len() - 1] == r[i]);
            }
        }
    }
}

/// A proxy is chosen exactly when there is a candidate, and the chosen one
/// is a candidate as clients see it.
pub proof fn lemma_selection_is_candidate(candidates: Seq<InfoModel>, network_id: u64)
    ensures
        (selection(candidates, network_id) is Some) == (candidates.len() > 0),
        selection(candidates, network_id) matches Some(p) ==> exists|i: int|
            0 <= i < candidates.len() && p == client_view(#[trigger] candidates[i]),
{
    lemma_ranked_members(candidates);
    lemma_first_per_id_members(ranked(candidates));
    let d = first_per_id(ranked(candidates));
    if d.len() > 0 {
        let k = (network_id as int) % (d.len() as int);
        let j = choose|j: int| 0 <= j < ranked(candidates).len() && ranked(candidates)[j] == d[k];
        let i = choose|i: int| 0 <= i < candidates.len() && candidates[i] == ranked(candidates)[j];
        assert(client_view(candidates[i]) == client_view(d[k]));
    }
}

/// Swapping two endpoints reverses their comparison, and they compare
/// equal exactly when they are the same endpoint.
pub proof fn lemma_endpoint_order_basics(a: EndpointModel, b: EndpointModel)
    ensures
        endpoint_order(b, a) == reverse_order(endpoint_order(a, b)),
        (endpoint_order(a, b) == Order::Equal) == (a == b),
{
    lemma_text_order_antisymmetric(a.protocol, b.protocol);
    lemma_text_order_equal(a.protocol, b.protocol);
}

/// The comparison of endpoints is transitive, strictly so when one step is.
pub proof fn lemma_endpoint_order_transitive(a: EndpointModel, b: EndpointModel, c: EndpointModel)
    requires
        endpoint_order(a, b) != Order::Greater,
        endpoint_order(b, c) != Order::Greater,
    ensures
        endpoint_order(a, c) != Order::Greater,
        endpoint_order(a, b) == Order::Less || endpoint_order(b, c) == Order::Less
            ==> endpoint_order(a, c) == Order::Less,
{
    lemma_text_order_transitive(a.protocol, b.protocol, c.protocol);
    lemma_text_order_equal(a.protocol, b.protocol);
    lemma_text_order_equal(b.protocol, c.protocol);
    lemma_text_order_equal(a.protocol, c.protocol);
}

/// Swapping two endpoint lists reverses their comparison, and they compare
/// equal exactly when they are the same list.
pub proof fn lemma_endpoints_order_basics(a: Seq<EndpointModel>, b: Seq<EndpointModel>)
    ensures
        endpoints_order(b, a) == reverse_order(endpoints_order(a, b)),
        (endpoints_order(a, b) == Order::Equal) == (a == b),
    decreases a.len(),
{
    if a.len() > 0 && b.len() > 0 {
        lemma_endpoint_order_basics(a[0], b[0]);
        lemma_endpoints_order_basics(a.drop_first(), b.drop_first());
        if a[0] == b[0] && a.drop_first() == b.drop_first() {
            assert(a =~= seq![a[0]] + a.drop_first());
            assert(b =~= seq![b[0]] + b.drop_first());
        }
        if a == b {
            assert(a.drop_first() == b.drop_first());
        }
    } else if a.len() == 0 && b.len() == 0 {
        assert(a =~= b);
    }
}

/// The comparison of endpoint lists is transitive.
pub proof fn lemma_endpoints_order_transitive(
    a: Seq<EndpointModel>,
    b: Seq<EndpointModel>,
    c: Seq<EndpointModel>,
)
    requires
        endpoints_order(a, b) != Order::Greater,
        endpoints_order(b, c) != Order::Greater,
    ensures
        endpoints_order(a, c) != Order::Greater,
    decreases a.len(),
{
    if a.len() > 0 && b.len() > 0 && c.len() > 0 {
        lemma_endpoint_order_basics(a[0], b[0]);
        lemma_endpoint_order_basics(b[0], c[0]);
        lemma_endpoint_order_basics(a[0], c[0]);
        lemma_endpoint_order_transitive(a[0], b[0], c[0]);
        if a[0] == b[0] && b[0] == c[0] {
            lemma_endpoints_order_transitive(a.drop_first(), b.drop_first(), c.drop_first());
        }
    }
}

/// Swapping two candidates reverses their ranking.
pub proof fn lemma_info_order_antisymmetric(a: InfoModel, b: InfoModel)
    ensures
        info_order(b, a) == reverse_order(info_order(a, b)),
{
    lemma_text_order_antisymmetric(a.id, b.id);
    lemma_text_order_equal(a.id, b.id);
    lemma_endpoints_order_basics(a.payload.endpoints, b.payload.endpoints);
}

/// The ranking of candidates is transitive.
pub proof fn lemma_info_order_transitive(a: InfoModel, b: InfoModel, c: InfoModel)
    requires
        info_order(a, b) != Order::Greater,
        info_order(b, c) != Order::Greater,
    ensures
        info_order(a, c) != Order::Greater,
{
    lemma_text_order_transitive(a.id, b.id, c.id);
    lemma_text_order_equal(a.id, b.id);
    lemma_text_order_equal(b.id, c.id);
    lemma_text_order_equal(a.id, c.id);
    if a.id == b.id && b.id == c.id {
        lemma_endpoints_order_transitive(a.payload.endpoints, b.payload.endpoints, c.payload.endpoints);
    }
}

/// Candidates in ranking order: none ranks above a later one.
pub open spec fn rank_sorted(s: Seq<InfoModel>) -> bool {
    forall|i: int, j: int| 0 <= i < j < s.len() ==> info_order(#[trigger] s[i], #[trigger] s[j]) != Order::Greater
}

/// Candidates whose ids strictly ascend, so that no id occurs twice.
pub open spec fn ids_ascending(s: Seq<InfoModel>) -> bool {
    forall|i: int, j: int| 0 <= i < j < s.len() ==> text_order((#[trigger] s[i]).id, (#[trigger] s[j]).id) == Order::Less
}

/// Stable insertion keeps every element already there.
proof fn lemma_insert_ranked_keeps(s: Seq<InfoModel>, x: InfoModel, y: InfoModel)
    requires
        s.contains(y),
    ensures
        insert_ranked(s, x).contains(y),
    decreases s.len(),
{
    let r = insert_ranked(s, x);
    if info_order(s.last(), x) == Order::Greater {
        let prev = insert_ranked(s.drop_last(), x);
        if y == s.last() {
            assert(r[r.len() - 1] == y);
        } else {
            let k = choose|k: int| 0 <= k < s.len() && s[k] == y;
            assert(k < s.len() - 1);
            assert(s.drop_last()[k] == y);
            lemma_insert_ranked_keeps(s.drop_last(), x, y);
            let m = choose|m: int| 0 <= m < prev.len() && prev[m] == y;
            assert(r[m] == y);
        }
    } else {
        let k = choose|k: int| 0 <= k < s.len() && s[k] == y;
        assert(r[k] == y);
    }
}

/// Stable insertion into a ranked list gives a ranked list.
proof fn lemma_insert_ranked_sorted(s: Seq<InfoModel>, x: InfoModel)
    requires
        rank_sorted(s),
    ensures
        rank_sorted(insert_ranked(s, x)),
    decreases s.len(),
{
    let r = insert_ranked(s, x);
    if s.len() == 0 {
    } else if info_order(s.last(), x) == Order::Greater {
        let p = s.drop_last();
        let prev = insert_ranked(p, x);
        assert(rank_sorted(p)) by {
            assert forall|i: int, j: int| 0 <= i < j < p.len() implies info_order(
                #[trigger] p[i],
                #[trigger] p[j],
            ) != Order::Greater by {
                assert(p[i] == s[i] && p[j] == s[j]);
            }
        }
        lemma_insert_ranked_sorted(p, x);
        lemma_insert_ranked_members(p, x);
        lemma_info_order_antisymmetric(s.last(), x);
        assert(r == prev.push(s.last()));
        assert forall|i: int, j: int| 0 <= i < j < r.len() implies info_order(
            #[trigger] r[i],
            #[trigger] r[j],
        ) != Order::Greater by {
            if j < prev.len() {
                assert(r[i] == prev[i] && r[j] == prev[j]);
            } else {
                assert(r[i] == prev[i]);
                assert(r[j] == s.last());
                if prev[i] != x {
                    let k = choose|k: int| 0 <= k < p.len() && p[k] == prev[i];
                    assert(s[k] == prev[i]);
                    assert(info_order(s[k], s[s.len() - 1]) != Order::Greater);
                }
            }
        }
    } else {
        assert(r == s.push(x));
        assert forall|i: int, j: int| 0 <= i < j < r.len() implies info_order(
            #[trigger] r[i],
            #[trigger] r[j],
        ) != Order::Greater by {
            if j < s.len() {
                assert(r[i] == s[i] && r[j] == s[j]);
            } else {
                assert(r[i] == s[i]);
                assert(r[j] == x);
                if i < s.len() - 1 {
                    assert(info_order(s[i], s[s.len() - 1]) != Order::Greater);
                    lemma_info_order_transitive(s[i], s[s.len() - 1], x);
                }
            }
        }
    }
}

/// Ranking gives a ranked list that holds every candidate.
pub proof fn lemma_ranked_sorted(s: Seq<InfoModel>)
    ensures
        rank_sorted(ranked(s)),
        forall|i: int| 0 <= i < s.len() ==> ranked(s).contains(#[trigger] s[i]),
    decreases s.len(),
{
    if s.len() > 0 {
        let p = s.drop_last();
        lemma_ranked_sorted(p);
        lemma_insert_ranked_sorted(ranked(p), s.last());
        lemma_insert_ranked_members(ranked(p), s.last());
        assert forall|i: int| 0 <= i < s.len() implies ranked(s).contains(#[trigger] s[i]) by {
            if i < s.len() - 1 {
                assert(p[i] == s[i]);
                lemma_insert_ranked_keeps(ranked(p), s.last(), s[i]);
            }
        }
    }
}

/// Stable insertion adds `x` to the candidates and changes nothing else.
proof fn lemma_insert_ranked_multiset(s: Seq<InfoModel>, x: InfoModel)
    ensures
        insert_ranked(s, x).to_multiset() =~= s.to_multiset().insert(x),
    decreases s.len(),
{
    broadcast use vstd::seq_lib::to_multiset_build;
    broadcast use vstd::multiset::group_multiset_axioms;

    if s.len() == 0 {
        assert(seq![x] =~= s.push(x));
    } else if info_order(s.last(), x) == Order::Greater {
        let p = s.drop_last();
        lemma_insert_ranked_multiset(p, x);
        assert(s =~= p.push(s.last()));
    }
}

/// Ranking reorders the candidates and changes nothing else: the ranked
/// list holds each candidate as often as the candidates do.
pub proof fn lemma_ranked_permutes(s: Seq<InfoModel>)
    ensures
        ranked(s).to_multiset() =~= s.to_multiset(),
    decreases s.len(),
{
    broadcast use vstd::seq_lib::to_multiset_build;

    if s.len() > 0 {
        let p = s.drop_last();
        lemma_ranked_permutes(p);
        lemma_insert_ranked_multiset(ranked(p), s.last());
        assert(s =~= p.push(s.last()));
        assert(ranked(s) == insert_ranked(ranked(p), s.last()));
        assert(s.to_multiset() =~= p.to_multiset().insert(s.last()));
    } else {
        assert(s =~= Seq::<InfoModel>::empty());
        assert(ranked(s) =~= s);
    }
}

/// A ranked list without its last element is ranked.
proof fn lemma_sorted_drop_last(s: Seq<InfoModel>)
    requires
        rank_sorted(s),
        s.len() > 0,
    ensures
        rank_sorted(s.drop_last()),
{
    let p = s.drop_last();
    assert forall|i: int, j: int| 0 <= i < j < p.len() implies info_order(
        #[trigger] p[i],
        #[trigger] p[j],
    ) != Order::Greater by {
        assert(p[i] == s[i] && p[j] == s[j]);
    }
}

/// In a ranked list an earlier element's id does not come after a later one's.
proof fn lemma_sorted_id_le(s: Seq<InfoModel>, i: int, j: int)
    requires
        rank_sorted(s),
        0 <= i < j < s.len(),
    ensures
        text_order(s[i].id, s[j].id) != Order::Greater,
{
    assert(info_order(s[i], s[j]) != Order::Greater);
}

/// An element of a list, not the last, has an id that does not come after
/// the last element's id, when the list is ranked.
proof fn lemma_member_id_le_last(s: Seq<InfoModel>, y: InfoModel)
    requires
        rank_sorted(s),
        s.len() > 0,
        s.drop_last().contains(y),
    ensures
        text_order(y.id, s.last().id) != Order::Greater,
{
    let p = s.drop_last();
    let m = choose|m: int| 0 <= m < p.len() && p[m] == y;
    assert(s[m] == y);
    lemma_sorted_id_le(s, m, s.len() - 1);
}

/// When the last element of a ranked list is kept as a new id, every id
/// kept before it comes strictly before its id.
proof fn lemma_kept_before_last(s: Seq<InfoModel>, k: int)
    requires
        rank_sorted(s),
        s.len() > 0,
        ids_ascending(first_per_id(s.drop_last())),
        first_per_id(s.drop_last()).len() > 0,
        first_per_id(s.drop_last()).last().id != s.last().id,
        0 <= k < first_per_id(s.drop_last()).len(),
    ensures
        text_order(first_per_id(s.drop_last())[k].id, s.last().id) == Order::Less,
{
    let p = s.drop_last();
    let d = first_per_id(p);
    let last = s.last();
    lemma_first_per_id_members(p);
    let dl = d[d.len() - 1];
    assert(p.contains(dl));
    lemma_member_id_le_last(s, dl);
    lemma_text_order_equal(dl.id, last.id);
    if k < d.len() - 1 {
        assert(text_order(d[k].id, dl.id) == Order::Less);
        lemma_text_order_transitive(d[k].id, dl.id, last.id);
    }
}

/// In a ranked list, reducing each run of equal ids to its first element
/// leaves strictly ascending ids.
proof fn lemma_first_per_id_ascending(s: Seq<InfoModel>)
    requires
        rank_sorted(s),
    ensures
        ids_ascending(first_per_id(s)),
    decreases s.len(),
{
    if s.len() > 0 {
        let p = s.drop_last();
        lemma_sorted_drop_last(s);
        lemma_first_per_id_ascending(p);
        let d = first_per_id(p);
        let r = first_per_id(s);
        let last = s.last();
        if !(d.len() > 0 && d.last().id == last.id) {
            assert(r == d.push(last));
            assert forall|i: int, j: int| 0 <= i < j < r.len() implies text_order(
                (#[trigger] r[i]).id,
                (#[trigger] r[j]).id,
            ) == Order::Less by {
                assert(r[i] == d[i]);
                if j < d.len() {
                    assert(r[j] == d[j]);
                } else {
                    assert(r[j] == last);
                    lemma_kept_before_last(s, i);
                }
            }
        }
    }
}

/// Every id of a list is the id of an element kept by `first_per_id`.
proof fn lemma_first_per_id_covers(s: Seq<InfoModel>)
    ensures
        forall|i: int|
            0 <= i < s.len() ==> exists|k: int|
                0 <= k < first_per_id(s).len() && (#[trigger] first_per_id(s)[k]).id == (
                #[trigger] s[i]).id,
    decreases s.len(),
{
    if s.len() > 0 {
        let p = s.drop_last();
        lemma_first_per_id_covers(p);
        let d = first_per_id(p);
        let r = first_per_id(s);
        assert forall|i: int| 0 <= i < s.len() implies exists|k: int|
            0 <= k < r.len() && (#[trigger] r[k]).id == (#[trigger] s[i]).id by {
            if i < s.len() - 1 {
                assert(p[i] == s[i]);
                let k = choose|k: int| 0 <= k < d.len() && (#[trigger] d[k]).id == p[i].id;
                assert(r[k] == d[k]);
            } else if d.len() > 0 && d.last().id == s.last().id {
                assert(r[d.len() - 1].id == s[i].id);
            } else {
                assert(r[d.len() as int] == s[i]);
            }
        }
    }
}

/// No two different candidates rank equal: candidates with the same id and
/// the same endpoints are the same candidate.
pub open spec fn no_ties(s: Seq<InfoModel>) -> bool {
    forall|i: int, j: int|
        0 <= i < s.len() && 0 <= j < s.len() && info_order(#[trigger] s[i], #[trigger] s[j])
            == Order::Equal ==> s[i] == s[j]
}

/// An element of a ranked list ranks no higher than its last element.
proof fn lemma_sorted_last_is_max(s: Seq<InfoModel>, k: int)
    requires
        rank_sorted(s),
        0 <= k < s.len(),
    ensures
        info_order(s[k], s.last()) != Order::Greater,
{
    if k < s.len() - 1 {
        assert(info_order(s[k], s[s.len() - 1]) != Order::Greater);
    } else {
        lemma_endpoints_order_basics(s[k].payload.endpoints, s[k].payload.endpoints);
        lemma_text_order_equal(s[k].id, s[k].id);
    }
}

/// Two ranked lists that hold the same candidates, among which no two
/// different ones rank equal, are the same list.
proof fn lemma_sorted_unique(a: Seq<InfoModel>, b: Seq<InfoModel>)
    requires
        rank_sorted(a),
        rank_sorted(b),
        a.to_multiset() =~= b.to_multiset(),
        no_ties(a),
    ensures
        a == b,
    decreases a.len(),
{
    broadcast use vstd::seq_lib::to_multiset_build;
    broadcast use vstd::seq_lib::to_multiset_len;
    broadcast use vstd::seq_lib::to_multiset_contains;
    broadcast use vstd::multiset::group_multiset_axioms;

    assert(a.len() == a.to_multiset().len());
    assert(b.len() == b.to_multiset().len());
    if a.len() == 0 {
        assert(a =~= b);
    } else {
        let x = a.last();
        let y = b.last();
        assert(a.contains(x)) by {
            assert(a[a.len() - 1] == x);
        }
        assert(b.contains(y)) by {
            assert(b[b.len() - 1] == y);
        }
        assert(b.to_multiset().count(x) > 0);
        assert(a.to_multiset().count(y) > 0);
        let k = choose|k: int| 0 <= k < b.len() && b[k] == x;
        let m = choose|m: int| 0 <= m < a.len() && a[m] == y;
        lemma_sorted_last_is_max(b, k);
        lemma_sorted_last_is_max(a, m);
        lemma_info_order_antisymmetric(x, y);
        assert(info_order(a[a.len() - 1], a[m]) == Order::Equal);
        assert(x == y);
        let a1 = a.drop_last();
        let b1 = b.drop_last();
        assert(a =~= a1.push(x));
        assert(b =~= b1.push(x));
        assert(a1.to_multiset() =~= a.to_multiset().remove(x));
        assert(b1.to_multiset() =~= b.to_multiset().remove(x));
        lemma_sorted_drop_last(a);
        lemma_sorted_drop_last(b);
        assert(no_ties(a1)) by {
            assert forall|i: int, j: int|
                0 <= i < a1.len() && 0 <= j < a1.len() && info_order(#[trigger] a1[i], #[trigger] a1[j])
                    == Order::Equal implies a1[i] == a1[j] by {
                assert(a1[i] == a[i] && a1[j] == a[j]);
            }
        }
        lemma_sorted_unique(a1, b1);
    }
}

/// The proxy chosen for a network does not depend on the order in which the
/// candidates were gathered, as long as no two different candidates have
/// the same id and the same endpoints.
pub proof fn lemma_selection_order_independent(
    first: Seq<InfoModel>,
    second: Seq<InfoModel>,
    network_id: u64,
)
    requires
        first.to_multiset() =~= second.to_multiset(),
        no_ties(first),
    ensures
        selection(first, network_id) == selection(second, network_id),
{
    lemma_ranked_sorted(first);
    lemma_ranked_sorted(second);
    lemma_ranked_permutes(first);
    lemma_ranked_permutes(second);
    lemma_ranked_members(first);
    let r = ranked(first);
    assert(no_ties(r)) by {
        assert forall|i: int, j: int|
            0 <= i < r.len() && 0 <= j < r.len() && info_order(#[trigger] r[i], #[trigger] r[j])
                == Order::Equal implies r[i] == r[j] by {
            assert(first.contains(r[i]));
            assert(first.contains(r[j]));
            let a = choose|a: int| 0 <= a < first.len() && first[a] == r[i];
            let b = choose|b: int| 0 <= b < first.len() && first[b] == r[j];
            assert(info_order(first[a], first[b]) == Order::Equal);
        }
    }
    lemma_sorted_unique(r, ranked(second));
}

/// The proxies a network is chosen among hold each candidate id exactly
/// once: their ids strictly ascend, each one is a candidate, and every
/// candidate's id is among them.
pub proof fn lemma_selection_pool_one_per_id(candidates: Seq<InfoModel>)
    ensures
        ids_ascending(first_per_id(ranked(candidates))),
        forall|k: int|
            0 <= k < first_per_id(ranked(candidates)).len() ==> candidates.contains(
                #[trigger] first_per_id(ranked(candidates))[k],
            ),
        forall|i: int|
            0 <= i < candidates.len() ==> exists|k: int|
                0 <= k < first_per_id(ranked(candidates)).len() && (
                #[trigger] first_per_id(ranked(candidates))[k]).id == (#[trigger] candidates[i]).id,
{
    let r = ranked(candidates);
    lemma_ranked_sorted(candidates);
    lemma_ranked_members(candidates);
    lemma_first_per_id_ascending(r);
    lemma_first_per_id_covers(r);
    lemma_first_per_id_members(r);
    let d = first_per_id(r);
    assert forall|i: int| 0 <= i < candidates.len() implies exists|k: int|
        0 <= k < d.len() && (#[trigger] d[k]).id == (#[trigger] candidates[i]).id by {
        let m = choose|m: int| 0 <= m < r.len() && r[m] == candidates[i];
        assert(r[m].id == candidates[i].id);
    }
}

} // verus!
