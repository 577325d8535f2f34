//! Finding the silos of a cluster: from a list, by name service, or from a catalog.

use vstd::prelude::*;

use crate::error::{ClusterError, ClusterErrorView};
use crate::hash_ring;
use crate::hash_ring::{endpoint_of, SiloAddress, SiloAddressView};
use crate::maps;
use crate::maps::Duplicate;
use crate::text;
use crate::text::{chars_of, join2, parse_decimal, split_at_last};

verus! {

/// Finds silos, to join a cluster through.
pub trait MembershipProvider {
    fn get_members(&self) -> Result<Vec<SiloAddress>, ClusterError>;
}

/// The silo that an address of the form `host:port` stands for; its identity is the
/// address.
pub open spec fn seed(address: Seq<char>) -> Option<SiloAddressView> {
    match text::split_last(address, ':') {
        Some((host, port)) => match text::parse_number(port, u16::MAX as nat) {
            Some(n) => Some(SiloAddressView { host, port: n as u16, silo_id: address }),
            None => None,
        },
        None => None,
    }
}

/// The silos among addresses, in their order.
pub open spec fn seeds_of(addresses: Seq<&str>) -> Seq<SiloAddressView>
    decreases addresses.len(),
{
    if addresses.len() == 0 {
        Seq::empty()
    } else {
        match seed(addresses.last()@) {
            Some(silo) => seeds_of(addresses.drop_last()).push(silo),
            None => seeds_of(addresses.drop_last()),
        }
    }
}

fn parse_seed(address: &str) -> (silo: Option<SiloAddress>)
    ensures
        match silo {
            Some(s) => seed(address@) == Some(s@),
            None => seed(address@) is None,
        },
{
    match split_at_last(address, ':') {
        Some((host, port)) => match parse_decimal(port.as_str(), u16::MAX as u64) {
            Some(n) => Some(SiloAddress { host, port: n as u16, silo_id: address.to_string() }),
            None => None,
        },
        None => None,
    }
}

/// Silos from a fixed list of addresses.
#[derive(Clone, Debug, PartialEq, Eq)]
pub struct StaticSeedProvider {
    seeds: Vec<SiloAddress>,
}

impl View for StaticSeedProvider {
    type V = Seq<SiloAddressView>;

    closed spec fn view(&self) -> Seq<SiloAddressView> {
        maps::views(self.seeds@)
    }
}

impl StaticSeedProvider {
    /// Takes the addresses of the form `host:port`; others are left out.
    pub fn new(addresses: Vec<&str>) -> (provider: StaticSeedProvider)
        ensures
            provider@ == seeds_of(addresses@),
    {
        let mut seeds: Vec<SiloAddress> = Vec::new();
        let mut i: usize = 0;
        proof {
            assert(addresses@.take(0) =~= Seq::<&str>::empty());
            assert(maps::views(seeds@) =~= Seq::<SiloAddressView>::empty());
        }
        while i < addresses.len()
            invariant
                i <= addresses.len(),
                maps::views(seeds@) == seeds_of(addresses@.take(i as int)),
            decreases addresses.len() - i,
        {
            proof {
                assert(addresses@.take(i + 1).drop_last() =~= addresses@.take(i as int));
                assert(addresses@.take(i + 1).last() == addresses@[i as int]);
            }
            if let Some(silo) = parse_seed(addresses[i]) {
                let ghost before = seeds@;
                let ghost s = silo@;
                seeds.push(silo);
                assert(maps::views(seeds@) =~= maps::views(before).push(s));
            }
            i += 1;
        }
        assert(addresses@.take(i as int) =~= addresses@);
        StaticSeedProvider { seeds }
    }
}

/// A copy of a list of addresses.
pub fn copy_addrs(list: &Vec<SiloAddress>) -> (copy: Vec<SiloAddress>)
    ensures
        maps::views(copy@) == maps::views(list@),
{
    let mut copy: Vec<SiloAddress> = Vec::new();
    let mut i: usize = 0;
    while i < list.len()
        invariant
            i <= list.len(),
            copy@.len() == i,
            forall|j: int| 0 <= j < i ==> (#[trigger] copy@[j])@ == list@[j]@,
        decreases list.len() - i,
    {
        copy.push(list[i].duplicate());
        i += 1;
    }
    assert(maps::views(copy@) =~= maps::views(list@));
    copy
}

impl MembershipProvider for StaticSeedProvider {
    fn get_members(&self) -> (members: Result<Vec<SiloAddress>, ClusterError>)
        ensures
            members matches Ok(list) && maps::views(list@) == self@,
    {
        Ok(copy_addrs(&self.seeds))
    }
}

/// Silos by looking a host name up; all have one port.
#[derive(Clone, Debug, PartialEq, Eq)]
pub struct DnsMembershipProvider {
    hostname: String,
    port: u16,
}

/// The contents of a [`DnsMembershipProvider`].
pub struct DnsMembershipProviderView {
    pub hostname: Seq<char>,
    pub port: u16,
}

impl View for DnsMembershipProvider {
    type V = DnsMembershipProviderView;

    closed spec fn view(&self) -> DnsMembershipProviderView {
        DnsMembershipProviderView { hostname: self.hostname@, port: self.port }
    }
}

/// The silo behind an address that a name service gave.
pub open spec fn resolved(ip: Seq<char>, port: u16) -> SiloAddressView {
    SiloAddressView { host: ip, port, silo_id: hash_ring::endpoint_text(ip, port) }
}

/// The silos behind the addresses that a name service gave.
pub open spec fn resolved_all(found: Seq<(String, u16)>) -> Seq<SiloAddressView> {
    found.map_values(|a: (String, u16)| resolved(a.0@, a.1))
}

impl DnsMembershipProvider {
    pub fn new(hostname: &str, port: u16) -> (provider: DnsMembershipProvider)
        ensures
            provider@.hostname == hostname@,
            provider@.port == port,
    {
        DnsMembershipProvider { hostname: hostname.to_string(), port }
    }

    /// What to look up.
    pub fn query(&self) -> (query: String)
        ensures
            query@ == hash_ring::endpoint_text(self@.hostname, self@.port),
    {
        endpoint_of(self.hostname.as_str(), self.port)
    }

    /// The silos behind what was found: addresses and ports, or the reason of a failure.
    pub fn get_members(&self, found: Result<Vec<(String, u16)>, String>) -> (members: Result<
        Vec<SiloAddress>,
        ClusterError,
    >)
        ensures
            match (found, members) {
                (Ok(list), Ok(silos)) => maps::views(silos@) == resolved_all(list@),
                (Err(reason), Err(e)) => e@ == ClusterErrorView::Transport(
                    "DNS lookup failed: "@ + reason@,
                ),
                _ => false,
            },
    {
        let list = match found {
            Ok(list) => list,
            Err(reason) => {
                return Err(
                    ClusterError::Transport(join2("DNS lookup failed: ", reason.as_str())),
                );
            },
        };
        let mut silos: Vec<SiloAddress> = Vec::new();
        let mut i: usize = 0;
        while i < list.len()
            invariant
                i <= list.len(),
                silos@.len() == i,
                forall|j: int|
                    0 <= j < i ==> (#[trigger] silos@[j])@ == resolved(list@[j].0@, list@[j].1),
            decreases list.len() - i,
        {
            let ip = list[i].0.as_str();
            let port: u16 = list[i].1;
            silos.push(
                SiloAddress { host: ip.to_string(), port, silo_id: endpoint_of(ip, port) },
            );
            i += 1;
        }
        assert(maps::views(silos@) =~= resolved_all(list@));
        Ok(silos)
    }
}

/// What a catalog says of an instance of a service: the service's address, the node's
/// address, the port, and the instance's name, each where it is given.
#[derive(Clone, Debug, PartialEq, Eq)]
pub struct CatalogEntry {
    pub service_address: Option<String>,
    pub node_address: Option<String>,
    pub port: Option<u64>,
    pub service_id: Option<String>,
}

/// The text of an optional string.
pub open spec fn text_of(s: Option<String>) -> Option<Seq<char>> {
    match s {
        Some(t) => Some(t@),
        None => None,
    }
}

/// The contents of a [`CatalogEntry`].
pub type CatalogFields = (Option<Seq<char>>, Option<Seq<char>>, Option<u64>, Option<Seq<char>>);

impl View for CatalogEntry {
    type V = CatalogFields;

    open spec fn view(&self) -> CatalogFields {
        (
            text_of(self.service_address),
            text_of(self.node_address),
            self.port,
            text_of(self.service_id),
        )
    }
}

/// Low 16 bits of a number.
pub open spec fn low_port(n: u64) -> u16 {
    (n % 0x1_0000) as u16
}

/// The silo that an entry stands for: at the service's own address, or else the node's;
/// named by the instance, or else by its address. None where an address or a port is
/// missing.
pub open spec fn cataloged(entry: CatalogFields) -> Option<SiloAddressView> {
    let address = match entry.0 {
        Some(a) => if a.len() > 0 {
            Some(a)
        } else {
            entry.1
        },
        None => entry.1,
    };
    match (address, entry.2) {
        (Some(host), Some(n)) => Some(
            SiloAddressView {
                host,
                port: low_port(n),
                silo_id: match entry.3 {
                    Some(id) => if id.len() > 0 {
                        id
                    } else {
                        hash_ring::endpoint_text(host, low_port(n))
                    },
                    None => hash_ring::endpoint_text(host, low_port(n)),
                },
            },
        ),
        _ => None,
    }
}

/// The silos that entries stand for, in their order.
pub open spec fn cataloged_all(entries: Seq<CatalogFields>) -> Seq<SiloAddressView>
    decreases entries.len(),
{
    if entries.len() == 0 {
        Seq::empty()
    } else {
        match cataloged(entries.last()) {
            Some(silo) => cataloged_all(entries.drop_last()).push(silo),
            None => cataloged_all(entries.drop_last()),
        }
    }
}

/// The address of a catalog's list of a service's healthy instances.
pub open spec fn catalog_url(base: Seq<char>, service: Seq<char>) -> Seq<char> {
    without_slashes(base) + "/v1/health/service/"@ + service + "?passing=true"@
}

/// A text without the slashes at its end.
pub open spec fn without_slashes(s: Seq<char>) -> Seq<char>
    decreases s.len(),
{
    if s.len() > 0 && s.last() == '/' {
        without_slashes(s.drop_last())
    } else {
        s
    }
}

/// What `serde_json::from_slice` makes of a text, as a list of JSON values: of each its fields
/// `service.address`, `node.address`, `service.port` and `service.id` under the names that are
/// given, where they are strings, and for the port a number without sign that fits 64 bits; or
/// the text of the error where the text is no JSON list.
pub uninterp spec fn listed_json(
    body: Seq<u8>,
    service: Seq<char>,
    node: Seq<char>,
    address: Seq<char>,
    port: Seq<char>,
    id: Seq<char>,
) -> Result<
    Seq<(Option<Seq<char>>, Option<Seq<char>>, Option<u64>, Option<Seq<char>>)>,
    Seq<char>,
>;

/// What the body of a catalog's answer says.
pub open spec fn catalog_json(body: Seq<u8>) -> Result<Seq<CatalogFields>, Seq<char>> {
    listed_json(body, "Service"@, "Node"@, "Address"@, "Port"@, "ID"@)
}

/// Parses a list with `serde_json::from_slice` and picks fields of its values with
/// `serde_json::Value`'s indexing, `as_str` and `as_u64`. The result is a function of the
/// bytes and the names of the fields, under the name `listed_json`.
#[verifier::external_body]
fn parse_list(
    body: &Vec<u8>,
    service: &str,
    node: &str,
    address: &str,
    port: &str,
    id: &str,
) -> (entries: Result<Vec<CatalogEntry>, String>)
    ensures
        outcome_of(entries) == listed_json(body@, service@, node@, address@, port@, id@),
{
    let text = |v: &serde_json::Value| v.as_str().map(|s| s.to_string());
    let values: Vec<serde_json::Value> = serde_json::from_slice(body).map_err(|e| e.to_string())?;
    let entries = values.iter().map(|v| CatalogEntry {
        service_address: text(&v[service][address]),
        node_address: text(&v[node][address]),
        port: v[service][port].as_u64(),
        service_id: text(&v[service][id]),
    });
    Ok(entries.collect())
}

/// The contents of a parsed answer.
pub open spec fn outcome_of(entries: Result<Vec<CatalogEntry>, String>) -> Result<
    Seq<CatalogFields>,
    Seq<char>,
> {
    match entries {
        Ok(list) => Ok(maps::views(list@)),
        Err(reason) => Err(reason@),
    }
}

fn low_bits(n: u64) -> (port: u16)
    ensures
        port == low_port(n),
{
    assert((n as u16) == (n % 0x1_0000) as u16) by (bit_vector);
    #[verifier::truncate]
    (n as u16)
}

fn silo_of(entry: &CatalogEntry) -> (silo: Option<SiloAddress>)
    ensures
        match silo {
            Some(s) => cataloged(entry@) == Some(s@),
            None => cataloged(entry@) is None,
        },
{
    let own: Option<&String> = match &entry.service_address {
        Some(a) => if chars_of(a.as_str()).len() > 0 {
            Some(a)
        } else {
            None
        },
        None => None,
    };
    let address: &String = match own {
        Some(a) => a,
        None => match &entry.node_address {
            Some(a) => a,
            None => {
                return None;
            },
        },
    };
    let port: u16 = match entry.port {
        Some(n) => low_bits(n),
        None => {
            return None;
        },
    };
    let named: Option<&String> = match &entry.service_id {
        Some(id) => if chars_of(id.as_str()).len() > 0 {
            Some(id)
        } else {
            None
        },
        None => None,
    };
    let silo_id = match named {
        Some(id) => id.clone(),
        None => endpoint_of(address.as_str(), port),
    };
    Some(SiloAddress { host: address.clone(), port, silo_id })
}

/// The silos that a catalog's entries stand for, in their order.
pub fn members_of(entries: &Vec<CatalogEntry>) -> (silos: Vec<SiloAddress>)
    ensures
        maps::views(silos@) == cataloged_all(maps::views(entries@)),
{
    let ghost all = maps::views(entries@);
    let mut silos: Vec<SiloAddress> = Vec::new();
    let mut i: usize = 0;
    proof {
        assert(all.take(0) =~= Seq::<CatalogFields>::empty());
        assert(maps::views(silos@) =~= Seq::<SiloAddressView>::empty());
    }
    while i < entries.len()
        invariant
            i <= entries.len(),
            all == maps::views(entries@),
            maps::views(silos@) == cataloged_all(all.take(i as int)),
        decreases entries.len() - i,
    {
        proof {
            assert(all.take(i + 1).drop_last() =~= all.take(i as int));
            assert(all.take(i + 1).last() == entries@[i as int]@);
        }
        if let Some(silo) = silo_of(&entries[i]) {
            let ghost before = silos@;
            let ghost s = silo@;
            silos.push(silo);
            assert(maps::views(silos@) =~= maps::views(before).push(s));
        }
        i += 1;
    }
    assert(all.take(i as int) =~= all);
    silos
}

/// The silos that a parsed catalog lists, or the error that it could not be parsed. That error
/// does not say why.
pub fn catalog_members(parsed: Result<Vec<CatalogEntry>, String>) -> (members: Result<
    Vec<SiloAddress>,
    ClusterError,
>)
    ensures
        match (parsed, members) {
            (Ok(entries), Ok(silos)) => maps::views(silos@) == cataloged_all(
                maps::views(entries@),
            ),
            (Err(_), Err(e)) => e@ == ClusterErrorView::Transport(
                "Consul response parse failed: error decoding response body"@,
            ),
            _ => false,
        },
{
    match parsed {
        Ok(entries) => Ok(members_of(&entries)),
        Err(_) => Err(unparsed()),
    }
}

fn unparsed() -> (error: ClusterError)
    ensures
        error@ == ClusterErrorView::Transport(
            "Consul response parse failed: error decoding response body"@,
        ),
{
    ClusterError::Transport(
        "Consul response parse failed: error decoding response body".to_string(),
    )
}

/// Silos from a service catalog, which lists the healthy instances of a service.
#[derive(Clone, Debug, PartialEq, Eq)]
pub struct ConsulMembershipProvider {
    consul_url: String,
    service_name: String,
}

/// The contents of a [`ConsulMembershipProvider`].
pub struct ConsulMembershipProviderView {
    pub consul_url: Seq<char>,
    pub service_name: Seq<char>,
}

impl View for ConsulMembershipProvider {
    type V = ConsulMembershipProviderView;

    closed spec fn view(&self) -> ConsulMembershipProviderView {
        ConsulMembershipProviderView {
            consul_url: self.consul_url@,
            service_name: self.service_name@,
        }
    }
}

/// How a request to the catalog went, up to the body of its answer.
pub enum CatalogReply {
    /// The request failed, for that reason.
    Failed(String),
    /// The catalog answered with that status, which is none of success.
    Refused(String),
    /// The catalog answered, but the body of its answer could not be read to the end.
    Unreadable,
    /// The catalog answered with that body.
    Answered(Vec<u8>),
}

impl ConsulMembershipProvider {
    pub fn new(consul_url: &str, service_name: &str) -> (provider: ConsulMembershipProvider)
        ensures
            provider@.consul_url == consul_url@,
            provider@.service_name == service_name@,
    {
        ConsulMembershipProvider {
            consul_url: consul_url.to_string(),
            service_name: service_name.to_string(),
        }
    }

    /// The address of the catalog's list of healthy instances.
    pub fn url(&self) -> (url: String)
        ensures
            url@ == without_slashes(self@.consul_url) + "/v1/health/service/"@
                + self@.service_name + "?passing=true"@,
            url@ == catalog_url(self@.consul_url, self@.service_name),
    {
        let base = self.consul_url.as_str();
        let chars = chars_of(base);
        let mut end: usize = chars.len();
        assert(base@.take(end as int) =~= base@);
        while end > 0 && chars[end - 1] == '/'
            invariant
                chars@ == base@,
                end <= chars@.len(),
                without_slashes(base@) == without_slashes(base@.take(end as int)),
            decreases end,
        {
            assert(base@.take(end as int).drop_last() =~= base@.take(end - 1));
            end = end - 1;
        }
        let mut url = base.substring_char(0, end).to_string();
        assert(base@.subrange(0, end as int) =~= base@.take(end as int));
        url.append("/v1/health/service/");
        url.append(self.service_name.as_str());
        url.append("?passing=true");
        url
    }

    /// The silos that the catalog lists, or why there are none.
    pub fn get_members(&self, reply: CatalogReply) -> (members: Result<
        Vec<SiloAddress>,
        ClusterError,
    >)
        ensures
            match (reply, members) {
                (CatalogReply::Failed(reason), Err(e)) => e@ == ClusterErrorView::Transport(
                    "Consul request failed: "@ + reason@,
                ),
                (CatalogReply::Refused(status), Err(e)) => e@ == ClusterErrorView::Transport(
                    "Consul returned status "@ + status@,
                ),
                (CatalogReply::Answered(body), Ok(silos)) => catalog_json(body@) matches Ok(entries)
                    && maps::views(silos@) == cataloged_all(entries),
                (CatalogReply::Unreadable, Err(e)) => e@ == ClusterErrorView::Transport(
                    "Consul response parse failed: error decoding response body"@,
                ),
                (CatalogReply::Answered(body), Err(e)) => catalog_json(body@) is Err && e@
                    == ClusterErrorView::Transport(
                    "Consul response parse failed: error decoding response body"@,
                ),
                _ => false,
            },
    {
        match reply {
            CatalogReply::Failed(reason) => Err(
                ClusterError::Transport(join2("Consul request failed: ", reason.as_str())),
            ),
            CatalogReply::Refused(status) => Err(
                ClusterError::Transport(join2("Consul returned status ", status.as_str())),
            ),
            CatalogReply::Unreadable => Err(unparsed()),
            CatalogReply::Answered(body) => catalog_members(
                parse_list(&body, "Service", "Node", "Address", "Port", "ID"),
            ),
        }
    }
}

/// A seed is reached under the address it was given by, where the port is written without
/// extra signs or zeros.
pub proof fn seeds_keep_their_address(host: Seq<char>, port: u16)
    ensures
        seed(hash_ring::endpoint_text(host, port)) == Some(
            SiloAddressView { host, port, silo_id: hash_ring::endpoint_text(host, port) },
        ),
{
    let digits = text::decimal(port as nat);
    let address = hash_ring::endpoint_text(host, port);
    text::decimal_denotes(port as nat);
    text::parse_undoes_decimal(port as nat, u16::MAX as nat);
    assert forall|i: int| 0 <= i < digits.len() implies #[trigger] digits[i] != ':' by {
        assert(text::is_digit(digits[i]));
    }
    lemma_last_colon(host, digits);
    assert(address.take(host.len() as int) =~= host);
    assert(address.skip(host.len() + 1int) =~= digits);
}

proof fn lemma_last_colon(host: Seq<char>, rest: Seq<char>)
    requires
        forall|i: int| 0 <= i < rest.len() ==> #[trigger] rest[i] != ':',
    ensures
        text::last_position(host + seq![':'] + rest, ':') == Some(host.len() as int),
    decreases rest.len(),
{
    let s = host + seq![':'] + rest;
    if rest.len() == 0 {
        assert(s.last() == ':');
    } else {
        assert(s.last() == rest.last());
        assert(s.drop_last() =~= host + seq![':'] + rest.drop_last());
        lemma_last_colon(host, rest.drop_last());
    }
}

/// A seed is its host and its port, parted by the last colon, under the whole as its identity;
/// what has no colon, or no port after it, is no seed.
pub proof fn seeds_are_hosts_and_ports(host: Seq<char>, port: Seq<char>)
    requires
        !port.contains(':'),
    ensures
        ({
            let address = host + seq![':'] + port;
            match text::parse_number(port, 65535) {
                Some(n) => seed(address) == Some(
                    SiloAddressView { host, port: n as u16, silo_id: address },
                ),
                None => seed(address) is None,
            }
        }),
        seed(port) is None,
{
    text::texts_split_at_the_last_occurrence(host, ':', port);
}

/// Seeds keep the order of their addresses, and an address that is no seed is left out.
pub proof fn seeds_keep_their_order(one: Seq<&str>, other: Seq<&str>, address: &str)
    ensures
        seeds_of(one + other) == seeds_of(one) + seeds_of(other),
        seeds_of(seq![address]) == (match seed(address@) {
            Some(silo) => seq![silo],
            None => Seq::empty(),
        }),
    decreases other.len(),
{
    assert(seq![address].drop_last() =~= Seq::<&str>::empty());
    assert(seeds_of(Seq::<&str>::empty()) =~= Seq::<SiloAddressView>::empty());
    if other.len() == 0 {
        assert(one + other =~= one);
        assert(seeds_of(one) + seeds_of(other) =~= seeds_of(one));
    } else {
        seeds_keep_their_order(one, other.drop_last(), address);
        assert((one + other).drop_last() =~= one + other.drop_last());
        assert((one + other).last() == other.last());
        assert(seeds_of(one + other) =~= seeds_of(one) + seeds_of(other));
    }
}

/// A silo that a name resolved to is reached at the address that was found, in the order of
/// what was found, and its identity is that address.
pub proof fn resolved_silos_are_at_what_was_found(found: Seq<(String, u16)>, i: int)
    requires
        0 <= i < found.len(),
    ensures
        resolved_all(found).len() == found.len(),
        resolved_all(found)[i].host == found[i].0@,
        resolved_all(found)[i].port == found[i].1,
        resolved_all(found)[i].silo_id == found[i].0@ + seq![':'] + text::decimal(
            found[i].1 as nat,
        ),
{
    assert(resolved_all(found)[i].silo_id =~= found[i].0@ + seq![':'] + text::decimal(
        found[i].1 as nat,
    ));
}

/// A catalog's entry stands for the silo at its service address, or at its node's address where
/// the service has none of its own, and at its port, under its identity, or under its address
/// where it has no identity. One without an address or a port stands for none.
pub proof fn entries_stand_for_their_silos(
    service: Option<Seq<char>>,
    node: Option<Seq<char>>,
    port: Option<u64>,
    id: Option<Seq<char>>,
)
    ensures
        ({
            let silo = cataloged((service, node, port, id));
            let own = service is Some && service->0.len() > 0;
            let named = id is Some && id->0.len() > 0;
            &&& silo is Some <==> port is Some && (own || node is Some)
            &&& silo matches Some(s) ==> {
                &&& s.host == if own {
                    service->0
                } else {
                    node->0
                }
                &&& s.port == port->0 % 65536
                &&& s.silo_id == if named {
                    id->0
                } else {
                    s.host + seq![':'] + text::decimal(s.port as nat)
                }
            }
        }),
{
    if let Some(s) = cataloged((service, node, port, id)) {
        assert(hash_ring::endpoint_text(s.host, s.port) =~= s.host + seq![':'] + text::decimal(
            s.port as nat,
        ));
    }
}

/// Cataloged silos keep the order of their entries.
pub proof fn cataloged_silos_keep_their_order(
    one: Seq<CatalogFields>,
    other: Seq<CatalogFields>,
    entry: CatalogFields,
)
    ensures
        cataloged_all(one + other) == cataloged_all(one) + cataloged_all(other),
        cataloged_all(seq![entry]) == (match cataloged(entry) {
            Some(silo) => seq![silo],
            None => Seq::empty(),
        }),
    decreases other.len(),
{
    assert(seq![entry].drop_last() =~= Seq::<CatalogFields>::empty());
    assert(cataloged_all(Seq::<CatalogFields>::empty()) =~= Seq::<SiloAddressView>::empty());
    if other.len() == 0 {
        assert(one + other =~= one);
        assert(cataloged_all(one) + cataloged_all(other) =~= cataloged_all(one));
    } else {
        cataloged_silos_keep_their_order(one, other.drop_last(), entry);
        assert((one + other).drop_last() =~= one + other.drop_last());
        assert((one + other).last() == other.last());
        assert(cataloged_all(one + other) =~= cataloged_all(one) + cataloged_all(other));
    }
}

/// The catalog is asked for healthy instances under its address, whether or not slashes end it.
pub proof fn slashes_at_the_end_do_not_count(base: Seq<char>, service: Seq<char>)
    ensures
        catalog_url(base.push('/'), service) == catalog_url(base, service),
        base.len() == 0 || base.last() != '/' ==> catalog_url(base, service) == base
            + "/v1/health/service/"@ + service + "?passing=true"@,
{
    assert(base.push('/').drop_last() =~= base);
}

} // verus!
