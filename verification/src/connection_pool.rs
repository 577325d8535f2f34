//! The connections that a process keeps open, by endpoint. A connection is a number that
//! the owner of the pool gives it.

use vstd::prelude::*;
use vstd::utf8::*;

use dashmap::DashMap;

use crate::auth;
use crate::auth::Metadata;
use crate::maps::Duplicate;
use crate::proto::copy_bytes;
use crate::text::join2;
use crate::time;
use crate::time::Duration;

verus! {

#[verifier::external_type_specification]
#[verifier::external_body]
#[verifier::reject_recursive_types(K)]
#[verifier::reject_recursive_types(V)]
#[verifier::reject_recursive_types(S)]
pub struct ExDashMap<K, V, S>(dashmap::DashMap<K, V, S>);

/// The entries of a `dashmap::DashMap` from endpoints to connections.
pub uninterp spec fn cached(map: DashMap<String, u64>) -> Map<Seq<char>, u64>;

/// Makes an empty map with `dashmap::DashMap::new`.
#[verifier::external_body]
pub(crate) fn new_cache() -> (cache: DashMap<String, u64>)
    ensures
        (cached(cache) == Map::<Seq<char>, u64>::empty()),
{
    DashMap::new()
}

/// Reads an entry with `dashmap::DashMap::get`: the value under the key, where there is one.
#[verifier::external_body]
pub(crate) fn cache_get(map: &DashMap<String, u64>, key: &str) -> (value: Option<u64>)
    ensures
        value == (if cached(*map).dom().contains(key@) {
            Some(cached(*map)[key@])
        } else {
            None
        }),
{
    map.get(key).map(|entry| *entry.value())
}

/// Writes an entry with `dashmap::DashMap::insert`: the value stands under the key, in
/// place of an earlier one, and the other entries stay.
#[verifier::external_body]
pub(crate) fn cache_insert(map: &mut DashMap<String, u64>, key: String, value: u64)
    ensures
        cached(*final(map)) == cached(*old(map)).insert(key@, value),
{
    map.insert(key, value);
}

/// Deletes an entry with `dashmap::DashMap::remove`: nothing stands under the key any more,
/// and the other entries stay.
#[verifier::external_body]
pub(crate) fn cache_remove(map: &mut DashMap<String, u64>, key: &str)
    ensures
        cached(*final(map)) == cached(*old(map)).remove(key@),
{
    map.remove(key);
}

/// How long establishing a connection may take.
pub fn connect_timeout() -> (timeout: Duration)
    ensures
        timeout@ == 5 * time::NANOS_PER_SEC,
{
    Duration::from_secs(5)
}

/// A certificate and its private key, PEM-encoded.
#[derive(Clone, Debug, PartialEq, Eq)]
pub struct TlsIdentity {
    pub cert_pem: Vec<u8>,
    pub key_pem: Vec<u8>,
}

/// How a client secures its connections: the authority it trusts, and who it says it is.
#[derive(Clone, Debug, PartialEq, Eq)]
pub struct ClientTls {
    pub ca_pem: Vec<u8>,
    pub identity: Option<TlsIdentity>,
}

/// The contents of a [`TlsIdentity`].
#[verifier::ext_equal]
pub struct TlsIdentityView {
    pub cert_pem: Seq<u8>,
    pub key_pem: Seq<u8>,
}

impl View for TlsIdentity {
    type V = TlsIdentityView;

    open spec fn view(&self) -> TlsIdentityView {
        TlsIdentityView { cert_pem: self.cert_pem@, key_pem: self.key_pem@ }
    }
}

impl Duplicate for TlsIdentity {
    fn duplicate(&self) -> (copy: Self) {
        TlsIdentity { cert_pem: copy_bytes(&self.cert_pem), key_pem: copy_bytes(&self.key_pem) }
    }
}

/// The contents of a [`ClientTls`].
#[verifier::ext_equal]
pub struct ClientTlsView {
    pub ca_pem: Seq<u8>,
    pub identity: Option<TlsIdentityView>,
}

impl View for ClientTls {
    type V = ClientTlsView;

    open spec fn view(&self) -> ClientTlsView {
        ClientTlsView {
            ca_pem: self.ca_pem@,
            identity: match self.identity {
                Some(identity) => Some(identity@),
                None => None,
            },
        }
    }
}

/// The kinds of service that are reached over a connection.
#[derive(Clone, Copy, Debug, PartialEq, Eq, Structural)]
pub enum Service {
    Transport,
    Membership,
    Gateway,
}

/// A connection to use.
#[derive(Clone, Debug, PartialEq, Eq)]
pub enum Connection {
    /// One that is open already.
    Open(u64),
    /// One to be opened, at that address.
    Connect(String),
}

/// A request with the headers it is sent with.
#[derive(Clone, Debug, PartialEq, Eq)]
pub struct AuthorizedRequest<T> {
    pub inner: T,
    pub metadata: Metadata,
}

/// The connections that are open, and how new ones are secured.
pub struct ConnectionPool {
    transports: DashMap<String, u64>,
    memberships: DashMap<String, u64>,
    gateways: DashMap<String, u64>,
    tls_config: Option<ClientTls>,
    auth_token: Option<String>,
}

/// The contents of a [`ConnectionPool`].
#[verifier::ext_equal]
pub struct ConnectionPoolView {
    pub transports: Map<Seq<char>, u64>,
    pub memberships: Map<Seq<char>, u64>,
    pub gateways: Map<Seq<char>, u64>,
    pub tls_config: Option<ClientTlsView>,
    pub auth_token: Option<Seq<char>>,
}

impl View for ConnectionPool {
    type V = ConnectionPoolView;

    closed spec fn view(&self) -> ConnectionPoolView {
        ConnectionPoolView {
            transports: cached(self.transports),
            memberships: cached(self.memberships),
            gateways: cached(self.gateways),
            tls_config: match self.tls_config {
                Some(tls) => Some(tls@),
                None => None,
            },
            auth_token: match self.auth_token {
                Some(token) => Some(token@),
                None => None,
            },
        }
    }
}

/// A connection as a mathematical value.
pub enum ConnectionView {
    Open(u64),
    Connect(Seq<char>),
}

/// The mathematical value of a connection.
pub open spec fn connection_view(connection: Connection) -> ConnectionView {
    match connection {
        Connection::Open(number) => ConnectionView::Open(number),
        Connection::Connect(uri) => ConnectionView::Connect(uri@),
    }
}

/// Whether a byte may stand in a header value that is sent.
pub open spec fn is_header_byte(b: u8) -> bool {
    (b >= 32 && b != 127) || b == 9
}

/// Whether a token can be sent in a header.
pub open spec fn sendable(token: Seq<char>) -> bool {
    forall|i: int| 0 <= i < encode_utf8(token).len() ==> is_header_byte(#[trigger] encode_utf8(token)[i])
}

impl ConnectionPoolView {
    /// A pool without connections.
    pub open spec fn fresh(
        tls_config: Option<ClientTlsView>,
        auth_token: Option<Seq<char>>,
    ) -> ConnectionPoolView {
        ConnectionPoolView {
            transports: Map::empty(),
            memberships: Map::empty(),
            gateways: Map::empty(),
            tls_config,
            auth_token,
        }
    }

    /// The open connections to a kind of service.
    pub open spec fn open(self, service: Service) -> Map<Seq<char>, u64> {
        match service {
            Service::Transport => self.transports,
            Service::Membership => self.memberships,
            Service::Gateway => self.gateways,
        }
    }

    /// The pool with one more connection.
    pub open spec fn with(
        self,
        service: Service,
        endpoint: Seq<char>,
        connection: u64,
    ) -> ConnectionPoolView {
        match service {
            Service::Transport => ConnectionPoolView {
                transports: self.transports.insert(endpoint, connection),
                ..self
            },
            Service::Membership => ConnectionPoolView {
                memberships: self.memberships.insert(endpoint, connection),
                ..self
            },
            Service::Gateway => ConnectionPoolView {
                gateways: self.gateways.insert(endpoint, connection),
                ..self
            },
        }
    }

    /// How calls of a kind reach an endpoint.
    pub open spec fn connection(self, service: Service, endpoint: Seq<char>) -> ConnectionView {
        if self.open(service).dom().contains(endpoint) {
            ConnectionView::Open(self.open(service)[endpoint])
        } else {
            ConnectionView::Connect(self.uri(endpoint))
        }
    }

    /// The pool without connections to an endpoint.
    pub open spec fn without(self, endpoint: Seq<char>) -> ConnectionPoolView {
        ConnectionPoolView {
            transports: self.transports.remove(endpoint),
            memberships: self.memberships.remove(endpoint),
            gateways: self.gateways.remove(endpoint),
            ..self
        }
    }

    /// The address under which an endpoint is connected to.
    pub open spec fn uri(self, endpoint: Seq<char>) -> Seq<char> {
        if self.tls_config is Some {
            "https://"@ + endpoint
        } else {
            "http://"@ + endpoint
        }
    }

    /// The value of the header that requests carry.
    pub open spec fn header(self) -> Option<Seq<u8>> {
        match self.auth_token {
            Some(token) => if sendable(token) {
                Some(encode_utf8(token))
            } else {
                None
            },
            None => None,
        }
    }
}

impl Default for ConnectionPool {
    fn default() -> (pool: Self)
        ensures
            pool@ == ConnectionPoolView::fresh(None, None),
    {
        ConnectionPool::new()
    }
}

fn header_sendable(token: &str) -> (yes: bool)
    ensures
        yes == sendable(token@),
{
    let bytes = token.as_bytes();
    let mut i: usize = 0;
    while i < bytes.len()
        invariant
            i <= bytes.len(),
            bytes@ == encode_utf8(token@),
            forall|j: int| 0 <= j < i ==> is_header_byte(#[trigger] encode_utf8(token@)[j]),
        decreases bytes.len() - i,
    {
        let b: u8 = bytes[i];
        if !((b >= 32 && b != 127) || b == 9) {
            assert(!is_header_byte(encode_utf8(token@)[i as int]));
            return false;
        }
        i += 1;
    }
    true
}

fn to_bytes(text: &str) -> (bytes: Vec<u8>)
    ensures
        bytes@ == encode_utf8(text@),
{
    let source = text.as_bytes();
    let mut bytes: Vec<u8> = Vec::new();
    let mut i: usize = 0;
    while i < source.len()
        invariant
            i <= source.len(),
            bytes@ == source@.take(i as int),
        decreases source.len() - i,
    {
        assert(source@.take(i + 1) =~= source@.take(i as int).push(source@[i as int]));
        bytes.push(source[i]);
        i += 1;
    }
    assert(source@.take(i as int) =~= source@);
    bytes
}

impl ConnectionPool {
    fn fresh(tls_config: Option<ClientTls>, auth_token: Option<String>) -> (pool: ConnectionPool)
        ensures
            pool@ == ConnectionPoolView::fresh(
                match tls_config {
                    Some(tls) => Some(tls@),
                    None => None,
                },
                match auth_token {
                    Some(token) => Some(token@),
                    None => None,
                },
            ),
    {
        ConnectionPool {
            transports: new_cache(),
            memberships: new_cache(),
            gateways: new_cache(),
            tls_config,
            auth_token,
        }
    }

    /// A pool of plain connections.
    pub fn new() -> (pool: ConnectionPool)
        ensures
            pool@ == ConnectionPoolView::fresh(None, None),
    {
        ConnectionPool::fresh(None, None)
    }

    /// A pool of secured connections.
    pub fn with_tls(tls: ClientTls) -> (pool: ConnectionPool)
        ensures
            pool@ == ConnectionPoolView::fresh(Some(tls@), None),
    {
        ConnectionPool::fresh(Some(tls), None)
    }

    /// A pool of secured connections whose requests carry a token.
    pub fn with_tls_and_auth(tls: ClientTls, token: String) -> (pool: ConnectionPool)
        ensures
            pool@ == ConnectionPoolView::fresh(Some(tls@), Some(token@)),
    {
        ConnectionPool::fresh(Some(tls), Some(token))
    }

    /// A pool of plain connections whose requests carry a token.
    pub fn with_auth(token: String) -> (pool: ConnectionPool)
        ensures
            pool@ == ConnectionPoolView::fresh(None, Some(token@)),
    {
        ConnectionPool::fresh(None, Some(token))
    }

    /// How new connections are secured.
    pub fn tls_config(&self) -> (tls: Option<&ClientTls>)
        ensures
            match tls {
                Some(t) => self@.tls_config == Some(t@),
                None => self@.tls_config is None,
            },
    {
        match &self.tls_config {
            Some(tls) => Some(tls),
            None => None,
        }
    }

    /// A request with the token attached, where there is one that can be sent.
    pub fn authorized_request<T>(&self, inner: T) -> (request: AuthorizedRequest<T>)
        ensures
            request.inner == inner,
            auth::first_header(request.metadata.entries@, "authorization"@) == self@.header(),
            request.metadata.entries@.len() == (if self@.header() is Some {
                1nat
            } else {
                0
            }),
    {
        let mut metadata = Metadata::new();
        if let Some(token) = &self.auth_token {
            if header_sendable(token.as_str()) {
                metadata.entries.push(("authorization".to_string(), to_bytes(token.as_str())));
            }
        }
        AuthorizedRequest { inner, metadata }
    }

    fn uri(&self, endpoint: &str) -> (uri: String)
        ensures
            uri@ == self@.uri(endpoint@),
    {
        if self.tls_config.is_some() {
            join2("https://", endpoint)
        } else {
            join2("http://", endpoint)
        }
    }

    fn connection(&self, open: Option<u64>, endpoint: &str) -> (connection: Connection)
        ensures
            match open {
                Some(c) => connection == Connection::Open(c),
                None => connection matches Connection::Connect(uri) && uri@ == self@.uri(endpoint@),
            },
    {
        match open {
            Some(c) => Connection::Open(c),
            None => Connection::Connect(self.uri(endpoint)),
        }
    }

    /// The connection for grain calls to an endpoint.
    pub fn get_transport(&self, endpoint: &str) -> (connection: Connection)
        ensures
            if self@.transports.dom().contains(endpoint@) {
                connection == Connection::Open(self@.transports[endpoint@])
            } else {
                connection matches Connection::Connect(uri) && uri@ == self@.uri(endpoint@)
            },
            connection_view(connection) == self@.connection(Service::Transport, endpoint@),
    {
        self.connection(cache_get(&self.transports, endpoint), endpoint)
    }

    /// The connection for membership calls to an endpoint.
    pub fn get_membership(&self, endpoint: &str) -> (connection: Connection)
        ensures
            if self@.memberships.dom().contains(endpoint@) {
                connection == Connection::Open(self@.memberships[endpoint@])
            } else {
                connection matches Connection::Connect(uri) && uri@ == self@.uri(endpoint@)
            },
            connection_view(connection) == self@.connection(Service::Membership, endpoint@),
    {
        self.connection(cache_get(&self.memberships, endpoint), endpoint)
    }

    /// The connection for calls to another cluster's gateway.
    pub fn get_gateway(&self, endpoint: &str) -> (connection: Connection)
        ensures
            if self@.gateways.dom().contains(endpoint@) {
                connection == Connection::Open(self@.gateways[endpoint@])
            } else {
                connection matches Connection::Connect(uri) && uri@ == self@.uri(endpoint@)
            },
            connection_view(connection) == self@.connection(Service::Gateway, endpoint@),
    {
        self.connection(cache_get(&self.gateways, endpoint), endpoint)
    }

    /// Keeps a connection that was opened.
    pub fn opened(&mut self, service: Service, endpoint: &str, connection: u64)
        ensures
            final(self)@ == old(self)@.with(service, endpoint@, connection),
    {
        match service {
            Service::Transport => cache_insert(
                &mut self.transports,
                endpoint.to_string(),
                connection,
            ),
            Service::Membership => cache_insert(
                &mut self.memberships,
                endpoint.to_string(),
                connection,
            ),
            Service::Gateway => cache_insert(&mut self.gateways, endpoint.to_string(), connection),
        }
    }

    /// Drops the connections to an endpoint, of every kind.
    pub fn remove(&mut self, endpoint: &str)
        ensures
            final(self)@ == old(self)@.without(endpoint@),
    {
        cache_remove(&mut self.transports, endpoint);
        cache_remove(&mut self.memberships, endpoint);
        cache_remove(&mut self.gateways, endpoint);
    }
}

/// A connection is used again once it is open, until its endpoint is removed; other
/// endpoints keep theirs.
pub proof fn connections_are_reused(
    pool: ConnectionPoolView,
    service: Service,
    endpoint: Seq<char>,
    connection: u64,
    other: Seq<char>,
)
    requires
        other != endpoint,
    ensures
        pool.with(service, endpoint, connection).open(service).dom().contains(endpoint),
        pool.with(service, endpoint, connection).open(service)[endpoint] == connection,
        forall|s: Service|
            !(#[trigger] pool.without(endpoint).open(s)).dom().contains(endpoint),
        forall|s: Service|
            (#[trigger] pool.without(endpoint).open(s)).dom().contains(other) == pool.open(
                s,
            ).dom().contains(other) && pool.without(endpoint).open(s)[other] == pool.open(s)[other],
{
}

/// A request sent with a token passes the check for that token, where the token holds
/// visible characters, spaces and tabs only.
pub proof fn authorized_requests_pass(pool: ConnectionPoolView, token: Seq<char>)
    requires
        pool.auth_token == Some(token),
        forall|i: int|
            0 <= i < encode_utf8(token).len() ==> auth::is_header_text(
                #[trigger] encode_utf8(token)[i],
            ),
    ensures
        auth::secret_verdict(token, pool.header()) is Ok,
{
    assert(sendable(token)) by {
        assert forall|i: int| 0 <= i < encode_utf8(token).len() implies is_header_byte(
            #[trigger] encode_utf8(token)[i],
        ) by {
            assert(auth::is_header_text(encode_utf8(token)[i]));
        }
    }
}

/// An endpoint without an open connection is connected to, secured exactly where the pool has
/// a configuration for that. Once a connection of a kind is opened, calls of that kind to that
/// endpoint take it; those of another kind or to another endpoint go as before, and how
/// connections are secured and requests authorized stays. Nothing is open at first.
pub proof fn connections_are_for_one_kind_of_call(
    pool: ConnectionPoolView,
    service: Service,
    endpoint: Seq<char>,
    connection: u64,
    kind: Service,
    other: Seq<char>,
)
    ensures
        ({
            let after = pool.with(service, endpoint, connection);
            &&& after.connection(service, endpoint) == ConnectionView::Open(connection)
            &&& kind != service || other != endpoint ==> after.connection(kind, other)
                == pool.connection(kind, other)
            &&& after.tls_config == pool.tls_config && after.auth_token == pool.auth_token
        }),
        ({
            let after = pool.without(endpoint);
            &&& after.connection(kind, endpoint) == ConnectionView::Connect(
                if pool.tls_config is Some {
                    "https://"@ + endpoint
                } else {
                    "http://"@ + endpoint
                },
            )
            &&& other != endpoint ==> after.connection(kind, other) == pool.connection(kind, other)
            &&& after.tls_config == pool.tls_config && after.auth_token == pool.auth_token
        }),
        !ConnectionPoolView::fresh(pool.tls_config, pool.auth_token).open(kind).dom().contains(
            endpoint,
        ),
{
}

/// A request carries the bytes of the token, where each of them may stand in a header: all but
/// control characters, though tabs may; else it carries none.
pub proof fn requests_carry_the_token(pool: ConnectionPoolView)
    ensures
        pool.auth_token is None ==> pool.header() is None,
        pool.auth_token matches Some(token) ==> {
            let bytes = encode_utf8(token);
            let may_be_sent = forall|i: int|
                0 <= i < bytes.len() ==> (#[trigger] bytes[i] == 9 || 32 <= bytes[i] < 127 || 128
                    <= bytes[i]);
            pool.header() == (if may_be_sent {
                Some(bytes)
            } else {
                None
            })
        },
{
    if let Some(token) = pool.auth_token {
        let bytes = encode_utf8(token);
        if sendable(token) {
            assert forall|i: int| 0 <= i < bytes.len() implies (#[trigger] bytes[i] == 9 || 32
                <= bytes[i] < 127 || 128 <= bytes[i]) by {
                assert(is_header_byte(bytes[i]));
            }
        }
    }
}

} // verus!
