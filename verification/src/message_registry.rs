//! Which handler takes an incoming call: registered grain and message types, message
//! versions, and the clusters that a grain type is pinned to.

use vstd::prelude::*;

use crate::error::{ClusterError, ClusterErrorView};
use crate::grain::GrainError;
use crate::maps::StrMap;
use crate::network_message::Encoding;
use crate::text::{join3, same_text};

verus! {

/// The contents of a [`MessageRegistry`].
#[verifier::ext_equal]
pub struct MessageRegistryView {
    /// Handlers by grain type and message type.
    pub handlers: Map<Seq<char>, Map<Seq<char>, u64>>,
    /// The registered message types with the newest version known.
    pub message_versions: Map<Seq<char>, u32>,
    /// The program type behind each grain type.
    pub rust_types: Map<Seq<char>, Seq<char>>,
    /// The clusters that a grain type is pinned to.
    pub allowed_clusters: Map<Seq<char>, Seq<&'static str>>,
}

impl MessageRegistryView {
    pub open spec fn empty() -> MessageRegistryView {
        MessageRegistryView {
            handlers: Map::empty(),
            message_versions: Map::empty(),
            rust_types: Map::empty(),
            allowed_clusters: Map::empty(),
        }
    }

    pub open spec fn has_grain_type(self, grain_type: Seq<char>) -> bool {
        self.handlers.dom().contains(grain_type)
    }

    /// Whether another program type is registered under a grain type's name.
    pub open spec fn collides(self, grain_type: Seq<char>, rust_type: Seq<char>) -> bool {
        self.rust_types.dom().contains(grain_type) && self.rust_types[grain_type] != rust_type
    }

    /// The handlers of a grain type, none where it is unknown.
    pub open spec fn handlers_of(self, grain_type: Seq<char>) -> Map<Seq<char>, u64> {
        if self.has_grain_type(grain_type) {
            self.handlers[grain_type]
        } else {
            Map::empty()
        }
    }

    /// The registry with one more combination of grain and message.
    pub open spec fn with(
        self,
        grain_type: Seq<char>,
        message_type: Seq<char>,
        rust_type: Seq<char>,
        message_version: u32,
        pinned_to: Option<Seq<&'static str>>,
        handler: u64,
    ) -> MessageRegistryView {
        MessageRegistryView {
            handlers: self.handlers.insert(
                grain_type,
                self.handlers_of(grain_type).insert(message_type, handler),
            ),
            message_versions: self.message_versions.insert(message_type, message_version),
            rust_types: self.rust_types.insert(grain_type, rust_type),
            allowed_clusters: match pinned_to {
                Some(clusters) => self.allowed_clusters.insert(grain_type, clusters),
                None => self.allowed_clusters,
            },
        }
    }

    /// The handler for a call, or why there is none.
    pub open spec fn route(
        self,
        grain_type: Seq<char>,
        message_type: Seq<char>,
        message_version: u32,
    ) -> Result<u64, ClusterErrorView> {
        if !self.has_grain_type(grain_type) {
            Err(ClusterErrorView::UnknownGrainType(grain_type))
        } else if !self.message_versions.dom().contains(message_type) {
            Err(ClusterErrorView::UnknownMessageType(message_type))
        } else if message_version > self.message_versions[message_type] {
            Err(
                ClusterErrorView::UnsupportedMessageVersion(
                    message_type,
                    message_version,
                    self.message_versions[message_type],
                ),
            )
        } else if !self.handlers[grain_type].dom().contains(message_type) {
            Err(ClusterErrorView::UnknownMessageType(grain_type + "::"@ + message_type))
        } else {
            Ok(self.handlers[grain_type][message_type])
        }
    }
}

impl View for MessageRegistry {
    type V = MessageRegistryView;

    closed spec fn view(&self) -> MessageRegistryView {
        MessageRegistryView {
            handlers: self.handlers@,
            message_versions: self.message_versions@,
            rust_types: self.grain_rust_types@,
            allowed_clusters: self.allowed_clusters@,
        }
    }
}

/// The grain and message types that a silo serves. A handler is a number that the owner of
/// the registry gives it.
#[derive(Debug, PartialEq, Eq)]
pub struct MessageRegistry {
    handlers: StrMap<StrMap<u64>>,
    grain_types: StrMap<&'static str>,
    message_versions: StrMap<u32>,
    grain_rust_types: StrMap<&'static str>,
    allowed_clusters: StrMap<&'static [&'static str]>,
}

impl Default for MessageRegistry {
    fn default() -> (registry: Self)
        ensures
            registry@ == MessageRegistryView::empty(),
    {
        MessageRegistry::new()
    }
}

/// Turns a string into one that lives as long as the process, through
/// `std::string::String::leak`. The text stays the same.
#[verifier::external_body]
fn leak(text: String) -> (leaked: &'static str)
    ensures
        leaked@ == text@,
{
    text.leak()
}

impl MessageRegistry {
    #[verifier::type_invariant]
    spec fn names_agree(self) -> bool {
        &&& self.grain_types@.dom() == self.handlers@.dom()
        &&& self.grain_types@.dom() == self.grain_rust_types@.dom()
        &&& forall|t: Seq<char>| #[trigger]
            self.grain_types@.dom().contains(t) ==> self.grain_types@[t] == t
    }

    pub fn new() -> (registry: MessageRegistry)
        ensures
            registry@ == MessageRegistryView::empty(),
    {
        MessageRegistry {
            handlers: StrMap::new(),
            grain_types: StrMap::new(),
            message_versions: StrMap::new(),
            grain_rust_types: StrMap::new(),
            allowed_clusters: StrMap::new(),
        }
    }

    /// The registered name of a grain type.
    pub fn grain_type_str(&self, grain_type: &str) -> (name: Option<&'static str>)
        ensures
            match name {
                Some(n) => self@.has_grain_type(grain_type@) && n@ == grain_type@,
                None => !self@.has_grain_type(grain_type@),
            },
    {
        proof {
            use_type_invariant(self);
        }
        match self.grain_types.get(grain_type) {
            Some(name) => Some(*name),
            None => None,
        }
    }

    /// The clusters that a grain type is pinned to; none where it may run anywhere.
    pub fn allowed_clusters(&self, grain_type: &str) -> (clusters: Option<
        &'static [&'static str],
    >)
        ensures
            match clusters {
                Some(c) => self@.allowed_clusters.dom().contains(grain_type@) && c@
                    == self@.allowed_clusters[grain_type@],
                None => !self@.allowed_clusters.dom().contains(grain_type@),
            },
    {
        match self.allowed_clusters.get(grain_type) {
            Some(clusters) => Some(*clusters),
            None => None,
        }
    }

    /// Whether another program type is registered under a grain type's name. Registering
    /// over it is an error of the program.
    pub fn collides(&self, grain_type: &str, rust_type: &str) -> (yes: bool)
        ensures
            yes == self@.collides(grain_type@, rust_type@),
    {
        match self.grain_rust_types.get(grain_type) {
            Some(existing) => !same_text(existing, rust_type),
            None => false,
        }
    }

    /// Registers the handler of a message type by a grain type.
    pub fn register(
        &mut self,
        grain_type: &'static str,
        message_type: &'static str,
        rust_type: &'static str,
        message_version: u32,
        pinned_to: Option<&'static [&'static str]>,
        handler: u64,
    )
        requires
            !old(self)@.collides(grain_type@, rust_type@),
        ensures
            final(self)@ == old(self)@.with(
                grain_type@,
                message_type@,
                rust_type@,
                message_version,
                match pinned_to {
                    Some(clusters) => Some(clusters@),
                    None => None,
                },
                handler,
            ),
    {
        proof {
            use_type_invariant(&*self);
        }
        let mut whole = MessageRegistry::new();
        std::mem::swap(&mut whole, self);
        let MessageRegistry {
            handlers: mut handlers,
            grain_types: mut grain_types,
            message_versions: mut message_versions,
            grain_rust_types: mut grain_rust_types,
            allowed_clusters: mut allowed_clusters,
        } = whole;
        grain_rust_types.insert(grain_type.to_string(), rust_type);
        grain_types.insert(grain_type.to_string(), grain_type);
        message_versions.insert(message_type.to_string(), message_version);
        if let Some(clusters) = pinned_to {
            allowed_clusters.insert(grain_type.to_string(), clusters);
        }
        let ghost before = handlers@;
        let mut of_grain: StrMap<u64> = match handlers.remove(grain_type) {
            Some(known) => known,
            None => StrMap::new(),
        };
        of_grain.insert(message_type.to_string(), handler);
        handlers.insert(grain_type.to_string(), of_grain);
        proof {
            assert(before.remove(grain_type@).insert(grain_type@, of_grain@) =~= before.insert(
                grain_type@,
                of_grain@,
            ));
            assert(handlers@.dom() =~= grain_types@.dom());
            assert(grain_rust_types@.dom() =~= grain_types@.dom());
        }
        *self = MessageRegistry {
            handlers,
            grain_types,
            message_versions,
            grain_rust_types,
            allowed_clusters,
        };
    }

    /// The name of a grain type as one that lives as long as the process, registered or not.
    pub fn resolve_grain_type(&self, grain_type: &str) -> (name: &'static str)
        ensures
            name@ == grain_type@,
    {
        match self.grain_type_str(grain_type) {
            Some(name) => name,
            None => leak(grain_type.to_string()),
        }
    }

    /// The handler for an incoming call, or why there is none. A message of a version newer
    /// than the known one is refused, an older one is accepted.
    pub fn dispatch(&self, grain_type: &str, message_type: &str, message_version: u32) -> (handler:
        Result<u64, ClusterError>)
        ensures
            match handler {
                Ok(h) => self@.route(grain_type@, message_type@, message_version) == Ok::<
                    u64,
                    ClusterErrorView,
                >(h),
                Err(e) => self@.route(grain_type@, message_type@, message_version) == Err::<
                    u64,
                    ClusterErrorView,
                >(e@),
            },
    {
        let of_grain: &StrMap<u64> = match self.handlers.get(grain_type) {
            Some(of_grain) => of_grain,
            None => {
                return Err(ClusterError::UnknownGrainType(grain_type.to_string()));
            },
        };
        let supported: u32 = match self.message_versions.get(message_type) {
            Some(version) => *version,
            None => {
                return Err(ClusterError::UnknownMessageType(message_type.to_string()));
            },
        };
        if message_version > supported {
            return Err(
                ClusterError::UnsupportedMessageVersion(
                    message_type.to_string(),
                    message_version,
                    supported,
                ),
            );
        }
        match of_grain.get(message_type) {
            Some(handler) => Ok(*handler),
            None => Err(ClusterError::UnknownMessageType(join3(grain_type, "::", message_type))),
        }
    }
}

/// A message as its decoder left it.
pub enum Decoded<M> {
    Bincode(Result<M, String>),
    Protobuf(Option<M>),
}

/// The message, or the error that a failed decoding is answered with.
pub fn decoded_message<M>(decoded: Decoded<M>, message_type: &str) -> (message: Result<
    M,
    ClusterError,
>)
    ensures
        match (decoded, message) {
            (Decoded::Bincode(Ok(m)), Ok(out)) => out == m,
            (Decoded::Bincode(Err(e)), Err(out)) => out@ == ClusterErrorView::Deserialization(e@),
            (Decoded::Protobuf(Some(m)), Ok(out)) => out == m,
            (Decoded::Protobuf(None), Err(out)) => out@ == ClusterErrorView::UnsupportedEncoding(
                message_type@,
                "protobuf not supported for this message type"@,
            ),
            _ => false,
        },
{
    match decoded {
        Decoded::Bincode(Ok(m)) => Ok(m),
        Decoded::Bincode(Err(e)) => Err(ClusterError::Deserialization(e)),
        Decoded::Protobuf(Some(m)) => Ok(m),
        Decoded::Protobuf(None) => Err(
            ClusterError::UnsupportedEncoding(
                message_type.to_string(),
                "protobuf not supported for this message type".to_string(),
            ),
        ),
    }
}

/// The error that a call is answered with where its grain failed.
pub fn handler_error(error: &GrainError) -> (answer: ClusterError)
    ensures
        answer@ == ClusterErrorView::HandlerError(error.message()),
{
    ClusterError::HandlerError(error.to_string())
}

/// An answer as its encoder left it.
pub enum Encoded {
    Bincode(Result<Vec<u8>, String>),
    Protobuf(Option<Vec<u8>>),
}

/// The answer in the encoding of the request, or the error that a failed encoding is
/// answered with.
pub fn encoded_result(encoded: Encoded, message_type: &str) -> (answer: Result<
    (Vec<u8>, Encoding),
    ClusterError,
>)
    ensures
        match (encoded, answer) {
            (Encoded::Bincode(Ok(bytes)), Ok(out)) => out == (bytes, Encoding::Bincode),
            (Encoded::Bincode(Err(e)), Err(out)) => out@ == ClusterErrorView::Serialization(e@),
            (Encoded::Protobuf(Some(bytes)), Ok(out)) => out == (bytes, Encoding::Protobuf),
            (Encoded::Protobuf(None), Err(out)) => out@ == ClusterErrorView::UnsupportedEncoding(
                message_type@,
                "protobuf not supported for result type"@,
            ),
            _ => false,
        },
{
    match encoded {
        Encoded::Bincode(Ok(bytes)) => Ok((bytes, Encoding::Bincode)),
        Encoded::Bincode(Err(e)) => Err(ClusterError::Serialization(e)),
        Encoded::Protobuf(Some(bytes)) => Ok((bytes, Encoding::Protobuf)),
        Encoded::Protobuf(None) => Err(
            ClusterError::UnsupportedEncoding(
                message_type.to_string(),
                "protobuf not supported for result type".to_string(),
            ),
        ),
    }
}

/// What was registered last for a grain and message type is what a call of a known version
/// reaches; a newer version is refused.
pub proof fn registered_handler_is_reached(
    registry: MessageRegistryView,
    grain_type: Seq<char>,
    message_type: Seq<char>,
    rust_type: Seq<char>,
    known: u32,
    pinned_to: Option<Seq<&'static str>>,
    handler: u64,
    version: u32,
)
    ensures
        registry.with(grain_type, message_type, rust_type, known, pinned_to, handler).route(
            grain_type,
            message_type,
            version,
        ) == if version <= known {
            Ok::<u64, ClusterErrorView>(handler)
        } else {
            Err(ClusterErrorView::UnsupportedMessageVersion(message_type, version, known))
        },
{
}

/// Registering a handler leaves the calls of other message types as they were.
pub proof fn other_messages_are_unaffected(
    registry: MessageRegistryView,
    grain_type: Seq<char>,
    message_type: Seq<char>,
    rust_type: Seq<char>,
    known: u32,
    pinned_to: Option<Seq<&'static str>>,
    handler: u64,
    other_grain: Seq<char>,
    other_message: Seq<char>,
    version: u32,
)
    requires
        other_message != message_type,
        registry.has_grain_type(other_grain),
    ensures
        registry.with(grain_type, message_type, rust_type, known, pinned_to, handler).route(
            other_grain,
            other_message,
            version,
        ) == registry.route(other_grain, other_message, version),
{
}

/// A call that reaches no handler is answered with what is unknown: the grain type, the message
/// type, the version, or that the two belong together.
pub proof fn unroutable_calls_say_why(
    registry: MessageRegistryView,
    grain_type: Seq<char>,
    message_type: Seq<char>,
    version: u32,
)
    ensures
        ({
            let answer = registry.route(grain_type, message_type, version);
            let known_grain = registry.handlers.dom().contains(grain_type);
            let known_message = registry.message_versions.dom().contains(message_type);
            let newest = registry.message_versions[message_type];
            let handled = registry.handlers[grain_type].dom().contains(message_type);
            &&& !known_grain ==> answer == Err::<u64, ClusterErrorView>(
                ClusterErrorView::UnknownGrainType(grain_type),
            )
            &&& known_grain && !known_message ==> answer == Err::<u64, ClusterErrorView>(
                ClusterErrorView::UnknownMessageType(message_type),
            )
            &&& known_grain && known_message && version > newest ==> answer == Err::<
                u64,
                ClusterErrorView,
            >(ClusterErrorView::UnsupportedMessageVersion(message_type, version, newest))
            &&& known_grain && known_message && version <= newest && !handled ==> answer == Err::<
                u64,
                ClusterErrorView,
            >(ClusterErrorView::UnknownMessageType(grain_type + "::"@ + message_type))
            &&& known_grain && known_message && version <= newest && handled ==> answer == Ok::<
                u64,
                ClusterErrorView,
            >(registry.handlers[grain_type][message_type])
        }),
{
}

/// Registering makes a grain type known under the name of its program type, so that another
/// program type collides with it, and pins it where clusters are given. Other grain types keep
/// their handlers, their program types and their clusters. Nothing is known at first.
pub proof fn registering_is_about_one_grain_type(
    registry: MessageRegistryView,
    grain_type: Seq<char>,
    message_type: Seq<char>,
    rust_type: Seq<char>,
    known: u32,
    pinned_to: Option<Seq<&'static str>>,
    handler: u64,
    other: Seq<char>,
    program: Seq<char>,
)
    requires
        other != grain_type,
    ensures
        ({
            let after = registry.with(
                grain_type,
                message_type,
                rust_type,
                known,
                pinned_to,
                handler,
            );
            &&& after.has_grain_type(grain_type)
            &&& after.collides(grain_type, program) <==> program != rust_type
            &&& pinned_to matches Some(clusters) ==> after.allowed_clusters.dom().contains(
                grain_type,
            ) && after.allowed_clusters[grain_type] == clusters
            &&& pinned_to is None ==> after.allowed_clusters == registry.allowed_clusters
            &&& after.has_grain_type(other) == registry.has_grain_type(other)
            &&& after.handlers[other] == registry.handlers[other]
            &&& after.collides(other, program) == registry.collides(other, program)
            &&& after.allowed_clusters.dom().contains(other)
                == registry.allowed_clusters.dom().contains(other)
            &&& after.allowed_clusters[other] == registry.allowed_clusters[other]
        }),
        !MessageRegistryView::empty().has_grain_type(grain_type),
        !MessageRegistryView::empty().collides(grain_type, program),
        !MessageRegistryView::empty().allowed_clusters.dom().contains(grain_type),
{
}

} // verus!
