//! Messages that cross silo boundaries, and how their payloads are encoded.

use vstd::prelude::*;

verus! {

/// Payload encoding of grain messages on the wire.
#[derive(Clone, Copy, Debug, PartialEq, Eq, Structural)]
pub enum Encoding {
    /// Compact binary encoding, for traffic between silos.
    Bincode,
    /// Protocol Buffers, for clients in other languages.
    Protobuf,
}

impl View for Encoding {
    type V = Encoding;

    open spec fn view(&self) -> Encoding {
        *self
    }
}

/// The encoding that a wire number stands for: one for Protocol Buffers, every other for
/// the default.
pub open spec fn encoding_of(val: i32) -> Encoding {
    if val == 1 {
        Encoding::Protobuf
    } else {
        Encoding::Bincode
    }
}

/// The wire number of an encoding.
pub open spec fn number_of(encoding: Encoding) -> i32 {
    match encoding {
        Encoding::Bincode => 0,
        Encoding::Protobuf => 1,
    }
}

impl Encoding {
    pub fn from_proto(val: i32) -> (encoding: Encoding)
        ensures
            encoding == encoding_of(val),
    {
        match val {
            1 => Encoding::Protobuf,
            _ => Encoding::Bincode,
        }
    }

    pub fn to_proto(self) -> (val: i32)
        ensures
            val == number_of(self),
    {
        match self {
            Encoding::Bincode => 0,
            Encoding::Protobuf => 1,
        }
    }
}

/// An encoding survives the trip over the wire, and only the wire numbers zero and one
/// survive the trip back.
pub proof fn encoding_survives_the_wire(encoding: Encoding, val: i32)
    ensures
        encoding_of(number_of(encoding)) == encoding,
        number_of(encoding_of(val)) == val <==> (val == 0 || val == 1),
{
}

/// A message for a grain, with the type of its answer.
pub trait Message {
    type Result;
}

/// A message that can be sent to another silo: it has a stable name under which the
/// receiver finds the handler, and a version. Support for Protocol Buffers is optional.
pub trait NetworkMessage: Message + Sized {
    /// The stable name of the message type.
    fn message_type_name() -> &'static str;

    /// The version that the sender encodes with.
    fn message_version() -> (version: u32)
        default_ensures
            version == 0,
    {
        0
    }

    /// Whether the message has a Protocol Buffers form.
    fn supports_proto() -> (yes: bool)
        default_ensures
            yes == false,
    {
        false
    }

    /// The message in Protocol Buffers, where supported.
    fn encode_proto(&self) -> (bytes: Option<Vec<u8>>)
        default_ensures
            bytes is None,
    {
        None
    }

    /// The message out of Protocol Buffers, where supported.
    fn decode_proto(_bytes: &[u8]) -> (message: Option<Self>)
        default_ensures
            message is None,
    {
        None
    }

    /// The answer in Protocol Buffers, where supported.
    fn encode_result_proto(_result: &Self::Result) -> (bytes: Option<Vec<u8>>)
        default_ensures
            bytes is None,
    {
        None
    }

    /// The answer out of Protocol Buffers, where supported.
    fn decode_result_proto(_bytes: &[u8]) -> (result: Option<Self::Result>)
        default_ensures
            result is None,
    {
        None
    }
}

/// On the wire one stands for Protocol Buffers, and every other number for bincode, which is
/// sent as zero.
pub proof fn encodings_have_their_numbers(val: i32, encoding: Encoding)
    ensures
        encoding_of(val) is Protobuf <==> val == 1,
        encoding_of(val) is Bincode <==> val != 1,
        encoding is Protobuf <==> number_of(encoding) == 1,
        encoding is Bincode <==> number_of(encoding) == 0,
{
}

} // verus!
