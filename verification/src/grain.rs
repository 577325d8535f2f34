//! Identities of grains and clusters, and the ways a call on a grain fails.

use vstd::prelude::*;

use crate::maps::Duplicate;
use crate::text;
use crate::text::{chars_of, decimal_text, join2, join3, push_wide_decimal, same_text};
use crate::time;
use crate::time::Duration;

verus! {

/// A grain type and a key within it, joined by a slash.
pub open spec fn joined_key(grain_type: Seq<char>, key: Seq<char>) -> Seq<char> {
    grain_type + seq!['/'] + key
}

/// A grain type and a key within it, joined by a slash.
pub fn join_key(grain_type: &str, key: &str) -> (joined: String)
    ensures
        joined@ == joined_key(grain_type@, key@),
{
    proof {
        reveal_strlit("/");
        assert("/"@ =~= seq!['/']);
    }
    join3(grain_type, "/", key)
}

proof fn lemma_no_slash_before(s: Seq<char>, t: Seq<char>, i: int)
    requires
        !s.contains('/'),
        0 <= i < s.len(),
    ensures
        joined_key(s, t)[i] == s[i],
        joined_key(s, t)[i] != '/',
{
    assert(s.contains(s[i]));
}

/// Grain types without a slash never share a joined key: it tells type and key apart.
pub proof fn joined_keys_are_unique(
    type1: Seq<char>,
    key1: Seq<char>,
    type2: Seq<char>,
    key2: Seq<char>,
)
    requires
        !type1.contains('/'),
        !type2.contains('/'),
        joined_key(type1, key1) == joined_key(type2, key2),
    ensures
        type1 == type2,
        key1 == key2,
{
    let j1 = joined_key(type1, key1);
    let j2 = joined_key(type2, key2);
    assert(j1[type1.len() as int] == '/');
    assert(j2[type2.len() as int] == '/');
    if type1.len() < type2.len() {
        lemma_no_slash_before(type2, key2, type1.len() as int);
    }
    if type2.len() < type1.len() {
        lemma_no_slash_before(type1, key1, type2.len() as int);
    }
    assert(type1 =~= j1.take(type1.len() as int));
    assert(type2 =~= j2.take(type2.len() as int));
    assert(key1 =~= j1.skip(type1.len() as int + 1));
    assert(key2 =~= j2.skip(type2.len() as int + 1));
}

/// A grain type and a key within it in one text that tells them apart: the length of the type,
/// a slash, the type and the key.
pub open spec fn entry_key(grain_type: Seq<char>, key: Seq<char>) -> Seq<char> {
    text::decimal(grain_type.len()) + seq!['/'] + grain_type + key
}

/// A grain type and a key within it in one text that tells them apart.
pub fn entry_key_of(grain_type: &str, key: &str) -> (out: String)
    ensures
        out@ == entry_key(grain_type@, key@),
{
    proof {
        reveal_strlit("/");
        assert("/"@ =~= seq!['/']);
    }
    let mut out = decimal_text(chars_of(grain_type).len() as u64);
    out.append("/");
    out.append(grain_type);
    out.append(key);
    out
}

/// Different grains have different entry keys, whatever their types and keys hold.
pub proof fn entry_keys_are_unique(
    type1: Seq<char>,
    key1: Seq<char>,
    type2: Seq<char>,
    key2: Seq<char>,
)
    requires
        entry_key(type1, key1) == entry_key(type2, key2),
    ensures
        type1 == type2,
        key1 == key2,
{
    let (e1, e2) = (entry_key(type1, key1), entry_key(type2, key2));
    let (d1, d2) = (text::decimal(type1.len()), text::decimal(type2.len()));
    text::decimal_denotes(type1.len());
    text::decimal_denotes(type2.len());
    assert(e1[d1.len() as int] == '/');
    assert(e2[d2.len() as int] == '/');
    if d1.len() < d2.len() {
        assert(e2[d1.len() as int] == d2[d1.len() as int]);
    }
    if d2.len() < d1.len() {
        assert(e1[d2.len() as int] == d1[d2.len() as int]);
    }
    assert(d1 =~= e1.take(d1.len() as int));
    assert(d2 =~= e2.take(d2.len() as int));
    text::decimal_is_injective(type1.len(), type2.len());
    let (from, to) = (d1.len() + 1, d1.len() + 1 + type1.len());
    assert(type1 =~= e1.subrange(from as int, to as int));
    assert(type2 =~= e2.subrange(from as int, to as int));
    assert(key1 =~= e1.skip(to as int));
    assert(key2 =~= e2.skip(to as int));
}

/// The identity of a grain: its type and its key within the type.
#[derive(Clone, Debug, PartialEq, Eq, Hash)]
pub struct GrainId {
    pub grain_type: &'static str,
    pub key: String,
}

/// The contents of a [`GrainId`].
#[verifier::ext_equal]
pub struct GrainIdView {
    pub grain_type: Seq<char>,
    pub key: Seq<char>,
}

impl View for GrainId {
    type V = GrainIdView;

    open spec fn view(&self) -> GrainIdView {
        GrainIdView { grain_type: self.grain_type@, key: self.key@ }
    }
}

impl Duplicate for GrainId {
    fn duplicate(&self) -> (copy: Self) {
        GrainId { grain_type: self.grain_type, key: self.key.clone() }
    }
}

impl GrainIdView {
    /// Type and key, joined by a slash.
    pub open spec fn joined(self) -> Seq<char> {
        joined_key(self.grain_type, self.key)
    }

    /// Type and key in one text that no other grain has.
    pub open spec fn entry_key(self) -> Seq<char> {
        entry_key(self.grain_type, self.key)
    }
}

impl GrainId {
    /// Type and key, joined by a slash.
    pub fn joined(&self) -> (joined: String)
        ensures
            joined@ == self@.joined(),
    {
        join_key(self.grain_type, self.key.as_str())
    }

    /// Type and key in one text that no other grain has.
    pub fn entry_key(&self) -> (key: String)
        ensures
            key@ == self@.entry_key(),
    {
        entry_key_of(self.grain_type, self.key.as_str())
    }
}

/// The name of a cluster among several.
#[derive(Clone, Debug, PartialEq, Eq, Hash)]
pub struct ClusterId {
    name: String,
}

impl View for ClusterId {
    type V = Seq<char>;

    closed spec fn view(&self) -> Seq<char> {
        self.name@
    }
}

impl Duplicate for ClusterId {
    fn duplicate(&self) -> (copy: Self) {
        ClusterId { name: self.name.clone() }
    }
}

impl ClusterId {
    pub fn new(name: &str) -> (id: ClusterId)
        ensures
            id@ == name@,
    {
        ClusterId { name: name.to_string() }
    }

    pub fn as_str(&self) -> (name: &str)
        ensures
            name@ == self@,
    {
        self.name.as_str()
    }

    pub fn to_string(&self) -> (name: String)
        ensures
            name@ == self@,
    {
        self.name.clone()
    }

    /// Whether two names are the same.
    pub fn same(&self, other: &ClusterId) -> (yes: bool)
        ensures
            yes == (self@ == other@),
    {
        same_text(self.as_str(), other.as_str())
    }
}

/// Why a call on a grain did not give a result.
#[derive(Clone, Debug, PartialEq, Eq)]
pub enum GrainError {
    /// The grain's mailbox no longer takes messages.
    MailboxClosed,
    /// No answer came within the given time.
    Timeout(Duration),
    /// The call could not be carried to, or answered by, another silo.
    RemoteCallFailed(String),
    /// The grain's handler failed.
    HandlerFailed(String),
    /// The answer was not of the expected type.
    TypeMismatch,
}

impl GrainError {
    /// The text that describes the error.
    pub open spec fn message(self) -> Seq<char> {
        match self {
            GrainError::MailboxClosed => "grain mailbox closed"@,
            GrainError::Timeout(after) => "grain call timed out after "@ + text::decimal(
                after@ / time::NANOS_PER_MILLI as nat,
            ) + " ms"@,
            GrainError::RemoteCallFailed(reason) => "remote call failed: "@ + reason@,
            GrainError::HandlerFailed(reason) => "handler failed: "@ + reason@,
            GrainError::TypeMismatch => "message type mismatch"@,
        }
    }

    /// The text that describes the error.
    pub fn to_string(&self) -> (message: String)
        ensures
            message@ == self.message(),
    {
        match self {
            GrainError::MailboxClosed => "grain mailbox closed".to_string(),
            GrainError::Timeout(after) => {
                let mut message = "grain call timed out after ".to_string();
                push_wide_decimal(&mut message, after.as_millis());
                message.append(" ms");
                message
            },
            GrainError::RemoteCallFailed(reason) => join2("remote call failed: ", reason.as_str()),
            GrainError::HandlerFailed(reason) => join2("handler failed: ", reason.as_str()),
            GrainError::TypeMismatch => "message type mismatch".to_string(),
        }
    }
}

/// A joined key is the type, a slash and the key.
pub proof fn joined_keys_are_types_and_keys(grain_type: Seq<char>, key: Seq<char>)
    ensures
        ({
            let joined = joined_key(grain_type, key);
            let n = grain_type.len() as int;
            &&& joined.len() == grain_type.len() + 1 + key.len()
            &&& joined.take(n) == grain_type
            &&& joined[n] == '/'
            &&& joined.skip(n + 1) == key
        }),
        (GrainIdView { grain_type, key }).joined() == joined_key(grain_type, key),
{
    let joined = joined_key(grain_type, key);
    let n = grain_type.len() as int;
    assert(joined.take(n) =~= grain_type);
    assert(joined.skip(n + 1) =~= key);
}

/// What an error tells ends with the reason of the failure, where there is one, and with whole
/// milliseconds, where the call took too long.
pub proof fn grain_errors_tell_the_reason(reason: String, after: Duration)
    ensures
        GrainError::RemoteCallFailed(reason).message() == "remote call failed: "@ + reason@,
        GrainError::HandlerFailed(reason).message() == "handler failed: "@ + reason@,
        GrainError::Timeout(after).message() == "grain call timed out after "@ + text::decimal(
            after@ / 1_000_000,
        ) + " ms"@,
{
}

} // verus!
