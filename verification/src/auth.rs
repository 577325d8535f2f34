//! Checking who sends a request.

use vstd::prelude::*;
use vstd::utf8::*;

use crate::error::{Code, Status, StatusView};
use crate::text::same_text;

verus! {

/// The headers of a request: names in lower case, each with its raw value.
#[derive(Clone, Debug, PartialEq, Eq)]
pub struct Metadata {
    pub entries: Vec<(String, Vec<u8>)>,
}

/// The value of the first header with a name.
pub open spec fn first_header(entries: Seq<(String, Vec<u8>)>, name: Seq<char>) -> Option<Seq<u8>>
    decreases entries.len(),
{
    if entries.len() == 0 {
        None
    } else if entries[0].0@ == name {
        Some(entries[0].1@)
    } else {
        first_header(entries.skip(1), name)
    }
}

impl Metadata {
    pub fn new() -> (metadata: Metadata)
        ensures
            metadata.entries@ == Seq::<(String, Vec<u8>)>::empty(),
    {
        Metadata { entries: Vec::new() }
    }

    /// The value of the first header with a name.
    pub fn get(&self, name: &str) -> (value: Option<&Vec<u8>>)
        ensures
            match value {
                Some(v) => first_header(self.entries@, name@) == Some(v@),
                None => first_header(self.entries@, name@) is None,
            },
    {
        let mut i: usize = 0;
        assert(self.entries@.skip(0) =~= self.entries@);
        while i < self.entries.len()
            invariant
                i <= self.entries.len(),
                first_header(self.entries@, name@) == first_header(
                    self.entries@.skip(i as int),
                    name@,
                ),
            decreases self.entries.len() - i,
        {
            let ghost rest = self.entries@.skip(i as int);
            assert(rest[0] == self.entries@[i as int]);
            assert(rest.skip(1) =~= self.entries@.skip(i + 1));
            if same_text(self.entries[i].0.as_str(), name) {
                return Some(&self.entries[i].1);
            }
            i += 1;
        }
        None
    }
}

/// Checks incoming requests, on top of what the transport secures.
pub trait ClusterAuth {
    /// Lets a request pass, or says why not.
    fn authenticate(&self, metadata: &Metadata) -> Result<(), Status>;
}

/// Accepts the requests that carry a given token in their `authorization` header.
pub struct SharedSecretAuth {
    expected: String,
}

impl View for SharedSecretAuth {
    type V = Seq<char>;

    closed spec fn view(&self) -> Seq<char> {
        self.expected@
    }
}

/// Whether a header byte is a visible ASCII character, a space or a tab.
pub open spec fn is_header_text(b: u8) -> bool {
    32 <= b < 127 || b == 9
}

/// What a holder of the token answers to a request with that header.
pub open spec fn secret_verdict(token: Seq<char>, header: Option<Seq<u8>>) -> Result<
    (),
    StatusView,
> {
    match header {
        None => Err(
            StatusView { code: Code::Unauthenticated, message: "missing authorization header"@ },
        ),
        Some(value) => if exists|i: int| 0 <= i < value.len() && !is_header_text(#[trigger] value[i]) {
            Err(
                StatusView {
                    code: Code::Unauthenticated,
                    message: "invalid authorization header encoding"@,
                },
            )
        } else if value == encode_utf8(token) {
            Ok(())
        } else {
            Err(
                StatusView { code: Code::Unauthenticated, message: "invalid authorization token"@ },
            )
        },
    }
}

/// Whether every byte may stand in a header that is read as text.
pub fn header_is_text(value: &[u8]) -> (yes: bool)
    ensures
        yes == !(exists|i: int| 0 <= i < value@.len() && !is_header_text(#[trigger] value@[i])),
{
    let mut i: usize = 0;
    while i < value.len()
        invariant
            i <= value.len(),
            forall|j: int| 0 <= j < i ==> is_header_text(#[trigger] value@[j]),
        decreases value.len() - i,
    {
        let b: u8 = value[i];
        if !(32 <= b && b < 127 || b == 9) {
            assert(!is_header_text(value@[i as int]));
            return false;
        }
        i += 1;
    }
    true
}

impl SharedSecretAuth {
    pub fn new(token: &str) -> (auth: SharedSecretAuth)
        ensures
            auth@ == token@,
    {
        SharedSecretAuth { expected: token.to_string() }
    }
}

impl ClusterAuth for SharedSecretAuth {
    fn authenticate(&self, metadata: &Metadata) -> (verdict: Result<(), Status>)
        ensures
            match verdict {
                Ok(()) => secret_verdict(self@, first_header(metadata.entries@, "authorization"@))
                    == Ok::<(), StatusView>(()),
                Err(status) => secret_verdict(
                    self@,
                    first_header(metadata.entries@, "authorization"@),
                ) == Err::<(), StatusView>(status@),
            },
    {
        match metadata.get("authorization") {
            Some(value) => {
                if !header_is_text(value.as_slice()) {
                    return Err(
                        Status::new(Code::Unauthenticated, "invalid authorization header encoding"),
                    );
                }
                if constant_time_eq(value.as_slice(), self.expected.as_str().as_bytes()) {
                    Ok(())
                } else {
                    Err(Status::new(Code::Unauthenticated, "invalid authorization token"))
                }
            },
            None => Err(Status::new(Code::Unauthenticated, "missing authorization header")),
        }
    }
}

/// Whether two byte strings are the same. Strings of one length are compared to the end,
/// wherever they first differ.
pub fn constant_time_eq(a: &[u8], b: &[u8]) -> (same: bool)
    ensures
        same == (a@ == b@),
{
    if a.len() != b.len() {
        return false;
    }
    let mut diff: u8 = 0;
    let mut i: usize = 0;
    assert(a@.take(0) =~= b@.take(0));
    while i < a.len()
        invariant
            a.len() == b.len(),
            i <= a.len(),
            diff == 0 <==> a@.take(i as int) == b@.take(i as int),
        decreases a.len() - i,
    {
        let x: u8 = a[i];
        let y: u8 = b[i];
        proof {
            assert((diff | (x ^ y)) == 0 <==> (diff == 0 && x == y)) by (bit_vector);
            let (a0, b0) = (a@.take(i as int), b@.take(i as int));
            let (a1, b1) = (a@.take(i + 1), b@.take(i + 1));
            assert(a1 =~= a0.push(x));
            assert(b1 =~= b0.push(y));
            if a1 == b1 {
                assert(a1[i as int] == b1[i as int]);
                assert(a0 =~= a1.take(i as int));
                assert(b0 =~= b1.take(i as int));
            }
        }
        diff = diff | (x ^ y);
        i += 1;
    }
    proof {
        assert(a@.take(i as int) =~= a@);
        assert(b@.take(i as int) =~= b@);
    }
    diff == 0
}

/// A request passes exactly when its header carries the token, in the bytes that a header
/// may hold.
pub proof fn only_the_token_passes(token: Seq<char>, header: Option<Seq<u8>>)
    ensures
        secret_verdict(token, header) is Ok <==> header == Some(encode_utf8(token)) && (forall|
            i: int,
        |
            0 <= i < encode_utf8(token).len() ==> is_header_text(#[trigger] encode_utf8(token)[i])),
{
}

/// Of several headers with one name the first counts.
pub proof fn the_first_header_counts(entries: Seq<(String, Vec<u8>)>, name: Seq<char>, i: int)
    requires
        forall|j: int| 0 <= j < entries.len() && j < i ==> (#[trigger] entries[j]).0@ != name,
        0 <= i <= entries.len(),
        i < entries.len() ==> entries[i].0@ == name,
    ensures
        first_header(entries, name) == (if i < entries.len() {
            Some(entries[i].1@)
        } else {
            None
        }),
    decreases entries.len(),
{
    if entries.len() > 0 && i > 0 {
        assert(entries[0].0@ != name);
        let rest = entries.skip(1);
        assert forall|j: int| 0 <= j < rest.len() && j < i - 1 implies (#[trigger] rest[j]).0@
            != name by {
            assert(rest[j] == entries[j + 1]);
        }
        the_first_header_counts(rest, name, i - 1);
    }
}

/// Whatever does not pass is not authenticated, and is told whether its header is missing, is no
/// text of visible characters, spaces and tabs, or is not the token.
pub proof fn refused_requests_are_told_why(token: Seq<char>, header: Option<Seq<u8>>)
    ensures
        secret_verdict(token, header) matches Err(refusal) ==> refusal.code is Unauthenticated,
        header is None ==> (secret_verdict(token, header) matches Err(refusal) && refusal.message
            == "missing authorization header"@),
        header matches Some(value) ==> {
            let is_text = forall|i: int|
                0 <= i < value.len() ==> (#[trigger] value[i] == 9 || 32 <= value[i] <= 126);
            &&& !is_text ==> (secret_verdict(token, header) matches Err(refusal) && refusal.message
                == "invalid authorization header encoding"@)
            &&& is_text && value != encode_utf8(token) ==> (secret_verdict(
                token,
                header,
            ) matches Err(refusal) && refusal.message == "invalid authorization token"@)
            &&& is_text && value == encode_utf8(token) ==> secret_verdict(token, header) is Ok
        },
{
    if let Some(value) = header {
        let is_text = forall|i: int|
            0 <= i < value.len() ==> (#[trigger] value[i] == 9 || 32 <= value[i] <= 126);
        if !is_text {
            let i = choose|i: int|
                0 <= i < value.len() && !(#[trigger] value[i] == 9 || 32 <= value[i] <= 126);
            assert(!is_header_text(value[i]));
        }
    }
}

} // verus!
