//! What travels between peers: the sender's session token, then the frame of
//! a call. The token says who sent the envelope, so that a peer can tell its
//! own envelopes from those of others. It is no credential.

use rand::Rng;
use vstd::prelude::*;
use vstd::slice::*;

use crate::codec::DecodeError;
use crate::wire::same_bytes;

verus! {

/// The length of a session token, in bytes.
pub const TOKEN_LEN: usize = 32;

/// An ASCII letter or digit.
pub open spec fn is_alphanumeric(b: u8) -> bool {
    ||| 0x30 <= b <= 0x39
    ||| 0x41 <= b <= 0x5a
    ||| 0x61 <= b <= 0x7a
}

/// Only ASCII letters and digits.
pub open spec fn all_alphanumeric(s: Seq<u8>) -> bool {
    forall|i: int| 0 <= i < s.len() ==> is_alphanumeric(#[trigger] s[i])
}

/// The bytes of a session token: `TOKEN_LEN` ASCII letters and digits.
pub open spec fn is_token(s: Seq<u8>) -> bool {
    s.len() == TOKEN_LEN && all_alphanumeric(s)
}

/// Draws one byte with rand's `Alphanumeric` distribution from the thread's
/// generator. Trusted: whatever is drawn is an ASCII letter or digit.
#[verifier::external_body]
fn sample_alphanumeric() -> (b: u8)
    ensures
        is_alphanumeric(b),
{
    rand::thread_rng().sample(rand::distributions::Alphanumeric)
}

/// Whether `b` is an ASCII letter or digit.
pub fn byte_is_alphanumeric(b: u8) -> (r: bool)
    ensures
        r == is_alphanumeric(b),
{
    (0x30 <= b && b <= 0x39) || (0x41 <= b && b <= 0x5a) || (0x61 <= b && b <= 0x7a)
}

/// A random string of `len` ASCII letters and digits.
pub fn generate_random_string(len: usize) -> (s: Vec<u8>)
    ensures
        s@.len() == len,
        all_alphanumeric(s@),
{
    let mut s: Vec<u8> = Vec::new();
    let mut i: usize = 0;
    while i < len
        invariant
            i <= len,
            s@.len() == i,
            all_alphanumeric(s@),
        decreases len - i,
    {
        s.push(sample_alphanumeric());
        i += 1;
    }
    s
}

/// The token of a session: made once when the session starts and sent with
/// every envelope of the session.
#[derive(Debug)]
pub struct SessionToken {
    bytes: Vec<u8>,
}

impl View for SessionToken {
    type V = Seq<u8>;

    closed spec fn view(&self) -> Seq<u8> {
        self.bytes@
    }
}

impl SessionToken {
    /// What holds of every token: it has the length and the alphabet of one.
    #[verifier::type_invariant]
    pub open spec fn wf(&self) -> bool {
        is_token(self@)
    }

    /// A fresh random token.
    pub fn generate() -> (token: SessionToken)
        ensures
            is_token(token@),
    {
        SessionToken { bytes: generate_random_string(TOKEN_LEN) }
    }

    /// The token with these bytes, where they are those of a token.
    pub fn from_bytes(bytes: &[u8]) -> (r: Option<SessionToken>)
        ensures
            r is Some <==> is_token(bytes@),
            r matches Some(token) ==> token@ == bytes@,
    {
        if bytes.len() != TOKEN_LEN {
            return None;
        }
        let mut i: usize = 0;
        while i < TOKEN_LEN
            invariant
                bytes@.len() == TOKEN_LEN,
                i <= TOKEN_LEN,
                forall|k: int| 0 <= k < i ==> is_alphanumeric(#[trigger] bytes@[k]),
            decreases TOKEN_LEN - i,
        {
            if !byte_is_alphanumeric(bytes[i]) {
                return None;
            }
            i += 1;
        }
        Some(SessionToken { bytes: slice_to_vec(bytes) })
    }

    /// The bytes of the token.
    pub fn as_bytes(&self) -> (r: &Vec<u8>)
        ensures
            r@ == self@,
            is_token(self@),
    {
        proof {
            use_type_invariant(self);
        }
        &self.bytes
    }

    /// Whether two tokens are the same.
    pub fn same_as(&self, other: &SessionToken) -> (r: bool)
        ensures
            r == (self@ == other@),
    {
        same_bytes(self.bytes.as_slice(), other.bytes.as_slice())
    }

    /// A copy of the token.
    pub fn duplicate(&self) -> (r: SessionToken)
        ensures
            r@ == self@,
    {
        proof {
            use_type_invariant(self);
        }
        SessionToken { bytes: slice_to_vec(self.bytes.as_slice()) }
    }
}

/// An envelope: who sent it, and the frame that it carries.
#[derive(Debug)]
pub struct Request {
    sender: SessionToken,
    msg: Vec<u8>,
}

/// An envelope as a mathematical value.
pub struct RequestView {
    pub sender: Seq<u8>,
    pub msg: Seq<u8>,
}

impl View for Request {
    type V = RequestView;

    closed spec fn view(&self) -> RequestView {
        RequestView { sender: self.sender@, msg: self.msg@ }
    }
}

/// An envelope on the wire: the token, then the frame.
pub open spec fn seal(envelope: RequestView) -> Seq<u8> {
    envelope.sender + envelope.msg
}

/// What bytes mean as an envelope: the first `TOKEN_LEN` bytes are the
/// sender's token and the rest is the frame.
pub open spec fn unseal(bytes: Seq<u8>) -> Result<RequestView, DecodeError> {
    if bytes.len() < TOKEN_LEN {
        Err(DecodeError::Truncated)
    } else if !all_alphanumeric(bytes.subrange(0, TOKEN_LEN as int)) {
        Err(DecodeError::BadSender)
    } else {
        Ok(
            RequestView {
                sender: bytes.subrange(0, TOKEN_LEN as int),
                msg: bytes.subrange(TOKEN_LEN as int, bytes.len() as int),
            },
        )
    }
}

/// A sealed envelope is opened as it was.
pub proof fn lemma_unseal_seal(envelope: RequestView)
    requires
        is_token(envelope.sender),
    ensures
        unseal(seal(envelope)) == Ok::<RequestView, DecodeError>(envelope),
{
    let bytes = seal(envelope);
    assert(bytes.subrange(0, TOKEN_LEN as int) =~= envelope.sender);
    assert(bytes.subrange(TOKEN_LEN as int, bytes.len() as int) =~= envelope.msg);
}

/// Only sealed envelopes are opened: bytes that mean an envelope are that
/// envelope sealed, and its sender is a token.
pub proof fn lemma_seal_unseal(bytes: Seq<u8>)
    requires
        unseal(bytes) is Ok,
    ensures
        is_token(unseal(bytes)->Ok_0.sender),
        seal(unseal(bytes)->Ok_0) == bytes,
{
    assert(seal(unseal(bytes)->Ok_0) =~= bytes);
}

impl Request {
    /// The envelope that `sender` puts round `msg`.
    pub fn new(sender: SessionToken, msg: Vec<u8>) -> (r: Request)
        ensures
            r@ == (RequestView { sender: sender@, msg: msg@ }),
            is_token(r@.sender),
    {
        proof {
            use_type_invariant(&sender);
        }
        Request { sender, msg }
    }

    /// Who sent the envelope.
    pub fn sender(&self) -> (r: &SessionToken)
        ensures
            r@ == self@.sender,
            is_token(self@.sender),
    {
        proof {
            use_type_invariant(&self.sender);
        }
        &self.sender
    }

    /// The frame that the envelope carries.
    pub fn msg(&self) -> (r: &Vec<u8>)
        ensures
            r@ == self@.msg,
    {
        &self.msg
    }

    /// Takes the frame out of the envelope.
    pub fn into_msg(self) -> (r: Vec<u8>)
        ensures
            r@ == self@.msg,
    {
        self.msg
    }

    /// The envelope as it goes on the wire.
    pub fn to_bytes(&self) -> (bytes: Vec<u8>)
        ensures
            bytes@ == seal(self@),
            is_token(self@.sender),
    {
        proof {
            use_type_invariant(&self.sender);
        }
        let mut bytes: Vec<u8> = slice_to_vec(self.sender.bytes.as_slice());
        crate::wire::put_bytes(&mut bytes, self.msg.as_slice());
        bytes
    }

    /// Reads an envelope off the wire, or says why the bytes are none.
    pub fn from_bytes(bytes: &[u8]) -> (r: Result<Request, DecodeError>)
        ensures
            match r {
                Ok(envelope) => unseal(bytes@) == Ok::<RequestView, DecodeError>(envelope@),
                Err(e) => unseal(bytes@) == Err::<RequestView, DecodeError>(e),
            },
    {
        if bytes.len() < TOKEN_LEN {
            return Err(DecodeError::Truncated);
        }
        let head = slice_subrange(bytes, 0, TOKEN_LEN);
        match SessionToken::from_bytes(head) {
            None => Err(DecodeError::BadSender),
            Some(sender) => {
                let msg = slice_to_vec(slice_subrange(bytes, TOKEN_LEN, bytes.len()));
                Ok(Request { sender, msg })
            },
        }
    }
}

} // verus!
