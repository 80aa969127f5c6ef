//! The UDP status query: an out-of-band `status 87` request, and a reply
//! that must open with four 0xFF bytes and an `n`.
use vstd::prelude::*;
use vstd::slice::slice_subrange;
use vstd::string::StringExecFns;
use vstd::utf8::{decode_utf8, valid_utf8};

verus! {

/// The bytes of the status request: the out-of-band marker, then `status 87`.
pub open spec fn status87_request() -> Seq<u8> {
    seq![255u8, 255, 255, 255, 115, 116, 97, 116, 117, 115, 32, 56, 55]
}

/// The header that every status reply opens with: the out-of-band marker,
/// then `n`.
pub open spec fn reply_header() -> Seq<u8> {
    seq![255u8, 255, 255, 255, 110]
}

pub open spec fn has_reply_header(b: Seq<u8>) -> bool {
    b.len() >= reply_header().len() && b.take(reply_header().len() as int) == reply_header()
}

/// What the reply holds after its header: the key/value text.
pub open spec fn reply_body(b: Seq<u8>) -> Seq<u8> {
    b.skip(reply_header().len() as int)
}

/// The text that lossy UTF-8 decoding makes of a byte sequence.
pub uninterp spec fn lossy_text(b: Seq<u8>) -> Seq<char>;

/// Why a status query gave no text.
#[derive(Debug, PartialEq, Eq)]
pub enum StatusError {
    /// No reply came from the address (the send failed, or the time ran out).
    NoReply { address: String },
    /// A reply came, but it does not open with the status header.
    HeaderMissing,
}

impl StatusError {
    /// The message that describes this error.
    pub fn message(&self) -> (r: String)
        ensures
            match self {
                StatusError::NoReply { address } => r@ == unreachable_message(address@),
                StatusError::HeaderMissing => r@ == header_missing_message(),
            },
    {
        match self {
            StatusError::NoReply { address } => {
                let m = String::from_str("qtvstat::info: unable to get status 87 from ");
                m.concat(address.as_str())
            },
            StatusError::HeaderMissing => String::from_str("header is missing"),
        }
    }
}

pub open spec fn unreachable_message(address: Seq<char>) -> Seq<char> {
    "qtvstat::info: unable to get status 87 from "@ + address
}

pub open spec fn header_missing_message() -> Seq<char> {
    "header is missing"@
}

/// Relies on `String::from_utf8_lossy`: it turns every byte sequence into
/// text, replacing what is not UTF-8, and decodes valid UTF-8 as it is.
#[verifier::external_body]
fn decode_lossy(b: &[u8]) -> (r: String)
    ensures
        r@ == lossy_text(b@),
        valid_utf8(b@) ==> r@ == decode_utf8(b@),
{
    String::from_utf8_lossy(b).into_owned()
}

/// The request that asks a QTV server for its status.
pub fn status87_command() -> (r: Vec<u8>)
    ensures
        r@ == status87_request(),
{
    let r: Vec<u8> = vec![255u8, 255, 255, 255, 115, 116, 97, 116, 117, 115, 32, 56, 55];
    assert(r@ =~= status87_request());
    r
}

fn starts_with_header(response: &[u8]) -> (r: bool)
    ensures
        r == has_reply_header(response@),
{
    let header: [u8; 5] = [255u8, 255, 255, 255, 110];
    assert(header@ =~= reply_header());
    if response.len() < 5 {
        return false;
    }
    let mut i: usize = 0;
    while i < 5
        invariant
            i <= 5,
            response@.len() >= 5,
            header@ == reply_header(),
            forall|j: int| 0 <= j < i ==> response@[j] == header@[j],
        decreases 5 - i,
    {
        if response[i] != header[i] {
            assert(response@.take(5)[i as int] != reply_header()[i as int]);
            return false;
        }
        i = i + 1;
    }
    assert(response@.take(5) =~= reply_header());
    true
}

/// Checks a status reply and hands back the key/value text after its header.
///
/// The reply is refused exactly when it does not open with the header; any
/// bytes after the header are accepted and decoded lossily.
pub fn parse_status87_response(response: &[u8]) -> (r: Result<String, StatusError>)
    ensures
        r is Err <==> !has_reply_header(response@),
        r is Err ==> r == Err::<String, StatusError>(StatusError::HeaderMissing),
        r matches Ok(text) ==> text@ == lossy_text(reply_body(response@)),
        valid_utf8(reply_body(response@)) ==> (r matches Ok(text) ==> text@ == decode_utf8(
            reply_body(response@),
        )),
{
    if !starts_with_header(response) {
        return Err(StatusError::HeaderMissing);
    }
    let rest = slice_subrange(response, 5, response.len());
    assert(rest@ =~= reply_body(response@));
    Ok(decode_lossy(rest))
}

/// Decides the outcome of a status query at `address` from what the transport
/// handed back: `None` when no reply came, else the reply's bytes.
pub fn status_from_reply(address: &str, reply: Option<Vec<u8>>) -> (r: Result<
    String,
    StatusError,
>)
    ensures
        reply is None ==> (r matches Err(StatusError::NoReply { address: a }) && a@ == address@),
        reply matches Some(b) ==> {
            &&& r is Err <==> !has_reply_header(b@)
            &&& r is Err ==> r == Err::<String, StatusError>(StatusError::HeaderMissing)
            &&& r matches Ok(text) ==> text@ == lossy_text(reply_body(b@))
        },
{
    match reply {
        None => Err(StatusError::NoReply { address: String::from_str(address) }),
        Some(b) => parse_status87_response(b.as_slice()),
    }
}

} // verus!
