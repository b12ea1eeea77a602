//! From a fetched response to the data that is kept of it.

use crate::chars::{has_no_nul, lemma_strip_nul, strip_nul, without_nul};
use crate::record::{as_smallint, smallint_of, RecordView, ResponseData};
use base64::Engine;
use vstd::prelude::*;
use vstd::string::StringSliceAdditionalSpecFns;
use vstd::utf8::encode_utf8;

verus! {

/// The time that a fetch may take, in seconds.
pub const FETCH_TIMEOUT_SECS: u64 = 2;

/// The address of the peer that answered.
#[derive(Clone, Debug, PartialEq, Eq)]
pub struct Peer {
    pub ip: String,
    pub port: u16,
}

/// What is read off a response before it is turned into a result: the peer
/// where the connection gives it, the status code, the address reached after
/// redirects, the raw values of four headers where the response has them,
/// and the body where it could be read as text.
#[derive(Clone, Debug, PartialEq, Eq)]
pub struct RawResponse {
    pub peer: Option<Peer>,
    pub status: u16,
    pub url: String,
    pub date: Option<Vec<u8>>,
    pub server: Option<Vec<u8>>,
    pub content_security_policy: Option<Vec<u8>>,
    pub content_type: Option<Vec<u8>>,
    pub body: Option<String>,
}

/// The address that is fetched for `domain`: its root path over HTTPS.
pub open spec fn url_of(domain: Seq<char>) -> Seq<char> {
    "https://"@ + domain + "/"@
}

/// Builds [`url_of`].
pub fn probe_url(domain: &str) -> (url: String)
    ensures
        url@ == url_of(domain@),
{
    let mut url = String::from_str("https://");
    url.append(domain);
    url.append("/");
    url
}

/// A byte that a header value may hold if it is to be read as text: a
/// printable ASCII character, a space or a tab.
pub open spec fn is_visible(b: u8) -> bool {
    32 <= b < 127 || b == 9
}

/// The bytes of `bytes` as characters, one for one.
pub open spec fn ascii_text(bytes: Seq<u8>) -> Seq<char> {
    Seq::new(bytes.len(), |i: int| bytes[i] as char)
}

/// The text of a header value: its bytes as characters, without NUL, where
/// every byte is visible, and nothing otherwise.
pub open spec fn header_text(bytes: Seq<u8>) -> Option<Seq<char>> {
    if forall|i: int| 0 <= i < bytes.len() ==> is_visible(#[trigger] bytes[i]) {
        Some(strip_nul(ascii_text(bytes)))
    } else {
        None
    }
}

/// The text of a header that may be absent.
pub open spec fn header_field(value: Option<Vec<u8>>) -> Option<Seq<char>> {
    match value {
        Some(bytes) => header_text(bytes@),
        None => None,
    }
}

/// A header value that can be read holds no NUL: its text is its bytes as
/// characters, none of them removed.
pub proof fn lemma_header_text(bytes: Seq<u8>)
    ensures
        header_text(bytes) matches Some(text) ==> text == ascii_text(bytes) && has_no_nul(text),
{
    if header_text(bytes) is Some {
        assert forall|i: int| 0 <= i < ascii_text(bytes).len() implies #[trigger] ascii_text(
            bytes,
        )[i] != '\0' by {
            assert(is_visible(bytes[i]));
        }
        lemma_strip_nul(ascii_text(bytes));
    }
}

/// Text that may be absent holds no NUL where it is there.
pub open spec fn clean(text: Option<Seq<char>>) -> bool {
    text matches Some(t) ==> has_no_nul(t)
}

/// Reads a header value as text.
pub fn decode_header(bytes: &Vec<u8>) -> (text: Option<String>)
    ensures
        crate::record::text_view(text) == header_text(bytes@),
{
    let mut raw = String::new();
    let mut i: usize = 0;
    while i < bytes.len()
        invariant
            i <= bytes@.len(),
            forall|k: int| 0 <= k < i ==> is_visible(#[trigger] bytes@[k]),
            raw@ == ascii_text(bytes@.take(i as int)),
        decreases bytes@.len() - i,
    {
        let b: u8 = bytes[i];
        if !((32 <= b && b < 127) || b == 9) {
            return None;
        }
        raw.push(b as char);
        assert(raw@ =~= ascii_text(bytes@.take(i + 1)));
        i += 1;
    }
    assert(bytes@.take(bytes@.len() as int) =~= bytes@);
    Some(without_nul(raw.as_str()))
}

/// Reads a header that may be absent.
pub fn decode_field(value: &Option<Vec<u8>>) -> (text: Option<String>)
    ensures
        crate::record::text_view(text) == header_field(*value),
{
    match value {
        Some(bytes) => decode_header(bytes),
        None => None,
    }
}

/// The unpadded base64 text, in the standard alphabet, of a sequence of
/// bytes.
pub uninterp spec fn base64_no_pad(bytes: Seq<u8>) -> Seq<char>;

/// A character of the standard base64 alphabet.
pub open spec fn is_base64_char(c: char) -> bool {
    ||| 'A' <= c <= 'Z'
    ||| 'a' <= c <= 'z'
    ||| '0' <= c <= '9'
    ||| c == '+'
    ||| c == '/'
}

/// The length of the unpadded base64 text of `len` bytes: four characters
/// for every three bytes, and two or three for the one or two that are left.
pub open spec fn encoded_len(len: nat) -> nat {
    len / 3 * 4 + if len % 3 == 0 {
        0nat
    } else if len % 3 == 1 {
        2nat
    } else {
        3nat
    }
}

/// `Engine::encode` of `base64`, on the engine `STANDARD_NO_PAD`. The
/// encoder computes the length of its output first and gives up where that
/// does not fit the machine's word, so such inputs are left out. Of the
/// result it is claimed that it is the encoding, a function of the bytes
/// alone, and that it is written in the standard alphabet.
#[verifier::external_body]
fn encode_no_pad(bytes: &[u8]) -> (text: String)
    requires
        encoded_len(bytes@.len()) <= usize::MAX,
    ensures
        text@ == base64_no_pad(bytes@),
        forall|i: int| 0 <= i < text@.len() ==> is_base64_char(#[trigger] text@[i]),
{
    base64::engine::general_purpose::STANDARD_NO_PAD.encode(bytes)
}

/// Whether a body of `len` bytes can be encoded on this machine.
pub fn fits_encoding(len: usize) -> (fits: bool)
    ensures
        fits == (encoded_len(len as nat) <= usize::MAX),
{
    let chunks: usize = len / 3;
    let rest: usize = len % 3;
    let tail: usize = if rest == 0 {
        0
    } else if rest == 1 {
        2
    } else {
        3
    };
    chunks <= (usize::MAX - tail) / 4
}

impl RawResponse {
    /// The body, where there is one, is short enough for its encoding to be
    /// held in memory.
    pub open spec fn encodable(&self) -> bool {
        self.body matches Some(text) ==> encoded_len(encode_utf8(text@).len()) <= usize::MAX
    }

    /// Decides [`RawResponse::encodable`].
    pub fn is_encodable(&self) -> (fits: bool)
        ensures
            fits == self.encodable(),
    {
        match &self.body {
            Some(text) => fits_encoding(text.as_str().as_bytes().len()),
            None => true,
        }
    }
}

/// The result of a response, given the encoded form of its body.
pub open spec fn assembled_view(
    res: RawResponse,
    domain: Seq<char>,
    body: Option<Seq<char>>,
) -> RecordView {
    RecordView {
        domain,
        ip_addr: match res.peer {
            Some(peer) => Some(peer.ip@),
            None => None,
        },
        port: match res.peer {
            Some(peer) => Some(peer.port as int),
            None => None,
        },
        success: true,
        date: header_field(res.date),
        status: Some(as_smallint(res.status as int)),
        resulting_url: Some(strip_nul(res.url@)),
        server: header_field(res.server),
        content_security_policy: header_field(res.content_security_policy),
        content_type: header_field(res.content_type),
        body,
    }
}

/// The encoded form of a body that may be absent.
pub open spec fn encoded_body(body: Option<String>) -> Option<Seq<char>> {
    match body {
        Some(text) => Some(base64_no_pad(encode_utf8(text@))),
        None => None,
    }
}

/// The result of a response: a success, whatever its status code.
pub open spec fn response_view(res: RawResponse, domain: Seq<char>) -> RecordView {
    assembled_view(res, domain, encoded_body(res.body))
}

/// Puts a result together from a response and the encoded form of its body;
/// the body that the response itself carries is not looked at.
pub fn assemble(res: RawResponse, domain: String, body: Option<String>) -> (data: ResponseData)
    ensures
        data@ == assembled_view(res, domain@, crate::record::text_view(body)),
        clean(data@.resulting_url),
        clean(data@.date),
        clean(data@.server),
        clean(data@.content_security_policy),
        clean(data@.content_type),
{
    proof {
        lemma_strip_nul(res.url@);
        if res.date is Some {
            lemma_header_text(res.date->0@);
        }
        if res.server is Some {
            lemma_header_text(res.server->0@);
        }
        if res.content_security_policy is Some {
            lemma_header_text(res.content_security_policy->0@);
        }
        if res.content_type is Some {
            lemma_header_text(res.content_type->0@);
        }
    }
    let (ip_addr, port) = match res.peer {
        Some(peer) => (Some(peer.ip), Some(peer.port)),
        None => (None, None),
    };
    let date = decode_field(&res.date);
    let server = decode_field(&res.server);
    let content_security_policy = decode_field(&res.content_security_policy);
    let content_type = decode_field(&res.content_type);
    ResponseData {
        domain,
        ip_addr,
        port,
        success: true,
        date,
        status: Some(smallint_of(res.status)),
        resulting_url: Some(without_nul(res.url.as_str())),
        server,
        content_security_policy,
        content_type,
        body,
    }
}

/// Encodes a body that may be absent.
pub fn encode_body(body: &Option<String>) -> (encoded: Option<String>)
    requires
        body matches Some(text) ==> encoded_len(encode_utf8(text@).len()) <= usize::MAX,
    ensures
        crate::record::text_view(encoded) == encoded_body(*body),
        encoded matches Some(text) ==> forall|i: int|
            0 <= i < text@.len() ==> is_base64_char(#[trigger] text@[i]),
{
    match body {
        Some(text) => Some(encode_no_pad(text.as_str().as_bytes())),
        None => None,
    }
}

/// Turns a response into the result for `domain`: a success with the peer,
/// the status code as a signed 16-bit integer, the address reached and the
/// headers as text without NUL, and the body in base64.
pub fn to_respdata(res: RawResponse, domain: String) -> (data: ResponseData)
    requires
        res.encodable(),
    ensures
        data@ == response_view(res, domain@),
        data.success,
        data.body is Some <==> res.body is Some,
        data.body matches Some(text) ==> forall|i: int|
            0 <= i < text@.len() ==> is_base64_char(#[trigger] text@[i]),
        clean(data@.resulting_url),
        clean(data@.date),
        clean(data@.server),
        clean(data@.content_security_policy),
        clean(data@.content_type),
        clean(data@.body),
{
    let body = encode_body(&res.body);
    proof {
        if body is Some {
            let text = body->0@;
            assert forall|i: int| 0 <= i < text.len() implies #[trigger] text[i] != '\0' by {
                assert(is_base64_char(text[i]));
            }
        }
    }
    assemble(res, domain, body)
}

} // verus!
