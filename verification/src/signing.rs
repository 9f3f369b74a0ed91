//! The headers that authenticate a request to the exchange.

use vstd::prelude::*;
use vstd::string::StringExecFns;
use vstd::utf8::encode_utf8;
use crate::request::{query_suffix, ApiRequest};
use crate::text::{decimal, decimal_text, digit_char};

verus! {

/// The key pair of an account.
#[derive(Debug, Clone, PartialEq, Eq)]
pub struct FtxCredential {
    pub api_key: String,
    pub api_secret: String,
}

/// One header of a request.
#[derive(Debug, Clone, PartialEq, Eq)]
pub struct Header {
    pub name: String,
    pub value: String,
}

/// A header as text.
pub struct HeaderView {
    pub name: Seq<char>,
    pub value: Seq<char>,
}

impl View for Header {
    type V = HeaderView;

    open spec fn view(&self) -> HeaderView {
        HeaderView { name: self.name@, value: self.value@ }
    }
}

/// The headers of a list as text.
pub open spec fn views_of(headers: Seq<Header>) -> Seq<HeaderView> {
    Seq::new(headers.len(), |i: int| headers[i]@)
}

/// The HMAC-SHA256 code of `message` under `key`, 32 bytes long.
pub uninterp spec fn hmac_sha256(message: Seq<u8>, key: Seq<u8>) -> Seq<u8>;

/// `hmac_sha256::HMAC::mac`.
///
/// Claims that the code depends on the message and the key alone.
#[verifier::external_body]
fn mac(message: &[u8], key: &[u8]) -> (code: [u8; 32])
    ensures
        code@ == hmac_sha256(message@, key@),
{
    hmac_sha256::HMAC::mac(message, key)
}

/// The character of one hexadecimal digit, in lower case.
pub open spec fn hex_digit_char(d: nat) -> char {
    if d < 10 {
        digit_char(d)
    } else if d == 10 {
        'a'
    } else if d == 11 {
        'b'
    } else if d == 12 {
        'c'
    } else if d == 13 {
        'd'
    } else if d == 14 {
        'e'
    } else {
        'f'
    }
}

/// Bytes as hexadecimal text: two digits for each byte, the high half first.
pub open spec fn hex_text(bytes: Seq<u8>) -> Seq<char> {
    Seq::new(
        2 * bytes.len(),
        |i: int|
            if i % 2 == 0 {
                hex_digit_char((bytes[i / 2] / 16) as nat)
            } else {
                hex_digit_char((bytes[i / 2] % 16) as nat)
            },
    )
}

/// `hex::encode`.
///
/// Claims that each byte becomes two lower-case hexadecimal digits, the high half first,
/// in the order of the bytes.
#[verifier::external_body]
fn hex_encode(bytes: &[u8]) -> (text: String)
    ensures
        text@ == hex_text(bytes@),
{
    hex::encode(bytes)
}

/// The text that is signed: the time of signing in milliseconds since the epoch, the
/// method, the path and, after a question mark, the query.
pub open spec fn signing_text(ts: u64, request: ApiRequest) -> Seq<char> {
    decimal_text(ts as nat) + request.method@ + request.path@ + query_suffix(request.query)
}

/// The signature of `text` under `secret`: the HMAC-SHA256 code of the two as UTF-8, in
/// hexadecimal.
pub open spec fn signature_of(text: Seq<char>, secret: Seq<char>) -> Seq<char> {
    hex_text(hmac_sha256(encode_utf8(text), encode_utf8(secret)))
}

/// The headers that sign `request` at the time `ts`: the key, the time, the signature
/// and, for a sub-account, its name.
pub open spec fn signed_headers(
    ts: u64,
    request: ApiRequest,
    credential: FtxCredential,
    sub_account: Option<String>,
) -> Seq<HeaderView> {
    let fixed = seq![
        HeaderView { name: "FTX-KEY"@, value: credential.api_key@ },
        HeaderView { name: "FTX-TS"@, value: decimal_text(ts as nat) },
        HeaderView {
            name: "FTX-SIGN"@,
            value: signature_of(signing_text(ts, request), credential.api_secret@),
        },
    ];
    match sub_account {
        Some(name) => fixed.push(HeaderView { name: "FTX-SUBACCOUNT"@, value: name@ }),
        None => fixed,
    }
}

/// The text to sign for `request` at the time `ts`.
pub fn signature_payload(ts: u64, request: &ApiRequest) -> (r: String)
    ensures
        r@ == signing_text(ts, *request),
{
    let mut r = decimal(ts);
    r.append(request.method.as_str());
    r.append(request.path.as_str());
    match &request.query {
        Some(q) => {
            r.append("?");
            r.append(q.as_str());
            assert(r@ =~= signing_text(ts, *request));
        },
        None => {
            assert(r@ =~= signing_text(ts, *request));
        },
    }
    r
}

/// Signs `text` with `secret`.
pub fn sign(text: &str, secret: &str) -> (r: String)
    ensures
        r@ == signature_of(text@, secret@),
{
    let code = mac(text.as_bytes(), secret.as_bytes());
    hex_encode(code.as_slice())
}

/// The headers to send with `request` so that the exchange accepts it as coming from
/// the holder of `credential` at the time `ts`, in milliseconds since the epoch.
pub fn signed_request(
    request: &ApiRequest,
    ts: u64,
    credential: &FtxCredential,
    sub_account: &Option<String>,
) -> (headers: Vec<Header>)
    ensures
        views_of(headers@) == signed_headers(ts, *request, *credential, *sub_account),
{
    let text = signature_payload(ts, request);
    let signature = sign(text.as_str(), credential.api_secret.as_str());
    let mut headers: Vec<Header> = Vec::new();
    headers.push(Header { name: String::from_str("FTX-KEY"), value: credential.api_key.clone() });
    headers.push(Header { name: String::from_str("FTX-TS"), value: decimal(ts) });
    headers.push(Header { name: String::from_str("FTX-SIGN"), value: signature });
    match sub_account {
        Some(name) => {
            headers.push(
                Header { name: String::from_str("FTX-SUBACCOUNT"), value: name.clone() },
            );
        },
        None => {},
    }
    assert(views_of(headers@) =~= signed_headers(ts, *request, *credential, *sub_account));
    headers
}

} // verus!
