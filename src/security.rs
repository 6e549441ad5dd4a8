use vstd::prelude::*;
use vstd::utf8::encode_utf8;

verus! {

/// What SHA-1 gives for a byte string.
pub uninterp spec fn sha1_of(data: Seq<u8>) -> Seq<u8>;

/// The magic GUID that RFC 6455 appends to the client's key.
pub open spec fn ws_guid() -> Seq<char> {
    "258EAFA5-E914-47DA-95CA-C5AB0DC85B11"@
}

/// The 64 digits of standard base64.
pub open spec fn b64_alphabet() -> Seq<char> {
    seq![
        'A', 'B', 'C', 'D', 'E', 'F', 'G', 'H', 'I', 'J', 'K', 'L', 'M',
        'N', 'O', 'P', 'Q', 'R', 'S', 'T', 'U', 'V', 'W', 'X', 'Y', 'Z',
        'a', 'b', 'c', 'd', 'e', 'f', 'g', 'h', 'i', 'j', 'k', 'l', 'm',
        'n', 'o', 'p', 'q', 'r', 's', 't', 'u', 'v', 'w', 'x', 'y', 'z',
        '0', '1', '2', '3', '4', '5', '6', '7', '8', '9', '+', '/',
    ]
}

pub open spec fn b64_digit(v: int) -> char {
    b64_alphabet()[v]
}

/// Standard base64 with `=` padding: each group of three bytes becomes four
/// digits of six bits each, a final group of one or two bytes is padded.
pub open spec fn base64_text(b: Seq<u8>) -> Seq<char>
    decreases b.len(),
{
    if b.len() == 0 {
        seq![]
    } else {
        let x = b[0] as int;
        let y = if b.len() > 1 { b[1] as int } else { 0 };
        let z = if b.len() > 2 { b[2] as int } else { 0 };
        let d0 = b64_digit(x / 4);
        let d1 = b64_digit((x % 4) * 16 + y / 16);
        let d2 = b64_digit((y % 16) * 4 + z / 64);
        let d3 = b64_digit(z % 64);
        if b.len() == 1 {
            seq![d0, d1, '=', '=']
        } else if b.len() == 2 {
            seq![d0, d1, d2, '=']
        } else {
            seq![d0, d1, d2, d3] + base64_text(b.subrange(3, b.len() as int))
        }
    }
}

/// The accept token for a client key given as bytes:
/// base64(SHA-1(key ++ GUID)).
pub open spec fn accept_token(key: Seq<u8>) -> Seq<char> {
    base64_text(sha1_of(key + encode_utf8(ws_guid())))
}

/// Relies on sha1's `Digest::digest` for `Sha1`: the 20-byte SHA-1 digest
/// of `data`.
#[verifier::external_body]
fn sha1_digest(data: &[u8]) -> (r: Vec<u8>)
    ensures
        r@ == sha1_of(data@),
        r@.len() == 20,
{
    <sha1::Sha1 as sha1::Digest>::digest(data).to_vec()
}

/// Relies on rustc_serialize's `ToBase64::to_base64` with `STANDARD`:
/// standard alphabet, padded, no line breaks.
#[verifier::external_body]
fn to_base64_standard(b: &[u8]) -> (r: String)
    ensures
        r@ == base64_text(b@),
{
    rustc_serialize::base64::ToBase64::to_base64(b, rustc_serialize::base64::STANDARD)
}

/// Derives the `Sec-WebSocket-Accept` token from the bytes of a
/// `Sec-WebSocket-Key` header value.
pub fn derive_accept_token(key: &[u8]) -> (r: String)
    ensures
        r@ == accept_token(key@),
{
    let guid: &str = "258EAFA5-E914-47DA-95CA-C5AB0DC85B11";
    let guid_bytes = guid.as_bytes();
    let mut data: Vec<u8> = Vec::new();
    let mut i: usize = 0;
    while i < key.len()
        invariant
            i <= key@.len(),
            data@ == key@.subrange(0, i as int),
        decreases key@.len() - i,
    {
        data.push(key[i]);
        i = i + 1;
    }
    let mut j: usize = 0;
    while j < guid_bytes.len()
        invariant
            j <= guid_bytes@.len(),
            data@ == key@ + guid_bytes@.subrange(0, j as int),
        decreases guid_bytes@.len() - j,
    {
        data.push(guid_bytes[j]);
        j = j + 1;
    }
    assert(key@.subrange(0, key@.len() as int) == key@);
    assert(guid_bytes@.subrange(0, guid_bytes@.len() as int) == guid_bytes@);
    let digest = sha1_digest(data.as_slice());
    to_base64_standard(digest.as_slice())
}

/// Derives the accept token for a client key given as text.
pub fn gen_key(key: &String) -> (r: String)
    ensures
        r@ == accept_token(encode_utf8(key@)),
{
    derive_accept_token(key.as_str().as_bytes())
}

} // verus!
