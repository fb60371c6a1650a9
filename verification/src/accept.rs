//! The accept-key derivation of the upgrade handshake:
//! base64(SHA-1(client key + fixed GUID)). The SHA-1 digest and the
//! base64 encoding come from outside crates behind trusted contracts;
//! both are functions of their input bytes alone.

use vstd::prelude::*;
use vstd::string::StringSliceAdditionalSpecFns;
use crate::ascii::append_bytes;
use base64::Engine;
use sha1::Digest;

verus! {

/// The SHA-1 digest of a byte string.
pub uninterp spec fn sha1_of(input: Seq<u8>) -> Seq<u8>;

/// The standard base64 encoding (RFC 4648 alphabet, with padding) of
/// a byte string.
pub uninterp spec fn base64_of(input: Seq<u8>) -> Seq<u8>;

/// Relies on sha1::Sha1 through digest::Digest::digest: the SHA-1
/// digest of the input, always 20 bytes.
#[verifier::external_body]
fn sha1_digest(input: &[u8]) -> (r: Vec<u8>)
    ensures
        r@ == sha1_of(input@),
        r@.len() == 20,
{
    sha1::Sha1::digest(input).to_vec()
}

/// Relies on base64::engine::general_purpose::STANDARD, through
/// Engine::encode: the base64 text of the input, returned as its
/// ASCII bytes.
#[verifier::external_body]
fn base64_encode(input: &[u8]) -> (r: Vec<u8>)
    ensures
        r@ == base64_of(input@),
{
    base64::engine::general_purpose::STANDARD.encode(input).into_bytes()
}

/// The fixed GUID of RFC 6455, appended to the client's key before
/// hashing.
pub open spec fn spec_guid_bytes() -> Seq<u8> {
    "258EAFA5-E914-47DA-95CA-C5AB0DC85B11".spec_bytes()
}

/// The accept key owed for a client key: base64 of the SHA-1 digest
/// of the key followed by the fixed GUID.
pub open spec fn spec_accept_key(key: Seq<u8>) -> Seq<u8> {
    base64_of(sha1_of(key + spec_guid_bytes()))
}

/// Computes the handshake accept key for a client key.
pub fn hash_websocket_key(key: &[u8]) -> (r: Vec<u8>)
    ensures
        r@ == spec_accept_key(key@),
{
    let mut input: Vec<u8> = Vec::new();
    append_bytes(&mut input, key);
    append_bytes(&mut input, "258EAFA5-E914-47DA-95CA-C5AB0DC85B11".as_bytes());
    let digest = sha1_digest(input.as_slice());
    base64_encode(digest.as_slice())
}

} // verus!
