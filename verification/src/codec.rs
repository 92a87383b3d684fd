//! The SAML binding codec.
//!
//! A SAML message travels through the browser either on the
//! HTTP-Redirect binding (raw-DEFLATE compression, then base64, in a
//! query parameter) or on the HTTP-POST binding (base64 alone, in a
//! form field).  Both directions are symmetric: decoding inverts
//! encoding, which is stated in the contracts below and is the ground
//! for the round-trip guarantee of the flow engine.
//!
//! The codec is purely syntactic; it neither parses XML nor checks
//! signatures.

use vstd::prelude::*;
use vstd::utf8::{decode_utf8, encode_utf8, valid_utf8};
use crate::error::Error;
use base64::Engine;
use std::io::{Read, Write};

verus! {

/// The base64 (standard alphabet, padded) encoding of a byte string.
pub uninterp spec fn b64_of(bytes: Seq<u8>) -> Seq<char>;

/// What base64's `STANDARD` decoder makes of an arbitrary text:
/// `None` where it is rejected.
pub uninterp spec fn b64_decoding_of(s: Seq<char>) -> Option<Seq<u8>>;

/// The raw-DEFLATE compression of a byte string at the default level.
pub uninterp spec fn deflate_of(bytes: Seq<u8>) -> Seq<u8>;

/// What the raw-DEFLATE decoder makes of an arbitrary byte string:
/// `None` where the stream is malformed.
pub uninterp spec fn inflate_of(bytes: Seq<u8>) -> Option<Seq<u8>>;

/// Relies on base64's `STANDARD` engine: the encoding is a function of
/// the input bytes alone.
#[verifier::external_body]
pub(crate) fn b64_encode(bytes: &Vec<u8>) -> (r: String)
    ensures
        r@ == b64_of(bytes@),
{
    base64::engine::general_purpose::STANDARD.encode(bytes)
}

/// Relies on base64's `STANDARD` engine: what its decoder accepts and
/// returns is a function of the text alone, and it accepts the
/// canonical padded encoding of any byte string, returning those
/// bytes — decoding inverts encoding.
#[verifier::external_body]
fn b64_decode(s: &str) -> (r: Result<Vec<u8>, ()>)
    ensures
        match b64_decoding_of(s@) {
            Some(b) => r is Ok && r.unwrap()@ == b,
            None => r is Err,
        },
        forall|b: Seq<u8>| s@ == b64_of(b) ==> r is Ok && r.unwrap()@ == b,
{
    base64::engine::general_purpose::STANDARD.decode(s).map_err(|_| ())
}

/// Relies on flate2's raw-DEFLATE encoder at the default compression
/// level: the compressed form is a function of the input bytes alone.
#[verifier::external_body]
fn deflate_compress(bytes: &Vec<u8>) -> (r: Vec<u8>)
    ensures
        r@ == deflate_of(bytes@),
{
    let mut enc =
        flate2::write::DeflateEncoder::new(Vec::new(), flate2::Compression::default());
    enc.write_all(bytes).expect("writing to memory cannot fail");
    enc.finish().expect("finishing an in-memory stream cannot fail")
}

/// Relies on flate2's raw-DEFLATE decoder: what it accepts and
/// returns is a function of the input bytes alone, and decompression
/// inverts compression.
#[verifier::external_body]
fn deflate_decompress(bytes: &Vec<u8>) -> (r: Result<Vec<u8>, ()>)
    ensures
        match inflate_of(bytes@) {
            Some(x) => r is Ok && r.unwrap()@ == x,
            None => r is Err,
        },
        forall|x: Seq<u8>| bytes@ == deflate_of(x) ==> r is Ok && r.unwrap()@ == x,
{
    let mut dec = flate2::read::DeflateDecoder::new(&bytes[..]);
    let mut out: Vec<u8> = Vec::new();
    match dec.read_to_end(&mut out) {
        Ok(_) => Ok(out),
        Err(_) => Err(()),
    }
}

/// Relies on `String::from_utf8`: it succeeds exactly on valid UTF-8
/// and yields the characters those bytes encode.
#[verifier::external_body]
fn bytes_to_string(bytes: Vec<u8>) -> (r: Result<String, ()>)
    ensures
        r is Ok <==> valid_utf8(bytes@),
        r is Ok ==> r.unwrap()@ == decode_utf8(bytes@),
{
    String::from_utf8(bytes).map_err(|_| ())
}

/// What the HTTP-Redirect binding puts on the wire for a message `m`:
/// base64 of the raw-DEFLATE compression of the UTF-8 bytes.
pub open spec fn redirect_encoding(m: Seq<char>) -> Seq<char> {
    b64_of(deflate_of(encode_utf8(m)))
}

/// What the HTTP-POST binding puts on the wire for a message `m`:
/// base64 of the UTF-8 bytes, with no compression.
pub open spec fn post_encoding(m: Seq<char>) -> Seq<char> {
    b64_of(encode_utf8(m))
}

/// What decoding an HTTP-Redirect-binding value yields: `None` on a
/// base64 rejection, a malformed DEFLATE stream or non-UTF-8 bytes,
/// the message otherwise.
pub open spec fn redirect_decoding(s: Seq<char>) -> Option<Seq<char>> {
    match b64_decoding_of(s) {
        None => None,
        Some(compressed) => match inflate_of(compressed) {
            None => None,
            Some(bytes) => if valid_utf8(bytes) {
                Some(decode_utf8(bytes))
            } else {
                None
            },
        },
    }
}

/// What decoding an HTTP-POST-binding value yields: `None` on a
/// base64 rejection or non-UTF-8 bytes, the message otherwise.
pub open spec fn post_decoding(s: Seq<char>) -> Option<Seq<char>> {
    match b64_decoding_of(s) {
        None => None,
        Some(bytes) => if valid_utf8(bytes) {
            Some(decode_utf8(bytes))
        } else {
            None
        },
    }
}

/// Encodes a message for the HTTP-Redirect binding.
pub fn encode_redirect(message: &str) -> (r: String)
    ensures
        r@ == redirect_encoding(message@),
{
    let bytes = message.as_bytes_vec();
    let compressed = deflate_compress(&bytes);
    b64_encode(&compressed)
}

/// Decodes an HTTP-Redirect-binding value back into the message.
///
/// The outcome is exactly `redirect_decoding`: a base64 rejection, a
/// malformed DEFLATE stream or a non-UTF-8 payload is
/// `InvalidSamlRequest`, anything else yields the message.  Decoding
/// inverts encoding: on `encode_redirect(m)` it returns `m`, for
/// every message `m`.
pub fn decode_redirect(encoded: &str) -> (r: Result<String, Error>)
    ensures
        match redirect_decoding(encoded@) {
            Some(m) => r matches Ok(s) && s@ == m,
            None => r is Err,
        },
        forall|m: Seq<char>| encoded@ == redirect_encoding(m) ==> redirect_decoding(encoded@)
            == Some(m),
        r matches Err(e) ==> e is InvalidSamlRequest,
{
    let compressed = match b64_decode(encoded) {
        Ok(v) => v,
        Err(_) => {
            return Err(Error::InvalidSamlRequest("base64 decode failed".to_owned()));
        },
    };
    let ghost compressed_view = compressed@;
    let bytes = match deflate_decompress(&compressed) {
        Ok(v) => v,
        Err(_) => {
            proof {
                assert forall|m: Seq<char>| encoded@ == redirect_encoding(m) implies
                    redirect_decoding(encoded@) == Some(m) by {
                    assert(b64_decoding_of(encoded@) == Some(deflate_of(encode_utf8(m))));
                    assert(compressed_view == deflate_of(encode_utf8(m)));
                    assert(inflate_of(compressed_view) == Some(encode_utf8(m)));
                    assert(false);
                }
            }
            return Err(Error::InvalidSamlRequest("deflate decompress failed".to_owned()));
        },
    };
    let ghost bytes_view = bytes@;
    match bytes_to_string(bytes) {
        Ok(s) => {
            proof {
                broadcast use vstd::utf8::encode_utf8_decode_utf8;

                assert forall|m: Seq<char>| encoded@ == redirect_encoding(m) implies
                    redirect_decoding(encoded@) == Some(m) by {
                    assert(b64_decoding_of(encoded@) == Some(deflate_of(encode_utf8(m))));
                    assert(compressed_view == deflate_of(encode_utf8(m)));
                    assert(bytes_view == encode_utf8(m));
                }
            }
            Ok(s)
        },
        Err(_) => {
            proof {
                broadcast use vstd::utf8::encode_utf8_valid_utf8;

                assert forall|m: Seq<char>| encoded@ == redirect_encoding(m) implies
                    redirect_decoding(encoded@) == Some(m) by {
                    assert(b64_decoding_of(encoded@) == Some(deflate_of(encode_utf8(m))));
                    assert(compressed_view == deflate_of(encode_utf8(m)));
                    assert(bytes_view == encode_utf8(m));
                    assert(valid_utf8(bytes_view));
                    assert(false);
                }
            }
            Err(Error::InvalidSamlRequest("invalid UTF-8".to_owned()))
        },
    }
}

/// Encodes a message for the HTTP-POST binding.
pub fn encode_post(message: &str) -> (r: String)
    ensures
        r@ == post_encoding(message@),
{
    let bytes = message.as_bytes_vec();
    b64_encode(&bytes)
}

/// Decodes an HTTP-POST-binding value back into the message.
///
/// The outcome is exactly `post_decoding`: a base64 rejection or a
/// non-UTF-8 payload is `InvalidSamlRequest`, anything else yields
/// the message.  Decoding inverts encoding: on `encode_post(m)` it
/// returns `m`, for every message `m`.
pub fn decode_post(encoded: &str) -> (r: Result<String, Error>)
    ensures
        match post_decoding(encoded@) {
            Some(m) => r matches Ok(s) && s@ == m,
            None => r is Err,
        },
        forall|m: Seq<char>| encoded@ == post_encoding(m) ==> post_decoding(encoded@) == Some(
            m,
        ),
        r matches Err(e) ==> e is InvalidSamlRequest,
{
    let bytes = match b64_decode(encoded) {
        Ok(v) => v,
        Err(_) => {
            return Err(Error::InvalidSamlRequest("base64 decode failed".to_owned()));
        },
    };
    let ghost bytes_view = bytes@;
    match bytes_to_string(bytes) {
        Ok(s) => {
            proof {
                broadcast use vstd::utf8::encode_utf8_decode_utf8;

                assert forall|m: Seq<char>| encoded@ == post_encoding(m) implies post_decoding(
                    encoded@,
                ) == Some(m) by {
                    assert(b64_decoding_of(encoded@) == Some(encode_utf8(m)));
                    assert(bytes_view == encode_utf8(m));
                }
            }
            Ok(s)
        },
        Err(_) => {
            proof {
                broadcast use vstd::utf8::encode_utf8_valid_utf8;

                assert forall|m: Seq<char>| encoded@ == post_encoding(m) implies post_decoding(
                    encoded@,
                ) == Some(m) by {
                    assert(b64_decoding_of(encoded@) == Some(encode_utf8(m)));
                    assert(bytes_view == encode_utf8(m));
                    assert(valid_utf8(bytes_view));
                    assert(false);
                }
            }
            Err(Error::InvalidSamlRequest("invalid UTF-8".to_owned()))
        },
    }
}

} // verus!
