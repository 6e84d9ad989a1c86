//! Text form of an acoustic fingerprint: the raw sub-fingerprints are
//! compressed by Chromaprint's scheme and written as standard base64.

use base64::Engine;
use rusty_chromaprint::{Configuration, FingerprintCompressor};
use vstd::prelude::*;

verus! {

/// Chromaprint's compressed form of the sub-fingerprints `raw` under the
/// `test1` preset (algorithm id 0).
pub uninterp spec fn chromaprint_compressed(raw: Seq<u32>) -> Seq<u8>;

/// Standard base64 (with `=` padding) of `bytes`.
pub uninterp spec fn base64_standard(bytes: Seq<u8>) -> Seq<char>;

/// Relies on `rusty_chromaprint::FingerprintCompressor::compress` with the
/// `Configuration::preset_test1` configuration: the output starts with a
/// four-byte header holding the algorithm id (0 for that preset) and the
/// number of sub-fingerprints as 24 bits, most significant byte first.
#[verifier::external_body]
fn compress_fingerprint(raw: &[u32]) -> (r: Vec<u8>)
    ensures
        r@ == chromaprint_compressed(raw@),
        r@.len() >= 4,
        r@[0] == 0,
        r@[1] == (raw@.len() / 65536) % 256,
        r@[2] == (raw@.len() / 256) % 256,
        r@[3] == raw@.len() % 256,
{
    let config = Configuration::preset_test1();
    FingerprintCompressor::from(&config).compress(raw)
}

/// Relies on `base64::engine::general_purpose::STANDARD.encode`: padded
/// output of four characters for every started group of three bytes.
#[verifier::external_body]
fn base64_encode(bytes: &[u8]) -> (r: String)
    requires
        bytes@.len() <= usize::MAX / 4,
    ensures
        r@ == base64_standard(bytes@),
        r@.len() == 4 * ((bytes@.len() + 2) / 3),
{
    base64::engine::general_purpose::STANDARD.encode(bytes)
}

/// The fingerprint text of the sub-fingerprints `raw`; `None` when there are
/// none, as no fingerprint was computed (or when the compressed form is too
/// large to encode in memory).
pub fn encode_fingerprint(raw: &[u32]) -> (r: Option<String>)
    ensures
        r is None <==> raw@.len() == 0 || chromaprint_compressed(raw@).len() > usize::MAX / 4,
        r matches Some(text) ==> text@ == base64_standard(chromaprint_compressed(raw@)),
{
    if raw.len() == 0 {
        return None;
    }
    let compressed = compress_fingerprint(raw);
    if compressed.len() > usize::MAX / 4 {
        return None;
    }
    Some(base64_encode(compressed.as_slice()))
}

} // verus!
