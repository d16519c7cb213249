//! Content decompression for downloaded bodies (gzip and Brotli).

use std::io::Read;
use vstd::prelude::*;
use crate::text;
use crate::text::{str_contains, to_lower};

verus! {

/// What a `flate2::read::GzDecoder` reading `data` to its end yields: the decompressed
/// bytes, or `None` when it reports an error.
pub uninterp spec fn gzip_decoded(data: Seq<u8>) -> Option<Seq<u8>>;

/// What a `brotli::Decompressor` reading `data` to its end yields: the decompressed
/// bytes, or `None` when it reports an error.
pub uninterp spec fn brotli_decoded(data: Seq<u8>) -> Option<Seq<u8>>;

/// The I/O error that the decoders report on invalid input.
#[verifier::external_type_specification]
#[verifier::external_body]
pub struct ExIoError(std::io::Error);

/// Decodes `data` with `flate2::read::GzDecoder` and `Read::read_to_end`. The contract
/// names the result: the gzip and DEFLATE formats are not restated here, nor the kind
/// and message of the error reported on invalid data.
#[verifier::external_body]
fn gzip_decode(data: &[u8]) -> (res: Result<Vec<u8>, std::io::Error>)
    ensures
        match res {
            Ok(v) => gzip_decoded(data@) == Some(v@),
            Err(_) => gzip_decoded(data@) is None,
        },
{
    let mut out = Vec::new();
    match flate2::read::GzDecoder::new(data).read_to_end(&mut out) {
        Ok(_) => Ok(out),
        Err(e) => Err(e),
    }
}

/// Decodes `data` with `brotli::Decompressor` (4096-byte buffer) and
/// `Read::read_to_end`. The contract names the result: the Brotli format is not
/// restated here.
#[verifier::external_body]
fn brotli_decode(data: &[u8]) -> (res: Option<Vec<u8>>)
    ensures
        match res {
            Some(v) => brotli_decoded(data@) == Some(v@),
            None => brotli_decoded(data@) is None,
        },
{
    let mut out = Vec::new();
    match brotli::Decompressor::new(data, 4096).read_to_end(&mut out) {
        Ok(_) => Some(out),
        Err(_) => None,
    }
}

/// Decompresses a gzip-encoded byte slice; the decoder's I/O error when the data is not
/// valid gzip.
pub fn decompress_gzip(bytes: &[u8]) -> (res: std::io::Result<Vec<u8>>)
    ensures
        match res {
            Ok(v) => gzip_decoded(bytes@) == Some(v@),
            Err(_) => gzip_decoded(bytes@) is None,
        },
{
    gzip_decode(bytes)
}

/// The gzip decompression of `raw`, or `raw` itself when it is not valid gzip.
pub open spec fn gunzip_or_keep(raw: Seq<u8>) -> Seq<u8> {
    match gzip_decoded(raw) {
        Some(v) => v,
        None => raw,
    }
}

/// The Brotli decompression of `raw`, or `raw` itself when it is not valid Brotli.
pub open spec fn unbrotli_or_keep(raw: Seq<u8>) -> Seq<u8> {
    match brotli_decoded(raw) {
        Some(v) => v,
        None => raw,
    }
}

/// Decompresses a Brotli-encoded byte slice. It never fails: data that is not valid
/// Brotli is passed through unchanged.
pub fn decompress_brotli(bytes: &[u8]) -> (res: std::io::Result<Vec<u8>>)
    ensures
        res matches Ok(v) && v@ == unbrotli_or_keep(bytes@),
        res matches Ok(v) && (brotli_decoded(bytes@) is None ==> v@ == bytes@),
        res matches Ok(v) && (brotli_decoded(bytes@) matches Some(d) ==> v@ == d),
{
    match brotli_decode(bytes) {
        Some(v) => Ok(v),
        None => Ok(vstd::slice::slice_to_vec(bytes)),
    }
}

/// `raw` starts with the gzip magic bytes `1f 8b`.
pub open spec fn has_gzip_magic(raw: Seq<u8>) -> bool {
    raw.len() >= 2 && raw[0] == 0x1f && raw[1] == 0x8b
}

/// The body to store for a response with the given `Content-Encoding` header (if any):
/// a (lower-cased) encoding naming gzip is gunzipped, else one naming `br` is
/// Brotli-decoded, else the body is kept; without the header, a body with the gzip magic
/// bytes is gunzipped. A body that does not decode is kept as it came.
pub open spec fn stored_body(encoding: Option<Seq<char>>, raw: Seq<u8>) -> Seq<u8> {
    match encoding {
        Some(e) => {
            let lower = text::lowercase_chars(e);
            if text::contains_chars(lower, "gzip"@) {
                gunzip_or_keep(raw)
            } else if text::contains_chars(lower, "br"@) {
                unbrotli_or_keep(raw)
            } else {
                raw
            }
        },
        None => if has_gzip_magic(raw) {
            gunzip_or_keep(raw)
        } else {
            raw
        },
    }
}

/// Decodes a downloaded body according to its `Content-Encoding` header.
pub fn decode_body(content_encoding: Option<&str>, raw: Vec<u8>) -> (res: Vec<u8>)
    ensures
        res@ == stored_body(crate::filename::opt_chars(content_encoding), raw@),
        content_encoding matches Some(e) ==> {
            let lower = text::lowercase_chars(e@);
            &&& text::contains_chars(lower, "gzip"@) ==> (gzip_decoded(raw@) matches Some(v) ==> res@ == v)
            &&& text::contains_chars(lower, "gzip"@) ==> (gzip_decoded(raw@) is None ==> res@ == raw@)
            &&& (!text::contains_chars(lower, "gzip"@) && text::contains_chars(lower, "br"@)) ==> res@
                == unbrotli_or_keep(raw@)
            &&& (!text::contains_chars(lower, "gzip"@) && !text::contains_chars(lower, "br"@)) ==> res@
                == raw@
        },
        content_encoding is None ==> {
            &&& (raw@.len() < 2 || raw@[0] != 0x1f || raw@[1] != 0x8b) ==> res@ == raw@
            &&& (raw@.len() >= 2 && raw@[0] == 0x1f && raw@[1] == 0x8b && gzip_decoded(raw@) is None)
                ==> res@ == raw@
            &&& (raw@.len() >= 2 && raw@[0] == 0x1f && raw@[1] == 0x8b) ==> (gzip_decoded(raw@) matches Some(
                v,
            ) ==> res@ == v)
        },
{
    match content_encoding {
        Some(enc) => {
            let lower = to_lower(enc);
            if str_contains(lower.as_str(), "gzip") {
                match decompress_gzip(raw.as_slice()) {
                    Ok(d) => d,
                    Err(_) => raw,
                }
            } else if str_contains(lower.as_str(), "br") {
                match decompress_brotli(raw.as_slice()) {
                    Ok(d) => d,
                    Err(_) => raw,
                }
            } else {
                raw
            }
        },
        None => {
            if raw.len() >= 2 && raw[0] == 0x1f && raw[1] == 0x8b {
                match decompress_gzip(raw.as_slice()) {
                    Ok(d) => d,
                    Err(_) => raw,
                }
            } else {
                raw
            }
        },
    }
}

} // verus!
