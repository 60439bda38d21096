//! Decompression of gzip and zlib payloads.

use std::io::Read;
use vstd::prelude::*;

use crate::error::ActiveStorageError;
use crate::models::Compression;

verus! {

/// What a gzip stream decodes to, or `None` when the bytes are not a gzip stream.
pub uninterp spec fn gzip_decoded(data: Seq<u8>) -> Option<Seq<u8>>;

/// What a zlib stream decodes to, or `None` when the bytes are not a zlib stream.
pub uninterp spec fn zlib_decoded(data: Seq<u8>) -> Option<Seq<u8>>;

/// What `data` decodes to under `compression`.
pub open spec fn decoded(compression: Compression, data: Seq<u8>) -> Option<Seq<u8>> {
    match compression {
        Compression::Gzip => gzip_decoded(data),
        Compression::Zlib => zlib_decoded(data),
    }
}

/// Decodes a gzip stream.
///
/// Reads `data` to the end through `flate2::read::GzDecoder`. The decoder is
/// a function of its input alone, and `gzip_decoded` is the name of what it
/// gives: the decoded bytes, or nothing when the decoder reports an error.
#[verifier::external_body]
fn gzip_decode(data: &Vec<u8>) -> (out: Option<Vec<u8>>)
    ensures
        match out {
            Some(bytes) => gzip_decoded(data@) == Some(bytes@),
            None => gzip_decoded(data@) is None,
        },
{
    let mut bytes = Vec::new();
    match flate2::read::GzDecoder::new(data.as_slice()).read_to_end(&mut bytes) {
        Ok(_) => Some(bytes),
        Err(_) => None,
    }
}

/// Decodes a zlib stream.
///
/// Reads `data` to the end through `flate2::read::ZlibDecoder`. The decoder is
/// a function of its input alone, and `zlib_decoded` is the name of what it
/// gives: the decoded bytes, or nothing when the decoder reports an error.
#[verifier::external_body]
fn zlib_decode(data: &Vec<u8>) -> (out: Option<Vec<u8>>)
    ensures
        match out {
            Some(bytes) => zlib_decoded(data@) == Some(bytes@),
            None => zlib_decoded(data@) is None,
        },
{
    let mut bytes = Vec::new();
    match flate2::read::ZlibDecoder::new(data.as_slice()).read_to_end(&mut bytes) {
        Ok(_) => Some(bytes),
        Err(_) => None,
    }
}

/// Decompresses `data`.
///
/// Fails with `DecompressionFailed` when the bytes are not a stream of the
/// given kind.
pub fn decompress(compression: Compression, data: &Vec<u8>) -> (result: Result<
    Vec<u8>,
    ActiveStorageError,
>)
    ensures
        match result {
            Ok(bytes) => decoded(compression, data@) == Some(bytes@),
            Err(e) => decoded(compression, data@) is None && e
                == ActiveStorageError::DecompressionFailed,
        },
{
    let out = match compression {
        Compression::Gzip => gzip_decode(data),
        Compression::Zlib => zlib_decode(data),
    };
    match out {
        Some(bytes) => Ok(bytes),
        None => Err(ActiveStorageError::DecompressionFailed),
    }
}

} // verus!
