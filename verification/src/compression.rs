//! The compression codec: the zlib stream in which an envelope is kept on
//! disk, written at the codec's default level.

use vstd::prelude::*;
use crate::error::StoreError;

verus! {

/// What the zlib decoder makes of `data`: the bytes of the stream that `data`
/// starts with, or `None` where it reports an error.
pub uninterp spec fn zlib_decoded(data: Seq<u8>) -> Option<Seq<u8>>;

/// What the zlib encoder makes of `data` at the default level: the finished
/// stream, or `None` where it reports an error.
pub uninterp spec fn zlib_encoded(data: Seq<u8>) -> Option<Seq<u8>>;

/// Writes `data` through a `flate2::write::ZlibEncoder` at the default level
/// into a vector and finishes the stream; `None` stands for an error from the
/// encoder. Trusted: the outcome depends on `data` alone (the level is fixed
/// and the encoder consults nothing else), and a stream that the encoder
/// finished decodes to the bytes that were written to it.
#[verifier::external_body]
fn zlib_encode(data: &[u8]) -> (stream: Option<Vec<u8>>)
    ensures
        stream matches Some(s) ==> zlib_encoded(data@) == Some(s@) && zlib_decoded(s@) == Some(
            data@,
        ),
        stream is None ==> zlib_encoded(data@) is None,
{
    let level = ::flate2::Compression::default();
    let mut encoder = ::flate2::write::ZlibEncoder::new(Vec::new(), level);
    match std::io::Write::write_all(&mut encoder, data) {
        Ok(()) => encoder.finish().ok(),
        Err(_) => None,
    }
}

/// Reads `data` to the end through a `flate2::read::ZlibDecoder`; `None`
/// stands for an error from the decoder. Trusted: the outcome depends on
/// `data` alone.
#[verifier::external_body]
fn zlib_decode(data: &[u8]) -> (plain: Option<Vec<u8>>)
    ensures
        plain matches Some(p) ==> zlib_decoded(data@) == Some(p@),
        plain is None ==> zlib_decoded(data@) is None,
{
    let mut plain = Vec::new();
    match std::io::Read::read_to_end(&mut ::flate2::read::ZlibDecoder::new(data), &mut plain) {
        Ok(_) => Some(plain),
        Err(_) => None,
    }
}

/// The result that `decompress` owes for each outcome of the decoder.
pub open spec fn decompressed(data: Seq<u8>) -> Result<Seq<u8>, StoreError> {
    match zlib_decoded(data) {
        Some(plain) => Ok(plain),
        None => Err(StoreError::CorruptStream),
    }
}

/// Compresses `data`: the result is the stream that the encoder makes of
/// `data`, the same for the same bytes, or `None` where the encoder reports
/// a failure. Whatever stream comes back decompresses to `data` again, the
/// empty input included.
pub fn compress(data: &[u8]) -> (stream: Option<Vec<u8>>)
    ensures
        match zlib_encoded(data@) {
            Some(s) => stream matches Some(v) && v@ == s,
            None => stream is None,
        },
        stream matches Some(s) ==> decompressed(s@) == Ok::<Seq<u8>, StoreError>(data@),
{
    zlib_encode(data)
}

/// Decompresses `data`, or fails with `CorruptStream` where it is not a valid
/// compressed stream.
pub fn decompress(data: &[u8]) -> (plain: Result<Vec<u8>, StoreError>)
    ensures
        match decompressed(data@) {
            Ok(bytes) => plain matches Ok(p) && p@ == bytes,
            Err(e) => plain == Err::<Vec<u8>, StoreError>(e),
        },
{
    match zlib_decode(data) {
        Some(p) => Ok(p),
        None => Err(StoreError::CorruptStream),
    }
}

} // verus!
