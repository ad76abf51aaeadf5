use vstd::prelude::*;

use std::io::Read;
use std::io::Write;

use crate::error::GitError;

verus! {

/// The zlib stream that `flate2` writes for `data` at the default level.
pub uninterp spec fn zlib_compressed(data: Seq<u8>) -> Seq<u8>;

/// What `flate2` reads back from the zlib stream `stream`; `None` when it
/// reports an error.
pub uninterp spec fn zlib_decompressed(stream: Seq<u8>) -> Option<Seq<u8>>;

/// `flate2::write::ZlibEncoder` at `Compression::default()`: `new` into a
/// fresh `Vec`, `write_all(data)`, then `finish`.
///
/// Trusted: the contract claims that this succeeds, since the encoder writes
/// only into a `Vec`, which never fails, and the default backend reports no
/// error at the default level with buffer output; that the stream is the one
/// that `zlib_compressed` names for `data`; and that decoding the stream
/// gives `data` back, the round trip that the crate documents for its
/// encoders and decoders. The error arms only convert `io::Error` values
/// that, by the source, do not occur.
#[verifier::external_body]
pub(crate) fn zlib_compress(data: &[u8]) -> (r: Result<Vec<u8>, GitError>)
    ensures
        r is Ok,
        r matches Ok(stream) ==> stream@ == zlib_compressed(data@),
        r matches Ok(stream) ==> zlib_decompressed(stream@) == Some(data@),
{
    let mut encoder = flate2::write::ZlibEncoder::new(Vec::new(), flate2::Compression::default());
    if let Err(_) = encoder.write_all(data) {
        return Err(GitError::CompressFailed);
    }
    match encoder.finish() {
        Ok(stream) => Ok(stream),
        Err(_) => Err(GitError::CompressFinishFailed),
    }
}

/// `flate2::read::ZlibDecoder::new(stream)` followed by `read_to_end`.
///
/// Trusted: the contract claims that the bytes read, or the error, are the
/// ones that `zlib_decompressed` names for `stream`.
#[verifier::external_body]
pub(crate) fn zlib_decompress(stream: &[u8]) -> (r: Option<Vec<u8>>)
    ensures
        match r {
            Some(data) => zlib_decompressed(stream@) == Some(data@),
            None => zlib_decompressed(stream@) is None,
        },
{
    let mut decoder = flate2::read::ZlibDecoder::new(stream);
    let mut data = Vec::new();
    match decoder.read_to_end(&mut data) {
        Ok(_) => Some(data),
        Err(_) => None,
    }
}

} // verus!
