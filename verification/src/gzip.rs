//! The gzip container, as the `flate2` crate reads and writes it.

use std::io::Read;
use std::io::Write;
use vstd::prelude::*;

verus! {

/// What `flate2::read::MultiGzDecoder` yields when it is read to its end
/// over the bytes `raw`: the decoded bytes of all gzip members, one after the
/// other, or the text of the error that the decoder reports.
pub uninterp spec fn gz_inflated(raw: Seq<u8>) -> Result<Seq<u8>, Seq<char>>;

/// What `flate2::write::GzEncoder` at the default compression level leaves
/// in an empty vector when `data` is written through it and it is finished:
/// the gzip stream, or the text of the error that the encoder reports.
pub uninterp spec fn gz_deflated(data: Seq<u8>) -> Result<Seq<u8>, Seq<char>>;

/// What a call returned, as contracts speak of it: the bytes, or the text of
/// the error.
pub open spec fn returned(r: Result<Vec<u8>, String>) -> Result<Seq<u8>, Seq<char>> {
    match r {
        Ok(bytes) => Ok(bytes@),
        Err(cause) => Err(cause@),
    }
}

/// Reads a `flate2::read::MultiGzDecoder` over `raw` to its end with
/// `std::io::Read::read_to_end`. Where the decoder finishes, the result is
/// all that it decoded; where it reports an error, the result is the text of
/// that error, and what had been decoded before is dropped. Either way the
/// result is what the decoder yields for these bytes.
#[verifier::external_body]
pub(crate) fn gz_decode(raw: &[u8]) -> (r: Result<Vec<u8>, String>)
    ensures
        returned(r) == gz_inflated(raw@),
{
    let mut out = Vec::new();
    match flate2::read::MultiGzDecoder::new(raw).read_to_end(&mut out) {
        Ok(_) => Ok(out),
        Err(e) => Err(e.to_string()),
    }
}

/// Writes `data` through a `flate2::write::GzEncoder` at the default
/// compression level into an empty vector and finishes the encoder. The
/// result is what the encoder leaves for these bytes, or the text of its
/// error. The encoder writes a fixed header, without a time or a file name,
/// so the stream depends on the data alone; and a stream that it leaves is
/// one that the decoder reads back as `data`.
#[verifier::external_body]
pub(crate) fn gz_encode(data: &[u8]) -> (r: Result<Vec<u8>, String>)
    ensures
        returned(r) == gz_deflated(data@),
        r matches Ok(file) ==> (gz_inflated(file@) matches Ok(bytes) && bytes == data@),
{
    let mut encoder = flate2::write::GzEncoder::new(Vec::new(), flate2::Compression::default());
    match encoder.write_all(data) {
        Ok(()) => match encoder.finish() {
            Ok(file) => Ok(file),
            Err(e) => Err(e.to_string()),
        },
        Err(e) => Err(e.to_string()),
    }
}

} // verus!
