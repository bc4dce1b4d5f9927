//! The zlib calls of the frame codec.

use crate::bytes_view;
use std::io::Read;
use vstd::prelude::*;

verus! {

/// What `flate2` makes of `data` at a compression level: the zlib stream, or
/// `None` where it reports an error.
pub uninterp spec fn zlib_deflated(data: Seq<u8>, level: u32) -> Option<Seq<u8>>;

/// What `flate2` inflates from the zlib stream `data` when it is asked for no
/// more than `limit` bytes: the bytes, or `None` where it reports an error.
pub uninterp spec fn zlib_inflated(data: Seq<u8>, limit: u64) -> Option<Seq<u8>>;

/// Compresses `data` with `flate2::bufread::ZlibEncoder`, read to its end.
///
/// Not proved: that what comes back, the stream or the encoder's error as
/// `None`, is what the encoder makes of these bytes at this level whenever it
/// is asked, and that inflating a stream that came back gives `data` again
/// whenever the limit is not below the length of `data`.
#[verifier::external_body]
pub(crate) fn zlib_compress(data: &[u8], level: u32) -> (res: Option<Vec<u8>>)
    requires
        level <= 9,
    ensures
        bytes_view(res) == zlib_deflated(data@, level),
        res matches Some(out) ==> forall|limit: u64|
            data@.len() <= limit ==> #[trigger] zlib_inflated(out@, limit) == Some(data@),
{
    let mut out = Vec::new();
    let mut z = flate2::bufread::ZlibEncoder::new(data, flate2::Compression::new(level));
    match z.read_to_end(&mut out) {
        Ok(_) => Some(out),
        Err(_) => None,
    }
}

/// Inflates the zlib stream `data` with `flate2::bufread::ZlibDecoder`,
/// reading no more than `limit` bytes of output.
///
/// Not proved: that the bytes returned are what the stream inflates to, cut
/// at `limit`. `None` stands for an error of the decoder.
#[verifier::external_body]
pub(crate) fn zlib_decompress(data: &[u8], limit: u64) -> (res: Option<Vec<u8>>)
    ensures
        res.is_some() == zlib_inflated(data@, limit).is_some(),
        res matches Some(out) ==> zlib_inflated(data@, limit) == Some(out@) && out@.len() <= limit,
{
    let mut out = Vec::new();
    let z = flate2::bufread::ZlibDecoder::new(data);
    match z.take(limit).read_to_end(&mut out) {
        Ok(_) => Some(out),
        Err(_) => None,
    }
}

} // verus!
