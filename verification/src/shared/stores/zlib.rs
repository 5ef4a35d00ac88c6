//! Decompression of object data, through the `flate2` crate.

use vstd::prelude::*;

verus! {

/// Why a zlib stream could not be decompressed.
#[derive(Debug, Clone, Copy, PartialEq, Eq, Structural)]
pub enum ZlibError {
    /// The data ended before the stream did.
    Incomplete,
    /// The data is not a valid stream.
    Corrupt,
}

/// What decompressing the zlib stream at the start of `compressed` gives
/// with `flate2`: the bytes it yields, or the way it fails. Bytes after the
/// end of the stream are not read.
pub uninterp spec fn zlib_decompressed(compressed: Seq<u8>) -> Result<Seq<u8>, ZlibError>;

/// Calls `flate2::read::ZlibDecoder::new` on `compressed` and reads the
/// decoder to its end with `std::io::Read::read_to_end`. The contract
/// names the result: it depends on the bytes alone. `flate2` reports a
/// stream that the data ends inside with the error kind `UnexpectedEof`,
/// and any other failure as corrupt data.
#[verifier::external_body]
pub(crate) fn zlib_decompress(compressed: &[u8]) -> (res: Result<Vec<u8>, ZlibError>)
    ensures
        match res {
            Ok(data) => zlib_decompressed(compressed@) == Ok::<Seq<u8>, ZlibError>(data@),
            Err(e) => zlib_decompressed(compressed@) == Err::<Seq<u8>, ZlibError>(e),
        },
{
    let mut decoder = flate2::read::ZlibDecoder::new(compressed);
    let mut data = Vec::new();
    match std::io::Read::read_to_end(&mut decoder, &mut data) {
        Ok(_) => Ok(data),
        Err(e) => match e.kind() {
            std::io::ErrorKind::UnexpectedEof => Err(ZlibError::Incomplete),
            _ => Err(ZlibError::Corrupt),
        },
    }
}

} // verus!
