//! The one place where the library calls zstd.
use vstd::prelude::*;
use zstd::bulk::Decompressor;

verus! {

#[verifier::external_type_specification]
#[verifier::external_body]
pub struct ExIoError(std::io::Error);

/// What zstd decompresses `frames` to with the raw-content `dictionary`, or
/// `None` where the dictionary cannot be loaded or the frames do not decode.
pub uninterp spec fn zstd_decompressed(dictionary: Seq<u8>, frames: Seq<u8>) -> Option<Seq<u8>>;

/// Calls `zstd::bulk::Decompressor::with_dictionary(dictionary)` and then its
/// `decompress(frames, capacity)`.
/// Claimed: the call succeeds exactly when the frames decode, with that
/// dictionary, to at most `capacity` bytes, and then returns those bytes. The
/// bound is `decompress`'s own documented contract ("the decompressed data
/// should be at most `capacity` bytes, or an error will be returned"); its body
/// refuses a larger recorded size and otherwise decodes into a buffer of at
/// most `capacity` bytes. What the decoded bytes are is left to the name
/// `zstd_decompressed`.
#[verifier::external_body]
pub(crate) fn zstd_decompress_with_dictionary(dictionary: &[u8], frames: &[u8], capacity: usize) -> (res: Result<Vec<u8>, std::io::Error>)
    ensures
        res is Ok <==> (zstd_decompressed(dictionary@, frames@) matches Some(out) && out.len() <= capacity),
        res matches Ok(out) ==> zstd_decompressed(dictionary@, frames@) == Some(out@),
{
    let mut decompressor = Decompressor::with_dictionary(dictionary)?;
    decompressor.decompress(frames, capacity)
}

} // verus!
