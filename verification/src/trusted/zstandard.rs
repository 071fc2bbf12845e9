//! The `zstd` crate: compression of a whole buffer.

use vstd::prelude::*;

verus! {

/// The zstd frame that `zstd::stream::encode_all` makes of `data` at `level`.
pub uninterp spec fn zstd_frame(data: Seq<u8>, level: i32) -> Seq<u8>;

/// `zstd::stream::encode_all` compresses all of `data` as one frame; the
/// frame depends on the data and the level alone.
#[verifier::external_body]
pub(crate) fn encode_all(data: &[u8], level: i32) -> (result: Result<Vec<u8>, std::io::Error>)
    ensures
        result matches Ok(frame) ==> frame@ == zstd_frame(data@, level),
{
    zstd::stream::encode_all(data, level)
}

} // verus!
