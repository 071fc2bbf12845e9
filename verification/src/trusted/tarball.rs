//! The `tar` crate: headers, and a builder that writes into memory.

use vstd::prelude::*;

verus! {

/// `tar::Header`, one 512-byte header block.
#[verifier::external_type_specification]
#[verifier::external_body]
pub struct ExHeader(tar::Header);

/// `std::io::Error`, carried from a failed call to the caller.
#[verifier::external_type_specification]
#[verifier::external_body]
pub struct ExIoError(std::io::Error);

/// A `tar::Builder` that writes into a `Vec<u8>`.
#[verifier::external_body]
pub struct TarWriter {
    builder: tar::Builder<Vec<u8>>,
}

/// The 512 bytes of a header, as `tar::Header::as_bytes` gives them.
pub uninterp spec fn header_block(header: tar::Header) -> Seq<u8>;

/// The bytes that a writer has received so far.
pub uninterp spec fn written(writer: TarWriter) -> Seq<u8>;

/// The block that `tar::Header::set_size` makes of `block`.
pub uninterp spec fn block_with_size(block: Seq<u8>, size: u64) -> Seq<u8>;

/// The block that `tar::Header::set_cksum` makes of `block`.
pub uninterp spec fn block_with_checksum(block: Seq<u8>) -> Seq<u8>;

/// The bytes that `tar::Builder::append_data` writes for an entry, given the
/// header block handed to it, the entry's path and its body; `None` where it
/// refuses the path.
pub uninterp spec fn appended_entry(block: Seq<u8>, path: Seq<char>, data: Seq<u8>) -> Option<
    Seq<u8>,
>;

/// The magic and version fields of a GNU header: `"ustar "`, then `" \0"`.
pub open spec fn gnu_magic() -> Seq<u8> {
    seq![0x75u8, 0x73u8, 0x74u8, 0x61u8, 0x72u8, 0x20u8, 0x20u8, 0x00u8]
}

/// A blank GNU header: zero bytes, but for a modification time of eleven
/// octal zeros at offset 136 and the GNU magic at offset 257.
pub open spec fn blank_gnu_block() -> Seq<u8> {
    Seq::new(
        512,
        |i: int|
            if 136 <= i < 147 {
                0x30u8
            } else if 257 <= i < 265 {
                gnu_magic()[i - 257]
            } else {
                0u8
            },
    )
}

/// The end of an archive: two blocks of zeros.
pub open spec fn end_of_archive() -> Seq<u8> {
    Seq::new(1024, |i: int| 0u8)
}

/// `tar::Header::new_gnu` zeroes the block, writes the GNU magic and version,
/// and sets the modification time to 0.
pub assume_specification[ tar::Header::new_gnu ]() -> (header: tar::Header)
    ensures
        header_block(header) == blank_gnu_block(),
;

/// `tar::Header::set_size` encodes `size` into the size field; the new block
/// depends on the old one and on `size` alone.
pub assume_specification[ tar::Header::set_size ](header: &mut tar::Header, size: u64)
    ensures
        header_block(*final(header)) == block_with_size(header_block(*old(header)), size),
;

/// `tar::Header::set_cksum` sums the block and writes the sum into the
/// checksum field; the new block depends on the old one alone.
pub assume_specification[ tar::Header::set_cksum ](header: &mut tar::Header)
    ensures
        header_block(*final(header)) == block_with_checksum(header_block(*old(header))),
;

/// `tar::Builder::new` on an empty `Vec<u8>`: nothing is written yet.
#[verifier::external_body]
pub(crate) fn new_writer() -> (writer: TarWriter)
    ensures
        written(writer) == Seq::<u8>::empty(),
{
    TarWriter { builder: tar::Builder::new(Vec::new()) }
}

/// `tar::Builder::append_data` sets `path` in the header, renews its checksum
/// and writes the header and `data`, padded to whole blocks. Whether it
/// accepts the path, and the bytes it then writes, depend on the header block,
/// the path and the data alone. Nothing is claimed of the writer after a
/// refusal, nor of the header afterwards.
#[verifier::external_body]
pub(crate) fn append_data(
    writer: &mut TarWriter,
    header: &mut tar::Header,
    path: &str,
    data: &[u8],
) -> (result: Result<(), std::io::Error>)
    ensures
        result is Ok <==> appended_entry(header_block(*old(header)), path@, data@) is Some,
        result is Ok ==> written(*final(writer)) == written(*old(writer)) + appended_entry(
            header_block(*old(header)),
            path@,
            data@,
        )->0,
{
    writer.builder.append_data(header, path, data)
}

/// `tar::Builder::into_inner` writes the two closing blocks of zeros and
/// hands back the `Vec<u8>` that received everything. It fails only where
/// that write does, and a write into a `Vec<u8>` appends and does not fail.
#[verifier::external_body]
pub(crate) fn into_inner(writer: TarWriter) -> (result: Result<Vec<u8>, std::io::Error>)
    ensures
        result is Ok,
        result matches Ok(bytes) ==> bytes@ == written(writer) + end_of_archive(),
{
    writer.builder.into_inner()
}

} // verus!
