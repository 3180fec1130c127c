//! The archive file: a serialized package, DEFLATE-compressed as a whole.

use std::io::{Read, Write};
use vstd::prelude::*;
use crate::layout::{decoded, encoded};
use crate::package::{deserialize, serialize, AssetPackage, DeserializeError, PackageView};
use crate::roundtrip::lemma_truncation_is_malformed;

verus! {

/// Why a store cannot be built.
#[derive(Debug, Clone, Copy, PartialEq, Eq, Structural)]
pub enum BuildError {
    /// The archive is not a complete DEFLATE stream.
    Inflate,
    /// The decompressed archive is not a serialized package.
    Decode(DeserializeError),
    /// `index` addresses no asset of the package.
    IndexNotFound,
    /// The asset at this position is a text to rewrite, and is not UTF-8.
    InvalidText(usize),
}

/// What `flate2`'s raw DEFLATE encoder writes for these bytes at its default level.
pub uninterp spec fn deflated(raw: Seq<u8>) -> Seq<u8>;

/// What `flate2`'s raw DEFLATE decoder reads out of these bytes, or `None`
/// where it reports a corrupt or incomplete stream.
pub uninterp spec fn inflated(compressed: Seq<u8>) -> Option<Seq<u8>>;

/// `flate2::write::DeflateEncoder` at `Compression::default()`, fed the
/// whole input and finished. The result is a function of the input, and
/// the decoder of the same crate reads the input back out of it.
#[verifier::external_body]
pub fn deflate_encode_raw(base_raw: &[u8]) -> (compressed: Vec<u8>)
    ensures
        compressed@ == deflated(base_raw@),
        inflated(compressed@) == Some(base_raw@),
{
    let mut e = flate2::write::DeflateEncoder::new(Vec::new(), flate2::Compression::default());
    e.write_all(base_raw).unwrap();
    e.finish().unwrap()
}

/// `flate2::bufread::DeflateDecoder`, read to its end. `None` stands for
/// the error that the decoder reports on a stream it cannot finish.
#[verifier::external_body]
pub fn deflate_decode_raw(base_compressed: &[u8]) -> (raw: Option<Vec<u8>>)
    ensures
        match raw {
            Some(raw) => inflated(base_compressed@) == Some(raw@),
            None => inflated(base_compressed@) is None,
        },
{
    let mut buffer = Vec::new();
    let mut d = flate2::bufread::DeflateDecoder::new(base_compressed);
    match d.read_to_end(&mut buffer) {
        Ok(_) => Some(buffer),
        Err(_) => None,
    }
}

/// The archive of a package.
pub open spec fn packed(package: PackageView) -> Seq<u8> {
    deflated(encoded(package))
}

/// What an archive holds: the package, or the first step that failed.
pub open spec fn unpacked(archive: Seq<u8>) -> Result<PackageView, BuildError> {
    match inflated(archive) {
        Some(raw) => match decoded(raw) {
            Ok(package) => Ok(package),
            Err(error) => Err(BuildError::Decode(error)),
        },
        None => Err(BuildError::Inflate),
    }
}

/// Serializes and compresses a package. Unpacking the result gives the
/// package back.
pub fn pack(pkg: AssetPackage) -> (archive: Vec<u8>)
    ensures
        archive@ == packed(pkg@),
        unpacked(archive@) == Ok::<PackageView, BuildError>(pkg@),
{
    let ghost view = pkg@;
    let raw = serialize(pkg);
    deflate_encode_raw(raw.as_slice())
}

/// Decompresses and decodes an archive.
pub fn unpack(archive: &[u8]) -> (package: Result<AssetPackage, BuildError>)
    ensures
        match package {
            Ok(package) => unpacked(archive@) == Ok::<PackageView, BuildError>(package@),
            Err(error) => unpacked(archive@) == Err::<PackageView, BuildError>(error),
        },
{
    match deflate_decode_raw(archive) {
        Some(raw) => match deserialize(raw.as_slice()) {
            Ok(package) => Ok(package),
            Err(error) => Err(BuildError::Decode(error)),
        },
        None => Err(BuildError::Inflate),
    }
}

/// An archive that inflates to the bytes of a package cut short gives no
/// package: its payload is malformed.
pub proof fn lemma_truncated_payload_is_malformed(
    archive: Seq<u8>,
    package: PackageView,
    keep: int,
)
    requires
        package.encodable(),
        0 <= keep < encoded(package).len(),
        inflated(archive) == Some(encoded(package).take(keep)),
    ensures
        unpacked(archive) == Err::<PackageView, BuildError>(
            BuildError::Decode(DeserializeError::Malformed),
        ),
{
    lemma_truncation_is_malformed(package, keep);
}

/// An archive that does not inflate gives no package.
pub proof fn lemma_broken_stream_fails(archive: Seq<u8>)
    requires
        inflated(archive) is None,
    ensures
        unpacked(archive) == Err::<PackageView, BuildError>(BuildError::Inflate),
{
}

} // verus!
