//! Layout of a compiled module: `[version tag][flag byte][payload]`, where a
//! compressed payload is `[uncompressed size: u32 le][zstd frames]`.
use vstd::prelude::*;
use vstd::bytes::{lemma_auto_spec_u32_to_from_le_bytes, spec_u32_from_le_bytes, spec_u32_to_le_bytes};

use crate::decompress::zstd_decompressed;

verus! {

/// Version tag that starts every compiled module.
pub const BYTECODE_VERSION: &'static str = "lrt01";

/// Flag byte (`'c'`) of a payload that is zstd-compressed.
pub const BYTECODE_COMPRESSED: u8 = 99u8;

/// Flag byte (`'u'`) of a payload that is stored as is.
pub const BYTECODE_UNCOMPRESSED: u8 = 117u8;

/// Length of the signature: the version tag and the flag byte.
pub const SIGNATURE_LENGTH: usize = 6usize;

/// Extension of compiled module files.
pub const BYTECODE_FILE_EXT: &'static str = ".lrt";

/// The bytes of the version tag `lrt01`.
pub open spec fn version_bytes() -> Seq<u8> {
    seq![108u8, 114u8, 116u8, 48u8, 49u8]
}

/// Why the header of a compiled module could not be read.
#[derive(Debug, Clone, Copy, PartialEq, Eq)]
pub enum HeaderError {
    /// Shorter than the signature.
    InvalidSignatureLength,
    /// The first bytes are not the version tag.
    InvalidVersion,
    /// The flag byte is neither of the two known flags.
    InvalidSignature,
    /// Fewer than four bytes where the uncompressed size should stand.
    InvalidInput,
}

/// The signature of a compiled module: the version tag, whether the payload is
/// compressed, and the payload.
pub open spec fn spec_bytecode_signature(input: Seq<u8>) -> Result<(Seq<u8>, bool, Seq<u8>), HeaderError> {
    if input.len() < SIGNATURE_LENGTH {
        Err(HeaderError::InvalidSignatureLength)
    } else if input.subrange(0, 5) != version_bytes() {
        Err(HeaderError::InvalidVersion)
    } else if input[5] == BYTECODE_COMPRESSED {
        Ok((input.subrange(0, 5), true, input.subrange(6, input.len() as int)))
    } else if input[5] == BYTECODE_UNCOMPRESSED {
        Ok((input.subrange(0, 5), false, input.subrange(6, input.len() as int)))
    } else {
        Err(HeaderError::InvalidSignature)
    }
}

/// The uncompressed size at the head of a compressed payload, and what follows it.
pub open spec fn spec_uncompressed_size(input: Seq<u8>) -> Result<(usize, Seq<u8>), HeaderError> {
    if input.len() < 4 {
        Err(HeaderError::InvalidInput)
    } else {
        Ok((spec_u32_from_le_bytes(input.subrange(0, 4)) as usize, input.subrange(4, input.len() as int)))
    }
}

/// What loading a compiled module yields: its bytecode, or why there is none
/// (`Err(Some(..))` for a bad header, `Err(None)` when decompression fails).
pub open spec fn spec_module_bytecode(dictionary: Seq<u8>, input: Seq<u8>) -> Result<Seq<u8>, Option<HeaderError>> {
    match spec_bytecode_signature(input) {
        Err(e) => Err(Some(e)),
        Ok((_, compressed, payload)) => if !compressed {
            Ok(payload)
        } else {
            match spec_uncompressed_size(payload) {
                Err(e) => Err(Some(e)),
                Ok((size, frames)) => match zstd_decompressed(dictionary, frames) {
                    Some(out) => if out.len() <= size { Ok(out) } else { Err(None) },
                    None => Err(None),
                },
            }
        },
    }
}

/// The header of a compiled module whose payload is stored as is.
pub open spec fn uncompressed_header() -> Seq<u8> {
    version_bytes().push(BYTECODE_UNCOMPRESSED)
}

/// The header of a compiled module whose payload is compressed.
pub open spec fn compressed_header() -> Seq<u8> {
    version_bytes().push(BYTECODE_COMPRESSED)
}

/// Reading the header back: an uncompressed module yields its body.
pub proof fn lemma_uncompressed_module(dictionary: Seq<u8>, body: Seq<u8>)
    ensures
        spec_bytecode_signature(uncompressed_header() + body) == Ok::<(Seq<u8>, bool, Seq<u8>), HeaderError>((version_bytes(), false, body)),
        spec_module_bytecode(dictionary, uncompressed_header() + body) == Ok::<Seq<u8>, Option<HeaderError>>(body),
{
    let s = uncompressed_header() + body;
    assert(s.subrange(0, 5) =~= version_bytes());
    assert(s.subrange(6, s.len() as int) =~= body);
}

/// Reading the header back: a compressed module yields what its frames
/// decompress to, where that fits the size recorded in front of them.
pub proof fn lemma_compressed_module(dictionary: Seq<u8>, size: u32, frames: Seq<u8>)
    ensures
        spec_bytecode_signature(compressed_header() + spec_u32_to_le_bytes(size) + frames)
            == Ok::<(Seq<u8>, bool, Seq<u8>), HeaderError>((version_bytes(), true, spec_u32_to_le_bytes(size) + frames)),
        spec_uncompressed_size(spec_u32_to_le_bytes(size) + frames) == Ok::<(usize, Seq<u8>), HeaderError>((size as usize, frames)),
        spec_module_bytecode(dictionary, compressed_header() + spec_u32_to_le_bytes(size) + frames) == match zstd_decompressed(dictionary, frames) {
            Some(out) => if out.len() <= size { Ok::<Seq<u8>, Option<HeaderError>>(out) } else { Err(None) },
            None => Err(None),
        },
{
    lemma_auto_spec_u32_to_from_le_bytes();
    let le = spec_u32_to_le_bytes(size);
    assert(le.len() == 4);
    let payload = le + frames;
    let s = compressed_header() + payload;
    assert(compressed_header() + le + frames =~= s);
    assert(s.subrange(0, 5) =~= version_bytes());
    assert(s.subrange(6, s.len() as int) =~= payload);
    assert(payload.subrange(0, 4) =~= le);
    assert(payload.subrange(4, payload.len() as int) =~= frames);
}

} // verus!
