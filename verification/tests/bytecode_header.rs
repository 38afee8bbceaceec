use llrt_core::bytecode::{HeaderError, BYTECODE_COMPRESSED, BYTECODE_UNCOMPRESSED, BYTECODE_VERSION, SIGNATURE_LENGTH};
use llrt_core::loader::{BytecodeError, EmbeddedLoader};

const DICT: &[u8] = b"export const handler = async (event) => { return { statusCode: 200, body: JSON.stringify(event) }; };";

fn module(flag: u8, payload: &[u8]) -> Vec<u8> {
    let mut out = BYTECODE_VERSION.as_bytes().to_vec();
    out.push(flag);
    out.extend_from_slice(payload);
    out
}

fn compressed_module(size: u32, frames: &[u8]) -> Vec<u8> {
    let mut payload = size.to_le_bytes().to_vec();
    payload.extend_from_slice(frames);
    module(BYTECODE_COMPRESSED, &payload)
}

fn compress(data: &[u8]) -> Vec<u8> {
    let mut compressor = zstd::bulk::Compressor::with_dictionary(3, DICT).unwrap();
    compressor.compress(data).unwrap()
}

#[test]
fn constants_describe_the_header() {
    assert_eq!(BYTECODE_VERSION, "lrt01");
    assert_eq!(SIGNATURE_LENGTH, BYTECODE_VERSION.len() + 1);
    assert_eq!(BYTECODE_COMPRESSED, b'c');
    assert_eq!(BYTECODE_UNCOMPRESSED, b'u');
}

#[test]
fn uncompressed_size_reads_little_endian_u32() {
    let input = [0x78, 0x56, 0x34, 0x12, 9, 8];
    let (size, rest) = EmbeddedLoader::uncompressed_size(&input).unwrap();
    assert_eq!(size, 0x1234_5678);
    assert_eq!(rest, &[9, 8]);
}

#[test]
fn uncompressed_size_of_exactly_four_bytes() {
    let (size, rest) = EmbeddedLoader::uncompressed_size(&[1, 0, 0, 0]).unwrap();
    assert_eq!(size, 1);
    assert!(rest.is_empty());
}

#[test]
fn uncompressed_size_needs_four_bytes() {
    assert_eq!(EmbeddedLoader::uncompressed_size(&[1, 2, 3]), Err(HeaderError::InvalidInput));
    assert_eq!(EmbeddedLoader::uncompressed_size(&[]), Err(HeaderError::InvalidInput));
}

#[test]
fn signature_of_uncompressed_module() {
    let input = module(b'u', &[1, 2, 3]);
    let (sig, compressed, rest) = EmbeddedLoader::get_bytecode_signature(&input).unwrap();
    assert_eq!(sig, b"lrt01");
    assert!(!compressed);
    assert_eq!(rest, &[1, 2, 3]);
}

#[test]
fn signature_of_compressed_module() {
    let input = module(b'c', &[]);
    let (sig, compressed, rest) = EmbeddedLoader::get_bytecode_signature(&input).unwrap();
    assert_eq!(sig, b"lrt01");
    assert!(compressed);
    assert!(rest.is_empty());
}

#[test]
fn signature_too_short() {
    assert_eq!(EmbeddedLoader::get_bytecode_signature(b"lrt01"), Err(HeaderError::InvalidSignatureLength));
    assert_eq!(EmbeddedLoader::get_bytecode_signature(b""), Err(HeaderError::InvalidSignatureLength));
}

#[test]
fn signature_with_other_version() {
    assert_eq!(EmbeddedLoader::get_bytecode_signature(b"lrt02u.."), Err(HeaderError::InvalidVersion));
}

#[test]
fn signature_with_unknown_flag() {
    assert_eq!(EmbeddedLoader::get_bytecode_signature(b"lrt01x.."), Err(HeaderError::InvalidSignature));
}

#[test]
fn module_bytecode_of_uncompressed_module_is_its_payload() {
    let input = module(b'u', b"bytecode");
    assert_eq!(EmbeddedLoader::get_module_bytecode(DICT, &input).unwrap(), b"bytecode".to_vec());
}

#[test]
fn module_bytecode_decompresses_with_the_dictionary() {
    let plain = b"export const handler = async () => 42; export const handler = async (event) => event;".to_vec();
    let frames = compress(&plain);
    let input = compressed_module(plain.len() as u32, &frames);
    let out = EmbeddedLoader::get_module_bytecode(DICT, &input).unwrap();
    assert_eq!(out, plain);
    assert_ne!(out, frames);
}

#[test]
fn module_bytecode_with_generous_size() {
    let plain = b"hello world, hello world, hello world".to_vec();
    let frames = compress(&plain);
    let input = compressed_module(10_000, &frames);
    assert_eq!(EmbeddedLoader::get_module_bytecode(DICT, &input).unwrap(), plain);
}

#[test]
fn module_bytecode_refuses_output_beyond_announced_size() {
    let plain = b"hello world, hello world, hello world".to_vec();
    let frames = compress(&plain);
    let input = compressed_module(plain.len() as u32 - 1, &frames);
    assert!(matches!(EmbeddedLoader::get_module_bytecode(DICT, &input), Err(BytecodeError::Decompress(_))));
}

#[test]
fn module_bytecode_of_garbage_frames() {
    let input = compressed_module(100, b"not zstd at all");
    assert!(matches!(EmbeddedLoader::get_module_bytecode(DICT, &input), Err(BytecodeError::Decompress(_))));
}

#[test]
fn module_bytecode_without_size_field() {
    let input = module(b'c', &[1, 2]);
    assert!(matches!(
        EmbeddedLoader::get_module_bytecode(DICT, &input),
        Err(BytecodeError::Header(HeaderError::InvalidInput))
    ));
}

#[test]
fn module_bytecode_with_bad_header() {
    assert!(matches!(
        EmbeddedLoader::get_module_bytecode(DICT, b"lrt0"),
        Err(BytecodeError::Header(HeaderError::InvalidSignatureLength))
    ));
    assert!(matches!(
        EmbeddedLoader::get_module_bytecode(DICT, b"LRT01u"),
        Err(BytecodeError::Header(HeaderError::InvalidVersion))
    ));
    assert!(matches!(
        EmbeddedLoader::get_module_bytecode(DICT, b"lrt01z"),
        Err(BytecodeError::Header(HeaderError::InvalidSignature))
    ));
}
