//! The embedded module loader: reading module headers and deciding where a
//! module comes from.
use vstd::prelude::*;
use vstd::bytes::{lemma_auto_spec_u32_to_from_le_bytes, spec_u32_to_le_bytes, u32_from_le_bytes};
use vstd::slice::slice_to_vec;

use crate::bytecode::{
    compressed_header, lemma_compressed_module, lemma_uncompressed_module, spec_bytecode_signature,
    spec_module_bytecode, spec_uncompressed_size, uncompressed_header, version_bytes, HeaderError,
    BYTECODE_COMPRESSED, BYTECODE_UNCOMPRESSED, SIGNATURE_LENGTH,
};
use crate::cache::BytecodeCache;
use crate::decompress::{zstd_decompress_with_dictionary, zstd_decompressed};
use crate::executable::{
    lemma_loader_reads_back_module, loader_payload, spec_loader_payload,
    with_trailer,
};
use crate::text::{ends_with, starts_with, strip_prefix};

verus! {

/// Why a compiled module yields no bytecode.
#[derive(Debug)]
pub enum BytecodeError {
    /// The header is malformed.
    Header(HeaderError),
    /// zstd could not decompress the payload into its announced size.
    Decompress(std::io::Error),
}

/// Loader of modules from the bytecode cache and from compiled files.
#[derive(Debug, Default)]
pub struct EmbeddedLoader;

impl EmbeddedLoader {
    /// Reads the little-endian `u32` uncompressed size at the head of `input`
    /// and returns it with the rest of `input`.
    pub fn uncompressed_size(input: &[u8]) -> (res: Result<(usize, &[u8]), HeaderError>)
        ensures
            match (res, spec_uncompressed_size(input@)) {
                (Ok((n, rest)), Ok((sn, srest))) => n == sn && rest@ == srest,
                (Err(e), Err(se)) => e == se,
                _ => false,
            },
    {
        if input.len() < 4 {
            return Err(HeaderError::InvalidInput);
        }
        let size = u32_from_le_bytes(&input[0..4]);
        let rest = &input[4..input.len()];
        Ok((size as usize, rest))
    }

    /// Splits a compiled module into its version tag, whether its payload is
    /// compressed, and the payload.
    pub fn get_bytecode_signature(input: &[u8]) -> (res: Result<(&[u8], bool, &[u8]), HeaderError>)
        ensures
            match (res, spec_bytecode_signature(input@)) {
                (Ok((sig, c, rest)), Ok((ssig, sc, srest))) => sig@ == ssig && c == sc && rest@ == srest,
                (Err(e), Err(se)) => e == se,
                _ => false,
            },
    {
        if input.len() < SIGNATURE_LENGTH {
            return Err(HeaderError::InvalidSignatureLength);
        }
        let signature = &input[0..5];
        let last = input[5];
        if !(signature[0] == 108u8 && signature[1] == 114u8 && signature[2] == 116u8
            && signature[3] == 48u8 && signature[4] == 49u8) {
            assert(signature@ != version_bytes()) by {
                if signature@ == version_bytes() {
                    assert(signature@[0] == version_bytes()[0]);
                    assert(signature@[1] == version_bytes()[1]);
                    assert(signature@[2] == version_bytes()[2]);
                    assert(signature@[3] == version_bytes()[3]);
                    assert(signature@[4] == version_bytes()[4]);
                }
            }
            return Err(HeaderError::InvalidVersion);
        }
        assert(signature@ =~= version_bytes());
        let compressed = if last == BYTECODE_COMPRESSED {
            true
        } else if last == BYTECODE_UNCOMPRESSED {
            false
        } else {
            return Err(HeaderError::InvalidSignature);
        };
        let rest = &input[SIGNATURE_LENGTH..input.len()];
        Ok((signature, compressed, rest))
    }

    /// The bytecode of a compiled module: the payload itself, or the payload
    /// decompressed with `dictionary` into at most its announced size.
    pub fn get_module_bytecode(dictionary: &[u8], input: &[u8]) -> (res: Result<Vec<u8>, BytecodeError>)
        ensures
            match (res, spec_module_bytecode(dictionary@, input@)) {
                (Ok(v), Ok(sv)) => v@ == sv,
                (Err(BytecodeError::Header(e)), Err(Some(se))) => e == se,
                (Err(BytecodeError::Decompress(_)), Err(None)) => true,
                _ => false,
            },
    {
        let (_, compressed, payload) = match Self::get_bytecode_signature(input) {
            Ok(parts) => parts,
            Err(e) => return Err(BytecodeError::Header(e)),
        };
        if compressed {
            let (size, frames) = match Self::uncompressed_size(payload) {
                Ok(parts) => parts,
                Err(e) => return Err(BytecodeError::Header(e)),
            };
            return match zstd_decompress_with_dictionary(dictionary, frames, size) {
                Ok(buf) => Ok(buf),
                Err(e) => Err(BytecodeError::Decompress(e)),
            };
        }
        Ok(slice_to_vec(payload))
    }
}

/// Prefix of the names of `.cjs` files that are imported.
pub const CJS_IMPORT_PREFIX: &'static str = "__cjs:";

/// Prefix that makes the loader take a module as CommonJS.
pub const CJS_LOADER_PREFIX: &'static str = "__cjsm:";

/// `__cjs:` as characters.
pub open spec fn cjs_import_prefix() -> Seq<char> {
    seq!['_', '_', 'c', 'j', 's', ':']
}

/// `__cjsm:` as characters.
pub open spec fn cjs_loader_prefix() -> Seq<char> {
    seq!['_', '_', 'c', 'j', 's', 'm', ':']
}

/// `.lrt` as characters.
pub open spec fn bytecode_ext_chars() -> Seq<char> {
    seq!['.', 'l', 'r', 't']
}

/// What `normalize_name` makes of a module name: whether it is a `.cjs`
/// import, whether it is to be loaded as CommonJS, the normalised name, and
/// the path to look the module up by.
pub open spec fn spec_normalize_name(name: Seq<char>) -> (bool, bool, Seq<char>, Seq<char>) {
    if !seq!['_', '_'].is_prefix_of(name) {
        (false, false, name, name)
    } else if cjs_import_prefix().is_prefix_of(name) {
        (true, false, name, name.skip(6))
    } else if cjs_loader_prefix().is_prefix_of(name) {
        (false, true, name.skip(7), name.skip(7))
    } else {
        (false, false, name, name)
    }
}

/// The compiled module that the cache holds for the module `name`.
pub open spec fn spec_cached_module(name: Seq<char>, cache: Map<Seq<char>, Seq<u8>>) -> Option<Seq<u8>> {
    let path = spec_normalize_name(name).3;
    if cache.contains_key(path) {
        Some(cache[path])
    } else {
        None
    }
}

/// Where a module is to be loaded from.
pub enum ModuleSource<'a> {
    /// The compiled module cached under `path`.
    Cached { path: &'a str, bytecode: &'a Vec<u8> },
    /// The file at `path`, to be taken as a compiled module when `compiled`
    /// holds and refused otherwise.
    File { path: &'a str, compiled: bool },
}

/// The names under which a self-contained executable's program is cached.
pub open spec fn main_key() -> Seq<char> {
    seq!['m', 'a', 'i', 'n']
}

/// See `main_key`.
pub open spec fn main_js_key() -> Seq<char> {
    seq!['m', 'a', 'i', 'n', '.', 'j', 's']
}

/// The program of a self-contained executable: the compiled module in its
/// trailer, made into bytecode.
pub open spec fn spec_embedded_program(dictionary: Seq<u8>, content: Seq<u8>) -> Option<Seq<u8>> {
    match spec_loader_payload(content) {
        Some(module) => match spec_module_bytecode(dictionary, module) {
            Ok(bytecode) => Some(bytecode),
            Err(_) => None,
        },
        None => None,
    }
}

/// The cache after the program of a self-contained executable was stored in it.
pub open spec fn with_program(cache: Map<Seq<char>, Seq<u8>>, program: Seq<u8>) -> Map<Seq<char>, Seq<u8>> {
    cache.insert(main_key(), program).insert(main_js_key(), program)
}

impl EmbeddedLoader {
    /// Splits the CommonJS prefixes off a module name; see `spec_normalize_name`.
    pub fn normalize_name(name: &str) -> (res: (bool, bool, &str, &str))
        ensures
            (res.0, res.1, res.2@, res.3@) == spec_normalize_name(name@),
    {
        proof {
            reveal_strlit("__");
            reveal_strlit("__cjs:");
            reveal_strlit("__cjsm:");
            assert("__"@ =~= seq!['_', '_']);
            assert("__cjs:"@ =~= cjs_import_prefix());
            assert("__cjsm:"@ =~= cjs_loader_prefix());
        }
        if !starts_with(name, "__") {
            return (false, false, name, name);
        }
        if let Some(cjs_path) = strip_prefix(name, "__cjs:") {
            return (true, false, name, cjs_path);
        }
        if let Some(cjs_path) = strip_prefix(name, "__cjsm:") {
            return (false, true, cjs_path, cjs_path);
        }
        (false, false, name, name)
    }

    /// Decides where the module `name` is loaded from: the cache entry under
    /// its path, where `cache` (the cache, if it could be read) has one, and
    /// otherwise the file at its path, compiled where the normalised name ends
    /// with `.lrt`.
    pub fn load_module<'a>(name: &'a str, cache: Option<&'a BytecodeCache>) -> (res: ModuleSource<'a>)
        ensures
            ({
                let (_, _, normalized, path) = spec_normalize_name(name@);
                let cached = match cache {
                    Some(c) => spec_cached_module(name@, c@),
                    None => None,
                };
                match res {
                    ModuleSource::Cached { path: p, bytecode } =>
                        p@ == path && cached == Some(bytecode@),
                    ModuleSource::File { path: p, compiled } =>
                        p@ == path && cached is None && compiled == bytecode_ext_chars().is_suffix_of(normalized),
                }
            }),
    {
        let (_, _, normalized_name, path) = Self::normalize_name(name);
        if let Some(c) = cache {
            if let Some(bytes) = c.get(path) {
                return ModuleSource::Cached { path, bytecode: bytes };
            }
        }
        proof {
            reveal_strlit(".lrt");
            assert(".lrt"@ =~= bytecode_ext_chars());
        }
        let compiled = ends_with(normalized_name, ".lrt");
        ModuleSource::File { path, compiled }
    }
}

/// Stores a program under the names `main` and `main.js`.
pub fn store_program(cache: &mut BytecodeCache, program: Vec<u8>)
    ensures
        final(cache)@ == with_program(old(cache)@, program@),
{
    proof {
        reveal_strlit("main");
        reveal_strlit("main.js");
        assert("main"@ =~= main_key());
        assert("main.js"@ =~= main_js_key());
    }
    let copy = slice_to_vec(program.as_slice());
    cache.insert("main".to_owned(), copy);
    cache.insert("main.js".to_owned(), program);
}

/// Takes the compiled module from the trailer of a self-contained executable
/// (`exe_content`), makes it into bytecode with `dictionary`, and caches that
/// under `main` and `main.js`. Returns whether it did; where it did not (no
/// marker, a size out of bounds, a module that yields no bytecode), the cache
/// is left as it was.
pub fn load_embedded_executable_bytecode(exe_content: &[u8], dictionary: &[u8], cache: &mut BytecodeCache) -> (res: bool)
    ensures
        match spec_embedded_program(dictionary@, exe_content@) {
            Some(program) => res && final(cache)@ == with_program(old(cache)@, program),
            None => !res && final(cache)@ == old(cache)@,
        },
        final(cache)@ == after_loading(old(cache)@, dictionary@, exe_content@),
{
    if let Some(module) = loader_payload(exe_content) {
        if let Ok(bytecode) = EmbeddedLoader::get_module_bytecode(dictionary, module) {
            store_program(cache, bytecode);
            return true;
        }
    }
    false
}

/// A module name that does not start with `__` is its own path, and the
/// path of any name is what is left of it after at most one prefix.
pub proof fn lemma_normalized_path(name: Seq<char>)
    ensures
        spec_normalize_name(name).3.is_suffix_of(name),
        !seq!['_', '_'].is_prefix_of(name) ==> spec_normalize_name(name) == (false, false, name, name),
{
    let path = spec_normalize_name(name).3;
    assert(path =~= name.subrange(name.len() - path.len(), name.len() as int));
}

/// Once the program of a self-contained executable is stored, loading the
/// module `main` or `main.js` finds exactly that program in the cache, and
/// every other module finds what it found before.
pub proof fn lemma_program_is_found(cache: Map<Seq<char>, Seq<u8>>, program: Seq<u8>, other: Seq<char>)
    ensures
        spec_cached_module(main_key(), with_program(cache, program)) == Some(program),
        spec_cached_module(main_js_key(), with_program(cache, program)) == Some(program),
        spec_normalize_name(other).3 != main_key() && spec_normalize_name(other).3 != main_js_key()
            ==> spec_cached_module(other, with_program(cache, program)) == spec_cached_module(other, cache),
{
    assert(!seq!['_', '_'].is_prefix_of(main_key())) by {
        assert(main_key().subrange(0, 2)[0] == 'm');
    }
    assert(!seq!['_', '_'].is_prefix_of(main_js_key())) by {
        assert(main_js_key().subrange(0, 2)[0] == 'm');
    }
    assert(main_key() != main_js_key()) by {
        assert(main_key().len() != main_js_key().len());
    }
}

/// A self-contained executable whose trailer holds an uncompressed module
/// gives back that module's bytecode as its program.
pub proof fn lemma_uncompressed_program_roundtrip(dictionary: Seq<u8>, runtime: Seq<u8>, body: Seq<u8>)
    requires
        runtime.len() + body.len() + 6 + 16 <= usize::MAX,
    ensures
        spec_embedded_program(dictionary, with_trailer(runtime, uncompressed_header() + body)) == Some(body),
{
    let module = uncompressed_header() + body;
    lemma_loader_reads_back_module(runtime, module);
    lemma_uncompressed_module(dictionary, body);
}

/// A self-contained executable whose trailer holds a compressed module gives
/// back, as its program, what the module's frames decompress to, where that
/// fits the size recorded in the module.
pub proof fn lemma_compressed_program_roundtrip(dictionary: Seq<u8>, runtime: Seq<u8>, size: u32, frames: Seq<u8>)
    requires
        runtime.len() + frames.len() + 10 + 16 <= usize::MAX,
    ensures
        spec_embedded_program(dictionary, with_trailer(runtime, compressed_header() + spec_u32_to_le_bytes(size) + frames))
            == match zstd_decompressed(dictionary, frames) {
                Some(out) => if out.len() <= size { Some(out) } else { None },
                None => None,
            },
{
    lemma_auto_spec_u32_to_from_le_bytes();
    let module = compressed_header() + spec_u32_to_le_bytes(size) + frames;
    assert(module.len() == frames.len() + 10);
    lemma_loader_reads_back_module(runtime, module);
    lemma_compressed_module(dictionary, size, frames);
}

/// The cache after the program of the self-contained executable `content` was
/// loaded into it: with the program under `main` and `main.js` where there is
/// one, and as it was otherwise.
pub open spec fn after_loading(cache: Map<Seq<char>, Seq<u8>>, dictionary: Seq<u8>, content: Seq<u8>) -> Map<Seq<char>, Seq<u8>> {
    match spec_embedded_program(dictionary, content) {
        Some(program) => with_program(cache, program),
        None => cache,
    }
}

/// Loading the program of the same executable twice leaves the cache as
/// loading it once does.
pub proof fn lemma_loading_twice_is_loading_once(cache: Map<Seq<char>, Seq<u8>>, dictionary: Seq<u8>, content: Seq<u8>)
    ensures
        after_loading(after_loading(cache, dictionary, content), dictionary, content)
            == after_loading(cache, dictionary, content),
{
    if let Some(program) = spec_embedded_program(dictionary, content) {
        assert(with_program(with_program(cache, program), program) =~= with_program(cache, program));
    }
}

/// A compressed module whose recorded size is the length of what its frames
/// decompress to yields exactly that: where the frames are what compressing
/// `body` with the dictionary gives (zstd decodes what it encoded), the module
/// yields `body`.
pub proof fn lemma_compressed_module_yields_body(dictionary: Seq<u8>, body: Seq<u8>, frames: Seq<u8>)
    requires
        body.len() <= u32::MAX,
        zstd_decompressed(dictionary, frames) == Some(body),
    ensures
        spec_module_bytecode(dictionary, compressed_header() + spec_u32_to_le_bytes(body.len() as u32) + frames)
            == Ok::<Seq<u8>, Option<HeaderError>>(body),
{
    lemma_compressed_module(dictionary, body.len() as u32, frames);
}

/// A module is looked up in the cache by its path: a name with a leading
/// `__cjs:` or `__cjsm:` finds what the cache holds under the name without that
/// prefix, and a name that does not start with `__` finds what the cache holds
/// under the name itself.
pub proof fn lemma_cache_lookup_by_path(path: Seq<char>, cache: Map<Seq<char>, Seq<u8>>)
    ensures
        spec_cached_module(cjs_import_prefix() + path, cache)
            == (if cache.contains_key(path) { Some(cache[path]) } else { None }),
        spec_cached_module(cjs_loader_prefix() + path, cache)
            == (if cache.contains_key(path) { Some(cache[path]) } else { None }),
        !seq!['_', '_'].is_prefix_of(path) ==> spec_cached_module(path, cache)
            == (if cache.contains_key(path) { Some(cache[path]) } else { None }),
{
    let a = cjs_import_prefix() + path;
    assert(a.subrange(0, 2) =~= seq!['_', '_']);
    assert(a.subrange(0, 6) =~= cjs_import_prefix());
    assert(a.skip(6) =~= path);
    let b = cjs_loader_prefix() + path;
    assert(b.subrange(0, 2) =~= seq!['_', '_']);
    assert(b.subrange(0, 7) =~= cjs_loader_prefix());
    assert(!cjs_import_prefix().is_prefix_of(b)) by {
        assert(b[5] == 'm');
        if cjs_import_prefix().is_prefix_of(b) {
            assert(b.subrange(0, 6)[5] == cjs_import_prefix()[5]);
        }
    }
    assert(b.skip(7) =~= path);
}

} // verus!
