use llrt_core::cache::BytecodeCache;
use llrt_core::loader::{load_embedded_executable_bytecode, store_program, EmbeddedLoader, ModuleSource, CJS_IMPORT_PREFIX, CJS_LOADER_PREFIX};

fn trailer(runtime: &[u8], module: &[u8]) -> Vec<u8> {
    let mut out = runtime.to_vec();
    out.extend_from_slice(module);
    out.extend_from_slice(&(module.len() as u64).to_le_bytes());
    out.extend_from_slice(b"LLRT_EXE");
    out
}

#[test]
fn prefixes() {
    assert_eq!(CJS_IMPORT_PREFIX, "__cjs:");
    assert_eq!(CJS_LOADER_PREFIX, "__cjsm:");
}

#[test]
fn normalize_plain_name() {
    assert_eq!(EmbeddedLoader::normalize_name("main.js"), (false, false, "main.js", "main.js"));
    assert_eq!(EmbeddedLoader::normalize_name(""), (false, false, "", ""));
}

#[test]
fn normalize_cjs_import() {
    assert_eq!(EmbeddedLoader::normalize_name("__cjs:lib/a.cjs"), (true, false, "__cjs:lib/a.cjs", "lib/a.cjs"));
}

#[test]
fn normalize_cjs_loader() {
    assert_eq!(EmbeddedLoader::normalize_name("__cjsm:lib/a.js"), (false, true, "lib/a.js", "lib/a.js"));
}

#[test]
fn normalize_other_double_underscore() {
    assert_eq!(EmbeddedLoader::normalize_name("__other"), (false, false, "__other", "__other"));
    assert_eq!(EmbeddedLoader::normalize_name("__cjs"), (false, false, "__cjs", "__cjs"));
}

#[test]
fn normalize_non_ascii_name() {
    assert_eq!(EmbeddedLoader::normalize_name("__cjs:é/ü.js"), (true, false, "__cjs:é/ü.js", "é/ü.js"));
}

#[test]
fn load_module_from_cache() {
    let mut cache = BytecodeCache::new();
    cache.insert("lib/a.js".to_string(), vec![1, 2, 3]);
    match EmbeddedLoader::load_module("__cjsm:lib/a.js", Some(&cache)) {
        ModuleSource::Cached { path, bytecode } => {
            assert_eq!(path, "lib/a.js");
            assert_eq!(bytecode, &vec![1, 2, 3]);
        }
        ModuleSource::File { .. } => panic!("expected the cache"),
    }
}

#[test]
fn load_module_from_compiled_file() {
    let cache = BytecodeCache::new();
    match EmbeddedLoader::load_module("dist/app.lrt", Some(&cache)) {
        ModuleSource::File { path, compiled } => {
            assert_eq!(path, "dist/app.lrt");
            assert!(compiled);
        }
        ModuleSource::Cached { .. } => panic!("expected a file"),
    }
}

#[test]
fn load_module_from_other_file() {
    match EmbeddedLoader::load_module("dist/app.js", None) {
        ModuleSource::File { path, compiled } => {
            assert_eq!(path, "dist/app.js");
            assert!(!compiled);
        }
        ModuleSource::Cached { .. } => panic!("expected a file"),
    }
}

#[test]
fn load_module_extension_of_normalized_name() {
    // the path drops `__cjs:`, the normalised name keeps it; `.lrt` is looked for in the latter
    match EmbeddedLoader::load_module("__cjs:x.lrt", None) {
        ModuleSource::File { path, compiled } => {
            assert_eq!(path, "x.lrt");
            assert!(compiled);
        }
        ModuleSource::Cached { .. } => panic!("expected a file"),
    }
}

#[test]
fn load_module_without_readable_cache() {
    let mut cache = BytecodeCache::new();
    cache.insert("a.js".to_string(), vec![1]);
    assert!(matches!(EmbeddedLoader::load_module("a.js", Some(&cache)), ModuleSource::Cached { .. }));
    assert!(matches!(EmbeddedLoader::load_module("a.js", None), ModuleSource::File { compiled: false, .. }));
}

#[test]
fn store_program_under_both_names() {
    let mut cache = BytecodeCache::new();
    cache.insert("other".to_string(), vec![9]);
    store_program(&mut cache, vec![4, 5]);
    assert_eq!(cache.get("main"), Some(&vec![4, 5]));
    assert_eq!(cache.get("main.js"), Some(&vec![4, 5]));
    assert_eq!(cache.get("other"), Some(&vec![9]));
    assert_eq!(cache.len(), 3);
}

#[test]
fn embedded_program_is_found_by_main() {
    let module = b"lrt01uPROGRAM".to_vec();
    let exe = trailer(b"\x7fELF runtime bytes", &module);
    let mut cache = BytecodeCache::new();
    assert!(load_embedded_executable_bytecode(&exe, b"", &mut cache));
    assert_eq!(cache.get("main"), Some(&b"PROGRAM".to_vec()));
    match EmbeddedLoader::load_module("main", Some(&cache)) {
        ModuleSource::Cached { path, bytecode } => {
            assert_eq!(path, "main");
            assert_eq!(bytecode, &b"PROGRAM".to_vec());
        }
        ModuleSource::File { .. } => panic!("expected the cache"),
    }
    assert!(matches!(EmbeddedLoader::load_module("main.js", Some(&cache)), ModuleSource::Cached { .. }));
}

#[test]
fn embedded_program_compressed() {
    let dict: &[u8] = b"console.log('dictionary content for the test')";
    let program = b"console.log('hello from a self-contained executable')".to_vec();
    let frames = zstd::bulk::Compressor::with_dictionary(3, dict).unwrap().compress(&program).unwrap();
    let mut module = b"lrt01c".to_vec();
    module.extend_from_slice(&(program.len() as u32).to_le_bytes());
    module.extend_from_slice(&frames);
    let exe = trailer(b"runtime", &module);
    let mut cache = BytecodeCache::new();
    assert!(load_embedded_executable_bytecode(&exe, dict, &mut cache));
    assert_eq!(cache.get("main.js"), Some(&program));
}

#[test]
fn no_embedded_program_leaves_cache() {
    let mut cache = BytecodeCache::new();
    cache.insert("main".to_string(), vec![1]);
    assert!(!load_embedded_executable_bytecode(b"just a plain binary without trailer", b"", &mut cache));
    assert_eq!(cache.get("main"), Some(&vec![1]));
    assert_eq!(cache.len(), 1);
}

#[test]
fn bad_embedded_module_leaves_cache() {
    let exe = trailer(b"runtime", b"not a module");
    let mut cache = BytecodeCache::new();
    assert!(!load_embedded_executable_bytecode(&exe, b"", &mut cache));
    assert_eq!(cache.len(), 0);
}

#[test]
fn size_past_the_start_leaves_cache() {
    let mut exe = b"runtime".to_vec();
    exe.extend_from_slice(b"lrt01uX");
    exe.extend_from_slice(&20u64.to_le_bytes());
    exe.extend_from_slice(b"LLRT_EXE");
    let mut cache = BytecodeCache::new();
    cache.insert("main".to_string(), vec![7]);
    assert!(!load_embedded_executable_bytecode(&exe, b"", &mut cache));
    assert_eq!(cache.get("main"), Some(&vec![7]));
    assert_eq!(cache.len(), 1);
}

#[test]
fn loading_twice_is_loading_once() {
    let exe = trailer(b"runtime", b"lrt01uPROGRAM");
    let mut once = BytecodeCache::new();
    once.insert("lib.js".to_string(), vec![1]);
    assert!(load_embedded_executable_bytecode(&exe, b"", &mut once));
    let mut twice = BytecodeCache::new();
    twice.insert("lib.js".to_string(), vec![1]);
    assert!(load_embedded_executable_bytecode(&exe, b"", &mut twice));
    assert!(load_embedded_executable_bytecode(&exe, b"", &mut twice));
    for name in ["main", "main.js", "lib.js", "other"] {
        assert_eq!(once.get(name), twice.get(name));
    }
    assert_eq!(once.len(), twice.len());
}
