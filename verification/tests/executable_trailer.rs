use llrt_core::executable::{loader_payload, runner_payload, trailer_size, MARKER_LENGTH};

fn exe(runtime: &[u8], module: &[u8], recorded: u64) -> Vec<u8> {
    let mut out = runtime.to_vec();
    out.extend_from_slice(module);
    out.extend_from_slice(&recorded.to_le_bytes());
    out.extend_from_slice(b"LLRT_EXE");
    out
}

#[test]
fn marker_length() {
    assert_eq!(MARKER_LENGTH, b"LLRT_EXE".len());
}

#[test]
fn loader_reads_back_module() {
    let content = exe(b"runtime", b"lrt01uABC", 9);
    assert_eq!(trailer_size(&content), Some(9));
    assert_eq!(loader_payload(&content), Some(&b"lrt01uABC"[..]));
}

#[test]
fn loader_reads_module_without_runtime() {
    let content = exe(b"", b"M", 1);
    assert_eq!(loader_payload(&content), Some(&b"M"[..]));
}

#[test]
fn no_marker() {
    let mut content = exe(b"runtime", b"module", 6);
    let last = content.len() - 1;
    content[last] = b'X';
    assert_eq!(trailer_size(&content), None);
    assert_eq!(loader_payload(&content), None);
    assert_eq!(runner_payload(&content), None);
}

#[test]
fn too_short_for_a_trailer() {
    // exactly marker and size field: not more than 16 bytes
    let content = exe(b"", b"", 0);
    assert_eq!(content.len(), 16);
    assert_eq!(trailer_size(&content), None);
    assert_eq!(runner_payload(&content), None);
}

#[test]
fn loader_refuses_empty_module() {
    let content = exe(b"runtime", b"", 0);
    assert_eq!(trailer_size(&content), Some(0));
    assert_eq!(loader_payload(&content), None);
}

#[test]
fn runner_takes_empty_module() {
    let content = exe(b"runtime", b"", 0);
    assert_eq!(runner_payload(&content), Some(&b""[..]));
}

#[test]
fn loader_refuses_size_not_below_length() {
    let content = exe(b"runtime", b"module", 1000);
    assert_eq!(loader_payload(&content), None);
    assert_eq!(runner_payload(&content), None);
}

#[test]
fn size_reaching_past_the_start() {
    // 7 + 6 + 16 = 29 bytes; a recorded size of 20 is below the length but
    // does not fit before the size field
    let content = exe(b"runtime", b"module", 20);
    assert_eq!(trailer_size(&content), Some(20));
    assert_eq!(loader_payload(&content), None);
    assert_eq!(runner_payload(&content), None);
}

#[test]
fn recorded_size_smaller_than_module() {
    let content = exe(b"runtime", b"module", 3);
    assert_eq!(loader_payload(&content), Some(&b"ule"[..]));
    assert_eq!(runner_payload(&content), Some(&b"ule"[..]));
}

#[test]
fn size_exactly_filling_the_file() {
    // 13 bytes before the size field; a size of 13 starts at the first byte
    let content = exe(b"runtime", b"module", 13);
    assert_eq!(loader_payload(&content), Some(&b"runtimemodule"[..]));
    assert_eq!(runner_payload(&content), Some(&b"runtimemodule"[..]));
    let content = exe(b"runtime", b"module", 14);
    assert_eq!(loader_payload(&content), None);
    assert_eq!(runner_payload(&content), None);
}
