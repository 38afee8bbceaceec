//! The trailer of a self-contained executable:
//! `[runtime][compiled module][size: u64 le][LLRT_EXE]`.
use vstd::prelude::*;
use vstd::bytes::{spec_u64_from_le_bytes, spec_u64_to_le_bytes, u64_from_le_bytes, lemma_auto_spec_u64_to_from_le_bytes};

verus! {

/// Length of the marker that ends a self-contained executable.
pub const MARKER_LENGTH: usize = 8usize;

/// The marker `LLRT_EXE` as bytes.
pub open spec fn marker_bytes() -> Seq<u8> {
    seq![76u8, 76u8, 82u8, 84u8, 95u8, 69u8, 88u8, 69u8]
}

/// The size recorded in the trailer, where `content` is longer than marker
/// and size field together and ends with the marker.
pub open spec fn spec_trailer_size(content: Seq<u8>) -> Option<usize> {
    let len = content.len();
    if len > 16 && content.subrange(len - 8, len as int) == marker_bytes() {
        Some(spec_u64_from_le_bytes(content.subrange(len - 16, len - 8)) as usize)
    } else {
        None
    }
}

/// The `size` bytes that stand just before the size field.
pub open spec fn payload_before_trailer(content: Seq<u8>, size: usize) -> Seq<u8> {
    content.subrange(content.len() - 16 - size, content.len() - 16)
}

/// Whether `size` bytes fit between the start of the file and the size field.
pub open spec fn fits_before_trailer(content: Seq<u8>, size: usize) -> bool {
    size + 16 <= content.len()
}

/// The compiled module the loader finds in a self-contained executable: the
/// recorded size must be positive, below the length of the file, and fit
/// before the size field.
pub open spec fn spec_loader_payload(content: Seq<u8>) -> Option<Seq<u8>> {
    match spec_trailer_size(content) {
        Some(size) => if 0 < size && size < content.len() && fits_before_trailer(content, size) {
            Some(payload_before_trailer(content, size))
        } else {
            None
        },
        None => None,
    }
}

/// The compiled module the runner finds in a self-contained executable: the
/// recorded size must fit before the size field (an empty module is taken as
/// it is).
pub open spec fn spec_runner_payload(content: Seq<u8>) -> Option<Seq<u8>> {
    match spec_trailer_size(content) {
        Some(size) => if fits_before_trailer(content, size) {
            Some(payload_before_trailer(content, size))
        } else {
            None
        },
        None => None,
    }
}

/// A self-contained executable as the compiler lays it out.
pub open spec fn with_trailer(runtime: Seq<u8>, module: Seq<u8>) -> Seq<u8> {
    runtime + module + spec_u64_to_le_bytes(module.len() as u64) + marker_bytes()
}

/// The size in the trailer, if the content ends with the marker.
pub fn trailer_size(content: &[u8]) -> (res: Option<usize>)
    ensures
        res == spec_trailer_size(content@),
{
    let len = content.len();
    if len <= 16 {
        return None;
    }
    let m = len - 8;
    let is_marker = content[m] == 76u8 && content[m + 1] == 76u8 && content[m + 2] == 82u8
        && content[m + 3] == 84u8 && content[m + 4] == 95u8 && content[m + 5] == 69u8
        && content[m + 6] == 88u8 && content[m + 7] == 69u8;
    let ghost tail = content@.subrange(len - 8, len as int);
    if !is_marker {
        assert(tail != marker_bytes()) by {
            if tail == marker_bytes() {
                assert forall|i: int| 0 <= i < 8 implies content@[m + i] == marker_bytes()[i] by {
                    assert(tail[i] == marker_bytes()[i]);
                }
            }
        }
        return None;
    }
    assert(tail =~= marker_bytes());
    let size = u64_from_le_bytes(&content[len - 16..m]);
    Some(size as usize)
}

/// The compiled module that the loader takes from a self-contained executable:
/// the recorded number of bytes before the size field, where that number is
/// positive, below the length of the file, and fits before the size field.
pub fn loader_payload(content: &[u8]) -> (res: Option<&[u8]>)
    ensures
        match (res, spec_loader_payload(content@)) {
            (Some(p), Some(sp)) => p@ == sp,
            (None, None) => true,
            _ => false,
        },
{
    match trailer_size(content) {
        Some(size) => {
            let len = content.len();
            if 0 < size && size < len && size <= len - 16 {
                let start = len - 16 - size;
                Some(&content[start..len - 16])
            } else {
                None
            }
        },
        None => None,
    }
}

/// The compiled module that the runner takes from a self-contained executable:
/// the recorded number of bytes before the size field, where they fit there.
pub fn runner_payload(content: &[u8]) -> (res: Option<&[u8]>)
    ensures
        match (res, spec_runner_payload(content@)) {
            (Some(p), Some(sp)) => p@ == sp,
            (None, None) => true,
            _ => false,
        },
{
    match trailer_size(content) {
        Some(size) => {
            let len = content.len();
            if size <= len - 16 {
                Some(&content[len - 16 - size..len - 16])
            } else {
                None
            }
        },
        None => None,
    }
}

/// Reading back what the compiler writes: the size field of an executable laid
/// out as `[runtime][module][size][marker]` is the module's length.
pub proof fn lemma_trailer_size_of_layout(runtime: Seq<u8>, module: Seq<u8>)
    requires
        runtime.len() + module.len() + 16 <= usize::MAX,
        runtime.len() + module.len() > 0,
    ensures
        with_trailer(runtime, module).len() == runtime.len() + module.len() + 16,
        spec_trailer_size(with_trailer(runtime, module)) == Some(module.len() as usize),
        module.len() as usize == module.len(),
{
    lemma_auto_spec_u64_to_from_le_bytes();
    let size_bytes = spec_u64_to_le_bytes(module.len() as u64);
    let c = with_trailer(runtime, module);
    let len = c.len();
    assert(size_bytes.len() == 8);
    assert(c.subrange(len - 8, len as int) =~= marker_bytes());
    assert(c.subrange(len - 16, len - 8) =~= size_bytes);
}

/// The loader takes back the module that the compiler put into a
/// self-contained executable, whenever that module is not empty.
pub proof fn lemma_loader_reads_back_module(runtime: Seq<u8>, module: Seq<u8>)
    requires
        runtime.len() + module.len() + 16 <= usize::MAX,
        module.len() > 0,
    ensures
        spec_loader_payload(with_trailer(runtime, module)) == Some(module),
{
    lemma_trailer_size_of_layout(runtime, module);
    let c = with_trailer(runtime, module);
    assert(c =~= runtime + module + spec_u64_to_le_bytes(module.len() as u64) + marker_bytes());
    assert(c.subrange(0, (runtime.len() + module.len()) as int) =~= runtime + module);
    assert(payload_before_trailer(c, module.len() as usize) =~= module);
}

/// The runner takes back the module that the compiler put into a
/// self-contained executable, the empty one included.
pub proof fn lemma_runner_reads_back_module(runtime: Seq<u8>, module: Seq<u8>)
    requires
        runtime.len() + module.len() + 16 <= usize::MAX,
        runtime.len() + module.len() > 0,
    ensures
        spec_runner_payload(with_trailer(runtime, module)) == Some(module),
{
    lemma_trailer_size_of_layout(runtime, module);
    let c = with_trailer(runtime, module);
    assert(c =~= runtime + module + spec_u64_to_le_bytes(module.len() as u64) + marker_bytes());
    assert(c.subrange(0, (runtime.len() + module.len()) as int) =~= runtime + module);
    assert(payload_before_trailer(c, module.len() as usize) =~= module);
}

} // verus!
