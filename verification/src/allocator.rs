//! Addresses of a heap that is mapped at different places: the heap works
//! on offsets from the start of the data, which are the same in every
//! address space, and a pointer is an offset plus the place where the data
//! is mapped.

use crate::percpu::configured_cpus;
use vstd::prelude::*;

verus! {

pub const PAGE_SIZE: usize = 0x1000;

/// Distance of the data from the start of the window in which the code
/// lies; the heap starts at this offset.
pub const DATA_OFFSET: usize = 0x1000;

/// Size of the window, aligned to its own size, in which the code lies.
pub const CODE_WINDOW: usize = 0x4000_0000;

/// The place of the data for code that runs at `pc`: the start of the
/// window of `pc`, less `DATA_OFFSET`.
pub open spec fn data_base_at(pc: int) -> int {
    pc - pc % (CODE_WINDOW as int) - DATA_OFFSET
}

/// The pointer that stands for `offset` where the data is mapped at `base`.
pub open spec fn pointer_at(offset: int, base: int) -> int {
    offset + base
}

/// The offset for which `ptr` stands where the data is mapped at `base`.
pub open spec fn offset_at(ptr: int, base: int) -> int {
    ptr - base
}

/// Number of bytes of heap for `cpus` CPUs: four pages each.
pub open spec fn heap_bytes(cpus: int) -> int {
    4 * PAGE_SIZE * cpus
}

/// Where the data is mapped, found from the program counter `pc` of the
/// code that asks.
pub fn get_data_base(pc: usize) -> (base: usize)
    requires
        pc >= CODE_WINDOW,
    ensures
        base == data_base_at(pc as int),
{
    let window = pc & !(CODE_WINDOW - 1);
    assert(window == pc - pc % 0x4000_0000 && window >= 0x4000_0000) by (bit_vector)
        requires
            window == pc & !((0x4000_0000usize - 1) as usize),
            pc >= 0x4000_0000usize,
    ;
    window - DATA_OFFSET
}

/// The pointer to hand out for the offset that the heap chose.
pub fn offset_to_pointer(offset: usize, base: usize) -> (ptr: usize)
    requires
        offset + base <= usize::MAX,
    ensures
        ptr == pointer_at(offset as int, base as int),
{
    offset + base
}

/// The offset to hand back to the heap for a pointer that was handed out.
pub fn pointer_to_offset(ptr: usize, base: usize) -> (offset: usize)
    requires
        ptr >= base,
    ensures
        offset == offset_at(ptr as int, base as int),
{
    ptr - base
}

/// Size of the heap for `cpus` CPUs.
pub fn heap_size(cpus: usize) -> (bytes: usize)
    requires
        heap_bytes(cpus as int) <= usize::MAX,
    ensures
        bytes == heap_bytes(cpus as int),
{
    4 * PAGE_SIZE * cpus
}

/// Size of the heap for `cpus` CPUs where a machine word holds it, `None`
/// where it does not.
pub open spec fn heap_size_for(cpus: int) -> Option<usize> {
    if heap_bytes(cpus) <= usize::MAX {
        Some(heap_bytes(cpus) as usize)
    } else {
        None
    }
}

/// Size of the heap for `cpus` CPUs, `None` where a machine word does not
/// hold it.
pub fn checked_heap_size(cpus: usize) -> (bytes: Option<usize>)
    ensures
        bytes is Some <==> heap_bytes(cpus as int) <= usize::MAX,
        bytes is Some ==> bytes->0 == heap_bytes(cpus as int),
        bytes == heap_size_for(cpus as int),
{
    if cpus <= usize::MAX / (4 * PAGE_SIZE) {
        Some(heap_size(cpus))
    } else {
        None
    }
}

/// Size of the heap for the CPUs of the platform configuration: what
/// `checked_heap_size` gives for the number of CPUs that the configuration
/// has.
pub fn configured_heap_size() -> (bytes: Option<usize>)
    ensures
        exists|cpus: usize| bytes == #[trigger] heap_size_for(cpus as int),
{
    let cpus = configured_cpus();
    let bytes = checked_heap_size(cpus);
    assert(bytes == heap_size_for(cpus as int));
    bytes
}

/// A pointer that one address space made from an offset gives that offset
/// back in the same address space, whatever the place of the data there: the
/// offset is what all address spaces share.
pub proof fn lemma_offset_round_trip(offset: int, base: int, other_base: int)
    ensures
        offset_at(pointer_at(offset, base), base) == offset,
        offset_at(pointer_at(offset, base), base) == offset_at(pointer_at(offset, other_base), other_base),
        pointer_at(offset_at(pointer_at(offset, base), base), other_base) == pointer_at(offset, other_base),
{
}

/// The place of the data is the same for all code of one window, and it
/// lies `DATA_OFFSET` bytes before the window.
pub proof fn lemma_data_base_of_window(pc: int, other_pc: int)
    requires
        0 <= pc,
        0 <= other_pc,
        pc / (CODE_WINDOW as int) == other_pc / (CODE_WINDOW as int),
    ensures
        data_base_at(pc) == data_base_at(other_pc),
        data_base_at(pc) + DATA_OFFSET <= pc < data_base_at(pc) + DATA_OFFSET + CODE_WINDOW,
        (data_base_at(pc) + DATA_OFFSET) % (CODE_WINDOW as int) == 0,
{
    let w = CODE_WINDOW as int;
    assert(pc == w * (pc / w) + pc % w) by (nonlinear_arith)
        requires
            w > 0,
    ;
    assert(other_pc == w * (other_pc / w) + other_pc % w) by (nonlinear_arith)
        requires
            w > 0,
    ;
    assert(0 <= pc % w < w);
    assert((w * (pc / w)) % w == 0) by (nonlinear_arith)
        requires
            w > 0,
    ;
}

} // verus!
