//! Where the data of each CPU lies: one slot per CPU in one contiguous
//! area, every slot a multiple of 64 bytes.

use vstd::prelude::*;

verus! {

/// The least multiple of 64 that is not below `val`.
pub open spec fn aligned_up_64(val: int) -> int {
    ((val + 63) / 64) * 64
}

/// Offset of the slot of `cpu_id` from the start of the area, for data of
/// `size` bytes per CPU.
pub open spec fn slot_offset(cpu_id: int, size: int) -> int {
    cpu_id * aligned_up_64(size)
}

/// Rounds `val` up to a multiple of 64.
pub fn align_up_64(val: usize) -> (aligned: usize)
    requires
        val + 63 <= usize::MAX,
    ensures
        aligned == aligned_up_64(val as int),
        aligned % 64 == 0,
        val <= aligned < val + 64,
{
    let sum: usize = val + 63;
    assert(sum & !63usize == (sum / 64) * 64 && (sum / 64) * 64 % 64 == 0 && sum - 63 <= (sum / 64) * 64
        <= sum) by (bit_vector)
        requires
            sum >= 63,
    ;
    sum & !63usize
}

/// The number of CPUs of the platform configuration, as
/// `axconfig::plat::MAX_CPU_NUM` gives it. The value is fixed when the
/// configuration is built; nothing is claimed of it.
#[verifier::external_body]
pub(crate) fn configured_cpus() -> usize {
    axconfig::plat::MAX_CPU_NUM
}

/// Size in bytes of the area that holds one slot for each of `cpus` CPUs.
pub fn percpu_area_size(size: usize, cpus: usize) -> (total: usize)
    requires
        slot_offset(cpus as int, size as int) <= usize::MAX,
        size + 63 <= usize::MAX,
    ensures
        total == slot_offset(cpus as int, size as int),
{
    let slot = align_up_64(size);
    assert(cpus * slot == slot * cpus) by (nonlinear_arith);
    slot * cpus
}

/// Size in bytes of the area for `cpus` CPUs where a machine word holds
/// it, `None` where it does not.
pub open spec fn area_size_for(size: int, cpus: int) -> Option<usize> {
    if size + 63 <= usize::MAX && slot_offset(cpus, size) <= usize::MAX {
        Some(slot_offset(cpus, size) as usize)
    } else {
        None
    }
}

/// Size in bytes of the area that holds one slot for each of `cpus` CPUs,
/// `None` where a machine word does not hold the size of a slot or of the
/// area.
pub fn checked_percpu_area_size(size: usize, cpus: usize) -> (total: Option<usize>)
    ensures
        total is Some <==> size + 63 <= usize::MAX && slot_offset(cpus as int, size as int) <= usize::MAX,
        total is Some ==> total->0 == slot_offset(cpus as int, size as int),
        total == area_size_for(size as int, cpus as int),
{
    if size > usize::MAX - 63 {
        return None;
    }
    let slot = align_up_64(size);
    assert(cpus * slot == slot * cpus) by (nonlinear_arith);
    match slot.checked_mul(cpus) {
        Some(_) => Some(percpu_area_size(size, cpus)),
        None => None,
    }
}

/// Size in bytes of the area for the CPUs of the platform configuration:
/// what `checked_percpu_area_size` gives for the number of CPUs that the
/// configuration has. Data too large for a slot gives `None` and no data
/// gives an empty area, whatever that number is.
pub fn configured_percpu_area_size(size: usize) -> (total: Option<usize>)
    ensures
        size + 63 > usize::MAX ==> total is None,
        size == 0 ==> total == Some(0usize),
        exists|cpus: usize| total == #[trigger] area_size_for(size as int, cpus as int),
{
    let cpus = configured_cpus();
    let total = checked_percpu_area_size(size, cpus);
    assert(total == area_size_for(size as int, cpus as int));
    assert(size == 0 ==> slot_offset(cpus as int, size as int) == 0) by (nonlinear_arith)
        requires
            size == 0 ==> aligned_up_64(size as int) == 0,
            slot_offset(cpus as int, size as int) == cpus * aligned_up_64(size as int),
    ;
    total
}

/// Whether the slot of `cpu_id`, in the area that starts at `base`, starts
/// at an address of the machine.
pub open spec fn slot_fits(base: int, cpu_id: int, size: int) -> bool {
    size + 63 <= usize::MAX && base + slot_offset(cpu_id, size) <= usize::MAX
}

/// Address of the slot of `cpu_id` in the area that starts at `base`,
/// `None` where the machine has no such address.
pub fn percpu_address(base: usize, cpu_id: usize, size: usize) -> (addr: Option<usize>)
    ensures
        addr is Some <==> slot_fits(base as int, cpu_id as int, size as int),
        addr is Some ==> addr->0 == base + slot_offset(cpu_id as int, size as int),
{
    if size > usize::MAX - 63 {
        return None;
    }
    let slot = align_up_64(size);
    match cpu_id.checked_mul(slot) {
        Some(offset) => base.checked_add(offset),
        None => None,
    }
}

/// Addresses of the slots of the CPUs `0 .. cpus`, in that order, `None`
/// where the machine has no such address for one of them.
pub fn percpu_addresses(base: usize, size: usize, cpus: usize) -> (addrs: Option<Vec<usize>>)
    ensures
        addrs is Some <==> forall|i: int| 0 <= i < cpus ==> slot_fits(base as int, i, size as int),
        addrs is Some ==> addrs->0.len() == cpus && forall|i: int|
            0 <= i < cpus ==> #[trigger] addrs->0[i] == base + slot_offset(i, size as int),
{
    let mut addrs: Vec<usize> = Vec::new();
    let mut i: usize = 0;
    while i < cpus
        invariant
            i <= cpus,
            addrs.len() == i,
            forall|j: int| 0 <= j < i ==> slot_fits(base as int, j, size as int),
            forall|j: int| 0 <= j < i ==> #[trigger] addrs[j] == base + slot_offset(j, size as int),
        decreases cpus - i,
    {
        match percpu_address(base, i, size) {
            Some(addr) => addrs.push(addr),
            None => {
                assert(!slot_fits(base as int, i as int, size as int));
                return None;
            },
        }
        i += 1;
    }
    Some(addrs)
}

/// Every slot starts at a multiple of 64 bytes from the start of the area
/// and has room for the data of one CPU.
pub proof fn lemma_slot_aligned(cpu_id: int, size: int)
    requires
        0 <= cpu_id,
        0 <= size,
    ensures
        slot_offset(cpu_id, size) % 64 == 0,
        size <= aligned_up_64(size) < size + 64,
        aligned_up_64(size) % 64 == 0,
{
    let slots = (size + 63) / 64;
    assert(cpu_id * (slots * 64) == (cpu_id * slots) * 64) by (nonlinear_arith);
    assert(((cpu_id * slots) * 64) % 64 == 0) by (nonlinear_arith);
    assert((slots * 64) % 64 == 0) by (nonlinear_arith);
}

/// The slots of two CPUs do not overlap: that of the lower CPU ends before
/// that of the higher one starts.
pub proof fn lemma_slots_disjoint(lower: int, higher: int, size: int)
    requires
        0 <= lower < higher,
        0 <= size,
    ensures
        slot_offset(lower, size) + size <= slot_offset(higher, size),
{
    lemma_slot_aligned(lower, size);
    let slot = aligned_up_64(size);
    assert((lower + 1) * slot <= higher * slot) by (nonlinear_arith)
        requires
            lower + 1 <= higher,
            0 <= slot,
    ;
    assert((lower + 1) * slot == lower * slot + slot) by (nonlinear_arith);
}

/// The slot of every CPU below `cpus` lies within the area for `cpus`
/// CPUs.
pub proof fn lemma_slot_inside_area(cpu_id: int, cpus: int, size: int)
    requires
        0 <= cpu_id < cpus,
        0 <= size,
    ensures
        0 <= slot_offset(cpu_id, size),
        slot_offset(cpu_id, size) + size <= slot_offset(cpus, size),
{
    lemma_slots_disjoint(cpu_id, cpus, size);
    lemma_slot_aligned(cpu_id, size);
    let slot = aligned_up_64(size);
    assert(0 <= cpu_id * slot) by (nonlinear_arith)
        requires
            0 <= cpu_id,
            0 <= slot,
    ;
}

} // verus!
