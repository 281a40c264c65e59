//! Sv39 virtual-to-physical address translation.
//!
//! A three-level page-table walk over main memory: starting at the root table named by
//! `satp`, each level reads the 8-byte entry selected by the virtual page number of that
//! level. An entry without the V bit faults; an entry with R or X set is a leaf, whose
//! permission for the access is checked (and, above level 0, whose physical page number
//! must be aligned to the superpage); any other entry points to the next level's table.
//! Accessed/dirty bits are managed by software: a leaf whose A bit is clear, or whose D bit
//! is clear on a store, faults (the walk never sets them).
use vstd::prelude::*;
use crate::bus::Bus;
use crate::bus::ram::{RAM_BASE, RAM_OFFSET, RAM_SIZE};
use crate::cpu::Cpu;
use crate::memory::{le32, le64, load_w, lemma_le_pack};

verus! {

const PAGE_SIZE: u64 = 4096;

const PTE_V: u64 = 1;

const PTE_R: u64 = 2;

const PTE_W: u64 = 4;

const PTE_X: u64 = 8;

const PTE_A: u64 = 0x40;

const PTE_D: u64 = 0x80;

/// The `satp` mode that selects Sv39 translation.
pub const SATP_MODE_SV39: u64 = 8;

/// The privilege level (machine mode) whose accesses are never translated.
pub const PRIV_MACHINE: u64 = 3;

/// The kind of memory access being translated.
#[derive(Clone, Copy)]
pub enum AccessType {
    Fetch,
    Load,
    Store,
}

/// The exception cause of a page fault on an access of this kind: instruction page fault
/// (12), load page fault (13) or store page fault (15).
pub open spec fn page_fault_cause(access: AccessType) -> u64 {
    match access {
        AccessType::Fetch => 12,
        AccessType::Load => 13,
        AccessType::Store => 15,
    }
}

/// The translation mode: bits 63..60 of `satp`.
pub open spec fn satp_mode(satp: u64) -> int {
    satp as int / 0x1000_0000_0000_0000
}

/// The physical address of the root page table: the page number in bits 43..0 of `satp`.
pub open spec fn root_table(satp: u64) -> int {
    (satp as int % 0x1000_0000_0000) * 0x1000
}

/// The size of the region a leaf at `level` maps: 4 KiB, 2 MiB or 1 GiB.
pub open spec fn level_size(level: int) -> int {
    if level == 0 {
        0x1000
    } else if level == 1 {
        0x20_0000
    } else {
        0x4000_0000
    }
}

/// The 9-bit virtual page number of `vaddr` that indexes the table at `level`.
pub open spec fn vpn_index(vaddr: u64, level: int) -> int {
    (vaddr as int / level_size(level)) % 512
}

/// Bit `n` of `pte` (V 0, R 1, W 2, X 3, A 6, D 7).
pub open spec fn pte_bit(pte: int, n: int) -> bool {
    if n == 0 {
        pte % 2 == 1
    } else if n == 1 {
        (pte / 2) % 2 == 1
    } else if n == 2 {
        (pte / 4) % 2 == 1
    } else if n == 3 {
        (pte / 8) % 2 == 1
    } else if n == 6 {
        (pte / 0x40) % 2 == 1
    } else {
        (pte / 0x80) % 2 == 1
    }
}

/// The physical page number held in bits 53..10 of `pte`.
pub open spec fn pte_ppn(pte: int) -> int {
    (pte / 0x400) % 0x1000_0000_0000
}

/// Whether a leaf `pte` grants an access of this kind: X for fetches, R for loads, W for
/// stores.
pub open spec fn pte_permits(pte: int, access: AccessType) -> bool {
    match access {
        AccessType::Fetch => pte_bit(pte, 3),
        AccessType::Load => pte_bit(pte, 1),
        AccessType::Store => pte_bit(pte, 2),
    }
}

/// The physical address of the page-table entry for `vaddr` in the table at `table`.
pub open spec fn pte_address(table: int, vaddr: u64, level: int) -> int {
    table + vpn_index(vaddr, level) * 8
}

/// The page-table entry at physical address `addr`, read little-endian from main memory.
#[verifier::opaque]
pub open spec fn pte_at(ram: Seq<u8>, addr: int) -> int {
    le64(ram, addr - RAM_BASE)
}

/// Whether the 8 bytes at physical address `addr` lie in main memory.
pub open spec fn in_ram(addr: int) -> bool {
    RAM_BASE <= addr && addr + 8 <= RAM_OFFSET
}

/// Whether the accessed/dirty bits of a leaf `pte` let the access proceed: A must be set,
/// and D too for a store.
pub open spec fn pte_ad_ok(pte: int, access: AccessType) -> bool {
    pte_bit(pte, 6) && (access is Store ==> pte_bit(pte, 7))
}

/// The outcome of reaching the leaf `pte` at `level`: a page fault when it does not permit
/// the access, when its A bit (or, for a store, its D bit) is clear, or, above level 0,
/// when its page number is not aligned to the superpage; otherwise the physical page (or
/// superpage) plus the offset of `vaddr` within it.
pub open spec fn leaf_result(pte: int, vaddr: u64, access: AccessType, level: int) -> Result<
    u64,
    u64,
> {
    let size = level_size(level);
    if !pte_permits(pte, access) {
        Err(page_fault_cause(access))
    } else if !pte_ad_ok(pte, access) {
        Err(page_fault_cause(access))
    } else if (pte_ppn(pte) * 0x1000) % size != 0 {
        Err(page_fault_cause(access))
    } else {
        Ok((pte_ppn(pte) * 0x1000 + vaddr as int % size) as u64)
    }
}

/// The result of walking the page tables from the table at `table` at `level` down.
pub open spec fn walk(ram: Seq<u8>, table: int, vaddr: u64, access: AccessType, level: nat) -> Result<
    u64,
    u64,
>
    decreases level,
{
    let pte = pte_at(ram, pte_address(table, vaddr, level as int));
    if !pte_bit(pte, 0) {
        Err(page_fault_cause(access))
    } else if pte_bit(pte, 1) || pte_bit(pte, 3) {
        leaf_result(pte, vaddr, access, level as int)
    } else if level == 0 {
        Err(page_fault_cause(access))
    } else {
        walk(ram, pte_ppn(pte) * 0x1000, vaddr, access, (level - 1) as nat)
    }
}

/// Whether every page-table entry the walk from `table` at `level` reads lies in main memory.
pub open spec fn walk_defined(ram: Seq<u8>, table: int, vaddr: u64, level: nat) -> bool
    decreases level,
{
    let addr = pte_address(table, vaddr, level as int);
    let pte = pte_at(ram, addr);
    &&& in_ram(addr)
    &&& (pte_bit(pte, 0) && !(pte_bit(pte, 1) || pte_bit(pte, 3)) && level > 0) ==> walk_defined(
        ram,
        pte_ppn(pte) * 0x1000,
        vaddr,
        (level - 1) as nat,
    )
}

/// Whether the access is translated at all: not in bare mode, not in machine mode.
pub open spec fn translated(cpu: &Cpu) -> bool {
    satp_mode(cpu.satp) != 0 && cpu.privilege != PRIV_MACHINE
}

/// The translation of `vaddr` for an access of kind `access`.
pub open spec fn translate(cpu: &Cpu, ram: Seq<u8>, vaddr: u64, access: AccessType) -> Result<
    u64,
    u64,
> {
    if !translated(cpu) {
        Ok(vaddr)
    } else {
        walk(ram, root_table(cpu.satp), vaddr, access, 2)
    }
}

/// Whether translating `vaddr` completes: untranslated, or Sv39 with every entry it reads
/// in main memory.
pub open spec fn translate_defined(cpu: &Cpu, ram: Seq<u8>, vaddr: u64) -> bool {
    translated(cpu) ==> satp_mode(cpu.satp) == SATP_MODE_SV39 && walk_defined(
        ram,
        root_table(cpu.satp),
        vaddr,
        2,
    )
}

/// A leaf's physical address has the offset of `vaddr` within its 4 KiB page.
proof fn lemma_leaf_offset(ppn: int, vaddr: u64, size: int)
    requires
        0 <= ppn < 0x1000_0000_0000,
        size == 0x1000 || size == 0x20_0000 || size == 0x4000_0000,
    ensures
        0 <= ppn * 0x1000 + vaddr as int % size < 0x1_0000_0000_0000_0000,
        (ppn * 0x1000 + vaddr as int % size) % 0x1000 == vaddr as int % 0x1000,
{
    let y = vaddr as int % size;
    vstd::arithmetic::div_mod::lemma_mod_mod(vaddr as int, 0x1000, size / 0x1000);
    assert(0x1000 * (size / 0x1000) == size);
    vstd::arithmetic::div_mod::lemma_mod_multiples_vanish(ppn, y, 0x1000);
    assert(0x1000 * ppn == ppn * 0x1000);
    assert(0 <= ppn * 0x1000 < 0x100_0000_0000_0000) by (nonlinear_arith)
        requires
            0 <= ppn < 0x1000_0000_0000,
    ;
}

/// A walk either fails with the page-fault cause of the access, or yields an address with
/// the same offset within its 4 KiB page as `vaddr`.
pub proof fn lemma_walk_outcome(
    ram: Seq<u8>,
    table: int,
    vaddr: u64,
    access: AccessType,
    level: nat,
)
    requires
        level <= 2,
    ensures
        match walk(ram, table, vaddr, access, level) {
            Ok(pa) => pa % 0x1000 == vaddr % 0x1000,
            Err(cause) => cause == page_fault_cause(access),
        },
    decreases level,
{
    let pte = pte_at(ram, pte_address(table, vaddr, level as int));
    let size = level_size(level as int);
    if pte_bit(pte, 0) && (pte_bit(pte, 1) || pte_bit(pte, 3)) {
        lemma_leaf_offset(pte_ppn(pte), vaddr, size);
    } else if pte_bit(pte, 0) && level > 0 {
        lemma_walk_outcome(ram, pte_ppn(pte) * 0x1000, vaddr, access, (level - 1) as nat);
    }
}

/// What a leaf entry lets through, in terms of its bits: a fetch needs X (bit 3), a load R
/// (bit 1), a store W (bit 2), every access A (bit 6) and a store also D (bit 7); lacking
/// any of them the access faults with its own cause, whatever the other bits are. A 4 KiB
/// leaf that has them maps `vaddr` to its page number times 4 KiB plus the page offset.
pub proof fn lemma_leaf_permissions(pte: int, vaddr: u64, level: int)
    ensures
        (pte / 8) % 2 == 0 ==> leaf_result(pte, vaddr, AccessType::Fetch, level) == Err::<u64, u64>(12),
        (pte / 2) % 2 == 0 ==> leaf_result(pte, vaddr, AccessType::Load, level) == Err::<u64, u64>(13),
        (pte / 4) % 2 == 0 ==> leaf_result(pte, vaddr, AccessType::Store, level) == Err::<u64, u64>(15),
        (pte / 0x40) % 2 == 0 ==> {
            &&& leaf_result(pte, vaddr, AccessType::Fetch, level) == Err::<u64, u64>(12)
            &&& leaf_result(pte, vaddr, AccessType::Load, level) == Err::<u64, u64>(13)
            &&& leaf_result(pte, vaddr, AccessType::Store, level) == Err::<u64, u64>(15)
        },
        (pte / 0x80) % 2 == 0 ==> leaf_result(pte, vaddr, AccessType::Store, level) == Err::<u64, u64>(15),
        ({
            let pa = ((pte / 0x400) % 0x1000_0000_0000 * 0x1000 + vaddr as int % 0x1000) as u64;
            &&& (pte / 0x40) % 2 == 1 && (pte / 8) % 2 == 1 ==> leaf_result(pte, vaddr, AccessType::Fetch, 0) == Ok::<u64, u64>(pa)
            &&& (pte / 0x40) % 2 == 1 && (pte / 2) % 2 == 1 ==> leaf_result(pte, vaddr, AccessType::Load, 0) == Ok::<u64, u64>(pa)
            &&& (pte / 0x40) % 2 == 1 && (pte / 0x80) % 2 == 1 && (pte / 4) % 2 == 1 ==> leaf_result(pte, vaddr, AccessType::Store, 0) == Ok::<u64, u64>(pa)
        }),
{
    vstd::arithmetic::div_mod::lemma_mod_multiples_basic(pte_ppn(pte), 0x1000);
}

/// Two addresses in the same 4 KiB virtual page select the same page-table entry at every
/// level, and lie at the same distance from the start of their page or superpage.
proof fn lemma_same_page_indices(v1: u64, v2: u64, level: int)
    requires
        v1 / 0x1000 == v2 / 0x1000,
        0 <= level <= 2,
    ensures
        vpn_index(v1, level) == vpn_index(v2, level),
        v1 - v1 as int % level_size(level) == v2 - v2 as int % level_size(level),
{
    let size = level_size(level);
    let k = size / 0x1000;
    assert(size == 0x1000 * k);
    vstd::arithmetic::div_mod::lemma_div_denominator(v1 as int, 0x1000, k);
    vstd::arithmetic::div_mod::lemma_div_denominator(v2 as int, 0x1000, k);
    assert(v1 as int / size == v2 as int / size);
    vstd::arithmetic::div_mod::lemma_fundamental_div_mod(v1 as int, size);
    vstd::arithmetic::div_mod::lemma_fundamental_div_mod(v2 as int, size);
}

/// Translation is page-granular: two addresses in the same 4 KiB virtual page either both
/// fault, with the same cause, or are both translated by the same displacement, so that
/// they land in the same physical page at their own offsets.
pub proof fn lemma_walk_same_page(
    ram: Seq<u8>,
    table: int,
    v1: u64,
    v2: u64,
    access: AccessType,
    level: nat,
)
    requires
        level <= 2,
        v1 / 0x1000 == v2 / 0x1000,
    ensures
        match (walk(ram, table, v1, access, level), walk(ram, table, v2, access, level)) {
            (Ok(p1), Ok(p2)) => p1 - v1 == p2 - v2,
            (Err(c1), Err(c2)) => c1 == c2,
            _ => false,
        },
    decreases level,
{
    lemma_same_page_indices(v1, v2, level as int);
    let pte = pte_at(ram, pte_address(table, v1, level as int));
    assert(pte == pte_at(ram, pte_address(table, v2, level as int)));
    if pte_bit(pte, 0) && (pte_bit(pte, 1) || pte_bit(pte, 3)) {
        let size = level_size(level as int);
        lemma_leaf_offset(pte_ppn(pte), v1, size);
        lemma_leaf_offset(pte_ppn(pte), v2, size);
    } else if pte_bit(pte, 0) && level > 0 {
        lemma_walk_same_page(ram, pte_ppn(pte) * 0x1000, v1, v2, access, (level - 1) as nat);
    }
}

/// `mmu_translate` is page-granular: two addresses in the same 4 KiB virtual page either
/// both fault with the same cause or are displaced by the same amount.
pub proof fn lemma_translate_same_page(
    cpu: &Cpu,
    ram: Seq<u8>,
    v1: u64,
    v2: u64,
    access: AccessType,
)
    requires
        v1 / 0x1000 == v2 / 0x1000,
    ensures
        match (translate(cpu, ram, v1, access), translate(cpu, ram, v2, access)) {
            (Ok(p1), Ok(p2)) => p1 - v1 == p2 - v2,
            (Err(c1), Err(c2)) => c1 == c2,
            _ => false,
        },
{
    lemma_walk_same_page(ram, root_table(cpu.satp), v1, v2, access, 2);
}

/// The 8-byte page-table entry at physical address `addr` of main memory.
fn read_pte(bus: &Bus, addr: u64) -> (r: u64)
    requires
        bus.wf(),
        in_ram(addr as int),
    ensures
        r == pte_at(bus.ram.ram@, addr as int),
{
    let off = (addr - RAM_BASE) as u32;
    let lo = load_w(bus.ram.ram.as_slice(), off);
    let hi = load_w(bus.ram.ram.as_slice(), off + 4);
    proof {
        lemma_le_pack(0, 0, 0, 0, 0, 0, lo, hi);
        reveal(pte_at);
    }
    (lo as u64) | ((hi as u64) << 32)
}

/// The exception cause of a page fault on an access of kind `access`.
fn page_fault(access: AccessType) -> (cause: u64)
    ensures
        cause == page_fault_cause(access),
{
    match access {
        AccessType::Fetch => 12,
        AccessType::Load => 13,
        AccessType::Store => 15,
    }
}

proof fn lemma_pte_bits(pte: u64)
    ensures
        (pte & PTE_V == 0) == !pte_bit(pte as int, 0),
        (pte & (PTE_R | PTE_X) != 0) == (pte_bit(pte as int, 1) || pte_bit(pte as int, 3)),
        (pte & PTE_R != 0) == pte_bit(pte as int, 1),
        (pte & PTE_W != 0) == pte_bit(pte as int, 2),
        (pte & PTE_X != 0) == pte_bit(pte as int, 3),
        (pte & PTE_A != 0) == pte_bit(pte as int, 6),
        (pte & PTE_D != 0) == pte_bit(pte as int, 7),
        ((pte >> 10u64) & 0xFFF_FFFF_FFFF) as int == pte_ppn(pte as int),
{
    assert({
        &&& (pte & 1 == 0) == (pte % 2 != 1)
        &&& (pte & (2u64 | 8u64) != 0) == ((pte / 2) % 2 == 1 || (pte / 8) % 2 == 1)
        &&& (pte & 2 != 0) == ((pte / 2) % 2 == 1)
        &&& (pte & 4 != 0) == ((pte / 4) % 2 == 1)
        &&& (pte & 8 != 0) == ((pte / 8) % 2 == 1)
        &&& (pte & 0x40 != 0) == ((pte / 0x40) % 2 == 1)
        &&& (pte & 0x80 != 0) == ((pte / 0x80) % 2 == 1)
        &&& ((pte >> 10u64) & 0xFFF_FFFF_FFFF) == (pte / 0x400) % 0x1000_0000_0000
    }) by (bit_vector);
}

/// The bit-level extraction of the `satp` and virtual-address fields, and the masks that
/// split an address at a page or superpage boundary.
pub(crate) proof fn lemma_sv39_fields(satp: u64, vaddr: u64, base: u64)
    ensures
        ((satp >> 60u64) & 0xF) == satp / 0x1000_0000_0000_0000,
        (1u64 << 44u64) == 0x1000_0000_0000u64,
        (satp & 0xFFF_FFFF_FFFFu64) == satp % 0x1000_0000_0000,
        ((vaddr >> 12u64) & 0x1FF) == (vaddr / 0x1000) % 512,
        ((vaddr >> 21u64) & 0x1FF) == (vaddr / 0x20_0000) % 512,
        ((vaddr >> 30u64) & 0x1FF) == (vaddr / 0x4000_0000) % 512,
        (base & 0xFFF) == base % 0x1000,
        (vaddr & 0xFFF) == vaddr % 0x1000,
        (base & 0x1F_FFFF) == base % 0x20_0000,
        (vaddr & 0x1F_FFFF) == vaddr % 0x20_0000,
        (base & 0x3FFF_FFFF) == base % 0x4000_0000,
        (vaddr & 0x3FFF_FFFF) == vaddr % 0x4000_0000,
{
    assert({
        &&& ((satp >> 60u64) & 0xF) == satp / 0x1000_0000_0000_0000
        &&& (1u64 << 44u64) == 0x1000_0000_0000u64
        &&& (satp & 0xFFF_FFFF_FFFFu64) == satp % 0x1000_0000_0000
        &&& ((vaddr >> 12u64) & 0x1FF) == (vaddr / 0x1000) % 512
        &&& ((vaddr >> 21u64) & 0x1FF) == (vaddr / 0x20_0000) % 512
        &&& ((vaddr >> 30u64) & 0x1FF) == (vaddr / 0x4000_0000) % 512
        &&& (base & 0xFFF) == base % 0x1000
        &&& (vaddr & 0xFFF) == vaddr % 0x1000
        &&& (base & 0x1F_FFFF) == base % 0x20_0000
        &&& (vaddr & 0x1F_FFFF) == vaddr % 0x20_0000
        &&& (base & 0x3FFF_FFFF) == base % 0x4000_0000
        &&& (vaddr & 0x3FFF_FFFF) == vaddr % 0x4000_0000
    }) by (bit_vector);
}

/// The outcome of reaching the leaf `pte` at `level` (0, 1 or 2) while translating `vaddr`.
fn leaf_translation(pte: u64, vaddr: u64, access: AccessType, level: usize) -> (r: Result<u64, u64>)
    requires
        level <= 2,
    ensures
        r == leaf_result(pte as int, vaddr, access, level as int),
{
    proof {
        lemma_pte_bits(pte);
    }
    let allowed = match access {
        AccessType::Fetch => pte & PTE_X != 0,
        AccessType::Load => pte & PTE_R != 0,
        AccessType::Store => pte & PTE_W != 0,
    };
    if !allowed {
        return Err(page_fault(access));
    }
    // accessed/dirty bits: A on every access, D on a store
    let ad_ok = match access {
        AccessType::Store => pte & PTE_A != 0 && pte & PTE_D != 0,
        _ => pte & PTE_A != 0,
    };
    if !ad_ok {
        return Err(page_fault(access));
    }
    let ppn = (pte >> 10) & 0xFFF_FFFF_FFFF;
    proof {
        lemma_leaf_offset(ppn as int, vaddr, level_size(level as int));
    }
    let base = ppn * PAGE_SIZE;
    let offset_mask: u64 = if level == 0 {
        0xFFF
    } else if level == 1 {
        0x1F_FFFF
    } else {
        0x3FFF_FFFF
    };
    proof {
        lemma_sv39_fields(0, vaddr, base);
    }
    // a superpage must be aligned to its size
    if base & offset_mask != 0 {
        return Err(page_fault(access));
    }
    Ok(base + (vaddr & offset_mask))
}

/// Translates the virtual address `vaddr` for an access of kind `access`: unchanged in
/// bare mode (`satp` mode 0) and in machine mode, otherwise by an Sv39 walk of the page
/// tables in main memory; `Err` carries the page-fault cause.
pub fn mmu_translate(cpu: &Cpu, bus: &Bus, vaddr: u64, access: AccessType) -> (r: Result<u64, u64>)
    requires
        bus.wf(),
        translate_defined(cpu, bus.ram.ram@, vaddr),
    ensures
        r == translate(cpu, bus.ram.ram@, vaddr, access),
        !translated(cpu) ==> r == Ok::<u64, u64>(vaddr),
        match r {
            Ok(pa) => pa % 0x1000 == vaddr % 0x1000,
            Err(cause) => cause == page_fault_cause(access),
        },
{
    let ghost ram = bus.ram.ram@;
    let satp = cpu.satp;
    let mode = (satp >> 60) & 0xF;
    proof {
        lemma_sv39_fields(satp, vaddr, 0);
        lemma_walk_outcome(ram, root_table(cpu.satp), vaddr, access, 2);
    }
    // machine mode and bare mode are not translated
    if mode == 0 || cpu.privilege == PRIV_MACHINE {
        return Ok(vaddr);
    }
    // Sv39 (the only mode `translate_defined` admits): the root page number is bits 43..0
    let root_ppn = satp & ((1u64 << 44u64) - 1);
    let mut table = root_ppn * PAGE_SIZE;

    let vpn: [u64; 3] = [(vaddr >> 12) & 0x1FF, (vaddr >> 21) & 0x1FF, (vaddr >> 30) & 0x1FF];

    // the walk: levels 2, 1, 0
    let mut level: usize = 3;
    while level > 0
        invariant
            0 < level <= 3,
            translated(cpu),
            bus.wf(),
            ram == bus.ram.ram@,
            vpn@ == seq![vpn_index(vaddr, 0) as u64, vpn_index(vaddr, 1) as u64, vpn_index(vaddr, 2) as u64],
            table % 0x1000 == 0,
            table < 0x100_0000_0000_0000,
            walk(ram, root_table(cpu.satp), vaddr, access, 2) == walk(
                ram,
                table as int,
                vaddr,
                access,
                (level - 1) as nat,
            ),
            walk_defined(ram, table as int, vaddr, (level - 1) as nat),
            match walk(ram, root_table(cpu.satp), vaddr, access, 2) {
                Ok(pa) => pa % 0x1000 == vaddr % 0x1000,
                Err(cause) => cause == page_fault_cause(access),
            },
        decreases level,
    {
        level = level - 1;
        let pte_addr = table + vpn[level] * 8;
        let pte = read_pte(bus, pte_addr);
        proof {
            lemma_pte_bits(pte);
        }

        // V bit clear: no mapping
        if pte & PTE_V == 0 {
            return Err(page_fault(access));
        }

        // R or X set: a leaf
        if pte & (PTE_R | PTE_X) != 0 {
            return leaf_translation(pte, vaddr, access, level);
        }
        if level == 0 {
            return Err(page_fault(access));
        }
        let ppn = (pte >> 10) & 0xFFF_FFFF_FFFF;
        proof {
            assert(ppn * 0x1000 < 0x100_0000_0000_0000 && (ppn * 0x1000) % 0x1000 == 0) by (nonlinear_arith)
                requires
                    ppn < 0x1000_0000_0000,
            ;
        }
        table = ppn * PAGE_SIZE;
    }
    Err(page_fault(access))
}

} // verus!
