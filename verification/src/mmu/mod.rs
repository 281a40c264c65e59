//! Address translation for a `CpuData` (bare mode only).
use vstd::prelude::*;
use crate::cpu::CpuData;
use crate::cpu::mmu::lemma_sv39_fields;

verus! {

#[allow(dead_code)]
const PAGE_SIZE: u64 = 4096;

/// The translation mode: bits 63..60 of `satp`.
pub open spec fn mode_of(satp: u64) -> int {
    satp as int / 0x1000_0000_0000_0000
}

/// Translates `vaddr`: in bare mode (`satp` mode 0) the address is returned unchanged; no
/// page-table walk is performed in any other mode, and the result there is 0.
pub fn mmu_translate(cpu: &CpuData, vaddr: u64, _access: i32) -> (r: u64)
    ensures
        r == (if mode_of(cpu.satp) == 0 { vaddr } else { 0 }),
{
    let satp = cpu.satp;
    proof {
        lemma_sv39_fields(satp, vaddr, 0);
    }
    if ((satp >> 60) & 0xF) == 0 {
        return vaddr;
    }

    let root_ppn = satp & ((1u64 << 44u64) - 1);
    let _table = root_ppn * PAGE_SIZE;

    let _vpn = [(vaddr >> 12) & 0x1FF, (vaddr >> 21) & 0x1FF, (vaddr >> 30) & 0x1FF];

    0
}

} // verus!
