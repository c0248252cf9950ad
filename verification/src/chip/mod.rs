//! Chip profiles: core, memory map, peripherals and clocks of a microcontroller.
pub mod profile;
pub mod s32k312;

pub use s32k312::S32K312;

use crate::memory::{sat32, Memory, MemoryModel, MemoryRegion, MemoryRegionType};
use crate::peripheral::DeviceModel;
use crate::system::SystemBlock;
use crate::text::same_text;
use crate::uart::{CmsdkUart, UartModel};
use vstd::prelude::*;

verus! {

/// Address of LPUART0 on the S32K312.
pub const LPUART0_BASE: u32 = 0x4018_0000;

/// A chip: core, memory, peripherals, clocks.
#[derive(Debug, Clone)]
pub struct ChipProfile {
    pub name: String,
    pub core: CoreDef,
    pub memory: Vec<MemoryDef>,
    pub peripherals: Vec<PeripheralDef>,
    pub clock: ClockTree,
}

/// The core of a chip.
#[derive(Debug, Clone)]
pub struct CoreDef {
    pub core_type: String,
    pub default_freq_hz: u32,
}

/// A memory region of a chip.
#[derive(Debug, Clone)]
pub struct MemoryDef {
    pub name: String,
    pub start: u32,
    pub size: u32,
    pub region_type: String,
    pub writable: bool,
}

/// A peripheral of a chip.
#[derive(Debug, Clone)]
pub struct PeripheralDef {
    pub name: String,
    pub base_address: u32,
    pub model: String,
}

/// The clocks of a chip.
#[derive(Debug, Clone, Copy, PartialEq, Eq, Structural)]
pub struct ClockTree {
    pub source_hz: u32,
    pub apb1_hz: u32,
    pub apb2_hz: u32,
}

/// A chip with its texts as characters.
#[verifier::ext_equal]
pub struct ChipModel {
    pub name: Seq<char>,
    pub core: CoreModel,
    pub memory: Seq<RegionModel>,
    pub peripherals: Seq<PeripheralModel>,
    pub clock: ClockTree,
}

/// A core with its text as characters.
#[verifier::ext_equal]
pub struct CoreModel {
    pub core_type: Seq<char>,
    pub default_freq_hz: u32,
}

/// A memory region with its texts as characters.
#[verifier::ext_equal]
pub struct RegionModel {
    pub name: Seq<char>,
    pub start: u32,
    pub size: u32,
    pub region_type: Seq<char>,
    pub writable: bool,
}

/// A peripheral with its texts as characters.
#[verifier::ext_equal]
pub struct PeripheralModel {
    pub name: Seq<char>,
    pub base_address: u32,
    pub model: Seq<char>,
}

impl View for CoreDef {
    type V = CoreModel;

    open spec fn view(&self) -> CoreModel {
        CoreModel { core_type: self.core_type@, default_freq_hz: self.default_freq_hz }
    }
}

impl View for MemoryDef {
    type V = RegionModel;

    open spec fn view(&self) -> RegionModel {
        RegionModel {
            name: self.name@,
            start: self.start,
            size: self.size,
            region_type: self.region_type@,
            writable: self.writable,
        }
    }
}

impl View for PeripheralDef {
    type V = PeripheralModel;

    open spec fn view(&self) -> PeripheralModel {
        PeripheralModel {
            name: self.name@,
            base_address: self.base_address,
            model: self.model@,
        }
    }
}

impl View for ChipProfile {
    type V = ChipModel;

    open spec fn view(&self) -> ChipModel {
        ChipModel {
            name: self.name@,
            core: self.core@,
            memory: self.memory@.map_values(|d: MemoryDef| d@),
            peripherals: self.peripherals@.map_values(|d: PeripheralDef| d@),
            clock: self.clock,
        }
    }
}

/// The kind of region that a profile names.
pub open spec fn kind_of(region_type: Seq<char>) -> MemoryRegionType {
    if region_type == "Code"@ {
        MemoryRegionType::Code
    } else if region_type == "Sram"@ {
        MemoryRegionType::Sram
    } else if region_type == "Peripheral"@ {
        MemoryRegionType::Peripheral
    } else if region_type == "System"@ {
        MemoryRegionType::System
    } else if region_type == "Ccm"@ {
        MemoryRegionType::Ccm
    } else {
        MemoryRegionType::ExternalRam
    }
}

/// The name of a region of the memory map.
pub open spec fn kind_name(kind: MemoryRegionType) -> &'static str {
    match kind {
        MemoryRegionType::Code => "FLASH",
        MemoryRegionType::Sram => "SRAM",
        MemoryRegionType::Peripheral => "PERIPH",
        MemoryRegionType::ExternalRam => "EXTRAM",
        MemoryRegionType::Ccm => "CCM",
        MemoryRegionType::System => "SYSTEM",
    }
}

/// The region of the memory map for a region of a profile. Code runs from every
/// kind but peripherals and the system space.
pub open spec fn region_for(d: RegionModel) -> MemoryRegion {
    let kind = kind_of(d.region_type);
    MemoryRegion {
        name: kind_name(kind),
        start: d.start,
        end: sat32(d.start + d.size) as u32,
        region_type: kind,
        writable: d.writable,
        executable: kind != MemoryRegionType::Peripheral && kind != MemoryRegionType::System,
    }
}

/// The size of the largest region of a kind.
pub open spec fn largest(memory: Seq<RegionModel>, kind: MemoryRegionType) -> nat
    decreases memory.len(),
{
    if memory.len() == 0 {
        0
    } else {
        let r = region_for(memory.last());
        let before = largest(memory.drop_last(), kind);
        if r.region_type == kind && r.end - r.start > before {
            (r.end - r.start) as nat
        } else {
            before
        }
    }
}

/// A region of a kind is there.
pub open spec fn has_kind(memory: Seq<RegionModel>, kind: MemoryRegionType) -> bool {
    exists|i: int| 0 <= i < memory.len() && kind_of((#[trigger] memory[i]).region_type) == kind
}

/// The memory map of a profile: erased flash, zeroed RAM, and the system block
/// where there is a system region.
pub open spec fn memory_of(memory: Seq<RegionModel>) -> MemoryModel {
    MemoryModel {
        regions: memory.map_values(|d: RegionModel| region_for(d)),
        flash: Seq::new(largest(memory, MemoryRegionType::Code), |i: int| 0xFFu8),
        sram: Seq::new(largest(memory, MemoryRegionType::Sram), |i: int| 0u8),
        ccm: Seq::new(largest(memory, MemoryRegionType::Ccm), |i: int| 0u8),
        mpu_regions: Seq::empty(),
        mpu_enabled: false,
        unalign_trap: true,
        watchpoints: Seq::empty(),
        watchpoint_hit: None,
        flash_erase_required: true,
        read_count: 0,
        write_count: 0,
        devices: if has_kind(memory, MemoryRegionType::System) {
            seq![DeviceModel::System(SystemBlock::reset_state())]
        } else {
            Seq::empty()
        },
    }
}

fn kind_from_text(region_type: &str) -> (r: MemoryRegionType)
    ensures
        r == kind_of(region_type@),
{
    if same_text(region_type, "Code") {
        MemoryRegionType::Code
    } else if same_text(region_type, "Sram") {
        MemoryRegionType::Sram
    } else if same_text(region_type, "Peripheral") {
        MemoryRegionType::Peripheral
    } else if same_text(region_type, "System") {
        MemoryRegionType::System
    } else if same_text(region_type, "Ccm") {
        MemoryRegionType::Ccm
    } else {
        MemoryRegionType::ExternalRam
    }
}

fn region_from(d: &MemoryDef) -> (r: MemoryRegion)
    ensures
        r == region_for(d@),
{
    let kind: MemoryRegionType = kind_from_text(d.region_type.as_str());
    let name = match kind {
        MemoryRegionType::Code => "FLASH",
        MemoryRegionType::Sram => "SRAM",
        MemoryRegionType::Peripheral => "PERIPH",
        MemoryRegionType::ExternalRam => "EXTRAM",
        MemoryRegionType::Ccm => "CCM",
        MemoryRegionType::System => "SYSTEM",
    };
    MemoryRegion {
        name,
        start: d.start,
        end: d.start.saturating_add(d.size),
        region_type: kind,
        writable: d.writable,
        executable: kind != MemoryRegionType::Peripheral && kind != MemoryRegionType::System,
    }
}

fn largest_region(memory: &Vec<MemoryDef>, kind: MemoryRegionType) -> (r: u32)
    ensures
        r == largest(memory@.map_values(|d: MemoryDef| d@), kind),
{
    let ghost defs = memory@.map_values(|d: MemoryDef| d@);
    let mut size: u32 = 0;
    let mut i: usize = 0;
    while i < memory.len()
        invariant
            i <= memory@.len(),
            defs == memory@.map_values(|d: MemoryDef| d@),
            size == largest(defs.take(i as int), kind),
        decreases memory@.len() - i,
    {
        let region = region_from(&memory[i]);
        proof {
            let t = defs.take(i + 1);
            assert(t.drop_last() =~= defs.take(i as int));
            assert(t.last() == memory@[i as int]@);
        }
        if region.region_type == kind && region.end - region.start > size {
            size = region.end - region.start;
        }
        i = i + 1;
    }
    assert(defs.take(i as int) =~= defs);
    size
}

proof fn lemma_largest(memory: Seq<RegionModel>, kind: MemoryRegionType, i: int)
    requires
        0 <= i < memory.len(),
        region_for(memory[i]).region_type == kind,
    ensures
        region_for(memory[i]).end - region_for(memory[i]).start <= largest(memory, kind),
    decreases memory.len(),
{
    if i < memory.len() - 1 {
        lemma_largest(memory.drop_last(), kind, i);
    }
}

/// The memory map of a profile.
pub fn memory_from_profile(profile: &ChipProfile) -> (r: Memory)
    ensures
        r.wf(),
        r@ == memory_of(profile@.memory),
{
    let ghost defs = profile@.memory;
    let mut regions: Vec<MemoryRegion> = Vec::new();
    let mut system: bool = false;
    let mut i: usize = 0;
    while i < profile.memory.len()
        invariant
            i <= profile.memory@.len(),
            defs == profile@.memory,
            regions@ == defs.take(i as int).map_values(|d: RegionModel| region_for(d)),
            system == has_kind(defs.take(i as int), MemoryRegionType::System),
        decreases profile.memory@.len() - i,
    {
        let region = region_from(&profile.memory[i]);
        proof {
            let before = defs.take(i as int);
            let after = defs.take(i + 1);
            assert(after =~= before.push(defs[i as int]));
            assert forall|j: int| 0 <= j < before.len() implies after[j] == #[trigger] before[j] by {}
            assert(after[i as int] == defs[i as int]);
            if has_kind(before, MemoryRegionType::System) {
                let j = choose|j: int|
                    0 <= j < before.len() && kind_of((#[trigger] before[j]).region_type)
                        == MemoryRegionType::System;
                assert(after[j] == before[j]);
            }
            if has_kind(after, MemoryRegionType::System) && !has_kind(
                before,
                MemoryRegionType::System,
            ) {
                let j = choose|j: int|
                    0 <= j < after.len() && kind_of((#[trigger] after[j]).region_type)
                        == MemoryRegionType::System;
                if j < i {
                    assert(before[j] == after[j]);
                }
            }
        }
        if region.region_type == MemoryRegionType::System {
            system = true;
        }
        regions.push(region);
        i = i + 1;
        assert(regions@ =~= defs.take(i as int).map_values(|d: RegionModel| region_for(d)));
    }
    assert(defs.take(i as int) =~= defs);
    let flash: u32 = largest_region(&profile.memory, MemoryRegionType::Code);
    let sram: u32 = largest_region(&profile.memory, MemoryRegionType::Sram);
    let ccm: u32 = largest_region(&profile.memory, MemoryRegionType::Ccm);
    let mut mem = Memory::with_regions(regions, flash as usize, sram as usize, ccm as usize);
    proof {
        reveal(MemoryModel::wf);
        assert forall|j: int| 0 <= j < mem@.regions.len() implies match mem@.storage(
            (#[trigger] mem@.regions[j]).region_type,
        ) {
            Some(bytes) => mem@.regions[j].end - mem@.regions[j].start <= bytes.len(),
            None => true,
        } by {
            lemma_largest(defs, mem@.regions[j].region_type, j);
        }
    }
    if system {
        mem.attach_peripheral(SystemBlock::new());
    }
    assert(mem@ =~= memory_of(defs));
    mem
}

/// The memory map of a profile with a UART whose characters are wanted on the
/// terminal.
pub fn memory_with_uart(profile: &ChipProfile, uart_base: u32) -> (r: Memory)
    ensures
        r.wf(),
        ({
            let m = memory_of(profile@.memory);
            let uart = UartModel {
                base: uart_base,
                ctrl: 0,
                bauddiv: 0,
                tx_count: 0,
                out: Seq::<u8>::empty(),
                echo: true,
            };
            r@ == (MemoryModel { devices: m.devices.push(DeviceModel::Uart(uart)), ..m })
        }),
{
    let mut mem = memory_from_profile(profile);
    mem.attach_peripheral(CmsdkUart::with_echo(uart_base, true));
    mem
}

/// The profile of a chip, by its name.
pub fn chip_profile(name: &str) -> (r: Option<ChipProfile>)
    ensures
        match r {
            Some(p) => name@ == "S32K312"@ && p@ == s32k312::s32k312_model(),
            None => name@ != "S32K312"@,
        },
{
    if same_text(name, "S32K312") {
        Some(S32K312::new())
    } else {
        None
    }
}

} // verus!
