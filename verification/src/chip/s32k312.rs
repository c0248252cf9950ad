//! The NXP S32K312, modelled as an ARMv7E-M core with FPU.
//!
//! - FLASH 0x0000_0000 to 0x003F_FFFF, read only
//! - SRAM 0x2000_0000 to 0x203F_FFFF
//! - PERIPH from 0x4000_0000 on
//! - SYSTEM 0xE000_0000 to 0xE00F_FFFF: SysTick, SCB, NVIC
use crate::chip::{
    ChipModel, ChipProfile, ClockTree, CoreDef, CoreModel, MemoryDef, PeripheralDef,
    PeripheralModel, RegionModel,
};
use vstd::prelude::*;

verus! {

/// The S32K312.
pub struct S32K312;

/// The memory regions of the S32K312.
pub open spec fn s32k312_memory() -> Seq<RegionModel> {
    seq![
        RegionModel {
            name: "FLASH"@,
            start: 0x0000_0000,
            size: 0x0040_0000,
            region_type: "Code"@,
            writable: false,
        },
        RegionModel {
            name: "SRAM"@,
            start: 0x2000_0000,
            size: 0x0040_0000,
            region_type: "Sram"@,
            writable: true,
        },
        RegionModel {
            name: "PERIPH"@,
            start: 0x4000_0000,
            size: 0x1000_0000,
            region_type: "Peripheral"@,
            writable: true,
        },
        RegionModel {
            name: "SYSTEM"@,
            start: 0xE000_0000,
            size: 0x0010_0000,
            region_type: "System"@,
            writable: true,
        },
    ]
}

/// The peripherals of the S32K312.
pub open spec fn s32k312_peripherals() -> Seq<PeripheralModel> {
    seq![
        PeripheralModel { name: "LPUART0"@, base_address: 0x4018_0000, model: "stub"@ },
        PeripheralModel { name: "SIUL2"@, base_address: 0x4029_0000, model: "stub"@ },
        PeripheralModel { name: "SIUL2_GPIO"@, base_address: 0x4081_0000, model: "stub"@ },
        PeripheralModel { name: "MCU_SCG_SIM"@, base_address: 0x402A_0000, model: "stub"@ },
        PeripheralModel { name: "CAN0"@, base_address: 0x4005_0000, model: "stub"@ },
        PeripheralModel { name: "FTM0"@, base_address: 0x400D_0000, model: "stub"@ },
        PeripheralModel { name: "ADC0"@, base_address: 0x400C_0000, model: "stub"@ },
        PeripheralModel { name: "WDOG"@, base_address: 0x4005_3000, model: "stub"@ },
        PeripheralModel { name: "FLASH"@, base_address: 0x0000_0000, model: "stub"@ },
        PeripheralModel { name: "SRAM"@, base_address: 0x2000_0000, model: "stub"@ },
    ]
}

/// The profile of the S32K312.
pub open spec fn s32k312_model() -> ChipModel {
    ChipModel {
        name: "S32K312"@,
        core: CoreModel { core_type: "Cortex-M4F"@, default_freq_hz: 80_000_000 },
        memory: s32k312_memory(),
        peripherals: s32k312_peripherals(),
        clock: ClockTree { source_hz: 80_000_000, apb1_hz: 80_000_000, apb2_hz: 80_000_000 },
    }
}

fn region(name: &str, start: u32, size: u32, region_type: &str, writable: bool) -> (r: MemoryDef)
    ensures
        r@ == (RegionModel { name: name@, start, size, region_type: region_type@, writable }),
{
    MemoryDef {
        name: name.to_string(),
        start,
        size,
        region_type: region_type.to_string(),
        writable,
    }
}

fn stub(name: &str, base_address: u32) -> (r: PeripheralDef)
    ensures
        r@ == (PeripheralModel { name: name@, base_address, model: "stub"@ }),
{
    PeripheralDef { name: name.to_string(), base_address, model: "stub".to_string() }
}

impl S32K312 {
    /// The profile of the S32K312.
    pub fn new() -> (r: ChipProfile)
        ensures
            r@ == s32k312_model(),
    {
        let memory: Vec<MemoryDef> = vec![
            region("FLASH", 0x0000_0000, 0x0040_0000, "Code", false),
            region("SRAM", 0x2000_0000, 0x0040_0000, "Sram", true),
            region("PERIPH", 0x4000_0000, 0x1000_0000, "Peripheral", true),
            region("SYSTEM", 0xE000_0000, 0x0010_0000, "System", true),
        ];
        let peripherals: Vec<PeripheralDef> = vec![
            stub("LPUART0", 0x4018_0000),
            stub("SIUL2", 0x4029_0000),
            stub("SIUL2_GPIO", 0x4081_0000),
            stub("MCU_SCG_SIM", 0x402A_0000),
            stub("CAN0", 0x4005_0000),
            stub("FTM0", 0x400D_0000),
            stub("ADC0", 0x400C_0000),
            stub("WDOG", 0x4005_3000),
            stub("FLASH", 0x0000_0000),
            stub("SRAM", 0x2000_0000),
        ];
        assert(memory@.map_values(|d: MemoryDef| d@) =~= s32k312_memory());
        assert(peripherals@.map_values(|d: PeripheralDef| d@) =~= s32k312_peripherals());
        ChipProfile {
            name: "S32K312".to_string(),
            core: CoreDef {
                core_type: "Cortex-M4F".to_string(),
                default_freq_hz: 80_000_000,
            },
            memory,
            peripherals,
            clock: ClockTree { source_hz: 80_000_000, apb1_hz: 80_000_000, apb2_hz: 80_000_000 },
        }
    }
}

} // verus!
