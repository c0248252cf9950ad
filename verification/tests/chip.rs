//! Chip profiles.
use dtwin::chip::S32K312;
use dtwin::chip::profile::validate;

#[test]
fn peripheral_base_addresses_match_spec() {
    let p = S32K312::new();
    let base = |name: &str| -> u32 {
        p.peripherals
            .iter()
            .find(|x| x.name == name)
            .unwrap_or_else(|| panic!("缺少外设 {name}"))
            .base_address
    };
    assert_eq!(base("LPUART0"), 0x4018_0000);
    assert_eq!(base("SIUL2"), 0x4029_0000);
    assert_eq!(base("SIUL2_GPIO"), 0x4081_0000);
    assert_eq!(base("MCU_SCG_SIM"), 0x402A_0000);
    assert_eq!(base("CAN0"), 0x4005_0000);
    assert_eq!(base("FTM0"), 0x400D_0000);
    assert_eq!(base("ADC0"), 0x400C_0000);
    assert_eq!(base("WDOG"), 0x4005_3000);
    assert_eq!(base("FLASH"), 0x0000_0000);
    assert_eq!(base("SRAM"), 0x2000_0000);
    assert_eq!(p.peripherals.len(), 10);
}

#[test]
fn memory_map_matches_spec() {
    let p = S32K312::new();

    assert_eq!(p.memory.len(), 4);
    let flash = &p.memory[0];
    assert_eq!(
        (flash.name.as_str(), flash.start, flash.size),
        ("FLASH", 0x0000_0000, 0x0040_0000)
    );
    assert!(!flash.writable);
    let sram = &p.memory[1];
    assert_eq!(
        (sram.name.as_str(), sram.start, sram.size),
        ("SRAM", 0x2000_0000, 0x0040_0000)
    );
    assert!(sram.writable);
    let periph = &p.memory[2];
    assert_eq!(
        (periph.name.as_str(), periph.start),
        ("PERIPH", 0x4000_0000)
    );
    assert_eq!(periph.region_type, "Peripheral");
    let system = &p.memory[3];
    assert_eq!(
        (system.name.as_str(), system.start, system.size),
        ("SYSTEM", 0xE000_0000, 0x0010_0000)
    );
    assert_eq!(system.region_type, "System");
}

#[test]
fn profile_validates() {
    let p = S32K312::new();
    let report = validate(&p);
    assert!(report.is_valid(), "errors: {:?}", report.errors);
    assert!(
        report.warnings.is_empty(),
        "warnings: {:?}",
        report.warnings
    );
}
