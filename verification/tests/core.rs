//! The core.
use dtwin::{CoreType, CpuState};

#[test]
fn core_type_arch_names() {
    assert_eq!(CoreType::M0.arch_name(), "ARMv6-M");
    assert_eq!(CoreType::M3.arch_name(), "ARMv7-M");
    assert_eq!(CoreType::M4F.arch_name(), "ARMv7E-M");
    assert_eq!(CoreType::M33.arch_name(), "ARMv8-M");
}

#[test]
fn cpu_state_defaults() {
    let s = CpuState::default();
    assert_eq!(s.regs, [0u32; 16]);
    assert_eq!(s.xpsr, 0);
    assert_eq!(s.control, 0);
}
