//! Loading of ELF files.
use dtwin::CpuState;
use dtwin::loader::{
    ELF32_EHDR_SIZE, ELF32_PHDR_SIZE, EM_ARM, ET_EXEC, LoadedSegment, Loader, LoaderError, PT_LOAD,
    XPSR_T,
};
use dtwin::memory::Memory;

const ELF_MAGIC: [u8; 4] = [0x7F, b'E', b'L', b'F'];
const EI_CLASS: usize = 4;
const EI_DATA: usize = 5;
const ELFCLASS32: u8 = 1;
const ELFDATA2LSB: u8 = 1;

fn synthetic_elf() -> Vec<u8> {
    let mut elf = vec![0u8; ELF32_EHDR_SIZE + 2 * ELF32_PHDR_SIZE];

    elf[0..4].copy_from_slice(&ELF_MAGIC);
    elf[EI_CLASS] = ELFCLASS32;
    elf[EI_DATA] = ELFDATA2LSB;
    elf[6] = 1;
    elf[16..18].copy_from_slice(&ET_EXEC.to_le_bytes());
    elf[18..20].copy_from_slice(&EM_ARM.to_le_bytes());
    elf[24..28].copy_from_slice(&0x400u32.to_le_bytes());
    elf[28..32].copy_from_slice(&(ELF32_EHDR_SIZE as u32).to_le_bytes());
    elf[42..44].copy_from_slice(&(ELF32_PHDR_SIZE as u16).to_le_bytes());
    elf[44..46].copy_from_slice(&2u16.to_le_bytes());

    let ph0 = ELF32_EHDR_SIZE;
    elf[ph0..ph0 + 4].copy_from_slice(&PT_LOAD.to_le_bytes());
    elf[ph0 + 4..ph0 + 8].copy_from_slice(&0x1000u32.to_le_bytes());
    elf[ph0 + 8..ph0 + 12].copy_from_slice(&0x0000_0000u32.to_le_bytes());
    elf[ph0 + 16..ph0 + 20].copy_from_slice(&0x10b4u32.to_le_bytes());
    elf[ph0 + 20..ph0 + 24].copy_from_slice(&0x10b4u32.to_le_bytes());
    elf[ph0 + 24..ph0 + 28].copy_from_slice(&5u32.to_le_bytes());

    let ph1 = ELF32_EHDR_SIZE + ELF32_PHDR_SIZE;
    elf[ph1..ph1 + 4].copy_from_slice(&PT_LOAD.to_le_bytes());
    elf[ph1 + 4..ph1 + 8].copy_from_slice(&0x1000u32.to_le_bytes());
    elf[ph1 + 8..ph1 + 12].copy_from_slice(&0x2000_0000u32.to_le_bytes());
    elf[ph1 + 16..ph1 + 20].copy_from_slice(&0u32.to_le_bytes());
    elf[ph1 + 20..ph1 + 24].copy_from_slice(&0x8000u32.to_le_bytes());
    elf[ph1 + 24..ph1 + 28].copy_from_slice(&6u32.to_le_bytes());

    elf.resize(0x1000 + 0x10b4, 0);
    elf[0x1000..0x1004].copy_from_slice(&0x2000_8000u32.to_le_bytes());
    elf[0x1004..0x1008].copy_from_slice(&0x845u32.to_le_bytes());
    elf[0x1400] = 0x0c;
    elf
}

#[test]
fn load_synthetic_elf_sets_state_and_maps_segments() {
    let elf = synthetic_elf();
    let mut mem = Memory::m4f_default();
    let mut cpu = CpuState::default();
    let summary = Loader::load_elf_bytes(&elf, &mut mem, &mut cpu).expect("加载合成 ELF");

    assert_eq!(
        summary.segments,
        vec![
            LoadedSegment {
                vaddr: 0x0000_0000,
                filesz: 0x10b4,
                memsz: 0x10b4,
                flags: 5
            },
            LoadedSegment {
                vaddr: 0x2000_0000,
                filesz: 0x0000,
                memsz: 0x8000,
                flags: 6
            },
        ]
    );

    assert_eq!(mem.read_u32(0x0000_0000).unwrap(), 0x2000_8000);
    assert_eq!(mem.read_u32(0x0000_0004).unwrap(), 0x845);

    assert_eq!(mem.read_u32(0x2000_0000).unwrap(), 0);
    assert_eq!(mem.read_u32(0x2000_7FFC).unwrap(), 0);

    assert_eq!(summary.initial_sp, 0x2000_8000);
    assert_eq!(summary.entry_pc, 0x844);
    assert_eq!(cpu.msp, 0x2000_8000);
    assert_eq!(cpu.regs[13], 0x2000_8000);
    assert_eq!(cpu.regs[15], 0x844);
    assert_ne!(cpu.xpsr & XPSR_T, 0);
}

#[test]
fn load_rejects_non_elf() {
    let mut mem = Memory::test_ram();
    let mut cpu = CpuState::default();

    let r = Loader::load_elf_bytes(&[0u8; 64], &mut mem, &mut cpu);
    assert!(matches!(r, Err(LoaderError::BadMagic(_))));
}

#[test]
fn load_rejects_non_arm_and_non_exec() {
    let mut mem = Memory::test_ram();
    let mut cpu = CpuState::default();

    let mut elf = synthetic_elf();
    elf[18..20].copy_from_slice(&3u16.to_le_bytes());
    assert!(matches!(
        Loader::load_elf_bytes(&elf, &mut mem, &mut cpu),
        Err(LoaderError::NotArm(3))
    ));

    let elf = synthetic_elf();
    let mut dyn_elf = elf.clone();
    dyn_elf[16..18].copy_from_slice(&3u16.to_le_bytes());
    assert!(matches!(
        Loader::load_elf_bytes(&dyn_elf, &mut mem, &mut cpu),
        Err(LoaderError::NotExec(3))
    ));
}

#[test]
fn load_rejects_unsupported_segment_type() {
    let mut elf = synthetic_elf();
    let ph1 = ELF32_EHDR_SIZE + ELF32_PHDR_SIZE;
    elf[ph1..ph1 + 4].copy_from_slice(&0x7000_0001u32.to_le_bytes());

    let mut mem = Memory::m4f_default();
    let mut cpu = CpuState::default();
    assert!(matches!(
        Loader::load_elf_bytes(&elf, &mut mem, &mut cpu),
        Err(LoaderError::UnsupportedSegment(1, 0x7000_0001))
    ));
}

#[test]
fn load_rejects_non_thumb_reset() {
    let mut elf = synthetic_elf();
    elf[0x1004..0x1008].copy_from_slice(&0x844u32.to_le_bytes());
    let mut mem = Memory::m4f_default();
    let mut cpu = CpuState::default();
    assert!(matches!(
        Loader::load_elf_bytes(&elf, &mut mem, &mut cpu),
        Err(LoaderError::NotThumb(0x844))
    ));
}

#[test]
fn load_rejects_truncated_ph_table() {
    let mut elf = synthetic_elf();
    elf.truncate(ELF32_EHDR_SIZE + 10);
    let mut mem = Memory::test_ram();
    let mut cpu = CpuState::default();
    assert!(matches!(
        Loader::load_elf_bytes(&elf, &mut mem, &mut cpu),
        Err(LoaderError::PhTableOutOfBounds(_, _, _, _))
    ));
}
