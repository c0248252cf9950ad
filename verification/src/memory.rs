//! Memory map: flash, SRAM, CCM, memory protection, watchpoints and bus devices.
//!
//! A table of regions decides which addresses exist. Flash, SRAM and CCM regions
//! are backed by byte arrays; peripheral and system regions are served by the
//! attached bus devices, or read as 0 and ignore writes. An access outside every
//! region, or across the end of one, is a bus fault.
use crate::bits::wrap64;
use crate::peripheral::{Attach, Device, DeviceModel};
use crate::system::{SystemBlock, SYSTEM_BLOCK_NAME};
use crate::text::{hex_text, push_hex, same_text};
use crate::uart::UART_NAME;
use vstd::prelude::*;

verus! {

/// Kind of a region.
#[derive(Debug, Clone, Copy, PartialEq, Eq, Structural)]
pub enum MemoryRegionType {
    Code,
    Sram,
    Peripheral,
    ExternalRam,
    Ccm,
    System,
}

/// A region of the address space, from `start` up to but not including `end`.
#[derive(Debug, Clone)]
pub struct MemoryRegion {
    pub name: &'static str,
    pub start: u32,
    pub end: u32,
    pub region_type: MemoryRegionType,
    /// Whether the region may be written.
    pub writable: bool,
    /// Whether code may run from the region.
    pub executable: bool,
}

impl MemoryRegion {
    pub open spec fn holds(self, addr: u32) -> bool {
        self.start <= addr < self.end
    }

    /// Whether an address is inside the region.
    pub fn contains(&self, addr: u32) -> (r: bool)
        ensures
            r == self.holds(addr),
    {
        addr >= self.start && addr < self.end
    }
}

/// A memory protection region.
#[derive(Debug, Clone)]
pub struct MpuRegion {
    pub index: u8,
    pub start: u32,
    pub size: u32,
    pub read: bool,
    pub write: bool,
    pub execute: bool,
    pub privileged_only: bool,
}

/// `x`, but at most the largest 32-bit number.
pub open spec fn sat32(x: int) -> int {
    if x <= 0xFFFF_FFFF {
        x
    } else {
        0xFFFF_FFFF
    }
}

impl MpuRegion {
    pub open spec fn holds(self, addr: u32) -> bool {
        self.start <= addr < sat32(self.start + self.size)
    }

    /// Whether an address is inside the region.
    pub fn contains(&self, addr: u32) -> (r: bool)
        ensures
            r == self.holds(addr),
    {
        addr >= self.start && addr < self.start.saturating_add(self.size)
    }
}

/// A watched address range.
#[derive(Debug, Clone)]
pub struct Watchpoint {
    pub address: u32,
    pub size: u32,
    pub on_write: bool,
    pub on_read: bool,
}

impl Watchpoint {
    pub open spec fn overlaps(self, addr: u32, width: u32) -> bool {
        addr < sat32(self.address + self.size) && self.address < sat32(addr + width)
    }

    /// Whether the watchpoint watches this kind of access.
    pub open spec fn watches(self, write: bool) -> bool {
        if write {
            self.on_write
        } else {
            self.on_read
        }
    }

    /// Whether an access of `width` bytes touches the watched range.
    pub fn contains(&self, addr: u32, width: u32) -> (r: bool)
        ensures
            r == self.overlaps(addr, width),
    {
        let w_end: u32 = self.address.saturating_add(self.size);
        let a_end: u32 = addr.saturating_add(width);
        addr < w_end && self.address < a_end
    }
}

/// State of a flash sector.
#[derive(Debug, Clone, Copy, PartialEq, Eq, Structural)]
pub enum FlashSectorState {
    Erased,
    Written,
    Erasing,
}

/// Why a memory access was refused.
#[derive(Debug, Clone, Copy, PartialEq, Eq, Structural)]
pub enum MemoryFault {
    /// The address is in no region, or the access leaves its region.
    BusFault { address: u32 },
    /// Memory protection refuses the access.
    MemManage { address: u32 },
    /// The access is not aligned to its width.
    UnalignedAccess { address: u32 },
    /// The region cannot be written.
    ReadOnlyWrite { address: u32 },
}

impl MemoryFault {
    /// The fault and its address as text.
    pub open spec fn text(self) -> Seq<char> {
        match self {
            MemoryFault::BusFault { address } => "BusFault @ "@ + hex_text(address as nat),
            MemoryFault::MemManage { address } => "MemManage @ "@ + hex_text(address as nat),
            MemoryFault::UnalignedAccess { address } => "Unaligned @ "@ + hex_text(address as nat),
            MemoryFault::ReadOnlyWrite { address } => "ReadOnlyWrite @ "@ + hex_text(
                address as nat,
            ),
        }
    }

    /// The fault and its address as text.
    pub fn describe(&self) -> (r: String)
        ensures
            r@ == self.text(),
    {
        let (name, address): (&str, u32) = match self {
            MemoryFault::BusFault { address } => ("BusFault @ ", *address),
            MemoryFault::MemManage { address } => ("MemManage @ ", *address),
            MemoryFault::UnalignedAccess { address } => ("Unaligned @ ", *address),
            MemoryFault::ReadOnlyWrite { address } => ("ReadOnlyWrite @ ", *address),
        };
        let mut text: String = name.to_string();
        push_hex(&mut text, address as u64);
        text
    }
}

/// The first region from index `from` on that holds an address.
pub open spec fn first_region(regions: Seq<MemoryRegion>, addr: u32, from: int) -> Option<
    MemoryRegion,
>
    decreases regions.len() - from,
{
    if from < 0 || from >= regions.len() {
        None
    } else if regions[from].holds(addr) {
        Some(regions[from])
    } else {
        first_region(regions, addr, from + 1)
    }
}

/// The first protection region from index `from` on that holds an address.
pub open spec fn first_mpu(regions: Seq<MpuRegion>, addr: u32, from: int) -> Option<MpuRegion>
    decreases regions.len() - from,
{
    if from < 0 || from >= regions.len() {
        None
    } else if regions[from].holds(addr) {
        Some(regions[from])
    } else {
        first_mpu(regions, addr, from + 1)
    }
}

/// The index of the first device from `from` on whose window holds an address.
pub open spec fn first_device(devices: Seq<DeviceModel>, addr: u32, from: int) -> Option<int>
    decreases devices.len() - from,
{
    if from < 0 || from >= devices.len() {
        None
    } else if devices[from].covers(addr) {
        Some(from)
    } else {
        first_device(devices, addr, from + 1)
    }
}

/// The index of the first device from `from` on that has a name.
pub open spec fn first_named(devices: Seq<DeviceModel>, name: Seq<char>, from: int) -> Option<int>
    decreases devices.len() - from,
{
    if from < 0 || from >= devices.len() {
        None
    } else if devices[from].name() == name {
        Some(from)
    } else {
        first_named(devices, name, from + 1)
    }
}

/// `s` with the elements from `off` on replaced by `data`.
pub open spec fn splice(s: Seq<u8>, off: int, data: Seq<u8>) -> Seq<u8> {
    Seq::new(
        s.len(),
        |i: int|
            if off <= i < off + data.len() {
                data[i - off]
            } else {
                s[i]
            },
    )
}

/// The little-endian number in the `width` bytes from `off` on.
pub open spec fn le_value(s: Seq<u8>, off: int, width: u32) -> int {
    if width == 1 {
        s[off] as int
    } else if width == 2 {
        s[off] + 0x100 * s[off + 1]
    } else {
        s[off] + 0x100 * s[off + 1] + 0x1_0000 * s[off + 2] + 0x100_0000 * s[off + 3]
    }
}

/// The little-endian bytes of the low `width` bytes of a word.
pub open spec fn le_bytes(val: u32, width: u32) -> Seq<u8> {
    if width == 1 {
        seq![(val % 0x100) as u8]
    } else if width == 2 {
        seq![(val % 0x100) as u8, (val / 0x100 % 0x100) as u8]
    } else {
        seq![
            (val % 0x100) as u8,
            (val / 0x100 % 0x100) as u8,
            (val / 0x1_0000 % 0x100) as u8,
            (val / 0x100_0000 % 0x100) as u8,
        ]
    }
}

/// The low `width` bytes of a word.
pub open spec fn low_bytes(val: u32, width: u32) -> u32 {
    if width == 1 {
        (val % 0x100) as u32
    } else if width == 2 {
        (val % 0x1_0000) as u32
    } else {
        val
    }
}

/// The state of the memory map.
#[verifier::ext_equal]
pub struct MemoryModel {
    pub regions: Seq<MemoryRegion>,
    pub flash: Seq<u8>,
    pub sram: Seq<u8>,
    pub ccm: Seq<u8>,
    pub mpu_regions: Seq<MpuRegion>,
    pub mpu_enabled: bool,
    pub unalign_trap: bool,
    pub watchpoints: Seq<Watchpoint>,
    pub watchpoint_hit: Option<u32>,
    pub flash_erase_required: bool,
    pub read_count: u64,
    pub write_count: u64,
    pub devices: Seq<DeviceModel>,
}

impl MemoryModel {
    /// The bytes behind a kind of region.
    pub open spec fn storage(self, t: MemoryRegionType) -> Option<Seq<u8>> {
        match t {
            MemoryRegionType::Code => Some(self.flash),
            MemoryRegionType::Sram => Some(self.sram),
            MemoryRegionType::Ccm => Some(self.ccm),
            _ => None,
        }
    }

    /// The state with other bytes behind a kind of region.
    pub open spec fn with_storage(self, t: MemoryRegionType, bytes: Seq<u8>) -> MemoryModel {
        match t {
            MemoryRegionType::Code => MemoryModel { flash: bytes, ..self },
            MemoryRegionType::Sram => MemoryModel { sram: bytes, ..self },
            MemoryRegionType::Ccm => MemoryModel { ccm: bytes, ..self },
            _ => self,
        }
    }

    /// Every backed region has bytes for all of its addresses.
    #[verifier::opaque]
    pub open spec fn wf(self) -> bool {
        forall|i: int|
            0 <= i < self.regions.len() ==> match self.storage(
                (#[trigger] self.regions[i]).region_type,
            ) {
                Some(bytes) => self.regions[i].end - self.regions[i].start <= bytes.len(),
                None => true,
            }
    }

    /// The region that an address belongs to.
    pub open spec fn region_of(self, addr: u32) -> Option<MemoryRegion> {
        first_region(self.regions, addr, 0)
    }

    /// Memory protection: the first region that holds the address decides.
    pub open spec fn mpu_fault(self, addr: u32, write: bool) -> Option<MemoryFault> {
        if !self.mpu_enabled {
            None
        } else {
            match first_mpu(self.mpu_regions, addr, 0) {
                Some(r) => if (write && !r.write) || (!write && !r.read) {
                    Some(MemoryFault::MemManage { address: addr })
                } else {
                    None
                },
                None => None,
            }
        }
    }

    /// Why an access is refused; none where it is granted.
    pub open spec fn access_fault(self, addr: u32, width: u32, write: bool) -> Option<MemoryFault> {
        if self.unalign_trap && width > 1 && addr as int % (if width == 4 {
            4int
        } else {
            2int
        }) != 0 {
            Some(MemoryFault::UnalignedAccess { address: addr })
        } else {
            match self.region_of(addr) {
                None => Some(MemoryFault::BusFault { address: addr }),
                Some(r) => if addr + width > r.end {
                    Some(MemoryFault::BusFault { address: addr })
                } else if write && !r.writable {
                    Some(MemoryFault::ReadOnlyWrite { address: addr })
                } else {
                    self.mpu_fault(addr, write)
                },
            }
        }
    }

    /// A watchpoint sees the access.
    pub open spec fn is_watched(self, addr: u32, width: u32, write: bool) -> bool {
        exists|i: int|
            0 <= i < self.watchpoints.len() && (#[trigger] self.watchpoints[i]).watches(write)
                && self.watchpoints[i].overlaps(addr, width)
    }

    /// The last watchpoint hit after an access.
    pub open spec fn hit_after(self, addr: u32, width: u32, write: bool) -> Option<u32> {
        if self.is_watched(addr, width, write) {
            Some(addr)
        } else {
            self.watchpoint_hit
        }
    }

    /// The device that serves an address.
    pub open spec fn device_for(self, addr: u32) -> Option<int> {
        match self.region_of(addr) {
            Some(r) => if r.region_type == MemoryRegionType::Peripheral || r.region_type
                == MemoryRegionType::System {
                first_device(self.devices, addr, 0)
            } else {
                None
            },
            None => None,
        }
    }

    /// The value at an address where a read is granted.
    pub open spec fn value_at(self, addr: u32, width: u32) -> u32 {
        match self.device_for(addr) {
            Some(i) => low_bytes(self.devices[i].read_value(addr, width), width),
            None => match self.region_of(addr) {
                Some(r) => match self.storage(r.region_type) {
                    Some(bytes) => le_value(bytes, addr - r.start, width) as u32,
                    None => 0,
                },
                None => 0,
            },
        }
    }

    /// The state after a granted read.
    pub open spec fn after_read(self, addr: u32, width: u32) -> MemoryModel {
        MemoryModel {
            watchpoint_hit: self.hit_after(addr, width, false),
            read_count: wrap64(self.read_count + 1),
            devices: match self.device_for(addr) {
                Some(i) => self.devices.update(i, self.devices[i].after_read(addr, width)),
                None => self.devices,
            },
            ..self
        }
    }

    /// The state after a granted write.
    pub open spec fn after_write(self, addr: u32, width: u32, val: u32) -> MemoryModel {
        let counted = MemoryModel {
            watchpoint_hit: self.hit_after(addr, width, true),
            write_count: wrap64(self.write_count + 1),
            ..self
        };
        match self.device_for(addr) {
            Some(i) => MemoryModel {
                devices: self.devices.update(
                    i,
                    self.devices[i].after_write(addr, width, low_bytes(val, width)),
                ),
                ..counted
            },
            None => match self.region_of(addr) {
                Some(r) => match self.storage(r.region_type) {
                    Some(bytes) => counted.with_storage(
                        r.region_type,
                        splice(bytes, addr - r.start, le_bytes(val, width)),
                    ),
                    None => counted,
                },
                None => counted,
            },
        }
    }

    /// A read: what it returns, and the state it leaves.
    #[verifier::opaque]
    pub open spec fn reading(self, addr: u32, width: u32) -> (Result<u32, MemoryFault>, MemoryModel) {
        match self.access_fault(addr, width, false) {
            Some(f) => (Err(f), self),
            None => (Ok(self.value_at(addr, width)), self.after_read(addr, width)),
        }
    }

    /// A write: what it returns, and the state it leaves.
    #[verifier::opaque]
    pub open spec fn writing(self, addr: u32, width: u32, val: u32) -> (
        Result<(), MemoryFault>,
        MemoryModel,
    ) {
        match self.access_fault(addr, width, true) {
            Some(f) => (Err(f), self),
            None => (Ok(()), self.after_write(addr, width, val)),
        }
    }

    /// The fault of placing `len` bytes at an address; none where they fit into one
    /// backed region.
    pub open spec fn load_fault(self, addr: u32, len: nat) -> Option<MemoryFault> {
        if len == 0 {
            None
        } else {
            match self.region_of(addr) {
                None => Some(MemoryFault::BusFault { address: addr }),
                Some(r) => if addr + len > r.end || self.storage(r.region_type) is None {
                    Some(MemoryFault::BusFault { address: addr })
                } else {
                    None
                },
            }
        }
    }

    /// The state with bytes placed at an address.
    pub open spec fn loaded(self, addr: u32, data: Seq<u8>) -> MemoryModel {
        match self.region_of(addr) {
            Some(r) => match self.storage(r.region_type) {
                Some(bytes) => if data.len() == 0 {
                    self
                } else {
                    self.with_storage(r.region_type, splice(bytes, addr - r.start, data))
                },
                None => self,
            },
            None => self,
        }
    }

    /// Erasing flash: what it returns, and the state it leaves. The bytes from
    /// `start` on become 0xFF, `size` of them or as many as the region still holds.
    pub open spec fn erasing(self, start: u32, size: u32) -> (Result<(), MemoryFault>, MemoryModel) {
        match self.region_of(start) {
            Some(r) => if r.region_type == MemoryRegionType::Code {
                let end = if start + size <= r.end {
                    start + size
                } else {
                    r.end as int
                };
                (
                    Ok(()),
                    MemoryModel {
                        flash: splice(
                            self.flash,
                            start - r.start,
                            Seq::new((end - start) as nat, |i: int| 0xFFu8),
                        ),
                        ..self
                    },
                )
            } else {
                (Err(MemoryFault::BusFault { address: start }), self)
            },
            None => (Err(MemoryFault::BusFault { address: start }), self),
        }
    }

    /// The kind of storage behind an address and the offset in it.
    pub open spec fn place_of(self, addr: u32) -> Option<(MemoryRegionType, int)> {
        match self.region_of(addr) {
            Some(r) => if self.storage(r.region_type) is Some {
                Some((r.region_type, addr - r.start))
            } else {
                None
            },
            None => None,
        }
    }

    /// The system block: the first device that has its name, where that is one.
    pub open spec fn system(self) -> Option<SystemBlock> {
        match first_named(self.devices, SYSTEM_BLOCK_NAME@, 0) {
            Some(i) => match self.devices[i] {
                DeviceModel::System(s) => Some(s),
                _ => None,
            },
            None => None,
        }
    }

    /// The state with another system block in the place of the attached one.
    pub open spec fn with_system(self, s: SystemBlock) -> MemoryModel {
        match first_named(self.devices, SYSTEM_BLOCK_NAME@, 0) {
            Some(i) => if self.devices[i] is System {
                MemoryModel { devices: self.devices.update(i, DeviceModel::System(s)), ..self }
            } else {
                self
            },
            None => self,
        }
    }
}

/// The memory map.
pub struct Memory {
    /// The regions; the first one that holds an address counts.
    pub regions: Vec<MemoryRegion>,
    /// Bytes of the code regions.
    pub flash: Vec<u8>,
    /// Bytes of the SRAM regions.
    pub sram: Vec<u8>,
    /// Bytes of the CCM regions.
    pub ccm: Vec<u8>,
    /// Memory protection regions; the first one that holds an address counts.
    pub mpu_regions: Vec<MpuRegion>,
    /// Whether memory protection is on.
    pub mpu_enabled: bool,
    /// Whether unaligned accesses fault.
    pub unalign_trap: bool,
    /// Watched address ranges.
    pub watchpoints: Vec<Watchpoint>,
    /// Address of the last access that a watchpoint saw.
    pub watchpoint_hit: Option<u32>,
    /// Whether flash has to be erased before it is written.
    pub flash_erase_required: bool,
    /// Number of granted reads.
    pub read_count: u64,
    /// Number of granted writes.
    pub write_count: u64,
    /// The bus devices, in the order in which they were attached.
    pub peripherals: Vec<Device>,
}

impl View for Memory {
    type V = MemoryModel;

    open spec fn view(&self) -> MemoryModel {
        MemoryModel {
            regions: self.regions@,
            flash: self.flash@,
            sram: self.sram@,
            ccm: self.ccm@,
            mpu_regions: self.mpu_regions@,
            mpu_enabled: self.mpu_enabled,
            unalign_trap: self.unalign_trap,
            watchpoints: self.watchpoints@,
            watchpoint_hit: self.watchpoint_hit,
            flash_erase_required: self.flash_erase_required,
            read_count: self.read_count,
            write_count: self.write_count,
            devices: self.peripherals@.map_values(|d: Device| d@),
        }
    }
}

/// `len` copies of a byte.
fn filled(byte: u8, len: usize) -> (r: Vec<u8>)
    ensures
        r@ == Seq::new(len as nat, |i: int| byte),
{
    let mut v: Vec<u8> = Vec::new();
    let mut i: usize = 0;
    while i < len
        invariant
            i <= len,
            v@ == Seq::new(i as nat, |j: int| byte),
        decreases len - i,
    {
        v.push(byte);
        i = i + 1;
        assert(v@ =~= Seq::new(i as nat, |j: int| byte));
    }
    v
}

/// Sets the bytes from `from` up to `to`.
fn fill_range(v: &mut Vec<u8>, from: usize, to: usize, byte: u8)
    requires
        from <= to <= old(v)@.len(),
    ensures
        final(v)@ == splice(old(v)@, from as int, Seq::new((to - from) as nat, |i: int| byte)),
{
    let ghost start = v@;
    let mut i: usize = from;
    while i < to
        invariant
            from <= i <= to <= v@.len(),
            v@ == splice(start, from as int, Seq::new((i - from) as nat, |j: int| byte)),
        decreases to - i,
    {
        v.set(i, byte);
        i = i + 1;
        assert(v@ =~= splice(start, from as int, Seq::new((i - from) as nat, |j: int| byte)));
    }
    assert(v@ =~= splice(start, from as int, Seq::new((to - from) as nat, |j: int| byte)));
}

/// Copies bytes over the elements from `off` on.
fn copy_into(v: &mut Vec<u8>, off: usize, data: &[u8])
    requires
        off + data@.len() <= old(v)@.len(),
    ensures
        final(v)@ == splice(old(v)@, off as int, data@),
{
    let ghost start = v@;
    let mut i: usize = 0;
    while i < data.len()
        invariant
            i <= data@.len(),
            off + data@.len() <= v.len(),
            v@ == splice(start, off as int, data@.take(i as int)),
        decreases data@.len() - i,
    {
        v.set(off + i, data[i]);
        i = i + 1;
        assert(v@ =~= splice(start, off as int, data@.take(i as int)));
    }
    assert(data@.take(i as int) =~= data@);
}

proof fn lemma_first_region(regions: Seq<MemoryRegion>, addr: u32, from: int)
    requires
        0 <= from,
    ensures
        match first_region(regions, addr, from) {
            Some(r) => r.holds(addr) && exists|i: int|
                from <= i < regions.len() && #[trigger] regions[i] == r,
            None => true,
        },
    decreases regions.len() - from,
{
    if from < regions.len() {
        if regions[from].holds(addr) {
            assert(regions[from] == regions[from]);
        } else {
            lemma_first_region(regions, addr, from + 1);
        }
    }
}

/// A granted access stays inside the bytes of its region.
pub proof fn lemma_region_backed(m: MemoryModel, addr: u32)
    requires
        m.wf(),
    ensures
        match m.region_of(addr) {
            Some(r) => r.holds(addr) && match m.storage(r.region_type) {
                Some(bytes) => r.end - r.start <= bytes.len(),
                None => true,
            },
            None => true,
        },
{
    reveal(MemoryModel::wf);
    lemma_first_region(m.regions, addr, 0);
}

proof fn lemma_le_value_bounds(s: Seq<u8>, off: int)
    ensures
        0 <= le_value(s, off, 1) <= 0xFF,
        0 <= le_value(s, off, 2) <= 0xFFFF,
        0 <= le_value(s, off, 4) <= 0xFFFF_FFFF,
{
}

impl Memory {
    /// Every backed region has bytes for all of its addresses.
    pub open spec fn wf(self) -> bool {
        self@.wf()
    }

    /// The layout of a Cortex-M4F with 512 KiB flash, 128 KiB SRAM and 64 KiB CCM.
    pub fn m4f_default() -> (r: Self)
        ensures
            r.wf(),
            r@ == m4f_model(),
    {
        proof {
            reveal(MemoryModel::wf);
        }
        let regions: Vec<MemoryRegion> = vec![
            MemoryRegion { name: "FLASH", start: 0x0000_0000, end: 0x0008_0000, region_type: MemoryRegionType::Code, writable: false, executable: true },
            MemoryRegion { name: "SRAM", start: 0x2000_0000, end: 0x2002_0000, region_type: MemoryRegionType::Sram, writable: true, executable: true },
            MemoryRegion { name: "CCM", start: 0x1000_0000, end: 0x1001_0000, region_type: MemoryRegionType::Ccm, writable: true, executable: true },
            MemoryRegion { name: "PERIPH", start: 0x4000_0000, end: 0x5000_0000, region_type: MemoryRegionType::Peripheral, writable: true, executable: false },
            MemoryRegion { name: "SYSTEM", start: 0xE000_0000, end: 0xE010_0000, region_type: MemoryRegionType::System, writable: true, executable: false },
        ];
        let r = Memory {
            regions,
            flash: filled(0xFF, 0x0008_0000),
            sram: filled(0, 0x0002_0000),
            ccm: filled(0, 0x0001_0000),
            mpu_regions: Vec::new(),
            mpu_enabled: false,
            unalign_trap: true,
            watchpoints: Vec::new(),
            watchpoint_hit: None,
            flash_erase_required: true,
            read_count: 0,
            write_count: 0,
            peripherals: Vec::new(),
        };
        assert(r@ =~= m4f_model());
        r
    }

    /// The smallest useful map: 4 KiB flash and 4 KiB SRAM.
    pub fn test_ram() -> (r: Self)
        ensures
            r.wf(),
            r@ == test_ram_model(),
    {
        proof {
            reveal(MemoryModel::wf);
        }
        let regions: Vec<MemoryRegion> = vec![
            MemoryRegion { name: "FLASH", start: 0x0000_0000, end: 0x0000_1000, region_type: MemoryRegionType::Code, writable: false, executable: true },
            MemoryRegion { name: "SRAM", start: 0x2000_0000, end: 0x2000_1000, region_type: MemoryRegionType::Sram, writable: true, executable: true },
        ];
        let r = Memory {
            regions,
            flash: filled(0xFF, 0x1000),
            sram: filled(0, 0x1000),
            ccm: Vec::new(),
            mpu_regions: Vec::new(),
            mpu_enabled: false,
            unalign_trap: true,
            watchpoints: Vec::new(),
            watchpoint_hit: None,
            flash_erase_required: true,
            read_count: 0,
            write_count: 0,
            peripherals: Vec::new(),
        };
        assert(r@ =~= test_ram_model());
        r
    }

    /// A map of these regions, with erased flash and zeroed RAM of the given sizes,
    /// and without devices.
    pub(crate) fn with_regions(
        regions: Vec<MemoryRegion>,
        flash: usize,
        sram: usize,
        ccm: usize,
    ) -> (r: Self)
        ensures
            r@ == (MemoryModel {
                regions: regions@,
                flash: Seq::new(flash as nat, |i: int| 0xFFu8),
                sram: Seq::new(sram as nat, |i: int| 0u8),
                ccm: Seq::new(ccm as nat, |i: int| 0u8),
                mpu_regions: Seq::empty(),
                mpu_enabled: false,
                unalign_trap: true,
                watchpoints: Seq::empty(),
                watchpoint_hit: None,
                flash_erase_required: true,
                read_count: 0,
                write_count: 0,
                devices: Seq::empty(),
            }),
    {
        let r = Memory {
            regions,
            flash: filled(0xFF, flash),
            sram: filled(0, sram),
            ccm: filled(0, ccm),
            mpu_regions: Vec::new(),
            mpu_enabled: false,
            unalign_trap: true,
            watchpoints: Vec::new(),
            watchpoint_hit: None,
            flash_erase_required: true,
            read_count: 0,
            write_count: 0,
            peripherals: Vec::new(),
        };
        assert(r@.devices =~= Seq::empty());
        r
    }

    /// The region that an address belongs to.
    pub fn region_at(&self, addr: u32) -> (r: Option<&MemoryRegion>)
        ensures
            match r {
                Some(x) => self@.region_of(addr) == Some(*x),
                None => self@.region_of(addr) is None,
            },
    {
        let mut i: usize = 0;
        while i < self.regions.len()
            invariant
                i <= self.regions@.len(),
                self@.region_of(addr) == first_region(self.regions@, addr, i as int),
            decreases self.regions@.len() - i,
        {
            if self.regions[i].contains(addr) {
                return Some(&self.regions[i]);
            }
            i = i + 1;
        }
        None
    }

    /// Memory protection check.
    fn check_mpu(&self, addr: u32, write: bool) -> (r: Result<(), MemoryFault>)
        ensures
            r == (match self@.mpu_fault(addr, write) {
                Some(f) => Err::<(), MemoryFault>(f),
                None => Ok(()),
            }),
    {
        if !self.mpu_enabled {
            return Ok(());
        }
        let mut i: usize = 0;
        while i < self.mpu_regions.len()
            invariant
                i <= self.mpu_regions@.len(),
                first_mpu(self.mpu_regions@, addr, 0) == first_mpu(
                    self.mpu_regions@,
                    addr,
                    i as int,
                ),
                self.mpu_enabled,
            decreases self.mpu_regions@.len() - i,
        {
            if self.mpu_regions[i].contains(addr) {
                if (write && !self.mpu_regions[i].write) || (!write && !self.mpu_regions[i].read) {
                    return Err(MemoryFault::MemManage { address: addr });
                }
                return Ok(());
            }
            i = i + 1;
        }
        Ok(())
    }

    /// Records the access if a watchpoint sees it.
    fn check_watchpoint(&mut self, addr: u32, width: u32, write: bool)
        ensures
            final(self)@ == (MemoryModel {
                watchpoint_hit: old(self)@.hit_after(addr, width, write),
                ..old(self)@
            }),
    {
        let mut i: usize = 0;
        while i < self.watchpoints.len()
            invariant
                i <= self.watchpoints@.len(),
                *self == *old(self),
                forall|j: int|
                    0 <= j < i ==> !((#[trigger] self.watchpoints@[j]).watches(write)
                        && self.watchpoints@[j].overlaps(addr, width)),
            decreases self.watchpoints@.len() - i,
        {
            let relevant: bool = if write {
                self.watchpoints[i].on_write
            } else {
                self.watchpoints[i].on_read
            };
            if relevant && self.watchpoints[i].contains(addr, width) {
                assert(self@.watchpoints[i as int].watches(write));
                self.watchpoint_hit = Some(addr);
                return;
            }
            i = i + 1;
        }
    }

    /// Alignment, region, write permission and memory protection.
    fn check_access(&self, addr: u32, width: u32, write: bool) -> (r: Result<(), MemoryFault>)
        ensures
            r == (match self@.access_fault(addr, width, write) {
                Some(f) => Err::<(), MemoryFault>(f),
                None => Ok(()),
            }),
    {
        if self.unalign_trap && width > 1 {
            let alignment: u32 = if width == 4 {
                4
            } else {
                2
            };
            if addr % alignment != 0 {
                return Err(MemoryFault::UnalignedAccess { address: addr });
            }
        }
        match self.region_at(addr) {
            None => Err(MemoryFault::BusFault { address: addr }),
            Some(region) => {
                if addr as u64 + width as u64 > region.end as u64 {
                    return Err(MemoryFault::BusFault { address: addr });
                }
                if write && !region.writable {
                    return Err(MemoryFault::ReadOnlyWrite { address: addr });
                }
                self.check_mpu(addr, write)
            },
        }
    }

    /// The device that serves an address.
    fn device_at(&self, addr: u32) -> (r: Option<usize>)
        ensures
            match r {
                Some(i) => self@.device_for(addr) == Some(i as int) && i < self.peripherals@.len(),
                None => self@.device_for(addr) is None,
            },
    {
        let is_periph: bool = match self.region_at(addr) {
            Some(region) => region.region_type == MemoryRegionType::Peripheral
                || region.region_type == MemoryRegionType::System,
            None => false,
        };
        if !is_periph {
            return None;
        }
        let mut i: usize = 0;
        while i < self.peripherals.len()
            invariant
                i <= self.peripherals@.len(),
                self@.device_for(addr) == first_device(self@.devices, addr, i as int),
            decreases self.peripherals@.len() - i,
        {
            let base: u32 = self.peripherals[i].base_address();
            let end: u32 = base.wrapping_add(self.peripherals[i].window_size());
            assert(self@.devices[i as int] == self.peripherals@[i as int]@);
            if addr >= base && addr < end {
                return Some(i);
            }
            i = i + 1;
        }
        None
    }

    /// A read that a device serves.
    fn peripheral_read(&mut self, addr: u32, width: u32) -> (r: Option<u32>)
        ensures
            match old(self)@.device_for(addr) {
                Some(i) => r == Some(old(self)@.devices[i].read_value(addr, width)) && final(self)@
                    == (MemoryModel {
                    devices: old(self)@.devices.update(
                        i,
                        old(self)@.devices[i].after_read(addr, width),
                    ),
                    ..old(self)@
                }),
                None => r is None && final(self)@ == old(self)@,
            },
    {
        match self.device_at(addr) {
            Some(i) => {
                let v: u32 = self.peripherals[i].read(addr, width);
                assert(self@.devices =~= old(self)@.devices.update(
                    i as int,
                    old(self)@.devices[i as int].after_read(addr, width),
                ));
                Some(v)
            },
            None => None,
        }
    }

    /// A write that a device serves.
    fn peripheral_write(&mut self, addr: u32, width: u32, val: u32) -> (r: bool)
        ensures
            match old(self)@.device_for(addr) {
                Some(i) => r && final(self)@ == (MemoryModel {
                    devices: old(self)@.devices.update(
                        i,
                        old(self)@.devices[i].after_write(addr, width, val),
                    ),
                    ..old(self)@
                }),
                None => !r && final(self)@ == old(self)@,
            },
    {
        match self.device_at(addr) {
            Some(i) => {
                self.peripherals[i].write(addr, width, val);
                assert(self@.devices =~= old(self)@.devices.update(
                    i as int,
                    old(self)@.devices[i as int].after_write(addr, width, val),
                ));
                true
            },
            None => false,
        }
    }

    /// The bytes behind a kind of region.
    fn storage(&self, t: MemoryRegionType) -> (r: Option<&Vec<u8>>)
        ensures
            match r {
                Some(v) => self@.storage(t) == Some(v@),
                None => self@.storage(t) is None,
            },
    {
        match t {
            MemoryRegionType::Code => Some(&self.flash),
            MemoryRegionType::Sram => Some(&self.sram),
            MemoryRegionType::Ccm => Some(&self.ccm),
            _ => None,
        }
    }

    /// The bytes behind a kind of region, to be changed.
    fn storage_mut_by_type(&mut self, t: MemoryRegionType) -> (r: Option<&mut Vec<u8>>)
        ensures
            match r {
                Some(v) => old(self)@.storage(t) == Some(v@) && final(self)@
                    == old(self)@.with_storage(t, final(v)@),
                None => old(self)@.storage(t) is None && *final(self) == *old(self),
            },
    {
        match t {
            MemoryRegionType::Code => Some(&mut self.flash),
            MemoryRegionType::Sram => Some(&mut self.sram),
            MemoryRegionType::Ccm => Some(&mut self.ccm),
            _ => None,
        }
    }

    /// Reads a byte.
    pub fn read_u8(&mut self, addr: u32) -> (r: Result<u8, MemoryFault>)
        requires
            old(self).wf(),
        ensures
            final(self).wf(),
            final(self)@ == old(self)@.reading(addr, 1).1,
            match old(self)@.reading(addr, 1).0 {
                Ok(v) => r == Ok::<u8, MemoryFault>(v as u8) && v <= 0xFF,
                Err(f) => r == Err::<u8, MemoryFault>(f),
            },
    {
        proof {
            reveal(MemoryModel::wf);
            reveal(MemoryModel::reading);
        }
        match self.check_access(addr, 1, false) {
            Ok(()) => {},
            Err(f) => {
                return Err(f);
            },
        }
        proof {
            lemma_region_backed(self@, addr);
        }
        self.check_watchpoint(addr, 1, false);
        self.read_count = self.read_count.wrapping_add(1);
        if let Some(v) = self.peripheral_read(addr, 1) {
            return Ok((v % 0x100) as u8);
        }
        match self.region_at(addr) {
            Some(region) => match self.storage(region.region_type) {
                Some(s) => {
                    let off: usize = (addr - region.start) as usize;
                    Ok(s[off])
                },
                None => Ok(0),
            },
            None => Ok(0),
        }
    }

    /// Reads two bytes, little endian.
    pub fn read_u16(&mut self, addr: u32) -> (r: Result<u16, MemoryFault>)
        requires
            old(self).wf(),
        ensures
            final(self).wf(),
            final(self)@ == old(self)@.reading(addr, 2).1,
            match old(self)@.reading(addr, 2).0 {
                Ok(v) => r == Ok::<u16, MemoryFault>(v as u16) && v <= 0xFFFF,
                Err(f) => r == Err::<u16, MemoryFault>(f),
            },
    {
        proof {
            reveal(MemoryModel::wf);
            reveal(MemoryModel::reading);
        }
        match self.check_access(addr, 2, false) {
            Ok(()) => {},
            Err(f) => {
                return Err(f);
            },
        }
        proof {
            lemma_region_backed(self@, addr);
        }
        self.check_watchpoint(addr, 2, false);
        self.read_count = self.read_count.wrapping_add(1);
        if let Some(v) = self.peripheral_read(addr, 2) {
            return Ok((v % 0x1_0000) as u16);
        }
        match self.region_at(addr) {
            Some(region) => match self.storage(region.region_type) {
                Some(s) => {
                    let off: usize = (addr - region.start) as usize;
                    proof {
                        lemma_le_value_bounds(s@, off as int);
                    }
                    Ok(s[off] as u16 + 0x100 * s[off + 1] as u16)
                },
                None => Ok(0),
            },
            None => Ok(0),
        }
    }

    /// Reads four bytes, little endian.
    pub fn read_u32(&mut self, addr: u32) -> (r: Result<u32, MemoryFault>)
        requires
            old(self).wf(),
        ensures
            final(self).wf(),
            final(self)@ == old(self)@.reading(addr, 4).1,
            r == old(self)@.reading(addr, 4).0,
    {
        proof {
            reveal(MemoryModel::wf);
            reveal(MemoryModel::reading);
        }
        match self.check_access(addr, 4, false) {
            Ok(()) => {},
            Err(f) => {
                return Err(f);
            },
        }
        proof {
            lemma_region_backed(self@, addr);
        }
        self.check_watchpoint(addr, 4, false);
        self.read_count = self.read_count.wrapping_add(1);
        if let Some(v) = self.peripheral_read(addr, 4) {
            return Ok(v);
        }
        match self.region_at(addr) {
            Some(region) => match self.storage(region.region_type) {
                Some(s) => {
                    let off: usize = (addr - region.start) as usize;
                    proof {
                        lemma_le_value_bounds(s@, off as int);
                    }
                    Ok(
                        s[off] as u32 + 0x100 * s[off + 1] as u32 + 0x1_0000 * s[off + 2] as u32
                            + 0x100_0000 * s[off + 3] as u32,
                    )
                },
                None => Ok(0),
            },
            None => Ok(0),
        }
    }

    /// Stores bytes in the region of an address.
    fn store(&mut self, addr: u32, bytes: &[u8])
        requires
            old(self).wf(),
            match old(self)@.region_of(addr) {
                Some(r) => addr + bytes@.len() <= r.end,
                None => true,
            },
        ensures
            final(self)@ == (match old(self)@.region_of(addr) {
                Some(r) => match old(self)@.storage(r.region_type) {
                    Some(s) => old(self)@.with_storage(
                        r.region_type,
                        splice(s, addr - r.start, bytes@),
                    ),
                    None => old(self)@,
                },
                None => old(self)@,
            }),
    {
        proof {
            lemma_region_backed(self@, addr);
        }
        let (region_type, off): (MemoryRegionType, usize) = match self.region_at(addr) {
            Some(region) => (region.region_type, (addr - region.start) as usize),
            None => {
                return;
            },
        };
        match self.storage_mut_by_type(region_type) {
            Some(s) => {
                copy_into(s, off, bytes);
            },
            None => {},
        }
    }

    /// Writes a byte.
    pub fn write_u8(&mut self, addr: u32, val: u8) -> (r: Result<(), MemoryFault>)
        requires
            old(self).wf(),
        ensures
            final(self).wf(),
            final(self)@ == old(self)@.writing(addr, 1, val as u32).1,
            r == old(self)@.writing(addr, 1, val as u32).0,
    {
        proof {
            reveal(MemoryModel::wf);
            reveal(MemoryModel::writing);
        }
        match self.check_access(addr, 1, true) {
            Ok(()) => {},
            Err(f) => {
                return Err(f);
            },
        }
        self.check_watchpoint(addr, 1, true);
        self.write_count = self.write_count.wrapping_add(1);
        if self.peripheral_write(addr, 1, val as u32) {
            return Ok(());
        }
        let bytes: [u8; 1] = [val];
        assert(bytes@ =~= le_bytes(val as u32, 1));
        self.store(addr, bytes.as_slice());
        Ok(())
    }

    /// Writes two bytes, little endian.
    pub fn write_u16(&mut self, addr: u32, val: u16) -> (r: Result<(), MemoryFault>)
        requires
            old(self).wf(),
        ensures
            final(self).wf(),
            final(self)@ == old(self)@.writing(addr, 2, val as u32).1,
            r == old(self)@.writing(addr, 2, val as u32).0,
    {
        proof {
            reveal(MemoryModel::wf);
            reveal(MemoryModel::writing);
        }
        match self.check_access(addr, 2, true) {
            Ok(()) => {},
            Err(f) => {
                return Err(f);
            },
        }
        self.check_watchpoint(addr, 2, true);
        self.write_count = self.write_count.wrapping_add(1);
        if self.peripheral_write(addr, 2, val as u32) {
            return Ok(());
        }
        let bytes: [u8; 2] = [(val % 0x100) as u8, (val / 0x100) as u8];
        assert(bytes@ =~= le_bytes(val as u32, 2));
        self.store(addr, bytes.as_slice());
        Ok(())
    }

    /// Writes four bytes, little endian.
    pub fn write_u32(&mut self, addr: u32, val: u32) -> (r: Result<(), MemoryFault>)
        requires
            old(self).wf(),
        ensures
            final(self).wf(),
            final(self)@ == old(self)@.writing(addr, 4, val).1,
            r == old(self)@.writing(addr, 4, val).0,
    {
        proof {
            reveal(MemoryModel::wf);
            reveal(MemoryModel::writing);
        }
        match self.check_access(addr, 4, true) {
            Ok(()) => {},
            Err(f) => {
                return Err(f);
            },
        }
        self.check_watchpoint(addr, 4, true);
        self.write_count = self.write_count.wrapping_add(1);
        if self.peripheral_write(addr, 4, val) {
            return Ok(());
        }
        let bytes: [u8; 4] = [
            (val % 0x100) as u8,
            (val / 0x100 % 0x100) as u8,
            (val / 0x1_0000 % 0x100) as u8,
            (val / 0x100_0000 % 0x100) as u8,
        ];
        assert(bytes@ =~= le_bytes(val, 4));
        self.store(addr, bytes.as_slice());
        Ok(())
    }

    /// Places bytes in a region, as a programmer would: without permission checks,
    /// watchpoints or counting. The bytes have to lie inside one backed region.
    pub fn load_bytes(&mut self, addr: u32, data: &[u8]) -> (r: Result<(), MemoryFault>)
        requires
            old(self).wf(),
        ensures
            final(self).wf(),
            match old(self)@.load_fault(addr, data@.len()) {
                Some(f) => r == Err::<(), MemoryFault>(f) && final(self)@ == old(self)@,
                None => r == Ok::<(), MemoryFault>(()) && final(self)@ == old(self)@.loaded(
                    addr,
                    data@,
                ),
            },
    {
        proof {
            reveal(MemoryModel::wf);
        }
        if data.len() == 0 {
            return Ok(());
        }
        let fits: bool = match self.region_at(addr) {
            None => false,
            Some(region) => addr as u128 + data.len() as u128 <= region.end as u128 && match self.storage(
                region.region_type,
            ) {
                Some(_) => true,
                None => false,
            },
        };
        if !fits {
            return Err(MemoryFault::BusFault { address: addr });
        }
        self.store(addr, data);
        Ok(())
    }

    /// Reads 1, 2 or 4 bytes; any other width is a bus fault.
    pub fn read(&mut self, addr: u32, width: u32) -> (r: Result<u32, MemoryFault>)
        requires
            old(self).wf(),
        ensures
            final(self).wf(),
            width == 1 || width == 2 || width == 4 ==> final(self)@ == old(self)@.reading(
                addr,
                width,
            ).1 && r == old(self)@.reading(addr, width).0,
            width != 1 && width != 2 && width != 4 ==> final(self)@ == old(self)@ && r == Err::<
                u32,
                MemoryFault,
            >(MemoryFault::BusFault { address: addr }),
    {
        match width {
            1 => match self.read_u8(addr) {
                Ok(v) => Ok(v as u32),
                Err(f) => Err(f),
            },
            2 => match self.read_u16(addr) {
                Ok(v) => Ok(v as u32),
                Err(f) => Err(f),
            },
            4 => self.read_u32(addr),
            _ => Err(MemoryFault::BusFault { address: addr }),
        }
    }

    /// Writes the low 1, 2 or 4 bytes of a word; any other width is a bus fault.
    pub fn write(&mut self, addr: u32, width: u32, val: u32) -> (r: Result<(), MemoryFault>)
        requires
            old(self).wf(),
        ensures
            final(self).wf(),
            width == 1 || width == 2 || width == 4 ==> final(self)@ == old(self)@.writing(
                addr,
                width,
                low_bytes(val, width),
            ).1 && r == old(self)@.writing(addr, width, low_bytes(val, width)).0,
            width != 1 && width != 2 && width != 4 ==> final(self)@ == old(self)@ && r == Err::<
                (),
                MemoryFault,
            >(MemoryFault::BusFault { address: addr }),
    {
        match width {
            1 => self.write_u8(addr, (val % 0x100) as u8),
            2 => self.write_u16(addr, (val % 0x1_0000) as u16),
            4 => self.write_u32(addr, val),
            _ => Err(MemoryFault::BusFault { address: addr }),
        }
    }

    /// Erases flash: the bytes from `start` on become 0xFF, `size` of them or as
    /// many as the region still holds.
    pub fn flash_erase_sector(&mut self, start: u32, size: u32) -> (r: Result<(), MemoryFault>)
        requires
            old(self).wf(),
        ensures
            final(self).wf(),
            old(self)@.erasing(start, size) == (r, final(self)@),
    {
        proof {
            reveal(MemoryModel::wf);
            lemma_region_backed(self@, start);
        }
        let (off, len): (usize, usize) = match self.region_at(start) {
            None => {
                return Err(MemoryFault::BusFault { address: start });
            },
            Some(region) => {
                if region.region_type != MemoryRegionType::Code {
                    return Err(MemoryFault::BusFault { address: start });
                }
                let rest: u32 = region.end - start;
                let len: u32 = if size <= rest {
                    size
                } else {
                    rest
                };
                ((start - region.start) as usize, len as usize)
            },
        };
        fill_range(&mut self.flash, off, off + len, 0xFF);
        Ok(())
    }

    /// Adds a memory protection region.
    pub fn mpu_add_region(&mut self, region: MpuRegion)
        ensures
            old(self).wf() ==> final(self).wf(),
            final(self)@ == (MemoryModel {
                mpu_regions: old(self)@.mpu_regions.push(region),
                ..old(self)@
            }),
    {
        proof {
            reveal(MemoryModel::wf);
        }
        self.mpu_regions.push(region);
    }

    /// Adds a watchpoint.
    pub fn watchpoint_add(&mut self, wp: Watchpoint)
        ensures
            old(self).wf() ==> final(self).wf(),
            final(self)@ == (MemoryModel {
                watchpoints: old(self)@.watchpoints.push(wp),
                ..old(self)@
            }),
    {
        proof {
            reveal(MemoryModel::wf);
        }
        self.watchpoints.push(wp);
    }

    /// Clears SRAM, erases flash, forgets the last watchpoint hit and switches
    /// memory protection off.
    pub fn reset(&mut self)
        ensures
            old(self).wf() ==> final(self).wf(),
            final(self)@ == (MemoryModel {
                sram: Seq::new(old(self)@.sram.len(), |i: int| 0u8),
                flash: Seq::new(old(self)@.flash.len(), |i: int| 0xFFu8),
                watchpoint_hit: None,
                mpu_regions: Seq::<MpuRegion>::empty(),
                mpu_enabled: false,
                ..old(self)@
            }),
    {
        proof {
            reveal(MemoryModel::wf);
        }
        let n: usize = self.sram.len();
        fill_range(&mut self.sram, 0, n, 0);
        assert(self.sram@ =~= Seq::new(old(self)@.sram.len(), |i: int| 0u8));
        let n: usize = self.flash.len();
        fill_range(&mut self.flash, 0, n, 0xFF);
        assert(self.flash@ =~= Seq::new(old(self)@.flash.len(), |i: int| 0xFFu8));
        self.watchpoint_hit = None;
        self.mpu_regions.clear();
        self.mpu_enabled = false;
    }

    /// Attaches a device to the bus.
    pub fn attach_peripheral<D: Attach>(&mut self, dev: D)
        ensures
            old(self).wf() ==> final(self).wf(),
            final(self)@ == (MemoryModel {
                devices: old(self)@.devices.push(dev.attached()),
                ..old(self)@
            }),
    {
        proof {
            reveal(MemoryModel::wf);
        }
        self.peripherals.push(dev.into_device());
        assert(self@.devices =~= old(self)@.devices.push(dev.attached()));
    }

    /// The first attached device with a name.
    pub fn peripheral_mut_by_name(&mut self, name: &str) -> (r: Option<&mut Device>)
        ensures
            old(self).wf() ==> final(self).wf(),
            match (first_named(old(self)@.devices, name@, 0), r) {
                (Some(i), Some(d)) => old(self)@.devices[i] == d@ && final(self)@ == (MemoryModel {
                    devices: old(self)@.devices.update(i, final(d)@),
                    ..old(self)@
                }),
                (None, None) => final(self)@ == old(self)@,
                _ => false,
            },
    {
        let mut i: usize = 0;
        while i < self.peripherals.len()
            invariant
                i <= self.peripherals@.len(),
                *self == *old(self),
                first_named(self@.devices, name@, 0) == first_named(
                    self@.devices,
                    name@,
                    i as int,
                ),
            decreases self.peripherals@.len() - i,
        {
            assert(self@.devices[i as int] == self.peripherals@[i as int]@);
            if same_text(self.peripherals[i].name(), name) {
                let d = &mut self.peripherals[i];
                assert(after_borrow(self)@.devices =~= old(self)@.devices.update(
                    i as int,
                    final(d)@,
                ));
                proof {
                    reveal(MemoryModel::wf);
                }
                return Some(d);
            }
            i = i + 1;
        }
        None
    }

    fn system_index(&self) -> (r: Option<usize>)
        ensures
            match r {
                Some(i) => i < self.peripherals@.len() && self.peripherals@[i as int] is System
                    && first_named(self@.devices, SYSTEM_BLOCK_NAME@, 0) == Some(i as int),
                None => self@.system() is None,
            },
    {
        proof {
            reveal_strlit("CMSDK-APB-UART");
            reveal_strlit("SYSTEM-BLOCK");
            assert(UART_NAME@.len() != SYSTEM_BLOCK_NAME@.len());
        }
        let mut i: usize = 0;
        while i < self.peripherals.len()
            invariant
                i <= self.peripherals@.len(),
                UART_NAME@ != SYSTEM_BLOCK_NAME@,
                first_named(self@.devices, SYSTEM_BLOCK_NAME@, 0) == first_named(
                    self@.devices,
                    SYSTEM_BLOCK_NAME@,
                    i as int,
                ),
            decreases self.peripherals@.len() - i,
        {
            assert(self@.devices[i as int] == self.peripherals@[i as int]@);
            match &self.peripherals[i] {
                Device::System(_) => {
                    return Some(i);
                },
                Device::Uart(_) => {},
                Device::Custom(d) => {
                    if same_text(d.name(), SYSTEM_BLOCK_NAME) {
                        return None;
                    }
                },
            }
            i = i + 1;
        }
        None
    }

    /// The attached system block.
    pub fn system_block_mut(&mut self) -> (r: Option<&mut SystemBlock>)
        ensures
            old(self).wf() ==> final(self).wf(),
            match r {
                Some(s) => old(self)@.system() == Some(*s) && final(self)@
                    == old(self)@.with_system(*final(s)),
                None => old(self)@.system() is None && final(self)@ == old(self)@,
            },
    {
        match self.system_index() {
            Some(i) => {
                assert(self@.devices[i as int] == self.peripherals@[i as int]@);
                proof {
                    reveal(MemoryModel::wf);
                }
                self.peripherals[i].as_system_block_mut()
            },
            None => None,
        }
    }

    /// The attached system block, to read.
    pub fn system_block(&self) -> (r: Option<&SystemBlock>)
        ensures
            match r {
                Some(s) => self@.system() == Some(*s),
                None => self@.system() is None,
            },
    {
        match self.system_index() {
            Some(i) => {
                assert(self@.devices[i as int] == self.peripherals@[i as int]@);
                match &self.peripherals[i] {
                    Device::System(s) => Some(s),
                    _ => None,
                }
            },
            None => None,
        }
    }

    /// Advances the system block; gives the exception that was pended on the way.
    pub fn tick_system(&mut self, cycles: u64) -> (r: Option<u8>)
        ensures
            old(self).wf() ==> final(self).wf(),
            match old(self)@.system() {
                Some(s) => final(self)@ == old(self)@.with_system(s.after_cycles(cycles as nat))
                    && r == (if s.fires_within(cycles as nat) {
                    Some(15u8)
                } else {
                    None
                }),
                None => final(self)@ == old(self)@ && r is None,
            },
    {
        proof {
            reveal(MemoryModel::wf);
        }
        match self.system_block_mut() {
            Some(sb) => sb.tick(cycles),
            None => None,
        }
    }
}

/// The layout of `Memory::m4f_default`.
pub open spec fn m4f_model() -> MemoryModel {
    MemoryModel {
        regions: seq![
            MemoryRegion { name: "FLASH", start: 0x0000_0000, end: 0x0008_0000, region_type: MemoryRegionType::Code, writable: false, executable: true },
            MemoryRegion { name: "SRAM", start: 0x2000_0000, end: 0x2002_0000, region_type: MemoryRegionType::Sram, writable: true, executable: true },
            MemoryRegion { name: "CCM", start: 0x1000_0000, end: 0x1001_0000, region_type: MemoryRegionType::Ccm, writable: true, executable: true },
            MemoryRegion { name: "PERIPH", start: 0x4000_0000, end: 0x5000_0000, region_type: MemoryRegionType::Peripheral, writable: true, executable: false },
            MemoryRegion { name: "SYSTEM", start: 0xE000_0000, end: 0xE010_0000, region_type: MemoryRegionType::System, writable: true, executable: false },
        ],
        flash: Seq::new(0x0008_0000, |i: int| 0xFFu8),
        sram: Seq::new(0x0002_0000, |i: int| 0u8),
        ccm: Seq::new(0x0001_0000, |i: int| 0u8),
        mpu_regions: Seq::empty(),
        mpu_enabled: false,
        unalign_trap: true,
        watchpoints: Seq::empty(),
        watchpoint_hit: None,
        flash_erase_required: true,
        read_count: 0,
        write_count: 0,
        devices: Seq::empty(),
    }
}

/// The layout of `Memory::test_ram`.
pub open spec fn test_ram_model() -> MemoryModel {
    MemoryModel {
        regions: seq![
            MemoryRegion { name: "FLASH", start: 0x0000_0000, end: 0x0000_1000, region_type: MemoryRegionType::Code, writable: false, executable: true },
            MemoryRegion { name: "SRAM", start: 0x2000_0000, end: 0x2000_1000, region_type: MemoryRegionType::Sram, writable: true, executable: true },
        ],
        flash: Seq::new(0x1000, |i: int| 0xFFu8),
        sram: Seq::new(0x1000, |i: int| 0u8),
        ccm: Seq::empty(),
        mpu_regions: Seq::empty(),
        mpu_enabled: false,
        unalign_trap: true,
        watchpoints: Seq::empty(),
        watchpoint_hit: None,
        flash_erase_required: true,
        read_count: 0,
        write_count: 0,
        devices: Seq::empty(),
    }
}

impl Default for Memory {
    fn default() -> (r: Self)
        ensures
            r@ == m4f_model(),
            r.wf(),
    {
        Self::m4f_default()
    }
}

/// A granted write to RAM is read back: at the same address and width the next read
/// gives the written bytes.
pub proof fn law_write_read(m: MemoryModel, addr: u32, width: u32, val: u32)
    requires
        m.wf(),
        width == 1 || width == 2 || width == 4,
        m.place_of(addr) is Some,
        m.access_fault(addr, width, true) is None,
        m.access_fault(addr, width, false) is None,
    ensures
        m.writing(addr, width, val).0 is Ok,
        m.writing(addr, width, val).1.reading(addr, width).0 == Ok::<u32, MemoryFault>(
            low_bytes(val, width),
        ),
{
    reveal(MemoryModel::reading);
    reveal(MemoryModel::writing);
    lemma_region_backed(m, addr);
    let after = m.after_write(addr, width, val);
    assert(after.region_of(addr) == m.region_of(addr));
    assert(after.access_fault(addr, width, false) is None);
    let r = m.region_of(addr)->0;
    let bytes = m.storage(r.region_type)->0;
    let off = addr - r.start;
    let data = le_bytes(val, width);
    let s = splice(bytes, off, data);
    assert(after.storage(r.region_type) == Some(s));
    if width == 1 {
        assert(s[off] == data[0]);
    } else if width == 2 {
        assert(s[off] == data[0] && s[off + 1] == data[1]);
    } else {
        assert(s[off] == data[0] && s[off + 1] == data[1] && s[off + 2] == data[2] && s[off + 3]
            == data[3]);
    }
}

/// A granted write to RAM changes nothing elsewhere: what does not share a byte with
/// it keeps its value.
pub proof fn law_write_frame(
    m: MemoryModel,
    addr: u32,
    width: u32,
    val: u32,
    other: u32,
    other_width: u32,
)
    requires
        m.wf(),
        width == 1 || width == 2 || width == 4,
        other_width == 1 || other_width == 2 || other_width == 4,
        m.place_of(addr) is Some,
        m.place_of(other) is Some,
        m.access_fault(addr, width, true) is None,
        m.access_fault(other, other_width, false) is None,
        ({
            let (kind, off) = m.place_of(addr)->0;
            let (other_kind, other_off) = m.place_of(other)->0;
            kind != other_kind || off + width <= other_off || other_off + other_width <= off
        }),
    ensures
        m.writing(addr, width, val).1.reading(other, other_width).0 == m.reading(
            other,
            other_width,
        ).0,
{
    reveal(MemoryModel::reading);
    reveal(MemoryModel::writing);
    lemma_region_backed(m, addr);
    lemma_region_backed(m, other);
    let after = m.after_write(addr, width, val);
    assert(after.region_of(other) == m.region_of(other));
    assert(after.access_fault(other, other_width, false) is None);
    let r = m.region_of(addr)->0;
    let bytes = m.storage(r.region_type)->0;
    let off = addr - r.start;
    let data = le_bytes(val, width);
    assert(data.len() == width);
    let s = splice(bytes, off, data);
    let q = m.region_of(other)->0;
    let other_off = other - q.start;
    if q.region_type == r.region_type {
        assert(after.storage(q.region_type) == Some(s));
        assert(s[other_off] == bytes[other_off]);
        if other_width > 1 {
            assert(s[other_off + 1] == bytes[other_off + 1]);
        }
        if other_width > 2 {
            assert(s[other_off + 2] == bytes[other_off + 2]);
            assert(s[other_off + 3] == bytes[other_off + 3]);
        }
    } else {
        assert(after.storage(q.region_type) == m.storage(q.region_type));
    }
}

/// A refused access changes nothing.
pub proof fn law_fault_changes_nothing(m: MemoryModel, addr: u32, width: u32, val: u32)
    ensures
        m.reading(addr, width).0 is Err ==> m.reading(addr, width).1 == m,
        m.writing(addr, width, val).0 is Err ==> m.writing(addr, width, val).1 == m,
{
    reveal(MemoryModel::reading);
    reveal(MemoryModel::writing);
}

/// A read changes no byte of flash, SRAM or CCM.
pub proof fn law_read_keeps_bytes(m: MemoryModel, addr: u32, width: u32)
    ensures
        m.reading(addr, width).1.flash == m.flash,
        m.reading(addr, width).1.sram == m.sram,
        m.reading(addr, width).1.ccm == m.ccm,
{
    reveal(MemoryModel::reading);
}

/// A write never changes a region that is not writable: it is refused.
pub proof fn law_read_only(m: MemoryModel, addr: u32, width: u32, val: u32)
    requires
        m.region_of(addr) matches Some(r) && !r.writable,
    ensures
        m.writing(addr, width, val).0 is Err,
        m.writing(addr, width, val).1 == m,
{
    reveal(MemoryModel::writing);
}

/// Placed bytes are read back, writable region or not, and placing them is counted
/// neither as a read nor as a write.
pub proof fn law_load_read(m: MemoryModel, addr: u32, data: Seq<u8>, i: int)
    requires
        m.wf(),
        m.load_fault(addr, data.len()) is None,
        0 <= i < data.len(),
        addr + i <= 0xFFFF_FFFF,
        m.region_of((addr + i) as u32) == m.region_of(addr),
    ensures
        m.loaded(addr, data).value_at((addr + i) as u32, 1) == data[i],
        m.loaded(addr, data).read_count == m.read_count,
        m.loaded(addr, data).write_count == m.write_count,
{
    lemma_region_backed(m, addr);
    let at = (addr + i) as u32;
    let after = m.loaded(addr, data);
    let r = m.region_of(addr)->0;
    let s = splice(m.storage(r.region_type)->0, addr - r.start, data);
    assert(after.region_of(at) == m.region_of(at));
    assert(after.storage(r.region_type) == Some(s));
    assert(s[at - r.start] == data[i]);
}

/// An erased byte reads 0xFF; the rest of flash keeps its value.
pub proof fn law_erase_read(m: MemoryModel, start: u32, size: u32, at: u32)
    requires
        m.wf(),
        m.erasing(start, size).0 is Ok,
        m.region_of(at) == m.region_of(start),
    ensures
        start <= at < start + size ==> m.erasing(start, size).1.value_at(at, 1) == 0xFF,
        at < start || at >= start + size ==> m.erasing(start, size).1.value_at(at, 1)
            == m.value_at(at, 1),
{
    lemma_region_backed(m, start);
    lemma_region_backed(m, at);
    let after = m.erasing(start, size).1;
    assert(after.region_of(at) == m.region_of(at));
    let r = m.region_of(start)->0;
    assert(after.storage(r.region_type) == Some(after.flash));
}

/// With the trap on, an access that is not aligned to its width is refused, wherever
/// it goes.
pub proof fn law_alignment(m: MemoryModel, addr: u32, val: u32)
    requires
        m.unalign_trap,
    ensures
        addr % 4 != 0 ==> m.reading(addr, 4).0 == Err::<u32, MemoryFault>(
            MemoryFault::UnalignedAccess { address: addr },
        ) && m.writing(addr, 4, val).0 == Err::<(), MemoryFault>(
            MemoryFault::UnalignedAccess { address: addr },
        ),
        addr % 2 != 0 ==> m.reading(addr, 2).0 == Err::<u32, MemoryFault>(
            MemoryFault::UnalignedAccess { address: addr },
        ) && m.writing(addr, 2, val).0 == Err::<(), MemoryFault>(
            MemoryFault::UnalignedAccess { address: addr },
        ),
{
    reveal(MemoryModel::reading);
    reveal(MemoryModel::writing);
}

/// A protection region that is the first to hold an address grants or refuses alone;
/// an address that none holds is not protected.
pub proof fn law_protection(m: MemoryModel, addr: u32, width: u32, write: bool)
    requires
        m.mpu_enabled,
    ensures
        match first_mpu(m.mpu_regions, addr, 0) {
            Some(r) => (if write {
                !r.write
            } else {
                !r.read
            }) ==> m.access_fault(addr, width, write) is Some,
            None => m.access_fault(addr, width, write) == (MemoryModel {
                mpu_enabled: false,
                ..m
            }).access_fault(addr, width, write),
        },
{
}

/// A granted access that touches a range watched for its kind leaves its address as
/// the last hit; another access leaves the last hit as it was.
pub proof fn law_watchpoint(m: MemoryModel, addr: u32, width: u32, val: u32)
    requires
        width == 1 || width == 2 || width == 4,
    ensures
        m.access_fault(addr, width, false) is None ==> m.reading(addr, width).1.watchpoint_hit
            == if m.is_watched(addr, width, false) {
            Some(addr)
        } else {
            m.watchpoint_hit
        },
        m.access_fault(addr, width, true) is None ==> m.writing(addr, width, val).1.watchpoint_hit
            == if m.is_watched(addr, width, true) {
            Some(addr)
        } else {
            m.watchpoint_hit
        },
{
    reveal(MemoryModel::reading);
    reveal(MemoryModel::writing);
}

} // verus!
