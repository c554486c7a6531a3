//! What the boot loader hands over: the machine's memory map, and the table
//! that points at the ACPI tables.

use vstd::bytes::{lemma_auto_spec_u32_to_from_le_bytes, spec_u32_to_le_bytes, u32_to_le_bytes};
use vstd::prelude::*;

verus! {

/// Bytes that one region of the memory map takes in memory.
pub const MMAP_ENTRY_SIZE: usize = 24;

/// Bytes of the table that points at the ACPI tables.
pub const RSDP_SIZE: usize = 20;

/// The boot loader's information record.
#[derive(Debug, Clone, Copy)]
pub struct MultibootInfo {
    /// Which of the fields below are valid.
    pub flags: u32,
    /// Available memory from BIOS.
    pub mem_lower: u32,
    pub mem_upper: u32,
    /// Root partition.
    pub boot_device: u32,
    /// Kernel command line.
    pub cmdline: u32,
    /// Boot-module list.
    pub mods_count: u32,
    pub mods_addr: u32,
    /// The symbol table's four words.
    pub dummy: u128,
    /// Memory map: its length in bytes and its address.
    pub mmap_length: u32,
    pub mmap_addr: u32,
    /// Drive info: its length in bytes and its address.
    pub drives_length: u32,
    pub drives_addr: u32,
    /// ROM configuration table.
    pub config_table: u32,
    /// Address of the boot loader's name.
    pub boot_loader_name: u32,
}

impl MultibootInfo {
    /// How many regions the memory map holds.
    pub fn get_memmory_map(&self) -> (number_of_memory_segments: usize)
        ensures
            number_of_memory_segments == self.mmap_length as int / MMAP_ENTRY_SIZE as int,
    {
        self.mmap_length as usize / MMAP_ENTRY_SIZE
    }
}

/// One region of the memory map.
#[derive(Debug, Clone, Copy)]
pub struct MultibootMmapEntry {
    /// Size of the rest of this record, as the boot loader stored it.
    pub size: u32,
    /// First address of the region.
    pub addr: u64,
    /// Length of the region in bytes.
    pub len: u64,
    /// Kind of memory; 1 is usable RAM.
    pub type_: u32,
}

/// The lengths of the first `n` regions, added up.
pub open spec fn spec_total_memory(regions: Seq<MultibootMmapEntry>, n: nat) -> nat
    decreases n,
{
    if n == 0 || n > regions.len() {
        0
    } else {
        spec_total_memory(regions, (n - 1) as nat) + regions[n - 1].len as nat
    }
}

/// The bytes of all regions of the memory map together; nothing where the
/// sum does not fit in 64 bits.
pub fn total_memory(regions: &[MultibootMmapEntry]) -> (total: Option<u64>)
    ensures
        match total {
            Some(bytes) => bytes == spec_total_memory(regions@, regions@.len()),
            None => spec_total_memory(regions@, regions@.len()) > u64::MAX,
        },
{
    let mut total_memmory: u64 = 0;
    let mut i: usize = 0;
    while i < regions.len()
        invariant
            i <= regions@.len(),
            total_memmory == spec_total_memory(regions@, i as nat),
        decreases regions@.len() - i,
    {
        let len = regions[i].len;
        if len > u64::MAX - total_memmory {
            proof {
                lemma_total_memory_grows(regions@, (i + 1) as nat, regions@.len());
            }
            return None;
        }
        total_memmory += len;
        i += 1;
    }
    Some(total_memmory)
}

/// More regions never hold less memory.
pub proof fn lemma_total_memory_grows(regions: Seq<MultibootMmapEntry>, n: nat, m: nat)
    requires
        n <= m <= regions.len(),
    ensures
        spec_total_memory(regions, n) <= spec_total_memory(regions, m),
    decreases m,
{
    if n < m {
        lemma_total_memory_grows(regions, n, (m - 1) as nat);
    }
}

/// The table that points at the ACPI tables.
#[derive(Debug, Clone, Copy)]
pub struct RsdpT {
    pub signature: [u8; 8],
    pub checksum: u8,
    pub oemid: [u8; 6],
    pub revision: u8,
    pub rsdt_address: u32,
}

/// The first `n` of `bytes`, added up.
pub open spec fn spec_byte_sum(bytes: Seq<u8>, n: nat) -> nat
    decreases n,
{
    if n == 0 || n > bytes.len() {
        0
    } else {
        spec_byte_sum(bytes, (n - 1) as nat) + bytes[n - 1] as nat
    }
}

/// The bytes of the table as they stand in memory: the fields one after the
/// other, the address with its low byte first.
pub open spec fn rsdp_bytes(rsdp: RsdpT) -> Seq<u8> {
    rsdp.signature@ + seq![rsdp.checksum] + rsdp.oemid@ + seq![rsdp.revision]
        + spec_u32_to_le_bytes(rsdp.rsdt_address)
}

impl RsdpT {
    /// The bytes of the table as they stand in memory.
    pub fn bytes(&self) -> (bytes: Vec<u8>)
        ensures
            bytes@ == rsdp_bytes(*self),
            bytes@.len() == RSDP_SIZE,
    {
        let mut bytes: Vec<u8> = Vec::new();
        let mut i: usize = 0;
        while i < 8
            invariant
                i <= 8,
                bytes@ == self.signature@.take(i as int),
            decreases 8 - i,
        {
            bytes.push(self.signature[i]);
            i += 1;
            assert(self.signature@.take(i as int) =~= self.signature@.take(i - 1).push(
                self.signature@[i - 1],
            ));
        }
        assert(self.signature@.take(8) =~= self.signature@);
        bytes.push(self.checksum);
        let ghost head = bytes@;
        let mut j: usize = 0;
        while j < 6
            invariant
                j <= 6,
                head == self.signature@ + seq![self.checksum],
                bytes@ == head + self.oemid@.take(j as int),
            decreases 6 - j,
        {
            bytes.push(self.oemid[j]);
            j += 1;
            assert(self.oemid@.take(j as int) =~= self.oemid@.take(j - 1).push(self.oemid@[j - 1]));
            assert(bytes@ =~= head + self.oemid@.take(j as int));
        }
        assert(self.oemid@.take(6) =~= self.oemid@);
        bytes.push(self.revision);
        let mut address = u32_to_le_bytes(self.rsdt_address);
        proof {
            lemma_auto_spec_u32_to_from_le_bytes();
        }
        bytes.append(&mut address);
        assert(bytes@ =~= rsdp_bytes(*self));
        bytes
    }
}

/// The sum of the bytes of the table, which is a multiple of 256 where the
/// table is valid.
pub fn validate_rsdp(rsdp: &RsdpT) -> (sum: u64)
    ensures
        sum == spec_byte_sum(rsdp_bytes(*rsdp), RSDP_SIZE as nat),
{
    let table = rsdp.bytes();
    let mut sum: u64 = 0;
    let mut i: usize = 0;
    while i < table.len()
        invariant
            i <= table@.len(),
            table@.len() == RSDP_SIZE,
            sum == spec_byte_sum(table@, i as nat),
            sum <= 255 * i,
        decreases table@.len() - i,
    {
        sum += table[i] as u64;
        i += 1;
    }
    sum
}

/// The eight bytes that a table pointing at the ACPI tables begins with.
pub open spec fn rsdp_signature() -> Seq<u8> {
    seq![0x52u8, 0x53u8, 0x44u8, 0x20u8, 0x50u8, 0x54u8, 0x52u8, 0x20u8]
}

/// Whether `bytes` begin with the signature of the table that points at the
/// ACPI tables.
pub fn is_rsdp_signature(bytes: &[u8]) -> (found: bool)
    ensures
        found == (bytes@.len() >= 8 && bytes@.subrange(0, 8) == rsdp_signature()),
{
    if bytes.len() < 8 {
        return false;
    }
    let signature: [u8; 8] = [0x52, 0x53, 0x44, 0x20, 0x50, 0x54, 0x52, 0x20];
    let mut i: usize = 0;
    while i < 8
        invariant
            i <= 8,
            bytes@.len() >= 8,
            signature@ == rsdp_signature(),
            forall|j: int| 0 <= j < i ==> bytes@[j] == rsdp_signature()[j],
        decreases 8 - i,
    {
        if bytes[i] != signature[i] {
            assert(bytes@.subrange(0, 8)[i as int] != rsdp_signature()[i as int]);
            return false;
        }
        i += 1;
    }
    assert(bytes@.subrange(0, 8) =~= rsdp_signature());
    true
}

} // verus!
