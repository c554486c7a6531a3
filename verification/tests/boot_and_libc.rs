use kratos::libc::{memcmp, memcpy, memset};
use kratos::multiboot::{
    is_rsdp_signature, total_memory, validate_rsdp, MultibootInfo, MultibootMmapEntry, RsdpT,
};

fn region(addr: u64, len: u64) -> MultibootMmapEntry {
    MultibootMmapEntry { size: 20, addr, len, type_: 1 }
}

#[test]
fn memory_map_entry_count() {
    let mut info = MultibootInfo {
        flags: 0,
        mem_lower: 0,
        mem_upper: 0,
        boot_device: 0,
        cmdline: 0,
        mods_count: 0,
        mods_addr: 0,
        dummy: 0,
        mmap_length: 144,
        mmap_addr: 0x9000,
        drives_length: 0,
        drives_addr: 0,
        config_table: 0,
        boot_loader_name: 0,
    };
    assert_eq!(info.get_memmory_map(), 6);
    info.mmap_length = 23;
    assert_eq!(info.get_memmory_map(), 0);
    info.mmap_length = 49;
    assert_eq!(info.get_memmory_map(), 2);
}

#[test]
fn total_memory_adds_the_lengths() {
    assert_eq!(total_memory(&[]), Some(0));
    let regions =
        [region(0, 0x9_fc00), region(0x10_0000, 0x7ee_0000), region(0xfffc_0000, 0x4_0000)];
    assert_eq!(total_memory(&regions), Some(0x9_fc00 + 0x7ee_0000 + 0x4_0000));
    assert_eq!(total_memory(&[region(0, u64::MAX), region(0, 0)]), Some(u64::MAX));
    assert_eq!(total_memory(&[region(0, u64::MAX), region(0, 1)]), None);
    assert_eq!(total_memory(&[region(0, u64::MAX), region(0, 1), region(0, 5)]), None);
}

#[test]
fn rsdp_checksum_and_signature() {
    let table = RsdpT {
        signature: *b"RSD PTR ",
        checksum: 0x2A,
        oemid: *b"BOCHS ",
        revision: 0,
        rsdt_address: 0x07FE_18DC,
    };
    let mut bytes = Vec::new();
    bytes.extend_from_slice(&table.signature);
    bytes.push(table.checksum);
    bytes.extend_from_slice(&table.oemid);
    bytes.push(table.revision);
    bytes.extend_from_slice(&table.rsdt_address.to_le_bytes());
    assert_eq!(bytes.len(), 20);
    assert_eq!(table.bytes(), bytes);
    let expected: u64 = bytes.iter().map(|b| *b as u64).sum();
    assert_eq!(validate_rsdp(&table), expected);
    assert_eq!(expected, 1489);
    let ones = RsdpT {
        signature: [255; 8],
        checksum: 255,
        oemid: [255; 6],
        revision: 255,
        rsdt_address: u32::MAX,
    };
    assert_eq!(validate_rsdp(&ones), 5100);
    let zeros =
        RsdpT { signature: [0; 8], checksum: 0, oemid: [0; 6], revision: 0, rsdt_address: 0x0102 };
    assert_eq!(validate_rsdp(&zeros), 3);
    assert_eq!(zeros.bytes()[16..], [2, 1, 0, 0]);

    assert!(is_rsdp_signature(&bytes));
    assert!(is_rsdp_signature(b"RSD PTR "));
    assert!(!is_rsdp_signature(b"RSD PTR"));
    assert!(!is_rsdp_signature(b"RSD PTR_ and more"));
    assert!(!is_rsdp_signature(b"rSD PTR  and more"));
    assert!(!is_rsdp_signature(b""));
}

#[test]
fn memset_fills_a_prefix() {
    let mut buffer = [1u8, 2, 3, 4, 5];
    memset(&mut buffer, 9, 3);
    assert_eq!(buffer, [9, 9, 9, 4, 5]);
    memset(&mut buffer, 7, 0);
    assert_eq!(buffer, [9, 9, 9, 4, 5]);
    memset(&mut buffer, 0, 5);
    assert_eq!(buffer, [0; 5]);
}

#[test]
fn memcpy_copies_a_prefix() {
    let mut dest = [0u8; 5];
    memcpy(&mut dest, &[1, 2, 3, 4, 5, 6], 4);
    assert_eq!(dest, [1, 2, 3, 4, 0]);
    memcpy(&mut dest, &[9], 0);
    assert_eq!(dest, [1, 2, 3, 4, 0]);
}

#[test]
fn memcmp_orders_by_the_first_difference() {
    assert_eq!(memcmp(b"abc", b"abd", 3), -1);
    assert_eq!(memcmp(b"abd", b"abc", 3), 1);
    assert_eq!(memcmp(b"abc", b"abd", 2), 0);
    assert_eq!(memcmp(b"abc", b"abc", 3), 0);
    assert_eq!(memcmp(b"", b"", 0), 0);
    assert_eq!(memcmp(b"b_a", b"a_b", 3), 1);
    assert_eq!(memcmp(&[0x7F], &[0x80], 1), -1);
    assert_eq!(memcmp(&[0xFF], &[0x00], 1), 1);
}
