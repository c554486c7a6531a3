use kratos::gdt::{generate_access_byte, get_gdt_vals, AccessByteParams, Gdt, GdtSegemt};
use kratos::interrupt::{GateDescriptor, GateDescriptorParams, InterruptTable};

#[test]
fn test_limit_extraction() {
    assert_eq!(GdtSegemt::new(0, 0, 0, 0).limit(), 0x00000);
    assert_eq!(GdtSegemt::new(0, 0xFFFFF, 0x9A, 0xC).limit(), 0xFFFFF);
    assert_eq!(GdtSegemt::new(0, 0xFFFFF, 0x9A, 0xC).bits(), 0x00CF9A000000FFFF);
}

#[test]
fn test_base_extraction() {
    assert_eq!(GdtSegemt::new(0, 0, 0, 0).base(), 0x0);
    let segment = GdtSegemt::new(0x12345678, 0xDBEEF, 0x00, 0x0);
    assert_eq!(segment.bits(), 0x120D00345678BEEF);
    assert_eq!(segment.base(), 0x12345678);
    let read = GdtSegemt::from_bits(0x120D00345678BEEF);
    assert_eq!(read, segment);
    assert_eq!(read.limit(), 0xDBEEF);
    assert_eq!(GdtSegemt::from_bits(0x00CF9A000000FFFF).access(), 0x9A);
    assert_eq!(GdtSegemt::from_bits(0x00CF9A000000FFFF).flags(), 0xC);
}

#[test]
fn test_descriptor_creation() {
    let base = 0x12345678;
    let limit = 0xABCDE;
    let descriptor = GdtSegemt::new(base, limit, 0, 0);
    assert_eq!(descriptor.limit(), limit);
    assert_eq!(descriptor.base(), base);
    assert_eq!(descriptor.access(), 0);
    assert_eq!(descriptor.flags(), 0);
}

#[test]
fn descriptor_keeps_twenty_bits_of_limit_and_four_of_flags() {
    let descriptor = GdtSegemt::new(0xFFFF_FFFF, 0xFFFF_FFFF, 0xFF, 0xFF);
    assert_eq!(descriptor.bits(), u64::MAX);
    assert_eq!(descriptor.limit(), 0xF_FFFF);
    assert_eq!(descriptor.flags(), 0xF);
    assert_eq!(descriptor.access(), 0xFF);
    assert_eq!(descriptor.base(), 0xFFFF_FFFF);
    let other = GdtSegemt::new(0, 0x12F_0000, 0, 0x35);
    assert_eq!(other.limit(), 0xF_0000);
    assert_eq!(other.flags(), 0x5);
    assert_eq!(other.bits(), 0x005F_0000_0000_0000);
}

#[test]
fn test_access_byte_code_segment() {
    let access_byte = generate_access_byte(AccessByteParams {
        p: true,
        dpl: 0,
        s: true,
        e: true,
        dc: false,
        rw: false,
        a: true,
    });
    assert_eq!(access_byte, 0b10011001);
}

#[test]
fn access_byte_fields() {
    let none =
        AccessByteParams { p: false, dpl: 0, s: false, e: false, dc: false, rw: false, a: false };
    assert_eq!(generate_access_byte(none), 0);
    assert_eq!(generate_access_byte(AccessByteParams { p: true, ..none }), 0x80);
    assert_eq!(generate_access_byte(AccessByteParams { dpl: 3, ..none }), 0x60);
    assert_eq!(generate_access_byte(AccessByteParams { dpl: 0xFE, ..none }), 0x40);
    assert_eq!(generate_access_byte(AccessByteParams { s: true, ..none }), 0x10);
    assert_eq!(generate_access_byte(AccessByteParams { e: true, ..none }), 0x08);
    assert_eq!(generate_access_byte(AccessByteParams { dc: true, ..none }), 0x04);
    assert_eq!(generate_access_byte(AccessByteParams { rw: true, ..none }), 0x02);
    assert_eq!(generate_access_byte(AccessByteParams { a: true, ..none }), 0x01);
}

#[test]
fn the_kernel_table() {
    let table = get_gdt_vals();
    assert_eq!(table[0].bits(), 0);
    assert_eq!(table[1].bits(), 0x00CF_9900_0000_FFFF);
    assert_eq!(table[2].bits(), 0x00CF_9300_0000_FFFF);
    assert_eq!(table[1].access(), 0x99);
    assert_eq!(table[2].access(), 0x93);
    assert_eq!(table[1].limit(), 0xFFFFF);
    assert_eq!(table[1].flags(), 0b1100);
    let register = Gdt::new(table.len(), 0x1000);
    assert_eq!(register, Gdt { limit: 23, base: 0x1000 });
    assert_eq!(register.entries(), 3);
    assert_eq!(Gdt::new(8192, 0).limit, 0xFFFF);
    assert_eq!(Gdt { limit: 0xFFFF, base: 0 }.entries(), 8192);
}

#[test]
fn gate_descriptor_bits() {
    let gate = GateDescriptor::new(GateDescriptorParams {
        offset: 0x1234_5678,
        segment_selector: 0x08,
        gate_type: 0b1111,
        dpl: 0,
        p: true,
    });
    assert_eq!(gate.bits(), 0x1234_8F00_0008_5678);
    let absent = GateDescriptor::new(GateDescriptorParams {
        offset: 0,
        segment_selector: 0,
        gate_type: 0,
        dpl: 0,
        p: false,
    });
    assert_eq!(absent.bits(), 0);
    let wide = GateDescriptor::new(GateDescriptorParams {
        offset: 0,
        segment_selector: 0xFFFF,
        gate_type: 0xFE,
        dpl: 0xFF,
        p: false,
    });
    assert_eq!(wide.bits(), 0x0000_6E00_FFFF_0000);
}

#[test]
fn interrupt_table_routes_the_general_fault() {
    let mut table = InterruptTable::new();
    for vector in 0..256 {
        assert_eq!(table.gate(vector).bits(), 0);
    }
    table.install_general_fault(0xC0DE_F00D);
    for vector in 0..256 {
        if vector == 13 {
            assert_eq!(table.gate(vector).bits(), 0xC0DE_8F00_0008_F00D);
        } else {
            assert_eq!(table.gate(vector).bits(), 0);
        }
    }
    let register = table.register(0x2000);
    assert_eq!(register.size, 2047);
    assert_eq!(register.base, 0x2000);
    table.set_gate(255, GateDescriptor::empty());
    assert_eq!(table.gate(255), GateDescriptor::empty());
}
