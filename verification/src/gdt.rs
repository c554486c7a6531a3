//! The global descriptor table: how a segment descriptor is packed into its
//! 64 bits, and the three descriptors that the kernel installs.

use crate::util::bit_manipulation::{
    flag, get_bits, set_bit, set_bits, spec_get_bits, spec_set_bits,
};
use vstd::prelude::*;

verus! {

/// Bytes in one descriptor.
pub const DESCRIPTOR_SIZE: usize = 8;

/// The 64 bits of a segment descriptor: limit bits 0 to 15, base bits 0 to
/// 23, the access byte, limit bits 16 to 19, the four flags, base bits 24 to
/// 31.
pub open spec fn descriptor_bits(base: u32, limit: u32, access_byte: u8, flags: u8) -> u64 {
    (limit as u64 & 0xFFFF) | ((base as u64 & 0xFF_FFFF) << 16) | ((access_byte as u64) << 40) | (((
    limit as u64 >> 16) & 0xF) << 48) | ((flags as u64 & 0xF) << 52) | ((base as u64 >> 24) << 56)
}

/// The base address packed in a descriptor.
pub open spec fn spec_base(bits: u64) -> u32 {
    (((bits >> 16) & 0xFF_FFFF) | (((bits >> 56) & 0xFF) << 24)) as u32
}

/// The limit packed in a descriptor.
pub open spec fn spec_limit(bits: u64) -> u32 {
    ((bits & 0xFFFF) | (((bits >> 48) & 0xF) << 16)) as u32
}

/// The access byte packed in a descriptor.
pub open spec fn spec_access(bits: u64) -> u8 {
    ((bits >> 40) & 0xFF) as u8
}

/// The flags packed in a descriptor.
pub open spec fn spec_flags(bits: u64) -> u8 {
    ((bits >> 52) & 0xF) as u8
}

/// A descriptor gives back the fields it was packed from: the base and the
/// access byte whole, the limit cut to 20 bits, the flags cut to 4.
pub proof fn lemma_descriptor_fields(base: u32, limit: u32, access_byte: u8, flags: u8)
    by (bit_vector)
    ensures
        spec_base(descriptor_bits(base, limit, access_byte, flags)) == base,
        spec_limit(descriptor_bits(base, limit, access_byte, flags)) == limit & 0xF_FFFF,
        spec_access(descriptor_bits(base, limit, access_byte, flags)) == access_byte,
        spec_flags(descriptor_bits(base, limit, access_byte, flags)) == flags & 0xF,
{
}

/// One entry of the global descriptor table.
#[derive(Clone, Copy, Debug, PartialEq, Eq)]
pub struct GdtSegemt(u64);

impl View for GdtSegemt {
    type V = u64;

    closed spec fn view(&self) -> u64 {
        self.0
    }
}

impl GdtSegemt {
    /// Packs a descriptor. Of `limit` the low 20 bits are kept, of `flags`
    /// the low 4.
    pub fn new(base: u32, limit: u32, access_byte: u8, flags: u8) -> (segment: GdtSegemt)
        ensures
            segment@ == descriptor_bits(base, limit, access_byte, flags),
            spec_base(segment@) == base,
            spec_limit(segment@) == limit & 0xF_FFFF,
            spec_access(segment@) == access_byte,
            spec_flags(segment@) == flags & 0xF,
    {
        let mut descriptor = 1u64;
        set_bits(&mut descriptor, 0, 16, limit as u64);
        set_bits(&mut descriptor, 48, 4, (limit >> 16) as u64);

        set_bits(&mut descriptor, 16, 24, base as u64);
        set_bits(&mut descriptor, 56, 8, (base >> 24) as u64);

        set_bits(&mut descriptor, 40, 8, access_byte as u64);

        set_bits(&mut descriptor, 52, 4, flags as u64);
        proof {
            lemma_packed(base, limit, access_byte, flags);
            lemma_descriptor_fields(base, limit, access_byte, flags);
        }
        GdtSegemt(descriptor)
    }

    /// The descriptor with the given 64 bits, as read from a table.
    pub fn from_bits(bits: u64) -> (segment: GdtSegemt)
        ensures
            segment@ == bits,
    {
        GdtSegemt(bits)
    }

    /// The empty descriptor that the table starts with.
    pub fn null() -> (segment: GdtSegemt)
        ensures
            segment@ == 0,
    {
        GdtSegemt(0)
    }

    /// The descriptor's 64 bits, as the processor reads them.
    pub fn bits(&self) -> (bits: u64)
        ensures
            bits == self@,
    {
        self.0
    }

    /// The base address of the segment.
    pub fn base(&self) -> (base: u32)
        ensures
            base == spec_base(self@),
    {
        let data = self.0;
        let mut base = get_bits(data, 16, 24);
        let upper = get_bits(data, 56, 8);
        assert((spec_get_bits(data, 16, 24) | (spec_get_bits(data, 56, 8) << 24)) == (((data >> 16)
            & 0xFF_FFFF) | (((data >> 56) & 0xFF) << 24)) && (((data >> 16) & 0xFF_FFFF) | (((data
            >> 56) & 0xFF) << 24)) <= 0xFFFF_FFFF) by (bit_vector);
        base |= upper << 24;
        base as u32
    }

    /// The limit of the segment, 20 bits.
    pub fn limit(&self) -> (limit: u32)
        ensures
            limit == spec_limit(self@),
    {
        let data = self.0;
        let mut limit = get_bits(data, 0, 16);
        let upper = get_bits(data, 48, 4);
        assert((spec_get_bits(data, 0, 16) | (spec_get_bits(data, 48, 4) << 16)) == ((data
            & 0xFFFF) | (((data >> 48) & 0xF) << 16)) && ((data & 0xFFFF) | (((data >> 48) & 0xF)
            << 16)) <= 0xF_FFFF) by (bit_vector);
        limit |= upper << 16;
        limit as u32
    }

    /// The access byte of the segment.
    pub fn access(&self) -> (access: u8)
        ensures
            access == spec_access(self@),
    {
        let data = self.0;
        assert(spec_get_bits(data, 40, 8) == ((data >> 40) & 0xFF) && ((data >> 40) & 0xFF) <= 0xFF)
            by (bit_vector);
        get_bits(data, 40, 8) as u8
    }

    /// The four flags of the segment.
    pub fn flags(&self) -> (flags: u8)
        ensures
            flags == spec_flags(self@),
    {
        let data = self.0;
        assert(spec_get_bits(data, 52, 4) == ((data >> 52) & 0xF) && ((data >> 52) & 0xF) <= 0xF)
            by (bit_vector);
        get_bits(data, 52, 4) as u8
    }
}

/// Writing the six fields one after the other gives the packed descriptor,
/// whatever the word held before.
proof fn lemma_packed(base: u32, limit: u32, access_byte: u8, flags: u8)
    by (bit_vector)
    ensures
        spec_set_bits(
            spec_set_bits(
                spec_set_bits(
                    spec_set_bits(
                        spec_set_bits(spec_set_bits(1u64, 0, 16, limit as u64), 48, 4, (limit
                            >> 16) as u64),
                        16,
                        24,
                        base as u64,
                    ),
                    56,
                    8,
                    (base >> 24) as u64,
                ),
                40,
                8,
                access_byte as u64,
            ),
            52,
            4,
            flags as u64,
        ) == descriptor_bits(base, limit, access_byte, flags),
{
}

/// What the processor's table register holds: the table's last byte and its
/// address.
#[derive(Clone, Copy, Debug, PartialEq, Eq)]
pub struct Gdt {
    /// Offset of the table's last byte.
    pub limit: u16,
    /// Address of the table's first descriptor.
    pub base: u32,
}

impl Gdt {
    /// The register value for a table of `entries` descriptors at `base`.
    pub fn new(entries: usize, base: u32) -> (gdt: Gdt)
        requires
            0 < entries <= 8192,
        ensures
            gdt.limit == entries * DESCRIPTOR_SIZE - 1,
            gdt.base == base,
    {
        let limit = entries * DESCRIPTOR_SIZE - 1;
        Gdt { limit: limit as u16, base }
    }

    /// How many descriptors the table that this register value names holds.
    pub fn entries(&self) -> (entries: u32)
        ensures
            entries == (self.limit + 1) / 8,
    {
        (self.limit as u32 + 1) / 8
    }
}

/// The fields of an access byte.
#[derive(Clone, Copy, Debug, PartialEq, Eq)]
pub struct AccessByteParams {
    /// Present.
    pub p: bool,
    /// Descriptor privilege level, two bits.
    pub dpl: u8,
    /// Code or data segment, not a system segment.
    pub s: bool,
    /// Executable.
    pub e: bool,
    /// Direction (data) or conforming (code).
    pub dc: bool,
    /// Readable (code) or writable (data).
    pub rw: bool,
    /// Accessed.
    pub a: bool,
}

/// The access byte that packs `params`.
pub open spec fn spec_access_byte(params: AccessByteParams) -> u8 {
    ((flag(params.p) << 7) | ((params.dpl as u64 & 3) << 5) | (flag(params.s) << 4) | (flag(
        params.e,
    ) << 3) | (flag(params.dc) << 2) | (flag(params.rw) << 1) | flag(params.a)) as u8
}

/// Packs an access byte. Of `dpl` the low two bits are kept.
pub fn generate_access_byte(params: AccessByteParams) -> (access_byte: u8)
    ensures
        access_byte == spec_access_byte(params),
{
    let mut access_byte = 1u64;
    set_bit(&mut access_byte, 7, params.p);
    set_bits(&mut access_byte, 5, 2, params.dpl as u64);
    set_bit(&mut access_byte, 4, params.s);
    set_bit(&mut access_byte, 3, params.e);
    set_bit(&mut access_byte, 2, params.dc);
    set_bit(&mut access_byte, 1, params.rw);
    set_bit(&mut access_byte, 0, params.a);
    proof {
        lemma_access_packed(
            flag(params.p),
            params.dpl,
            flag(params.s),
            flag(params.e),
            flag(params.dc),
            flag(params.rw),
            flag(params.a),
        );
    }
    access_byte as u8
}

/// Writing the seven fields of an access byte one after the other gives the
/// packed byte.
proof fn lemma_access_packed(p: u64, dpl: u8, s: u64, e: u64, dc: u64, rw: u64, a: u64)
    by (bit_vector)
    requires
        p <= 1,
        s <= 1,
        e <= 1,
        dc <= 1,
        rw <= 1,
        a <= 1,
    ensures
        spec_set_bits(
            spec_set_bits(
                spec_set_bits(
                    spec_set_bits(
                        spec_set_bits(
                            spec_set_bits(spec_set_bits(1u64, 7, 1, p), 5, 2, dpl as u64),
                            4,
                            1,
                            s,
                        ),
                        3,
                        1,
                        e,
                    ),
                    2,
                    1,
                    dc,
                ),
                1,
                1,
                rw,
            ),
            0,
            1,
            a,
        ) == ((p << 7) | ((dpl as u64 & 3) << 5) | (s << 4) | (e << 3) | (dc << 2) | (rw << 1)
            | a),
        ((p << 7) | ((dpl as u64 & 3) << 5) | (s << 4) | (e << 3) | (dc << 2) | (rw << 1) | a)
            <= 0xFF,
{
}

/// The access byte of the kernel's code segment.
pub const CODE_ACCESS: u8 = 0x99;

/// The access byte of the kernel's data segment.
pub const DATA_ACCESS: u8 = 0x93;

/// The descriptors that the kernel installs: the empty one, then a code and
/// a data segment that both span the whole address space in pages of 4 KiB.
pub fn get_gdt_vals() -> (table: [GdtSegemt; 3])
    ensures
        table@[0]@ == 0,
        table@[1]@ == descriptor_bits(0, 0xF_FFFF, CODE_ACCESS, 0b1100),
        table@[2]@ == descriptor_bits(0, 0xF_FFFF, DATA_ACCESS, 0b1100),
        table@[1]@ == 0x00CF_9900_0000_FFFF,
        table@[2]@ == 0x00CF_9300_0000_FFFF,
{
    let access_byte = generate_access_byte(
        AccessByteParams { p: true, dpl: 0, s: true, e: true, dc: false, rw: false, a: true },
    );
    assert(access_byte == CODE_ACCESS) by {
        assert(((1u64 << 7) | ((0u8 as u64 & 3) << 5) | (1u64 << 4) | (1u64 << 3) | (0u64 << 2) | (
        0u64 << 1) | 1u64) == 0x99) by (bit_vector);
    }
    let code = GdtSegemt::new(0, 0xFFFFF, access_byte, 0b1100);

    let access_byte = generate_access_byte(
        AccessByteParams { p: true, dpl: 0, s: true, e: false, dc: false, rw: true, a: true },
    );
    assert(access_byte == DATA_ACCESS) by {
        assert(((1u64 << 7) | ((0u8 as u64 & 3) << 5) | (1u64 << 4) | (0u64 << 3) | (0u64 << 2) | (
        1u64 << 1) | 1u64) == 0x93) by (bit_vector);
    }
    let data = GdtSegemt::new(0, 0xFFFFF, access_byte, 0b1100);
    assert(descriptor_bits(0, 0xF_FFFF, 0x99, 0b1100) == 0x00CF_9900_0000_FFFF && descriptor_bits(
        0,
        0xF_FFFF,
        0x93,
        0b1100,
    ) == 0x00CF_9300_0000_FFFF) by (bit_vector);

    [GdtSegemt::null(), code, data]
}

} // verus!
