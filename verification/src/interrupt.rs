//! The interrupt descriptor table: how a gate is packed into its 64 bits,
//! and the table that the kernel installs.

use crate::util::bit_manipulation::{flag, set_bit, set_bits, spec_set_bits};
use vstd::prelude::*;

verus! {

/// Gates in the table.
pub const GATES: usize = 256;

/// Bytes in one gate.
pub const GATE_SIZE: usize = 8;

/// The vector of the general protection fault.
pub const GENERAL_FAULT_VECTOR: usize = 13;

/// The selector of the kernel's code segment.
pub const KERNEL_CODE_SELECTOR: u16 = 0x08;

/// The type of a 32-bit trap gate.
pub const TRAP_GATE: u8 = 0b1111;

/// The fields of a gate.
#[derive(Clone, Copy, Debug, PartialEq, Eq)]
pub struct GateDescriptorParams {
    /// Address of the handler.
    pub offset: u32,
    /// Selector of the code segment that the handler runs in.
    pub segment_selector: u16,
    /// Kind of gate, four bits.
    pub gate_type: u8,
    /// Privilege level that may call it, two bits.
    pub dpl: u8,
    /// Present.
    pub p: bool,
}

/// The 64 bits of a gate: handler address bits 0 to 15, the selector, the
/// gate type, the privilege level, the present bit, handler address bits 16
/// to 31.
pub open spec fn gate_bits(params: GateDescriptorParams) -> u64 {
    (params.offset as u64 & 0xFFFF) | ((params.segment_selector as u64) << 16) | ((
    params.gate_type as u64 & 0xF) << 40) | ((params.dpl as u64 & 3) << 45) | (flag(params.p)
        << 47) | ((params.offset as u64 >> 16) << 48)
}

/// One entry of the interrupt descriptor table.
#[derive(Clone, Copy, Debug, PartialEq, Eq)]
pub struct GateDescriptor(u64);

impl View for GateDescriptor {
    type V = u64;

    closed spec fn view(&self) -> u64 {
        self.0
    }
}

impl GateDescriptor {
    /// Packs a gate. Of `gate_type` the low four bits are kept, of `dpl`
    /// the low two.
    pub fn new(params: GateDescriptorParams) -> (gate: GateDescriptor)
        ensures
            gate@ == gate_bits(params),
    {
        let mut descriptor = 1u64;

        set_bits(&mut descriptor, 0, 16, params.offset as u64);
        set_bits(&mut descriptor, 48, 16, (params.offset >> 16) as u64);
        set_bits(&mut descriptor, 16, 16, params.segment_selector as u64);
        set_bits(&mut descriptor, 40, 4, params.gate_type as u64);
        set_bits(&mut descriptor, 45, 2, params.dpl as u64);
        set_bit(&mut descriptor, 47, params.p);
        proof {
            lemma_gate_packed(
                params.offset,
                params.segment_selector,
                params.gate_type,
                params.dpl,
                flag(params.p),
            );
        }
        GateDescriptor(descriptor)
    }

    /// An entry that is not present.
    pub fn empty() -> (gate: GateDescriptor)
        ensures
            gate@ == 0,
    {
        GateDescriptor(0)
    }

    /// The 64 bits of this entry, as the processor reads them.
    pub fn bits(&self) -> (bits: u64)
        ensures
            bits == self@,
    {
        self.0
    }
}

/// Writing the six fields of a gate one after the other gives the packed
/// gate.
proof fn lemma_gate_packed(offset: u32, selector: u16, gate_type: u8, dpl: u8, p: u64)
    by (bit_vector)
    requires
        p <= 1,
    ensures
        spec_set_bits(
            spec_set_bits(
                spec_set_bits(
                    spec_set_bits(
                        spec_set_bits(spec_set_bits(1u64, 0, 16, offset as u64), 48, 16, (offset
                            >> 16) as u64),
                        16,
                        16,
                        selector as u64,
                    ),
                    40,
                    4,
                    gate_type as u64,
                ),
                45,
                2,
                dpl as u64,
            ),
            47,
            1,
            p,
        ) == (offset as u64 & 0xFFFF) | ((selector as u64) << 16) | ((gate_type as u64 & 0xF)
            << 40) | ((dpl as u64 & 3) << 45) | (p << 47) | ((offset as u64 >> 16) << 48),
{
}

/// What the processor's table register holds: the table's last byte and its
/// address.
#[derive(Clone, Copy, Debug, PartialEq, Eq)]
pub struct Idt {
    /// Offset of the table's last byte.
    pub size: u16,
    /// Address of the table's first gate.
    pub base: u32,
}

/// The 256 gates.
pub struct InterruptTable {
    inner: [GateDescriptor; 256],
}

impl View for InterruptTable {
    type V = Seq<u64>;

    closed spec fn view(&self) -> Seq<u64> {
        Seq::new(GATES as nat, |i: int| self.inner@[i]@)
    }
}

impl InterruptTable {
    /// The table with no gate present.
    pub fn new() -> (table: InterruptTable)
        ensures
            table@.len() == GATES,
            forall|i: int| 0 <= i < GATES ==> table@[i] == 0,
    {
        InterruptTable { inner: [GateDescriptor(0);256] }
    }

    /// Puts `gate` at `vector`.
    pub fn set_gate(&mut self, vector: usize, gate: GateDescriptor)
        requires
            vector < GATES,
        ensures
            final(self)@ == old(self)@.update(vector as int, gate@),
    {
        self.inner[vector] = gate;
        assert(self@ =~= old(self)@.update(vector as int, gate@));
    }

    /// The entry at `vector`.
    pub fn gate(&self, vector: usize) -> (gate: GateDescriptor)
        requires
            vector < GATES,
        ensures
            gate@ == self@[vector as int],
    {
        self.inner[vector]
    }

    /// Routes the general protection fault to the handler at `handler`: a
    /// present trap gate in the kernel's code segment, callable from ring 0.
    pub fn install_general_fault(&mut self, handler: u32)
        ensures
            final(self)@ == old(self)@.update(
                GENERAL_FAULT_VECTOR as int,
                gate_bits(
                    GateDescriptorParams {
                        offset: handler,
                        segment_selector: KERNEL_CODE_SELECTOR,
                        gate_type: TRAP_GATE,
                        dpl: 0,
                        p: true,
                    },
                ),
            ),
    {
        let general_fault_descriptor = GateDescriptor::new(
            GateDescriptorParams {
                offset: handler,
                segment_selector: KERNEL_CODE_SELECTOR,
                gate_type: TRAP_GATE,
                dpl: 0,
                p: true,
            },
        );
        self.set_gate(GENERAL_FAULT_VECTOR, general_fault_descriptor);
    }

    /// The register value for this table, where its first gate stands at
    /// `base`.
    pub fn register(&self, base: u32) -> (idt: Idt)
        ensures
            idt.size == GATES * GATE_SIZE - 1,
            idt.base == base,
    {
        let size = GATES * GATE_SIZE - 1;
        Idt { size: size as u16, base }
    }
}

} // verus!
