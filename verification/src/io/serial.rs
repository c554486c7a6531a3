//! The serial line: the ports of the first UART and the bytes that set it
//! up and feed it.

use crate::io::port_manager::{Port, PortManager, PortOp};
use vstd::prelude::*;
use vstd::string::StringSliceAdditionalSpecFns;

verus! {

/// First port of the first UART.
pub const BASE_ADDR: u16 = 0x3f8;

/// The port that ends the emulator when it is written to.
pub const ISA_DEBUG_EXIT_PORT_NUM: u16 = 0xf4;

/// The byte that is sent through the chip in loopback mode to test it.
pub const LOOPBACK_PROBE: u8 = 0xAE;

/// The bit of the line status that says the transmit buffer is empty.
pub const TRANSMIT_EMPTY: u8 = 0x20;

/// Why the serial line could not be set up.
#[derive(Debug, Clone, Copy, PartialEq, Eq)]
pub enum SerialInitError {
    DataReserved,
    EnableReserved,
    InterruptIdReserved,
    LineControlReserved,
    ModemControlReserved,
    LineStatusReserved,
    ModemStatusReserved,
    ScratchReserved,
    Loopback,
    Exit,
}

impl SerialInitError {
    /// The error in words.
    pub fn message(&self) -> (text: &'static str)
        ensures
            text@ == spec_message(*self),
    {
        match self {
            SerialInitError::DataReserved => "Data port reserved",
            SerialInitError::EnableReserved => "Enable port reserved",
            SerialInitError::InterruptIdReserved => "Interrupt Id port reserved",
            SerialInitError::LineControlReserved => "Line Control port reserved",
            SerialInitError::ModemControlReserved => "Modem Control port reserved",
            SerialInitError::LineStatusReserved => "Line Staus port reserved",
            SerialInitError::ModemStatusReserved => "Modem Staus port reserved",
            SerialInitError::ScratchReserved => "Scratch port reserved",
            SerialInitError::Loopback => "Loopback test failed",
            SerialInitError::Exit => "Port is reserved",
        }
    }
}

/// The words for each error.
pub open spec fn spec_message(error: SerialInitError) -> Seq<char> {
    match error {
        SerialInitError::DataReserved => "Data port reserved"@,
        SerialInitError::EnableReserved => "Enable port reserved"@,
        SerialInitError::InterruptIdReserved => "Interrupt Id port reserved"@,
        SerialInitError::LineControlReserved => "Line Control port reserved"@,
        SerialInitError::ModemControlReserved => "Modem Control port reserved"@,
        SerialInitError::LineStatusReserved => "Line Staus port reserved"@,
        SerialInitError::ModemStatusReserved => "Modem Staus port reserved"@,
        SerialInitError::ScratchReserved => "Scratch port reserved"@,
        SerialInitError::Loopback => "Loopback test failed"@,
        SerialInitError::Exit => "Port is reserved"@,
    }
}

/// The ports that the serial line claims, in the order in which it claims
/// them.
pub open spec fn serial_ports() -> Seq<u16> {
    seq![0x3f8u16, 0x3f9u16, 0x3fau16, 0x3fbu16, 0x3fcu16, 0x3fdu16, 0x3feu16, 0x3ffu16, 0xf4u16]
}

/// The error for the port at index `i` of `serial_ports`.
pub open spec fn reserved_error(i: int) -> SerialInitError {
    if i == 0 {
        SerialInitError::DataReserved
    } else if i == 1 {
        SerialInitError::EnableReserved
    } else if i == 2 {
        SerialInitError::InterruptIdReserved
    } else if i == 3 {
        SerialInitError::LineControlReserved
    } else if i == 4 {
        SerialInitError::ModemControlReserved
    } else if i == 5 {
        SerialInitError::LineStatusReserved
    } else if i == 6 {
        SerialInitError::ModemStatusReserved
    } else if i == 7 {
        SerialInitError::ScratchReserved
    } else {
        SerialInitError::Exit
    }
}

/// `held` and the first `n` ports of `ports`.
pub open spec fn with_ports(held: Set<u16>, ports: Seq<u16>, n: int) -> Set<u16> {
    Set::new(
        |p: u16|
            held.contains(p) || exists|i: int| 0 <= i < n && i < ports.len() && ports[i] == p,
    )
}

/// The ports of the first UART and the emulator's exit port.
pub struct Serial {
    data: Port,
    enable_interrupt: Port,
    interrupt_id_fifo_control: Port,
    line_control: Port,
    modem_control: Port,
    line_status: Port,
    _modem_status: Port,
    _scratch: Port,
    exit: Port,
}

impl Serial {
    /// Every port has the number that the chip gives it.
    pub closed spec fn wf(&self) -> bool {
        &&& self.data@ == BASE_ADDR
        &&& self.enable_interrupt@ == BASE_ADDR + 1
        &&& self.interrupt_id_fifo_control@ == BASE_ADDR + 2
        &&& self.line_control@ == BASE_ADDR + 3
        &&& self.modem_control@ == BASE_ADDR + 4
        &&& self.line_status@ == BASE_ADDR + 5
        &&& self._modem_status@ == BASE_ADDR + 6
        &&& self._scratch@ == BASE_ADDR + 7
        &&& self.exit@ == ISA_DEBUG_EXIT_PORT_NUM
    }

    /// The port that ends the emulator.
    pub fn exit(&self) -> (port: &Port)
        requires
            self.wf(),
        ensures
            port@ == ISA_DEBUG_EXIT_PORT_NUM,
    {
        &self.exit
    }

    /// Claims the nine ports, one after the other. Stops at the first that
    /// was handed out before, and keeps what it claimed until then.
    pub fn new(port_manager: &mut PortManager) -> (serial: Result<Serial, SerialInitError>)
        ensures
            match serial {
                Ok(line) => {
                    &&& line.wf()
                    &&& forall|i: int|
                        0 <= i < 9 ==> !old(port_manager)@.contains(serial_ports()[i])
                    &&& final(port_manager)@ == with_ports(old(port_manager)@, serial_ports(), 9)
                },
                Err(error) => exists|i: int|
                    {
                        &&& 0 <= i < 9
                        &&& error == reserved_error(i)
                        &&& old(port_manager)@.contains(#[trigger] serial_ports()[i])
                        &&& forall|j: int|
                            0 <= j < i ==> !old(port_manager)@.contains(serial_ports()[j])
                        &&& final(port_manager)@ == with_ports(
                            old(port_manager)@,
                            serial_ports(),
                            i,
                        )
                    },
            },
    {
        let ghost held = port_manager@;
        let ghost ports = serial_ports();
        assert(port_manager@ =~= with_ports(held, ports, 0));
        let data = match port_manager.request_port(BASE_ADDR) {
            Some(port) => port,
            None => {
                assert(held.contains(ports[0]));
                return Err(SerialInitError::DataReserved);
            },
        };
        assert(port_manager@ =~= with_ports(held, ports, 1)) by {
            assert(ports[0] == BASE_ADDR);
        }
        let enable_interrupt = match port_manager.request_port(BASE_ADDR + 1) {
            Some(port) => port,
            None => {
                assert(held.contains(ports[1]));
                return Err(SerialInitError::EnableReserved);
            },
        };
        assert(port_manager@ =~= with_ports(held, ports, 2)) by {
            assert(ports[1] == BASE_ADDR + 1);
        }
        let interrupt_id_fifo_control = match port_manager.request_port(BASE_ADDR + 2) {
            Some(port) => port,
            None => {
                assert(held.contains(ports[2]));
                return Err(SerialInitError::InterruptIdReserved);
            },
        };
        assert(port_manager@ =~= with_ports(held, ports, 3)) by {
            assert(ports[2] == BASE_ADDR + 2);
        }
        let line_control = match port_manager.request_port(BASE_ADDR + 3) {
            Some(port) => port,
            None => {
                assert(held.contains(ports[3]));
                return Err(SerialInitError::LineControlReserved);
            },
        };
        assert(port_manager@ =~= with_ports(held, ports, 4)) by {
            assert(ports[3] == BASE_ADDR + 3);
        }
        let modem_control = match port_manager.request_port(BASE_ADDR + 4) {
            Some(port) => port,
            None => {
                assert(held.contains(ports[4]));
                return Err(SerialInitError::ModemControlReserved);
            },
        };
        assert(port_manager@ =~= with_ports(held, ports, 5)) by {
            assert(ports[4] == BASE_ADDR + 4);
        }
        let line_status = match port_manager.request_port(BASE_ADDR + 5) {
            Some(port) => port,
            None => {
                assert(held.contains(ports[5]));
                return Err(SerialInitError::LineStatusReserved);
            },
        };
        assert(port_manager@ =~= with_ports(held, ports, 6)) by {
            assert(ports[5] == BASE_ADDR + 5);
        }
        let modem_status = match port_manager.request_port(BASE_ADDR + 6) {
            Some(port) => port,
            None => {
                assert(held.contains(ports[6]));
                return Err(SerialInitError::ModemStatusReserved);
            },
        };
        assert(port_manager@ =~= with_ports(held, ports, 7)) by {
            assert(ports[6] == BASE_ADDR + 6);
        }
        let scratch = match port_manager.request_port(BASE_ADDR + 7) {
            Some(port) => port,
            None => {
                assert(held.contains(ports[7]));
                return Err(SerialInitError::ScratchReserved);
            },
        };
        assert(port_manager@ =~= with_ports(held, ports, 8)) by {
            assert(ports[7] == BASE_ADDR + 7);
        }
        let exit = match port_manager.request_port(ISA_DEBUG_EXIT_PORT_NUM) {
            Some(port) => port,
            None => {
                assert(held.contains(ports[8]));
                return Err(SerialInitError::Exit);
            },
        };
        assert(port_manager@ =~= with_ports(held, ports, 9)) by {
            assert(ports[8] == ISA_DEBUG_EXIT_PORT_NUM);
        }

        Ok(
            Serial {
                data,
                enable_interrupt,
                interrupt_id_fifo_control,
                line_control,
                modem_control,
                line_status,
                _modem_status: modem_status,
                _scratch: scratch,
                exit,
            },
        )
    }

    /// The accesses that set the chip up for 38400 baud, 8 bits, no parity,
    /// one stop bit, and send the probe byte through it in loopback mode. The
    /// last access reads the byte that came back.
    pub fn init(&self) -> (script: Vec<PortOp>)
        requires
            self.wf(),
        ensures
            script@ == seq![
                PortOp::Write { port: 0x3f9, value: 0x00 },
                PortOp::Write { port: 0x3fb, value: 0x80 },
                PortOp::Write { port: 0x3f8, value: 0x03 },
                PortOp::Write { port: 0x3f9, value: 0x00 },
                PortOp::Write { port: 0x3fb, value: 0x03 },
                PortOp::Write { port: 0x3fa, value: 0xC7 },
                PortOp::Write { port: 0x3fc, value: 0x0B },
                PortOp::Write { port: 0x3fc, value: 0x1E },
                PortOp::Write { port: 0x3f8, value: 0xAE },
                PortOp::Read { port: 0x3f8 },
            ],
    {
        let mut script: Vec<PortOp> = Vec::new();
        script.push(self.enable_interrupt.writeb(0x00));  // Disable all interrupts
        script.push(self.line_control.writeb(0x80));  // Enable DLAB (set baud rate divisor)
        script.push(self.data.writeb(0x03));  // Set divisor to 3 (lo byte) 38400 baud
        script.push(self.enable_interrupt.writeb(0x00));  //     (hi byte)
        script.push(self.line_control.writeb(0x03));  // 8 bits, no parity, one stop bit
        // Enable FIFO, clear them, with 14-byte threshold
        script.push(self.interrupt_id_fifo_control.writeb(0xC7));
        script.push(self.modem_control.writeb(0x0B));  // IRQs enabled, RTS/DSR set
        script.push(self.modem_control.writeb(0x1E));  // Set in loopback mode, test the serial chip
        script.push(self.data.writeb(LOOPBACK_PROBE));  // Send the probe byte
        script.push(self.data.readb());
        assert(script@ =~= seq![
            PortOp::Write { port: 0x3f9, value: 0x00 },
            PortOp::Write { port: 0x3fb, value: 0x80 },
            PortOp::Write { port: 0x3f8, value: 0x03 },
            PortOp::Write { port: 0x3f9, value: 0x00 },
            PortOp::Write { port: 0x3fb, value: 0x03 },
            PortOp::Write { port: 0x3fa, value: 0xC7 },
            PortOp::Write { port: 0x3fc, value: 0x0B },
            PortOp::Write { port: 0x3fc, value: 0x1E },
            PortOp::Write { port: 0x3f8, value: 0xAE },
            PortOp::Read { port: 0x3f8 },
        ]);
        script
    }

    /// Judges the byte that came back from the loopback test: the chip is
    /// faulty unless it is the probe byte. Where it is, the access that puts
    /// the chip in normal operation.
    pub fn finish_init(&self, echo: u8) -> (outcome: Result<PortOp, SerialInitError>)
        requires
            self.wf(),
        ensures
            echo == LOOPBACK_PROBE ==> outcome == Ok::<PortOp, SerialInitError>(
                PortOp::Write { port: 0x3fc, value: 0x0F },
            ),
            echo != LOOPBACK_PROBE ==> outcome == Err::<PortOp, SerialInitError>(
                SerialInitError::Loopback,
            ),
    {
        // Check if serial is faulty (i.e: not same byte as sent)
        if echo != LOOPBACK_PROBE {
            return Err(SerialInitError::Loopback);
        }
        // If serial is not faulty set it in normal operation mode
        // (not-loopback with IRQs enabled and OUT#1 and OUT#2 bits enabled)

        Ok(self.modem_control.writeb(0x0F))
    }

    /// The accesses that send `text`, byte by byte. Before each of them the
    /// kernel reads the line status until `is_transmit_full` says no.
    pub fn write(&self, text: &str) -> (script: Vec<PortOp>)
        requires
            self.wf(),
        ensures
            script@.len() == text.spec_bytes().len(),
            forall|i: int|
                0 <= i < script@.len() ==> #[trigger] script@[i] == (PortOp::Write {
                    port: BASE_ADDR,
                    value: text.spec_bytes()[i],
                }),
    {
        let bytes = text.as_bytes();
        let mut script: Vec<PortOp> = Vec::new();
        let mut i: usize = 0;
        while i < bytes.len()
            invariant
                self.wf(),
                bytes@ == text.spec_bytes(),
                i <= bytes@.len(),
                script@.len() == i,
                forall|j: int|
                    0 <= j < i ==> #[trigger] script@[j] == (PortOp::Write {
                        port: BASE_ADDR,
                        value: bytes@[j],
                    }),
            decreases bytes@.len() - i,
        {
            script.push(self.write_serial(bytes[i]));
            i += 1;
        }
        script
    }

    /// The access that reads the line status.
    pub fn read_status(&self) -> (op: PortOp)
        requires
            self.wf(),
        ensures
            op == (PortOp::Read { port: 0x3fd }),
    {
        self.line_status.readb()
    }

    /// Whether the line status `status` says that the transmit buffer still
    /// holds a byte.
    pub fn is_transmit_full(&self, status: u8) -> (full: bool)
        ensures
            full == (status & TRANSMIT_EMPTY == 0),
    {
        status & TRANSMIT_EMPTY == 0
    }

    /// The access that sends one byte, once the transmit buffer is empty.
    pub fn write_serial(&self, character: u8) -> (op: PortOp)
        requires
            self.wf(),
        ensures
            op == (PortOp::Write { port: BASE_ADDR, value: character }),
    {
        self.data.writeb(character)
    }
}

} // verus!
