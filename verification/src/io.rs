//! The pure parts of the peripheral drivers: which ports they own and which
//! bytes they send.

pub mod port_manager;
pub mod rtc;
pub mod serial;
pub mod vga;

use crate::io::port_manager::{PortManager, PortOp};
use crate::io::serial::{
    reserved_error, serial_ports, with_ports, Serial, SerialInitError, ISA_DEBUG_EXIT_PORT_NUM,
};
use crate::io::vga::{spec_cell, spec_color, Terminal, VgaColor, BLANK, VGA_CELLS};
use vstd::prelude::*;

verus! {

/// The devices that the kernel prints to.
pub struct DisplayInner {
    pub vga: Option<Terminal>,
    pub serial: Option<Serial>,
}

/// The kernel's display.
pub struct Display {
    pub inner: DisplayInner,
}

impl Display {
    /// A display without devices: what is printed to it goes nowhere.
    pub fn new() -> (display: Display)
        ensures
            display.inner.vga is None,
            display.inner.serial is None,
    {
        Display { inner: DisplayInner { vga: None, serial: None } }
    }
}

/// Makes the devices of the display: a cleared text screen, light grey on
/// black, and the serial line with its ports claimed. Fails where a port of
/// the serial line was handed out before.
pub fn init_display(port_manager: &mut PortManager) -> (display: Result<
    DisplayInner,
    SerialInitError,
>)
    ensures
        match display {
            Ok(devices) => {
                &&& devices.vga is Some
                &&& devices.vga.unwrap().wf()
                &&& devices.vga.unwrap()@.row == 0
                &&& devices.vga.unwrap()@.column == 0
                &&& devices.vga.unwrap()@.color == spec_color(VgaColor::LightGrey, VgaColor::Black)
                &&& forall|i: int|
                    0 <= i < VGA_CELLS ==> devices.vga.unwrap()@.cells[i] == spec_cell(
                        BLANK,
                        spec_color(VgaColor::LightGrey, VgaColor::Black),
                    )
                &&& devices.serial is Some
                &&& devices.serial.unwrap().wf()
                &&& forall|i: int| 0 <= i < 9 ==> !old(port_manager)@.contains(serial_ports()[i])
                &&& final(port_manager)@ == with_ports(old(port_manager)@, serial_ports(), 9)
            },
            Err(error) => exists|i: int|
                {
                    &&& 0 <= i < 9
                    &&& error == reserved_error(i)
                    &&& old(port_manager)@.contains(#[trigger] serial_ports()[i])
                    &&& forall|j: int|
                        0 <= j < i ==> !old(port_manager)@.contains(serial_ports()[j])
                    &&& final(port_manager)@ == with_ports(old(port_manager)@, serial_ports(), i)
                },
        },
{
    let mut vga = Terminal::new(VgaColor::LightGrey, VgaColor::Black);
    vga.init();

    let serial = match Serial::new(port_manager) {
        Ok(serial) => serial,
        Err(error) => {
            return Err(error);
        },
    };

    Ok(DisplayInner { vga: Some(vga), serial: Some(serial) })
}

/// The access that ends the emulator with `code`, where the display has a
/// serial line.
pub fn exit(display: &DisplayInner, code: u8) -> (op: Option<PortOp>)
    requires
        display.serial is Some ==> display.serial.unwrap().wf(),
    ensures
        op == match display.serial {
            Some(_) => Some(PortOp::Write { port: ISA_DEBUG_EXIT_PORT_NUM, value: code }),
            None => None,
        },
{
    if let Some(serial) = &display.serial {
        return Some(serial.exit().writeb(code));
    }
    None
}

} // verus!
