use kratos::io::port_manager::{Port, PortManager, PortOp};
use kratos::io::rtc::{
    get_nmi_mask, read_cmos_reg, select_reg, set_data_format, update_guarded_op,
    update_in_progress, write_cmos_reg, DateTime, GuardAction, GuardState, Rtc, RtcInitError,
    TimeRegister, UpdateStatus,
};
use kratos::io::serial::{Serial, SerialInitError};
use kratos::io::vga::{Terminal, VgaColor};
use kratos::io::{exit, init_display, Display, DisplayInner};

fn write(port: u16, value: u8) -> PortOp {
    PortOp::Write { port, value }
}

fn read(port: u16) -> PortOp {
    PortOp::Read { port }
}

#[test]
fn a_port_is_handed_out_once() {
    let mut manager = PortManager::new();
    let port = manager.request_port(0x3f8).unwrap();
    assert_eq!(port.get_addr(), 0x3f8);
    assert_eq!(manager.request_port(0x3f8), None);
    assert_eq!(manager.request_port(0x3f9), Some(Port::new(0x3f9)));
    assert_eq!(manager.request_port(0x3f9), None);
    assert_eq!(manager.request_port(0), Some(Port::new(0)));
    assert_eq!(manager.request_port(0xFFFF), Some(Port::new(0xFFFF)));
    assert_eq!(manager.request_port(0), None);
}

#[test]
fn port_accesses() {
    let port = Port::new(0x70);
    assert_eq!(port.writeb(0x8B), write(0x70, 0x8B));
    assert_eq!(port.readb(), read(0x70));
}

#[test]
fn serial_claims_nine_ports() {
    let mut manager = PortManager::new();
    let serial = Serial::new(&mut manager).ok().unwrap();
    assert_eq!(serial.exit().get_addr(), 0xf4);
    for port in [0x3f8, 0x3f9, 0x3fa, 0x3fb, 0x3fc, 0x3fd, 0x3fe, 0x3ff, 0xf4] {
        assert_eq!(manager.request_port(port), None);
    }
    assert!(manager.request_port(0x3f7).is_some());
    assert!(manager.request_port(0x400).is_some());
    assert_eq!(Serial::new(&mut manager).err(), Some(SerialInitError::DataReserved));
}

#[test]
fn serial_names_the_first_port_that_is_taken() {
    let cases = [
        (0x3f8, SerialInitError::DataReserved),
        (0x3f9, SerialInitError::EnableReserved),
        (0x3fa, SerialInitError::InterruptIdReserved),
        (0x3fb, SerialInitError::LineControlReserved),
        (0x3fc, SerialInitError::ModemControlReserved),
        (0x3fd, SerialInitError::LineStatusReserved),
        (0x3fe, SerialInitError::ModemStatusReserved),
        (0x3ff, SerialInitError::ScratchReserved),
        (0xf4, SerialInitError::Exit),
    ];
    let ports = [0x3f8, 0x3f9, 0x3fa, 0x3fb, 0x3fc, 0x3fd, 0x3fe, 0x3ff, 0xf4];
    for (index, (taken, error)) in cases.iter().enumerate() {
        let mut manager = PortManager::new();
        manager.request_port(*taken).unwrap();
        assert_eq!(Serial::new(&mut manager).err(), Some(*error));
        // what was claimed before the failure stays claimed, the rest stays free
        for (i, port) in ports.iter().enumerate() {
            assert_eq!(manager.request_port(*port).is_some(), i > index, "port {:#x}", port);
        }
    }
    let mut manager = PortManager::new();
    manager.request_port(0x3fb).unwrap();
    manager.request_port(0x3fe).unwrap();
    assert_eq!(Serial::new(&mut manager).err(), Some(SerialInitError::LineControlReserved));
}

#[test]
fn serial_error_messages() {
    assert_eq!(SerialInitError::DataReserved.message(), "Data port reserved");
    assert_eq!(SerialInitError::EnableReserved.message(), "Enable port reserved");
    assert_eq!(SerialInitError::InterruptIdReserved.message(), "Interrupt Id port reserved");
    assert_eq!(SerialInitError::LineControlReserved.message(), "Line Control port reserved");
    assert_eq!(SerialInitError::ModemControlReserved.message(), "Modem Control port reserved");
    assert_eq!(SerialInitError::LineStatusReserved.message(), "Line Staus port reserved");
    assert_eq!(SerialInitError::ModemStatusReserved.message(), "Modem Staus port reserved");
    assert_eq!(SerialInitError::ScratchReserved.message(), "Scratch port reserved");
    assert_eq!(SerialInitError::Loopback.message(), "Loopback test failed");
    assert_eq!(SerialInitError::Exit.message(), "Port is reserved");
    assert_eq!(
        RtcInitError::FailedToGetCmosControlPort.message(),
        "Failed to get cmos control port"
    );
    assert_eq!(RtcInitError::FailedToGetCmosDataPort.message(), "Failed to get cmos data port");
}

#[test]
fn serial_init_script_and_loopback() {
    let mut manager = PortManager::new();
    let serial = Serial::new(&mut manager).ok().unwrap();
    assert_eq!(
        serial.init(),
        vec![
            write(0x3f9, 0x00),
            write(0x3fb, 0x80),
            write(0x3f8, 0x03),
            write(0x3f9, 0x00),
            write(0x3fb, 0x03),
            write(0x3fa, 0xC7),
            write(0x3fc, 0x0B),
            write(0x3fc, 0x1E),
            write(0x3f8, 0xAE),
            read(0x3f8),
        ]
    );
    assert_eq!(serial.finish_init(0xAE), Ok(write(0x3fc, 0x0F)));
    assert_eq!(serial.finish_init(0xAF), Err(SerialInitError::Loopback));
    assert_eq!(serial.finish_init(0x00), Err(SerialInitError::Loopback));
}

#[test]
fn serial_sends_text_byte_by_byte() {
    let mut manager = PortManager::new();
    let serial = Serial::new(&mut manager).ok().unwrap();
    assert_eq!(serial.write(""), vec![]);
    assert_eq!(
        serial.write("Ok\n"),
        vec![write(0x3f8, b'O'), write(0x3f8, b'k'), write(0x3f8, b'\n')]
    );
    assert_eq!(serial.write("é"), vec![write(0x3f8, 0xC3), write(0x3f8, 0xA9)]);
    assert_eq!(serial.write_serial(b'M'), write(0x3f8, b'M'));
    assert_eq!(serial.read_status(), read(0x3fd));
    assert!(serial.is_transmit_full(0x00));
    assert!(serial.is_transmit_full(0xDF));
    assert!(!serial.is_transmit_full(0x20));
    assert!(!serial.is_transmit_full(0xFF));
}

#[test]
fn rtc_claims_two_ports() {
    let mut manager = PortManager::new();
    assert!(Rtc::new(&mut manager).is_ok());
    assert_eq!(manager.request_port(0x70), None);
    assert_eq!(manager.request_port(0x71), None);
    assert_eq!(Rtc::new(&mut manager).err(), Some(RtcInitError::FailedToGetCmosControlPort));

    let mut manager = PortManager::new();
    manager.request_port(0x71).unwrap();
    assert_eq!(Rtc::new(&mut manager).err(), Some(RtcInitError::FailedToGetCmosDataPort));
    // the control port was claimed before the failure
    assert_eq!(manager.request_port(0x70), None);

    let mut manager = PortManager::new();
    manager.request_port(0x70).unwrap();
    assert_eq!(Rtc::new(&mut manager).err(), Some(RtcInitError::FailedToGetCmosControlPort));
    // the data port was not
    assert!(manager.request_port(0x71).is_some());
}

#[test]
fn cmos_register_accesses() {
    let control = Port::new(0x70);
    let data = Port::new(0x71);
    assert_eq!(get_nmi_mask(true), 0);
    assert_eq!(get_nmi_mask(false), 0x80);
    assert_eq!(select_reg(&control, true, 0x0B), write(0x70, 0x0B));
    assert_eq!(select_reg(&control, false, 0x0B), write(0x70, 0x8B));
    assert_eq!(read_cmos_reg(&control, &data, true, 0x32), vec![write(0x70, 0x32), read(0x71)]);
    assert_eq!(
        write_cmos_reg(&control, &data, false, 0x04, 23),
        vec![write(0x70, 0x84), write(0x71, 23)]
    );
    assert_eq!(TimeRegister::Seconds.number(), 0x00);
    assert_eq!(TimeRegister::Minutes.number(), 0x02);
    assert_eq!(TimeRegister::Hours.number(), 0x04);
    assert_eq!(TimeRegister::Weekday.number(), 0x06);
    assert_eq!(TimeRegister::DayOfMonth.number(), 0x07);
    assert_eq!(TimeRegister::Month.number(), 0x08);
    assert_eq!(TimeRegister::Year.number(), 0x09);
    assert_eq!(TimeRegister::Century.number(), 0x32);
    assert_eq!(TimeRegister::StatusRegisterA.number(), 0x0A);
    assert_eq!(TimeRegister::StatusRegisterB.number(), 0x0B);
}

#[test]
fn rtc_status_registers() {
    assert_eq!(set_data_format(0x00), 0x06);
    assert_eq!(set_data_format(0x81), 0x87);
    assert_eq!(set_data_format(0xFF), 0xFF);
    assert!(update_in_progress(0x80));
    assert!(update_in_progress(0xFF));
    assert!(!update_in_progress(0x7F));
    assert!(!update_in_progress(0x00));
    assert_eq!(UpdateStatus::new(0), UpdateStatus::Clear);
    assert_eq!(UpdateStatus::new(1), UpdateStatus::InProgress);
    assert_eq!(UpdateStatus::new(200), UpdateStatus::InProgress);
    let mut manager = PortManager::new();
    let rtc = Rtc::new(&mut manager).ok().unwrap();
    assert_eq!(rtc.read_data_format(), vec![write(0x70, 0x0B), read(0x71)]);
    assert_eq!(rtc.write_data_format(0x06), vec![write(0x70, 0x0B), write(0x71, 0x06)]);
    assert_eq!(rtc.read_update_status(), vec![write(0x70, 0x0A), read(0x71)]);
}

#[test]
fn rtc_reads_and_writes_eight_registers() {
    let mut manager = PortManager::new();
    let rtc = Rtc::new(&mut manager).ok().unwrap();
    let registers = [0x00, 0x02, 0x04, 0x06, 0x07, 0x08, 0x09, 0x32];
    let mut expected = Vec::new();
    for register in registers {
        expected.push(write(0x70, register));
        expected.push(read(0x71));
    }
    assert_eq!(rtc.read(), expected);

    let date = DateTime {
        seconds: 59,
        minutes: 58,
        hours: 23,
        weekday: 4,
        day_of_moth: 28,
        month: 10,
        year: 26,
        century: 20,
    };
    assert_eq!(Rtc::date_time(&[59, 58, 23, 4, 28, 10, 26, 20]), date);
    let values = [59, 58, 23, 4, 28, 10, 26, 20];
    let mut expected = Vec::new();
    for (register, value) in registers.iter().zip(values.iter()) {
        expected.push(write(0x70, *register));
        expected.push(write(0x71, *value));
    }
    assert_eq!(rtc.write(&date), expected);
}

#[test]
fn guarded_operation_steps() {
    let (waiting, ran) = (GuardState::Waiting, GuardState::Ran);
    assert_eq!(update_guarded_op(waiting, true), (waiting, GuardAction::Poll));
    assert_eq!(update_guarded_op(waiting, false), (ran, GuardAction::Run));
    assert_eq!(update_guarded_op(ran, true), (waiting, GuardAction::Poll));
    assert_eq!(update_guarded_op(ran, false), (ran, GuardAction::Finish));

    // an update is going on at first, and another one begins while the operation runs
    let statuses = [true, true, false, true, true, false, false];
    let mut state = waiting;
    let mut runs = 0;
    let mut finished = false;
    for busy in statuses {
        assert!(!finished);
        let (next, action) = update_guarded_op(state, busy);
        state = next;
        match action {
            GuardAction::Poll => {}
            GuardAction::Run => runs += 1,
            GuardAction::Finish => finished = true,
        }
    }
    assert!(finished);
    assert_eq!(runs, 2);
}

#[test]
fn terminal_colours_and_cells() {
    assert_eq!(Terminal::set_color(VgaColor::LightGrey, VgaColor::Black), 0x07);
    assert_eq!(Terminal::set_color(VgaColor::White, VgaColor::Blue), 0x1F);
    assert_eq!(Terminal::set_color(VgaColor::Black, VgaColor::White), 0xF0);
    assert_eq!(VgaColor::Black.code(), 0);
    assert_eq!(VgaColor::Magneta.code(), 5);
    assert_eq!(VgaColor::LightBrown.code(), 14);
    assert_eq!(VgaColor::White.code(), 15);
    let terminal = Terminal::new(VgaColor::LightGreen, VgaColor::Red);
    assert_eq!(terminal.set_screen_character(b'A'), 0x4A41);
    assert_eq!(terminal.set_screen_character(0), 0x4A00);
    assert_eq!(terminal.set_screen_character(0xFF), 0x4AFF);
    assert_eq!(terminal.cursor(), (0, 0));
    assert_eq!(terminal.cells().len(), 2000);
}

#[test]
fn terminal_init_blanks_the_screen() {
    let mut terminal = Terminal::new(VgaColor::LightGrey, VgaColor::Black);
    terminal.write_text(b"xyz");
    terminal.init();
    assert!(terminal.cells().iter().all(|cell| *cell == 0x0720));
    assert_eq!(terminal.cursor(), (0, 3));
}

#[test]
fn terminal_writes_and_wraps() {
    let mut terminal = Terminal::new(VgaColor::LightGrey, VgaColor::Black);
    terminal.init();
    terminal.write_text(b"Hi\nyou");
    assert_eq!(terminal.cells()[0], 0x0748);
    assert_eq!(terminal.cells()[1], 0x0769);
    assert_eq!(terminal.cells()[2], 0x0720);
    assert_eq!(terminal.cells()[80], 0x0779);
    assert_eq!(terminal.cells()[81], 0x076F);
    assert_eq!(terminal.cells()[82], 0x0775);
    assert_eq!(terminal.cursor(), (1, 3));

    // a full row moves to the next row
    let row = [b'-'; 77];
    terminal.write_text(&row);
    assert_eq!(terminal.cursor(), (2, 0));
    assert_eq!(terminal.cells()[159], 0x072D);

    // the last row wraps to the first
    for _ in 0..22 {
        terminal.handle_new_line();
    }
    assert_eq!(terminal.cursor(), (24, 0));
    terminal.write_text(&[b'#'; 80]);
    assert_eq!(terminal.cursor(), (0, 0));
    assert_eq!(terminal.cells()[1999], 0x0723);
    terminal.write_character(b'!');
    assert_eq!(terminal.cells()[0], 0x0721);
    assert_eq!(terminal.cursor(), (0, 1));
    terminal.set_cursor();
    assert_eq!(terminal.cursor(), (0, 2));
    terminal.handle_new_line();
    assert_eq!(terminal.cursor(), (1, 0));
    for _ in 0..24 {
        terminal.write_text(b"\n");
    }
    assert_eq!(terminal.cursor(), (0, 0));
}

#[test]
fn display_devices() {
    let mut manager = PortManager::new();
    let devices = init_display(&mut manager).ok().unwrap();
    let vga = devices.vga.as_ref().unwrap();
    assert!(vga.cells().iter().all(|cell| *cell == 0x0720));
    assert_eq!(vga.cursor(), (0, 0));
    assert!(devices.serial.is_some());
    assert_eq!(manager.request_port(0x3f8), None);
    assert_eq!(exit(&devices, 1), Some(write(0xf4, 1)));
    assert_eq!(exit(&DisplayInner { vga: None, serial: None }, 1), None);

    let mut display = Display::new();
    assert!(display.inner.vga.is_none());
    assert!(display.inner.serial.is_none());
    assert_eq!(exit(&display.inner, 0), None);
    display.inner = devices;
    assert!(display.inner.vga.is_some());
    assert_eq!(exit(&display.inner, 0), Some(write(0xf4, 0)));

    // a second display cannot have the serial line
    let again = init_display(&mut manager);
    assert_eq!(again.err(), Some(SerialInitError::DataReserved));
}
