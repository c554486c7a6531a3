//! The real-time clock: which CMOS registers hold the date and how they are
//! read and written through the two CMOS ports.

use crate::io::port_manager::{Port, PortManager, PortOp};
use vstd::prelude::*;

verus! {

/// Whether non-maskable interrupts stay enabled while the clock is accessed.
pub const NMI_ENABLE: bool = true;

/// The port that selects a CMOS register.
pub const CMOS_CONTROL_PORT: u16 = 0x70;

/// The port through which the selected register is read and written.
pub const CMOS_DATA_PORT: u16 = 0x71;

/// The bits of status register B for 24-hour mode and for binary mode.
pub const DATA_FORMAT: u8 = 0b110;

/// A date and a time, as the clock's registers hold them.
#[derive(Debug, Clone, Copy, PartialEq, Eq)]
pub struct DateTime {
    pub seconds: u8,
    pub minutes: u8,
    pub hours: u8,
    pub weekday: u8,
    pub day_of_moth: u8,
    pub month: u8,
    pub year: u8,
    pub century: u8,
}

/// The registers of the clock.
#[derive(Debug, Clone, Copy, PartialEq, Eq)]
pub enum TimeRegister {
    /// 0 to 59.
    Seconds,
    /// 0 to 59.
    Minutes,
    /// 0 to 23.
    Hours,
    /// 1 to 7, Sunday is 1.
    Weekday,
    /// 1 to 31.
    DayOfMonth,
    /// 1 to 12.
    Month,
    /// 0 to 99.
    Year,
    /// 19 or 20.
    Century,
    StatusRegisterA,
    StatusRegisterB,
}

impl TimeRegister {
    /// The register's number in the CMOS.
    pub open spec fn spec_number(self) -> u8 {
        match self {
            TimeRegister::Seconds => 0x00,
            TimeRegister::Minutes => 0x02,
            TimeRegister::Hours => 0x04,
            TimeRegister::Weekday => 0x06,
            TimeRegister::DayOfMonth => 0x07,
            TimeRegister::Month => 0x08,
            TimeRegister::Year => 0x09,
            TimeRegister::Century => 0x32,
            TimeRegister::StatusRegisterA => 0x0A,
            TimeRegister::StatusRegisterB => 0x0B,
        }
    }

    /// The register's number in the CMOS.
    pub fn number(self) -> (number: u8)
        ensures
            number == self.spec_number(),
            number < 0x80,
    {
        match self {
            TimeRegister::Seconds => 0x00,
            TimeRegister::Minutes => 0x02,
            TimeRegister::Hours => 0x04,
            TimeRegister::Weekday => 0x06,
            TimeRegister::DayOfMonth => 0x07,
            TimeRegister::Month => 0x08,
            TimeRegister::Year => 0x09,
            TimeRegister::Century => 0x32,
            TimeRegister::StatusRegisterA => 0x0A,
            TimeRegister::StatusRegisterB => 0x0B,
        }
    }
}

/// The registers that hold the date and the time, in the order in which the
/// clock is read and written.
pub open spec fn date_registers() -> Seq<u8> {
    seq![0x00u8, 0x02u8, 0x04u8, 0x06u8, 0x07u8, 0x08u8, 0x09u8, 0x32u8]
}

/// The fields of `date_time`, in the order of `date_registers`.
pub open spec fn date_values(date_time: DateTime) -> Seq<u8> {
    seq![
        date_time.seconds,
        date_time.minutes,
        date_time.hours,
        date_time.weekday,
        date_time.day_of_moth,
        date_time.month,
        date_time.year,
        date_time.century,
    ]
}

/// Whether the clock is busy updating its registers.
#[derive(Debug, Clone, Copy, PartialEq, Eq)]
pub enum UpdateStatus {
    Clear,
    InProgress,
}

impl UpdateStatus {
    /// The status that the update-in-progress bit stands for.
    pub fn new(progress_bit: u8) -> (status: UpdateStatus)
        ensures
            status == if progress_bit == 0 {
                UpdateStatus::Clear
            } else {
                UpdateStatus::InProgress
            },
    {
        match progress_bit {
            0 => UpdateStatus::Clear,
            _ => UpdateStatus::InProgress,
        }
    }
}

/// Why the clock could not be set up.
#[derive(Debug, Clone, Copy, PartialEq, Eq)]
pub enum RtcInitError {
    FailedToGetCmosControlPort,
    FailedToGetCmosDataPort,
}

impl RtcInitError {
    /// The error in words.
    pub fn message(&self) -> (text: &'static str)
        ensures
            text@ == match *self {
                RtcInitError::FailedToGetCmosControlPort => "Failed to get cmos control port"@,
                RtcInitError::FailedToGetCmosDataPort => "Failed to get cmos data port"@,
            },
    {
        match self {
            RtcInitError::FailedToGetCmosControlPort => "Failed to get cmos control port",
            RtcInitError::FailedToGetCmosDataPort => "Failed to get cmos data port",
        }
    }
}

/// The two CMOS ports.
pub struct Rtc {
    cmos_control_port: Port,
    cmos_data_port: Port,
}

/// The register-select byte: the register's number, with the top bit set
/// where non-maskable interrupts are to be held off.
pub open spec fn select_byte(nmi_enable: bool, register: u8) -> u8 {
    if nmi_enable {
        register
    } else {
        0x80 | register
    }
}

/// The two accesses that read `register`.
pub open spec fn spec_read_cmos_reg(nmi_enable: bool, register: u8) -> Seq<PortOp> {
    seq![
        PortOp::Write { port: CMOS_CONTROL_PORT, value: select_byte(nmi_enable, register) },
        PortOp::Read { port: CMOS_DATA_PORT },
    ]
}

/// The two accesses that write `val` to `register`.
pub open spec fn spec_write_cmos_reg(nmi_enable: bool, register: u8, val: u8) -> Seq<PortOp> {
    seq![
        PortOp::Write { port: CMOS_CONTROL_PORT, value: select_byte(nmi_enable, register) },
        PortOp::Write { port: CMOS_DATA_PORT, value: val },
    ]
}

/// The accesses that read the first `n` date registers.
pub open spec fn spec_read_script(n: nat) -> Seq<PortOp>
    decreases n,
{
    if n == 0 || n > 8 {
        Seq::empty()
    } else {
        spec_read_script((n - 1) as nat) + spec_read_cmos_reg(NMI_ENABLE, date_registers()[n - 1])
    }
}

/// The accesses that write the first `n` fields of `date_time`.
pub open spec fn spec_write_script(date_time: DateTime, n: nat) -> Seq<PortOp>
    decreases n,
{
    if n == 0 || n > 8 {
        Seq::empty()
    } else {
        spec_write_script(date_time, (n - 1) as nat) + spec_write_cmos_reg(
            NMI_ENABLE,
            date_registers()[n - 1],
            date_values(date_time)[n - 1],
        )
    }
}

impl Rtc {
    /// Both ports have the numbers that the CMOS gives them.
    pub closed spec fn wf(&self) -> bool {
        self.cmos_control_port@ == CMOS_CONTROL_PORT && self.cmos_data_port@ == CMOS_DATA_PORT
    }

    /// Claims the two CMOS ports. Stops at the first that was handed out
    /// before, and keeps what it claimed until then.
    pub fn new(port_manager: &mut PortManager) -> (rtc: Result<Rtc, RtcInitError>)
        ensures
            match rtc {
                Ok(clock) => {
                    &&& clock.wf()
                    &&& !old(port_manager)@.contains(CMOS_CONTROL_PORT)
                    &&& !old(port_manager)@.contains(CMOS_DATA_PORT)
                    &&& final(port_manager)@ == old(port_manager)@.insert(CMOS_CONTROL_PORT).insert(
                        CMOS_DATA_PORT,
                    )
                },
                Err(RtcInitError::FailedToGetCmosControlPort) => {
                    &&& old(port_manager)@.contains(CMOS_CONTROL_PORT)
                    &&& final(port_manager)@ == old(port_manager)@
                },
                Err(RtcInitError::FailedToGetCmosDataPort) => {
                    &&& !old(port_manager)@.contains(CMOS_CONTROL_PORT)
                    &&& old(port_manager)@.contains(CMOS_DATA_PORT)
                    &&& final(port_manager)@ == old(port_manager)@.insert(CMOS_CONTROL_PORT)
                },
            },
    {
        let cmos_control_port = match port_manager.request_port(CMOS_CONTROL_PORT) {
            Some(port) => port,
            None => {
                assert(port_manager@ =~= old(port_manager)@);
                return Err(RtcInitError::FailedToGetCmosControlPort);
            },
        };
        let ghost claimed = port_manager@;
        let cmos_data_port = match port_manager.request_port(CMOS_DATA_PORT) {
            Some(port) => port,
            None => {
                assert(port_manager@ =~= claimed);
                return Err(RtcInitError::FailedToGetCmosDataPort);
            },
        };

        Ok(Rtc { cmos_control_port, cmos_data_port })
    }

    /// The accesses that read status register B, whose value
    /// `set_data_format` then turns into the one to write back.
    pub fn read_data_format(&self) -> (script: Vec<PortOp>)
        requires
            self.wf(),
        ensures
            script@ == spec_read_cmos_reg(NMI_ENABLE, 0x0B),
    {
        read_cmos_reg(
            &self.cmos_control_port,
            &self.cmos_data_port,
            NMI_ENABLE,
            TimeRegister::StatusRegisterB.number(),
        )
    }

    /// The accesses that write `status_reg` to status register B.
    pub fn write_data_format(&self, status_reg: u8) -> (script: Vec<PortOp>)
        requires
            self.wf(),
        ensures
            script@ == spec_write_cmos_reg(NMI_ENABLE, 0x0B, status_reg),
    {
        write_cmos_reg(
            &self.cmos_control_port,
            &self.cmos_data_port,
            NMI_ENABLE,
            TimeRegister::StatusRegisterB.number(),
            status_reg,
        )
    }

    /// The accesses that read status register A, whose value
    /// `update_in_progress` judges.
    pub fn read_update_status(&self) -> (script: Vec<PortOp>)
        requires
            self.wf(),
        ensures
            script@ == spec_read_cmos_reg(NMI_ENABLE, 0x0A),
    {
        read_cmos_reg(
            &self.cmos_control_port,
            &self.cmos_data_port,
            NMI_ENABLE,
            TimeRegister::StatusRegisterA.number(),
        )
    }

    /// The accesses that read the date and the time: for each of the eight
    /// registers, in their order, one that selects it and one that reads it.
    pub fn read(&self) -> (script: Vec<PortOp>)
        requires
            self.wf(),
        ensures
            script@ == spec_read_script(8),
            script@.len() == 16,
    {
        let registers = [
            TimeRegister::Seconds,
            TimeRegister::Minutes,
            TimeRegister::Hours,
            TimeRegister::Weekday,
            TimeRegister::DayOfMonth,
            TimeRegister::Month,
            TimeRegister::Year,
            TimeRegister::Century,
        ];
        let mut script: Vec<PortOp> = Vec::new();
        let mut i: usize = 0;
        while i < 8
            invariant
                self.wf(),
                i <= 8,
                registers@.len() == 8,
                forall|j: int|
                    0 <= j < 8 ==> (#[trigger] registers@[j]).spec_number()
                        == date_registers()[j],
                script@ == spec_read_script(i as nat),
                script@.len() == 2 * i,
            decreases 8 - i,
        {
            let mut step = read_cmos_reg(
                &self.cmos_control_port,
                &self.cmos_data_port,
                NMI_ENABLE,
                registers[i].number(),
            );
            script.append(&mut step);
            i += 1;
        }
        script
    }

    /// The date and the time that the eight bytes read by the script of
    /// `read` stand for.
    pub fn date_time(values: &[u8]) -> (date_time: DateTime)
        requires
            values@.len() == 8,
        ensures
            date_values(date_time) == values@,
    {
        let date_time = DateTime {
            seconds: values[0],
            minutes: values[1],
            hours: values[2],
            weekday: values[3],
            day_of_moth: values[4],
            month: values[5],
            year: values[6],
            century: values[7],
        };
        assert(date_values(date_time) =~= values@);
        date_time
    }

    /// The accesses that set the date and the time: for each of the eight
    /// registers, in their order, one that selects it and one that writes
    /// the field of `date_time` to it.
    pub fn write(&self, date_time: &DateTime) -> (script: Vec<PortOp>)
        requires
            self.wf(),
        ensures
            script@ == spec_write_script(*date_time, 8),
            script@.len() == 16,
    {
        let registers = [
            TimeRegister::Seconds,
            TimeRegister::Minutes,
            TimeRegister::Hours,
            TimeRegister::Weekday,
            TimeRegister::DayOfMonth,
            TimeRegister::Month,
            TimeRegister::Year,
            TimeRegister::Century,
        ];
        let values = [
            date_time.seconds,
            date_time.minutes,
            date_time.hours,
            date_time.weekday,
            date_time.day_of_moth,
            date_time.month,
            date_time.year,
            date_time.century,
        ];
        let mut script: Vec<PortOp> = Vec::new();
        let mut i: usize = 0;
        while i < 8
            invariant
                self.wf(),
                i <= 8,
                registers@.len() == 8,
                values@.len() == 8,
                forall|j: int|
                    0 <= j < 8 ==> (#[trigger] registers@[j]).spec_number()
                        == date_registers()[j],
                forall|j: int| 0 <= j < 8 ==> #[trigger] values@[j] == date_values(*date_time)[j],
                script@ == spec_write_script(*date_time, i as nat),
                script@.len() == 2 * i,
            decreases 8 - i,
        {
            let mut step = write_cmos_reg(
                &self.cmos_control_port,
                &self.cmos_data_port,
                NMI_ENABLE,
                registers[i].number(),
                values[i],
            );
            script.append(&mut step);
            i += 1;
        }
        script
    }
}

/// Where an operation that must not overlap an update of the clock stands.
#[derive(Debug, Clone, Copy, PartialEq, Eq)]
pub enum GuardState {
    /// Waiting for the clock to finish an update.
    Waiting,
    /// The operation has run; an update may have begun meanwhile.
    Ran,
}

/// What to do next in such an operation.
#[derive(Debug, Clone, Copy, PartialEq, Eq)]
pub enum GuardAction {
    /// Read the update status again.
    Poll,
    /// Run the operation, then read the update status.
    Run,
    /// The operation's result stands.
    Finish,
}

/// One step of an operation guarded against updates of the clock, from
/// where it stands and what the update status just read says. It waits
/// while an update is in progress, then runs the operation, and runs it
/// again from the start where an update had begun by the time it ended.
pub fn update_guarded_op(state: GuardState, in_progress: bool) -> (next: (GuardState, GuardAction))
    ensures
        next == match (state, in_progress) {
            (GuardState::Waiting, true) => (GuardState::Waiting, GuardAction::Poll),
            (GuardState::Waiting, false) => (GuardState::Ran, GuardAction::Run),
            (GuardState::Ran, true) => (GuardState::Waiting, GuardAction::Poll),
            (GuardState::Ran, false) => (GuardState::Ran, GuardAction::Finish),
        },
{
    match state {
        GuardState::Waiting => {
            if in_progress {
                (GuardState::Waiting, GuardAction::Poll)
            } else {
                (GuardState::Ran, GuardAction::Run)
            }
        },
        GuardState::Ran => {
            // Update may have started while the operation ran, in which case
            // it runs again.
            if in_progress {
                (GuardState::Waiting, GuardAction::Poll)
            } else {
                (GuardState::Ran, GuardAction::Finish)
            }
        },
    }
}

/// Status register B with 24-hour mode and binary mode switched on.
pub fn set_data_format(status_reg: u8) -> (formatted: u8)
    ensures
        formatted == status_reg | DATA_FORMAT,
{
    let mut status_reg = status_reg;
    status_reg |= 1 << 1;  // Enables 24H mode
    status_reg |= 1 << 2;  // Enables Binary mode
    assert(forall|s: u8| #[trigger] ((s | (1u8 << 1)) | (1u8 << 2)) == s | 0b110u8) by (bit_vector);
    status_reg
}

/// Whether status register A, read as `status`, says that the clock is
/// updating its registers.
pub fn update_in_progress(status: u8) -> (busy: bool)
    ensures
        busy == (status >> 7 != 0),
{
    let progress_status = UpdateStatus::new(status >> 7);

    match progress_status {
        UpdateStatus::InProgress => true,
        UpdateStatus::Clear => false,
    }
}

/// The accesses that read `register`: one that selects it, one that reads
/// the data port.
pub fn read_cmos_reg(
    control_port: &Port,
    data_port: &Port,
    nmi_enable: bool,
    register: u8,
) -> (script: Vec<PortOp>)
    requires
        register < 0x80,
    ensures
        script@ == seq![
            PortOp::Write { port: control_port@, value: select_byte(nmi_enable, register) },
            PortOp::Read { port: data_port@ },
        ],
{
    let mut script: Vec<PortOp> = Vec::new();
    script.push(select_reg(control_port, nmi_enable, register));
    script.push(data_port.readb());
    assert(script@ =~= seq![
        PortOp::Write { port: control_port@, value: select_byte(nmi_enable, register) },
        PortOp::Read { port: data_port@ },
    ]);
    script
}

/// The accesses that write `val` to `register`: one that selects it, one
/// that writes the data port.
pub fn write_cmos_reg(
    control_port: &Port,
    data_port: &Port,
    nmi_enable: bool,
    register: u8,
    val: u8,
) -> (script: Vec<PortOp>)
    requires
        register < 0x80,
    ensures
        script@ == seq![
            PortOp::Write { port: control_port@, value: select_byte(nmi_enable, register) },
            PortOp::Write { port: data_port@, value: val },
        ],
{
    let mut script: Vec<PortOp> = Vec::new();
    script.push(select_reg(control_port, nmi_enable, register));
    script.push(data_port.writeb(val));
    assert(script@ =~= seq![
        PortOp::Write { port: control_port@, value: select_byte(nmi_enable, register) },
        PortOp::Write { port: data_port@, value: val },
    ]);
    script
}

/// The access that selects `register`.
pub fn select_reg(control_port: &Port, nmi_enable: bool, register: u8) -> (op: PortOp)
    requires
        register < 0x80,
    ensures
        op == (PortOp::Write { port: control_port@, value: select_byte(nmi_enable, register) }),
{
    let mask = get_nmi_mask(nmi_enable);
    assert(0u8 | register == register) by (bit_vector);
    control_port.writeb(mask | register)
}

/// The bit that holds non-maskable interrupts off, where they are to be.
pub fn get_nmi_mask(nmi_enable: bool) -> (mask: u8)
    ensures
        mask == if nmi_enable {
            0u8
        } else {
            0x80u8
        },
{
    assert(1u8 << 7 == 0x80u8) by (bit_vector);
    if nmi_enable {
        0
    } else {
        1 << 7
    }
}

} // verus!
