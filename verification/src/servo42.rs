use vstd::prelude::*;
use crate::serialtrait::SerialError;

verus! {

/// What can go wrong while driving a motor.
#[derive(Debug, PartialEq, Eq, Structural, Clone, Copy)]
pub enum MotorError {
    /// The link failed, or a reply could not be understood.
    SerialError(SerialError),
    /// The shaft is blocked.
    Stuck,
    /// The motor answered, but refused the command.
    NegativeResponse,
}

impl From<SerialError> for MotorError {
    fn from(value: SerialError) -> (r: Self) {
        MotorError::SerialError(value)
    }
}

impl vstd::std_specs::convert::FromSpecImpl<SerialError> for MotorError {
    open spec fn obeys_from_spec() -> bool {
        true
    }

    open spec fn from_spec(v: SerialError) -> MotorError {
        MotorError::SerialError(v)
    }
}

/// Locked-rotor protection state of the shaft.
#[derive(Debug, PartialEq, Eq, Structural, Clone, Copy)]
pub enum Protection {
    Protected,
    UnProtected,
}

/// Step angle of the motor.
#[derive(Debug, PartialEq, Eq, Structural, Clone, Copy)]
pub enum MotType {
    Deg1_8,
    Deg0_9,
}

/// Control mode of the driver board.
#[derive(Debug, PartialEq, Eq, Structural, Clone, Copy)]
pub enum WorkMode {
    CrOpen,
    CrVFoc,
    CrUART,
}

/// Level on which the En pin enables the driver.
#[derive(Debug, PartialEq, Eq, Structural, Clone, Copy)]
pub enum ActiveOn {
    Low,
    High,
    Hold,
}

/// Direction of rotation.
#[derive(Debug, PartialEq, Eq, Structural, Clone, Copy)]
pub enum Dir {
    ClockWise,
    CounterClockWise,
}

/// Baud rates that the driver's UART supports.
#[derive(Debug, PartialEq, Eq, Structural, Clone, Copy)]
pub enum BaudRate {
    B9600,
    B19200,
    B25000,
    B38400,
    B57600,
    B115200,
}

/// Bits per second of a baud rate.
pub open spec fn baud_rate_value(b: BaudRate) -> u32 {
    match b {
        BaudRate::B9600 => 9600,
        BaudRate::B19200 => 19200,
        BaudRate::B25000 => 25000,
        BaudRate::B38400 => 38400,
        BaudRate::B57600 => 57600,
        BaudRate::B115200 => 115200,
    }
}

impl From<BaudRate> for u32 {
    fn from(value: BaudRate) -> (r: Self) {
        match value {
            BaudRate::B9600 => 9600,
            BaudRate::B19200 => 19200,
            BaudRate::B25000 => 25000,
            BaudRate::B38400 => 38400,
            BaudRate::B57600 => 57600,
            BaudRate::B115200 => 115200,
        }
    }
}

impl vstd::std_specs::convert::FromSpecImpl<BaudRate> for u32 {
    open spec fn obeys_from_spec() -> bool {
        true
    }

    open spec fn from_spec(v: BaudRate) -> u32 {
        baud_rate_value(v)
    }
}

/// Byte that selects a motor type in the "set motor type" command.
pub open spec fn mot_type_code(m: MotType) -> u8 {
    match m {
        MotType::Deg0_9 => 0,
        MotType::Deg1_8 => 1,
    }
}

/// Byte that selects a work mode in the "set work mode" command.
pub open spec fn work_mode_code(m: WorkMode) -> u8 {
    match m {
        WorkMode::CrOpen => 0,
        WorkMode::CrVFoc => 1,
        WorkMode::CrUART => 2,
    }
}

/// Byte that selects the En pin level in the "set En active" command.
pub open spec fn active_on_code(a: ActiveOn) -> u8 {
    match a {
        ActiveOn::Low => 0,
        ActiveOn::High => 1,
        ActiveOn::Hold => 2,
    }
}

/// Byte that selects a direction in the "set direction" command.
pub open spec fn dir_code(d: Dir) -> u8 {
    match d {
        Dir::ClockWise => 0,
        Dir::CounterClockWise => 1,
    }
}

/// Byte that selects the protection in the "set protection" command.
pub open spec fn protection_code(p: Protection) -> u8 {
    match p {
        Protection::Protected => 0,
        Protection::UnProtected => 1,
    }
}

/// Byte that selects a baud rate in the "set baud rate" command.
pub open spec fn baud_rate_code(b: BaudRate) -> u8 {
    match b {
        BaudRate::B9600 => 0,
        BaudRate::B19200 => 1,
        BaudRate::B25000 => 2,
        BaudRate::B38400 => 3,
        BaudRate::B57600 => 4,
        BaudRate::B115200 => 5,
    }
}

/// Byte that stands for a flag in the on/off commands.
pub open spec fn flag_code(b: bool) -> u8 {
    if b {
        1
    } else {
        0
    }
}

/// The board's direction byte: 0 for clockwise, 1 for counterclockwise,
/// so the two directions never send the same byte.
pub proof fn lemma_direction_codes(d: Dir, other: Dir)
    ensures
        dir_code(d) == 0 <==> d == Dir::ClockWise,
        dir_code(d) == 1 <==> d == Dir::CounterClockWise,
        dir_code(d) == dir_code(other) <==> d == other,
{
}

/// The flag byte of the on/off commands: 1 for on, 0 for off.
pub proof fn lemma_flag_codes(b: bool, other: bool)
    ensures
        flag_code(b) == 1 <==> b,
        flag_code(b) == 0 <==> !b,
        flag_code(b) == flag_code(other) <==> b == other,
{
}

} // verus!
