//! The serial channel as the driver sees it: the actions it asks its caller
//! to perform on the port, and the replies it takes back.

use vstd::prelude::*;

verus! {

/// Baud rate at which bit slots are exchanged.
pub const DATA_BAUD: u32 = 115200;

/// Baud rate at which one framing byte lasts as long as a bus reset pulse.
pub const RESET_BAUD: u32 = 9600;

/// The framing byte sent at `RESET_BAUD` to reset the bus.
pub const RESET_FRAME: u8 = 0xF0;

/// Milliseconds to wait between the reset pulse and sampling its echo.
pub const RESET_SETTLE_MS: u64 = 5;

/// How many bit slots go out in one burst before their echoes are read back.
pub const UART_FIFO_SIZE: usize = 16;

/// Seconds after which a read on the port gives up.
pub const READ_TIMEOUT_SECS: u64 = 5;

/// Whether and how each character carries a parity bit.
#[derive(Clone, Copy, PartialEq, Eq, Structural, Debug)]
pub enum Parity {
    /// No parity bit.
    Off,
    /// The parity bit makes the number of ones odd.
    Odd,
    /// The parity bit makes the number of ones even.
    Even,
}

/// How the serial port must be opened.
#[derive(Clone, Copy, PartialEq, Eq, Structural, Debug)]
pub struct PortSettings {
    /// Symbols per second.
    pub baud_rate: u32,
    /// Bits per character.
    pub data_bits: u8,
    /// The parity bit.
    pub parity: Parity,
    /// Stop bits per character.
    pub stop_bits: u8,
    /// Seconds after which a read gives up, so that a silent line fails
    /// instead of hanging.
    pub timeout_secs: u64,
}

/// The settings of the adapter's port: the data rate, eight data bits, no
/// parity, one stop bit, and a read timeout of a few seconds.
pub open spec fn adapter_port() -> PortSettings {
    PortSettings {
        baud_rate: DATA_BAUD,
        data_bits: 8,
        parity: Parity::Off,
        stop_bits: 1,
        timeout_secs: READ_TIMEOUT_SECS,
    }
}

/// The settings with which the adapter's port must be opened.
pub fn port_settings() -> (settings: PortSettings)
    ensures
        settings == adapter_port(),
{
    PortSettings {
        baud_rate: DATA_BAUD,
        data_bits: 8,
        parity: Parity::Off,
        stop_bits: 1,
        timeout_secs: READ_TIMEOUT_SECS,
    }
}

/// One thing the caller must do on the serial port before resuming the driver.
#[derive(Debug, PartialEq, Eq)]
pub enum Action {
    /// Discard everything pending in the input and output buffers.
    ClearBuffers,
    /// Switch the port to the given baud rate.
    SetBaudRate(u32),
    /// Write all of these bytes.
    Write(Vec<u8>),
    /// Read exactly this many bytes.
    ReadExact(usize),
    /// Block for this many milliseconds.
    Sleep(u64),
}

/// An `Action` with its payload as a mathematical sequence.
pub enum ActionView {
    ClearBuffers,
    SetBaudRate(u32),
    Write(Seq<u8>),
    ReadExact(usize),
    Sleep(u64),
}

impl View for Action {
    type V = ActionView;

    open spec fn view(&self) -> ActionView {
        match *self {
            Action::ClearBuffers => ActionView::ClearBuffers,
            Action::SetBaudRate(baud) => ActionView::SetBaudRate(baud),
            Action::Write(bytes) => ActionView::Write(bytes@),
            Action::ReadExact(count) => ActionView::ReadExact(count),
            Action::Sleep(millis) => ActionView::Sleep(millis),
        }
    }
}

/// What came of the last `Action`.
#[derive(Debug, PartialEq, Eq)]
pub enum Reply {
    /// The action completed and carries no data.
    Done,
    /// The bytes that a read delivered.
    Data(Vec<u8>),
    /// The serial layer refused or failed a port operation.
    SerialError(String),
    /// A read or a write failed, a timeout included.
    IoError(String),
}

/// Why a bus operation did not deliver its result.
#[derive(Debug, PartialEq, Eq)]
pub enum OneWireError {
    /// The serial layer refused or failed a port operation.
    SerialError(String),
    /// A read or a write failed, a timeout included.
    IoError(String),
    /// The reply does not answer the action: wrong kind, or not the byte count asked for.
    ShortRead,
    /// No presence pulse followed a reset that had to find a device.
    DeviceNotPresent(PresenceCheck),
    /// The CRC-8 of a scratchpad does not check.
    IntegrityError,
}

/// Which of the two resets of a temperature read found the bus silent.
#[derive(Clone, Copy, PartialEq, Eq, Structural, Debug)]
pub enum PresenceCheck {
    /// The reset before the conversion was started.
    BeforeConversion,
    /// The reset after the conversion delay: the device was lost meanwhile.
    AfterConversion,
}

impl OneWireError {
    /// The error in words.
    pub open spec fn text(self) -> Seq<char> {
        match self {
            OneWireError::SerialError(cause) => "Serial error: "@ + cause@,
            OneWireError::IoError(cause) => "IO error: "@ + cause@,
            OneWireError::ShortRead => "IO error: short read"@,
            OneWireError::DeviceNotPresent(PresenceCheck::BeforeConversion) =>
                "No device present on bus"@,
            OneWireError::DeviceNotPresent(PresenceCheck::AfterConversion) =>
                "Device lost during conversion"@,
            OneWireError::IntegrityError => "CRC validation failed"@,
        }
    }

    /// Describes the error for a reader.
    pub fn message(&self) -> (message: String)
        ensures
            message@ == self.text(),
    {
        match self {
            OneWireError::SerialError(cause) => {
                let mut message = "Serial error: ".to_owned();
                message.push_str(cause.as_str());
                message
            },
            OneWireError::IoError(cause) => {
                let mut message = "IO error: ".to_owned();
                message.push_str(cause.as_str());
                message
            },
            OneWireError::ShortRead => "IO error: short read".to_owned(),
            OneWireError::DeviceNotPresent(PresenceCheck::BeforeConversion) =>
                "No device present on bus".to_owned(),
            OneWireError::DeviceNotPresent(PresenceCheck::AfterConversion) =>
                "Device lost during conversion".to_owned(),
            OneWireError::IntegrityError => "CRC validation failed".to_owned(),
        }
    }

    /// A failure of the channel itself, as opposed to an outcome on the bus.
    pub open spec fn transport(&self) -> bool {
        self is SerialError || self is IoError || self is ShortRead
    }

    /// Tells whether the channel itself failed.
    pub fn is_transport_error(&self) -> (yes: bool)
        ensures
            yes == self.transport(),
    {
        match self {
            OneWireError::SerialError(_) => true,
            OneWireError::IoError(_) => true,
            OneWireError::ShortRead => true,
            _ => false,
        }
    }
}

/// A `Reply` with its payload as a mathematical sequence.
pub enum ReplyView {
    Done,
    Data(Seq<u8>),
    SerialError(String),
    IoError(String),
}

impl View for Reply {
    type V = ReplyView;

    open spec fn view(&self) -> ReplyView {
        match *self {
            Reply::Done => ReplyView::Done,
            Reply::Data(bytes) => ReplyView::Data(bytes@),
            Reply::SerialError(cause) => ReplyView::SerialError(cause),
            Reply::IoError(cause) => ReplyView::IoError(cause),
        }
    }
}

/// The error that a reply stands for where an action without data was asked.
pub open spec fn done_fault(reply: ReplyView) -> Option<OneWireError> {
    match reply {
        ReplyView::Done => None,
        ReplyView::Data(_) => Some(OneWireError::ShortRead),
        ReplyView::SerialError(cause) => Some(OneWireError::SerialError(cause)),
        ReplyView::IoError(cause) => Some(OneWireError::IoError(cause)),
    }
}

/// The error that a reply stands for where `count` bytes were asked.
pub open spec fn data_fault(reply: ReplyView, count: usize) -> Option<OneWireError> {
    match reply {
        ReplyView::Done => Some(OneWireError::ShortRead),
        ReplyView::Data(bytes) => if bytes.len() == count {
            None
        } else {
            Some(OneWireError::ShortRead)
        },
        ReplyView::SerialError(cause) => Some(OneWireError::SerialError(cause)),
        ReplyView::IoError(cause) => Some(OneWireError::IoError(cause)),
    }
}

/// Reads a reply to an action that carries no data.
pub fn expect_done(reply: Reply) -> (outcome: Result<(), OneWireError>)
    ensures
        outcome is Ok <==> done_fault(reply@) is None,
        outcome matches Err(fault) ==> done_fault(reply@) == Some(fault) && fault.transport(),
{
    match reply {
        Reply::Done => Ok(()),
        Reply::Data(_) => Err(OneWireError::ShortRead),
        Reply::SerialError(cause) => Err(OneWireError::SerialError(cause)),
        Reply::IoError(cause) => Err(OneWireError::IoError(cause)),
    }
}

/// Reads a reply to a read of exactly `count` bytes.
pub fn expect_data(reply: Reply, count: usize) -> (outcome: Result<Vec<u8>, OneWireError>)
    ensures
        outcome matches Ok(bytes) ==> reply@ == ReplyView::Data(bytes@) && bytes@.len() == count,
        outcome is Ok <==> data_fault(reply@, count) is None,
        outcome matches Err(fault) ==> data_fault(reply@, count) == Some(fault) && fault.transport(),
{
    match reply {
        Reply::Done => Err(OneWireError::ShortRead),
        Reply::Data(bytes) => if bytes.len() == count {
            Ok(bytes)
        } else {
            Err(OneWireError::ShortRead)
        },
        Reply::SerialError(cause) => Err(OneWireError::SerialError(cause)),
        Reply::IoError(cause) => Err(OneWireError::IoError(cause)),
    }
}

} // verus!
