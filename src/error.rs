//! Errors of the driver.

use vstd::prelude::*;

verus! {

/// Driver errors.
#[derive(Debug)]
pub enum LssDriverError {
    /// An incoming packet, or a wire value in it, could not be parsed; the
    /// text says what was rejected.
    PacketParsingError(String),
    /// No frame delimiter arrived within the deadline.
    TimeoutError,
    /// The channel could not be acquired.
    FailedOpeningSerialPort,
    /// Writing a frame to the channel failed.
    SendingError,
    /// A device id outside the addressable range.
    InvalidAddress,
    /// A value or modifiers given to a command that does not take them, or a
    /// value missing for one that needs it.
    InvalidCommandUsage,
}

} // verus!
