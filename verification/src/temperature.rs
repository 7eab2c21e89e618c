//! The DS18B20 scratchpad and the temperature it holds.

use vstd::prelude::*;
use crate::crc::{crc8, validate_crc};
use crate::transport::OneWireError;

verus! {

/// A temperature as the device reports it: a count of sixteenths of a degree Celsius.
#[derive(Clone, Copy, PartialEq, Eq, Structural, Debug)]
pub struct Temperature {
    /// The raw register, in steps of 0.0625 °C.
    pub raw: i16,
}

/// The temperature register as a signed 16-bit number, from its two bytes
/// in little-endian order.
pub open spec fn register_value(low: u8, high: u8) -> int {
    if low + 256 * high >= 32768 {
        low + 256 * high - 65536
    } else {
        low + 256 * high
    }
}

/// Decodes the two register bytes, low byte first, as a two's-complement number.
pub fn decode_register(low: u8, high: u8) -> (raw: i16)
    ensures
        raw == register_value(low, high),
{
    let unsigned: i32 = low as i32 + 256 * (high as i32);
    if unsigned >= 32768 {
        (unsigned - 65536) as i16
    } else {
        unsigned as i16
    }
}

impl Temperature {
    /// The temperature in sixteenths of a degree Celsius.
    pub fn sixteenths(&self) -> (count: i16)
        ensures
            count == self.raw,
    {
        self.raw
    }

    /// The temperature in ten-thousandths of a degree Celsius: each
    /// sixteenth is exactly 625 of them.
    pub fn ten_thousandths(&self) -> (count: i32)
        ensures
            count == self.raw * 625,
    {
        self.raw as i32 * 625
    }
}

/// Reads the temperature out of a scratchpad, provided its CRC-8 checks.
pub fn decode_scratchpad(scratchpad: &[u8; 9]) -> (outcome: Result<Temperature, OneWireError>)
    ensures
        crc8(scratchpad@) == 0 ==> outcome == Ok::<Temperature, OneWireError>(
            Temperature { raw: register_value(scratchpad@[0], scratchpad@[1]) as i16 },
        ),
        crc8(scratchpad@) != 0 ==> outcome == Err::<Temperature, OneWireError>(
            OneWireError::IntegrityError,
        ),
{
    if validate_crc(scratchpad.as_slice()) {
        Ok(Temperature { raw: decode_register(scratchpad[0], scratchpad[1]) })
    } else {
        Err(OneWireError::IntegrityError)
    }
}

} // verus!
