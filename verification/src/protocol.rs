//! Wire protocol for the device's vendor-class USB control requests.
//!
//! Two requests exist: pushing the full framebuffer to the device, and
//! reading back 16 bytes of temperature telemetry (four little-endian
//! 32-bit values). Every transfer uses a one-second timeout. The library
//! only describes the transfers and decodes the telemetry payload; the
//! caller issues them on its USB stack.

use vstd::prelude::*;
use crate::LedError;

verus! {

/// Request code: push the full framebuffer (host to device).
pub const REQ_SET_LED: u8 = 0x01;

/// Request code: read temperature telemetry (device to host).
pub const REQ_GET_TEMPERATURE: u8 = 0x02;

/// Request type bits for a vendor-class, device-recipient, host-to-device
/// control transfer.
pub const REQUEST_TYPE_VENDOR_OUT: u8 = 0x40;

/// Request type bits for a vendor-class, device-recipient, device-to-host
/// control transfer.
pub const REQUEST_TYPE_VENDOR_IN: u8 = 0xC0;

/// Timeout for every control transfer, in milliseconds.
pub const TRANSFER_TIMEOUT_MS: u64 = 1000;

/// Length in bytes of the temperature telemetry payload.
pub const TEMPERATURE_PAYLOAD_LEN: usize = 16;

/// Parameters of one control transfer, ready for the caller's USB stack.
#[derive(Clone, Copy, Debug, PartialEq, Eq, Structural)]
pub struct ControlRequest {
    pub request_type: u8,
    pub request: u8,
    pub value: u16,
    pub index: u16,
    pub timeout_ms: u64,
}

/// The transfer that pushes the full framebuffer to the device.
pub fn set_led_request() -> (r: ControlRequest)
    ensures
        r == (ControlRequest {
            request_type: REQUEST_TYPE_VENDOR_OUT,
            request: REQ_SET_LED,
            value: 0u16,
            index: 0u16,
            timeout_ms: TRANSFER_TIMEOUT_MS,
        }),
{
    ControlRequest {
        request_type: REQUEST_TYPE_VENDOR_OUT,
        request: REQ_SET_LED,
        value: 0,
        index: 0,
        timeout_ms: TRANSFER_TIMEOUT_MS,
    }
}

/// The transfer that reads the temperature telemetry from the device.
pub fn get_temperature_request() -> (r: ControlRequest)
    ensures
        r == (ControlRequest {
            request_type: REQUEST_TYPE_VENDOR_IN,
            request: REQ_GET_TEMPERATURE,
            value: 0u16,
            index: 0u16,
            timeout_ms: TRANSFER_TIMEOUT_MS,
        }),
{
    ControlRequest {
        request_type: REQUEST_TYPE_VENDOR_IN,
        request: REQ_GET_TEMPERATURE,
        value: 0,
        index: 0,
        timeout_ms: TRANSFER_TIMEOUT_MS,
    }
}

/// The little-endian 32-bit value stored at offset `off` of `s`.
pub open spec fn le_word(s: Seq<u8>, off: int) -> int {
    s[off] + s[off + 1] * 0x100 + s[off + 2] * 0x10000 + s[off + 3] * 0x1000000
}

/// Splits the 16-byte telemetry payload into its four little-endian 32-bit
/// words (the bit patterns of the device's four temperature readings). A
/// payload of any other length is a transport failure.
pub fn decode_temperature(payload: &Vec<u8>) -> (r: Result<Vec<u32>, LedError>)
    ensures
        payload@.len() == TEMPERATURE_PAYLOAD_LEN ==> (match r {
            Ok(words) => words@.len() == 4 && forall|i: int|
                0 <= i < 4 ==> #[trigger] words@[i] == le_word(payload@, 4 * i),
            Err(_) => false,
        }),
        payload@.len() != TEMPERATURE_PAYLOAD_LEN ==> r == Err::<Vec<u32>, LedError>(
            LedError::TransportError,
        ),
{
    if payload.len() != TEMPERATURE_PAYLOAD_LEN {
        return Err(LedError::TransportError);
    }
    let mut words: Vec<u32> = Vec::new();
    let mut i: usize = 0;
    while i < 4
        invariant
            payload@.len() == 16,
            i <= 4,
            words@.len() == i,
            forall|j: int| 0 <= j < i ==> #[trigger] words@[j] == le_word(payload@, 4 * j),
        decreases 4 - i,
    {
        let b0 = payload[4 * i] as u32;
        let b1 = payload[4 * i + 1] as u32;
        let b2 = payload[4 * i + 2] as u32;
        let b3 = payload[4 * i + 3] as u32;
        let w = b0 + b1 * 0x100 + b2 * 0x10000 + b3 * 0x1000000;
        words.push(w);
        i = i + 1;
    }
    Ok(words)
}

} // verus!
