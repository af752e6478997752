//! Host-side controller logic for a USB-attached addressable LED matrix.
//!
//! The library covers the device session and framebuffer subsystem: the
//! serpentine row/column-to-linear-index mapping, gamma-corrected color
//! conversion, per-device framebuffer bookkeeping, the registry of device
//! connections and friendly names, the byte layout of the persisted
//! framebuffer file, and the payloads of the USB control requests. All USB
//! and file I/O lives outside the library; callers hand in the raw data and
//! perform the transfers the library asks for.

use vstd::prelude::*;

pub mod assoc;
pub mod codec;
pub mod color;
pub mod discovery;
pub mod gamma;
pub mod mapping;
pub mod protocol;
pub mod service;

verus! {

/// Width of the LED matrix in pixels (columns).
pub const WIDTH: usize = 22;

/// Height of the LED matrix in pixels (rows).
pub const HEIGHT: usize = 8;

/// Size in bytes of one device framebuffer: three bytes (GRB) per LED.
pub const LED_BUFFER_SIZE: usize = WIDTH * HEIGHT * 3;

/// Errors surfaced by the library's operations.
#[derive(Clone, Copy, Debug, PartialEq, Eq, Structural)]
pub enum LedError {
    /// The serial number was not among the enumerated matching devices.
    DeviceNotFound,
    /// No live handle exists for an operation that requires one.
    DeviceNotConnected,
    /// No framebuffer exists for the serial number (never connected).
    BufferNotFound,
    /// Wrong element count on a buffer or layout operation.
    SizeMismatch,
    /// USB I/O or timeout failure.
    TransportError,
    /// Layout file read or write failure.
    IoError,
}

impl LedError {
    /// A descriptive message for the error, as surfaced to callers.
    pub fn describe(&self) -> &'static str {
        match self {
            LedError::DeviceNotFound => "Device with the specified serial number not found",
            LedError::DeviceNotConnected => "Device handle not found",
            LedError::BufferNotFound => "Buffer for device not found",
            LedError::SizeMismatch => "Incorrect number of LED values provided",
            LedError::TransportError => "USB transfer failed",
            LedError::IoError => "Layout file I/O failed",
        }
    }
}

} // verus!
