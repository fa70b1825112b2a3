//! Scratch buffers for the USB CDC-ACM (virtual serial port) stack.
//!
//! They are owned by the caller, normally locals of `main`, so that the USB
//! stack can borrow them for as long as the caller lives instead of needing
//! `'static` storage.
use vstd::prelude::*;

verus! {

/// Largest packet on the CDC-ACM data endpoints.
pub const MAX_PACKET_SIZE: u16 = 64;

/// The buffers that the USB stack borrows.
pub struct UsbBuffers {
    pub config_descriptor: [u8; 256],
    pub bos_descriptor: [u8; 256],
    pub control_buf: [u8; 64],
    /// One packet of received data (`MAX_PACKET_SIZE` bytes).
    pub read_buf: [u8; 64],
}

impl UsbBuffers {
    /// All-zero buffers.
    pub fn new() -> (b: Self)
        ensures
            forall|i: int| 0 <= i < 256 ==> #[trigger] b.config_descriptor[i] == 0,
            forall|i: int| 0 <= i < 256 ==> #[trigger] b.bos_descriptor[i] == 0,
            forall|i: int| 0 <= i < 64 ==> #[trigger] b.control_buf[i] == 0,
            forall|i: int| 0 <= i < MAX_PACKET_SIZE ==> #[trigger] b.read_buf[i] == 0,
    {
        UsbBuffers {
            config_descriptor: [0; 256],
            bos_descriptor: [0; 256],
            control_buf: [0; 64],
            read_buf: [0; 64],
        }
    }
}

} // verus!
