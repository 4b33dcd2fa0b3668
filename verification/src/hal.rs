//! The boundary the driver sits on: a blocking single-byte bus write and
//! a busy-wait timing source, both recorded in an event log.
use vstd::prelude::*;

use crate::protocol::BusEvent;

verus! {

/// The ways a driver operation can fail.
#[derive(Clone, Copy, PartialEq, Eq, Structural, Debug)]
pub enum LcdError {
    /// No candidate expander address acknowledged during the scan.
    DeviceNotFound,
    /// The initializer exhausted its construction-time attempts.
    InitializationFailed,
    /// A single bus write was not acknowledged.
    TransferFailed,
}

/// What the driver needs from its surroundings: one blocking byte-write
/// primitive and a busy-wait delay. Whether a write is acknowledged is
/// the device's decision, so `bus_write` promises nothing about its
/// outcome; it only records it. The abstract `log` ties every operation
/// of the driver to the exact bus traffic it produced.
pub trait Hal: Sized {
    /// All writes and delays performed so far, oldest first. The
    /// default stands for a transport that records nothing; an
    /// implementation whose writes are to be reasoned about overrides
    /// it, or it cannot meet the method contracts below.
    open spec fn log(&self) -> Seq<BusEvent> {
        Seq::<BusEvent>::empty()
    }

    /// Write one byte to the device at `addr`; the result says whether
    /// the device acknowledged it.
    fn bus_write(&mut self, addr: u8, data: u8) -> (acked: bool)
        ensures
            final(self).log() == old(self).log().push(BusEvent::Write { addr, data, acked }),
    ;

    /// Busy-wait for `micros` microseconds.
    fn delay_us(&mut self, micros: u64)
        ensures
            final(self).log() == old(self).log().push(BusEvent::Delay { micros }),
    ;
}

} // verus!
