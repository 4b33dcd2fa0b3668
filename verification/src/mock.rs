//! A simulated transport and clock: writes and delays are recorded
//! instead of performed, so tests can drive the protocol without
//! hardware and without real-time cost. Which writes are acknowledged is
//! programmable per device address and per write index.
use vstd::prelude::*;

use crate::hal::Hal;
use crate::protocol::BusEvent;

verus! {

/// A scripted bus: a write is acknowledged when its address is in
/// `acks` and its index (counting writes only) is not in `fail_writes`.
pub struct MockHal {
    /// Every event performed so far, oldest first.
    pub events: Vec<BusEvent>,
    /// Device addresses that acknowledge writes.
    pub acks: Vec<u8>,
    /// Indices of writes that fail even on an acknowledging address.
    pub fail_writes: Vec<usize>,
    /// How many writes have been issued so far.
    pub writes_done: usize,
}

fn vec_contains_u8(v: &Vec<u8>, x: u8) -> (r: bool)
    ensures
        r == v@.contains(x),
{
    let mut i: usize = 0;
    while i < v.len()
        invariant
            i <= v@.len(),
            forall|j: int| 0 <= j < i ==> v@[j] != x,
        decreases v@.len() - i,
    {
        if v[i] == x {
            return true;
        }
        i += 1;
    }
    false
}

fn vec_contains_usize(v: &Vec<usize>, x: usize) -> (r: bool)
    ensures
        r == v@.contains(x),
{
    let mut i: usize = 0;
    while i < v.len()
        invariant
            i <= v@.len(),
            forall|j: int| 0 <= j < i ==> v@[j] != x,
        decreases v@.len() - i,
    {
        if v[i] == x {
            return true;
        }
        i += 1;
    }
    false
}

impl MockHal {
    /// A fresh bus with an empty log and the given response script.
    pub fn new(acks: Vec<u8>, fail_writes: Vec<usize>) -> (r: MockHal)
        ensures
            r.log() == Seq::<BusEvent>::empty(),
            r.acks@ == acks@,
            r.fail_writes@ == fail_writes@,
            r.writes_done == 0,
    {
        MockHal { events: Vec::new(), acks, fail_writes, writes_done: 0 }
    }
}

impl Hal for MockHal {
    open spec fn log(&self) -> Seq<BusEvent> {
        self.events@
    }

    fn bus_write(&mut self, addr: u8, data: u8) -> (acked: bool) {
        let ok = vec_contains_u8(&self.acks, addr)
            && !vec_contains_usize(&self.fail_writes, self.writes_done);
        if self.writes_done < usize::MAX {
            self.writes_done = self.writes_done + 1;
        }
        self.events.push(BusEvent::Write { addr, data, acked: ok });
        ok
    }

    fn delay_us(&mut self, micros: u64) {
        self.events.push(BusEvent::Delay { micros });
    }
}

} // verus!
