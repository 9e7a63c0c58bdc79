//! The count of downloaded bytes from which the throughput is reported.
use vstd::prelude::*;

verus! {

/// How much time passes between two reports of the throughput, in milliseconds.
pub const REPORT_INTERVAL_MILLIS: u128 = 1000;

/// Counts the bytes that all workers have downloaded since the last report.
#[derive(Debug)]
pub struct ByteCounter {
    bytes_since_update: usize,
}

impl View for ByteCounter {
    type V = nat;

    closed spec fn view(&self) -> nat {
        self.bytes_since_update as nat
    }
}

impl ByteCounter {
    /// Nothing has been downloaded.
    pub fn new() -> (counter: Self)
        ensures
            counter@ == 0,
    {
        ByteCounter { bytes_since_update: 0 }
    }

    /// Whether the count can hold so many more bytes.
    pub fn has_room(&self, len: usize) -> (room: bool)
        ensures
            room == (self@ + len <= usize::MAX),
    {
        len <= usize::MAX - self.bytes_since_update
    }

    /// Counts downloaded bytes.
    pub fn count(&mut self, len: usize)
        requires
            old(self)@ + len <= usize::MAX,
        ensures
            final(self)@ == old(self)@ + len,
    {
        self.bytes_since_update = self.bytes_since_update + len;
    }

    /// Hands out the count for a report, and starts over, once the interval has passed since the
    /// last report; before that, does nothing.
    pub fn take_report(&mut self, elapsed_millis: u128) -> (bytes: Option<usize>)
        ensures
            if elapsed_millis >= REPORT_INTERVAL_MILLIS {
                &&& bytes matches Some(count) && count == old(self)@
                &&& final(self)@ == 0
            } else {
                &&& bytes is None
                &&& final(self)@ == old(self)@
            },
            bytes is Some <==> elapsed_millis >= 1000,
    {
        if elapsed_millis >= REPORT_INTERVAL_MILLIS {
            let bytes: usize = self.bytes_since_update;
            self.bytes_since_update = 0;
            Some(bytes)
        } else {
            None
        }
    }
}

} // verus!
