//! The decision core of the asynchronous reader's blocking read.
//!
//! The reader's worker thread forwards each byte (or read error) of the
//! terminal device over a channel; the consumer fills a caller's buffer from
//! that channel. What the consumer does with each channel observation — the
//! receive loop's decisions — is pure and stands here; performing the
//! receives themselves is I/O and stays with the caller.

use vstd::prelude::*;

verus! {

/// One observation on the reader's channel.
#[derive(Debug, Clone, Copy, PartialEq, Eq)]
pub enum RecvEvent {
    /// A byte arrived.
    Byte(u8),
    /// The worker forwarded a read error from the device.
    ReadErr,
    /// No message arrived within the configured timeout.
    Timeout,
    /// The channel disconnected: the worker is gone, the stream has ended.
    Disconnected,
}

/// What the receive loop does after an observation.
#[derive(Debug, Clone, Copy, PartialEq, Eq)]
pub enum ReadStep {
    /// Keep receiving: the buffer still has room.
    Continue,
    /// The read is complete with this many bytes.
    Done(usize),
    /// Fail the read with a timed-out error.
    FailTimeout,
    /// Fail the read with the forwarded read error.
    FailRead,
}

/// The receive loop of one blocking read over the reader's channel: arriving
/// bytes are collected up to a capacity; disconnection ends the read with
/// the bytes collected so far (zero of them meaning end of stream); a timed
/// out or failed receive fails the read.
pub struct ReadLoop {
    got: Vec<u8>,
    cap: usize,
}

impl ReadLoop {
    /// The bytes collected so far.
    pub closed spec fn collected(&self) -> Seq<u8> {
        self.got@
    }

    /// How many bytes the read asked for at most.
    pub closed spec fn capacity(&self) -> int {
        self.cap as int
    }

    /// The collection never exceeds the capacity.
    pub closed spec fn wf(&self) -> bool {
        self.got@.len() <= self.cap
    }

    /// Begins a read of at most `cap` bytes.
    pub fn begin(cap: usize) -> (r: ReadLoop)
        ensures
            r.wf(),
            r.collected() == Seq::<u8>::empty(),
            r.capacity() == cap,
    {
        let r = ReadLoop { got: Vec::new(), cap };
        proof {
            assert(r.collected() =~= Seq::<u8>::empty());
        }
        r
    }

    /// Accounts one channel observation: a byte is appended and the read
    /// goes on (complete once the capacity is reached); disconnection
    /// completes the read with what was collected; a timeout or a forwarded
    /// read error fails it, leaving the collection as it was.
    pub fn on_event(&mut self, ev: RecvEvent) -> (step: ReadStep)
        requires
            old(self).wf(),
            old(self).collected().len() < old(self).capacity(),
        ensures
            final(self).wf(),
            final(self).capacity() == old(self).capacity(),
            match ev {
                RecvEvent::Byte(b) => final(self).collected() == old(self).collected() + seq![b]
                    && (if final(self).collected().len() < final(self).capacity() {
                    step == ReadStep::Continue
                } else {
                    (step matches ReadStep::Done(n) && n == final(self).capacity())
                }),
                RecvEvent::Timeout => step == ReadStep::FailTimeout && final(self).collected()
                    == old(self).collected(),
                RecvEvent::Disconnected => (step matches ReadStep::Done(n) && n == old(
                    self,
                ).collected().len()) && final(self).collected() == old(self).collected(),
                RecvEvent::ReadErr => step == ReadStep::FailRead && final(self).collected()
                    == old(self).collected(),
            },
    {
        match ev {
            RecvEvent::Byte(b) => {
                let ghost pre = self.got@;
                self.got.push(b);
                proof {
                    assert(self.got@ =~= pre + seq![b]);
                }
                if self.got.len() < self.cap {
                    ReadStep::Continue
                } else {
                    ReadStep::Done(self.got.len())
                }
            }
            RecvEvent::Timeout => ReadStep::FailTimeout,
            RecvEvent::Disconnected => ReadStep::Done(self.got.len()),
            RecvEvent::ReadErr => ReadStep::FailRead,
        }
    }

    /// Yields the collected bytes for the caller to copy into its buffer.
    pub fn into_bytes(self) -> (r: Vec<u8>)
        ensures
            r@ == self.collected(),
    {
        self.got
    }
}

/// The stop predicate of the Device Status Query's reader: the cursor
/// position report ends at its terminating byte `'R'`.
pub fn is_cus_pos_end(b: u8) -> (r: bool)
    ensures
        r == (b == 0x52),
{
    b == 0x52
}

} // verus!
