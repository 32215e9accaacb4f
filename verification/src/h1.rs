//! The per-connection pipeline: Reading → Framing → Responding → Reading …,
//! terminal state Closed. The pipeline owns the connection's recycler and
//! makes every decision; the I/O runner performs the actions it is handed
//! (issue a read, write the fixed response, close) and reports each
//! completion back as an event.

use vstd::prelude::*;

use crate::common::{frame_request_split, frame_spec, lemma_frame_complete_bounds, RequestBoundary};
use crate::dual_ring_buffer::DualRingBuffer;

verus! {

/// Why a connection ends. Every failure is scoped to its connection.
#[derive(Clone, Copy, Debug, PartialEq, Eq, Structural)]
pub enum CloseReason {
    /// A zero-byte read: the peer closed; a normal shutdown, not an error.
    EndOfStream,
    /// A socket read or write failed.
    TransportError,
    /// A single request cannot fit the fixed read capacity.
    RequestTooLarge,
}

/// What the pipeline asks its I/O runner to do next.
#[derive(Clone, Copy, Debug, PartialEq, Eq, Structural)]
pub enum Action {
    /// Issue one read with a freshly prepared array (see `prepare_read`).
    Read,
    /// Write the fixed response for the one request just framed, count it,
    /// and report back.
    Respond,
    /// Tear this connection down.
    Close { reason: CloseReason },
}

/// An I/O completion reported back to the pipeline.
pub enum Event {
    /// A read finished: the loaned array comes back with `n` bytes filled
    /// in at its front; `n == 0` means end-of-stream.
    ReadDone { data: Vec<u8>, n: usize },
    /// A read failed with a transport error.
    ReadFailed,
    /// The response for the framed request was written.
    WriteDone,
    /// Writing the response failed with a transport error.
    WriteFailed,
}

/// Where the pipeline stands between events.
#[derive(Clone, Copy, Debug, PartialEq, Eq, Structural)]
pub enum Phase {
    /// Waiting for a read to complete.
    Reading,
    /// One complete request of `boundary` bytes is framed; waiting for its
    /// response to be written.
    Responding { boundary: usize },
    /// The connection is down.
    Closed { reason: CloseReason },
}

/// Which events a phase can accept.
pub open spec fn accepts(phase: Phase, event: Event) -> bool {
    match (phase, event) {
        (Phase::Reading, Event::ReadDone { .. }) => true,
        (Phase::Reading, Event::ReadFailed) => true,
        (Phase::Responding { .. }, Event::WriteDone) => true,
        (Phase::Responding { .. }, Event::WriteFailed) => true,
        _ => false,
    }
}

/// The decision once `buffered` bytes are pending with nothing framed yet:
/// respond to a complete request, unless its total required length exceeds
/// the fixed read capacity — such a request is unsupported and fails its
/// connection, whether it framed complete across reads or is still
/// incomplete with a whole read's capacity already buffered (a partial
/// request that large can never complete within one array either). An
/// incomplete request within capacity just needs more bytes.
pub open spec fn framing_decision(buffered: Seq<u8>, cap: nat) -> Action {
    match frame_spec(buffered) {
        RequestBoundary::Complete { len, .. } => if len > cap {
            Action::Close { reason: CloseReason::RequestTooLarge }
        } else {
            Action::Respond
        },
        RequestBoundary::Incomplete => if buffered.len() >= cap && buffered.len() > 0 {
            Action::Close { reason: CloseReason::RequestTooLarge }
        } else {
            Action::Read
        },
    }
}

/// The phase that goes with `framing_decision`.
pub open spec fn framing_phase(buffered: Seq<u8>, cap: nat) -> Phase {
    match frame_spec(buffered) {
        RequestBoundary::Complete { len, .. } => if len > cap {
            Phase::Closed { reason: CloseReason::RequestTooLarge }
        } else {
            Phase::Responding { boundary: len }
        },
        RequestBoundary::Incomplete => if buffered.len() >= cap && buffered.len() > 0 {
            Phase::Closed { reason: CloseReason::RequestTooLarge }
        } else {
            Phase::Reading
        },
    }
}

/// One connection's pipeline: its recycler, its phase, and whether an array
/// is currently loaned to a pending read.
pub struct Pipeline {
    buf: DualRingBuffer,
    phase: Phase,
    loaned: bool,
}

impl Pipeline {
    /// The recycler is well-formed; a framed boundary never exceeds what is
    /// buffered; while an array is loaned out the active slot is empty (the
    /// loan is the one array the slot is waiting for), and no response is
    /// pending then.
    pub closed spec fn wf(self) -> bool {
        &&& self.buf.wf()
        &&& (self.loaned ==> self.buf.active_view().len() == 0)
        &&& match self.phase {
            Phase::Responding { boundary } => boundary <= self.buf@.len() && !self.loaned,
            _ => true,
        }
    }

    /// Whether an array is loaned to a pending read.
    pub closed spec fn loaned(self) -> bool {
        self.loaned
    }

    /// Whether an array is loaned to a pending read.
    pub fn has_loan(&self) -> (r: bool)
        ensures
            r == self.loaned(),
    {
        self.loaned
    }

    /// How many bytes are buffered for this connection.
    pub fn buffered_len(&self) -> (r: usize)
        requires
            self.wf(),
        ensures
            r == self.buffered().len(),
    {
        self.buf.len()
    }

    /// The phase the pipeline stands in.
    pub fn current_phase(&self) -> (r: Phase)
        ensures
            r == self.phase(),
    {
        self.phase
    }

    /// The connection's unconsumed bytes, in logical order.
    pub closed spec fn buffered(self) -> Seq<u8> {
        self.buf@
    }

    /// The fixed read capacity.
    pub closed spec fn cap(self) -> nat {
        self.buf.cap()
    }

    pub closed spec fn phase(self) -> Phase {
        self.phase
    }

    pub fn new(capacity: usize) -> (r: Pipeline)
        ensures
            r.wf(),
            r.cap() == capacity,
            r.phase() == Phase::Reading,
            r.buffered() == Seq::<u8>::empty(),
            !r.loaned(),
    {
        Pipeline { buf: DualRingBuffer::new(capacity), phase: Phase::Reading, loaned: false }
    }

    /// Prepare the array for the next read: the active slot's leftover moves
    /// to the holding slot and a fixed-capacity array comes out for the I/O
    /// subsystem to own until the read completes.
    pub fn prepare_read(&mut self) -> (r: Vec<u8>)
        requires
            old(self).wf(),
            old(self).phase() == Phase::Reading,
            !old(self).loaned(),
        ensures
            final(self).wf(),
            final(self).cap() == old(self).cap(),
            final(self).phase() == old(self).phase(),
            final(self).buffered() == old(self).buffered(),
            final(self).loaned(),
            r@.len() == old(self).cap(),
    {
        let r = self.buf.prep_read();
        self.loaned = true;
        r
    }

    /// Frame the buffered bytes and move to the phase the result demands.
    fn frame_step(&mut self) -> (r: Action)
        requires
            old(self).buf.wf(),
            old(self).loaned ==> old(self).buf.active_view().len() == 0,
            !old(self).loaned,
        ensures
            final(self).wf(),
            final(self).cap() == old(self).cap(),
            final(self).buffered() == old(self).buffered(),
            final(self).loaned == old(self).loaned,
            r == framing_decision(old(self).buffered(), old(self).cap()),
            final(self).phase() == framing_phase(old(self).buffered(), old(self).cap()),
    {
        let boundary = {
            let (h, a) = self.buf.peek_all();
            frame_request_split(h, a)
        };
        proof {
            lemma_frame_complete_bounds(self.buf@);
        }
        match boundary {
            RequestBoundary::Complete { len, trailing: _ } => {
                if len > self.buf.capacity() {
                    // a request this large never fits one read's array: an
                    // explicit unsupported condition, failed like any other
                    // connection-scoped error
                    self.phase = Phase::Closed { reason: CloseReason::RequestTooLarge };
                    Action::Close { reason: CloseReason::RequestTooLarge }
                } else {
                    self.phase = Phase::Responding { boundary: len };
                    Action::Respond
                }
            },
            RequestBoundary::Incomplete => {
                let blen = self.buf.len();
                if blen > 0 && blen >= self.buf.capacity() {
                    self.phase = Phase::Closed { reason: CloseReason::RequestTooLarge };
                    Action::Close { reason: CloseReason::RequestTooLarge }
                } else {
                    self.phase = Phase::Reading;
                    Action::Read
                }
            },
        }
    }

    /// Feed one I/O completion to the pipeline and get the next action.
    ///
    /// A completed read's array is reclaimed into the recycler, end-of-stream
    /// closes the connection cleanly, fresh bytes are framed, a written
    /// response consumes its request's bytes and framing resumes on the
    /// remainder (so pipelined requests are answered back to back), and any
    /// transport failure closes only this connection.
    pub fn step(&mut self, event: Event) -> (r: Action)
        requires
            old(self).wf(),
            accepts(old(self).phase(), event),
            match event {
                Event::ReadDone { data, n } => {
                    &&& old(self).loaned()
                    &&& n <= data@.len()
                    &&& old(self).buffered().len() + n <= usize::MAX
                },
                Event::ReadFailed => old(self).loaned(),
                _ => true,
            },
        ensures
            final(self).wf(),
            final(self).cap() == old(self).cap(),
            !final(self).loaned(),
            match event {
                Event::ReadDone { data, n } => {
                    if n == 0 {
                        &&& r == Action::Close { reason: CloseReason::EndOfStream }
                        &&& final(self).phase() == Phase::Closed {
                            reason: CloseReason::EndOfStream,
                        }
                        &&& final(self).buffered() == old(self).buffered()
                    } else {
                        let now = old(self).buffered() + data@.take(n as int);
                        &&& final(self).buffered() == now
                        &&& r == framing_decision(now, old(self).cap())
                        &&& final(self).phase() == framing_phase(now, old(self).cap())
                    }
                },
                Event::ReadFailed => {
                    &&& r == Action::Close { reason: CloseReason::TransportError }
                    &&& final(self).phase() == Phase::Closed {
                        reason: CloseReason::TransportError,
                    }
                    &&& final(self).buffered() == old(self).buffered()
                },
                Event::WriteDone => match old(self).phase() {
                    Phase::Responding { boundary } => {
                        let now = old(self).buffered().skip(boundary as int);
                        &&& final(self).buffered() == now
                        &&& r == framing_decision(now, old(self).cap())
                        &&& final(self).phase() == framing_phase(now, old(self).cap())
                    },
                    _ => false,
                },
                Event::WriteFailed => {
                    &&& r == Action::Close { reason: CloseReason::TransportError }
                    &&& final(self).phase() == Phase::Closed {
                        reason: CloseReason::TransportError,
                    }
                    &&& final(self).buffered() == old(self).buffered()
                },
            },
    {
        match event {
            Event::ReadDone { data, n } => {
                self.loaned = false;
                if n == 0 {
                    // end-of-stream: reclaim the array, close cleanly
                    self.buf.push_buf(data, 0);
                    self.phase = Phase::Closed { reason: CloseReason::EndOfStream };
                    proof {
                        assert(final(self).buffered() =~= old(self).buffered());
                    }
                    Action::Close { reason: CloseReason::EndOfStream }
                } else {
                    self.buf.push_buf(data, n);
                    self.frame_step()
                }
            },
            Event::ReadFailed => {
                self.loaned = false;
                self.phase = Phase::Closed { reason: CloseReason::TransportError };
                Action::Close { reason: CloseReason::TransportError }
            },
            Event::WriteDone => {
                let boundary: usize = match self.phase {
                    Phase::Responding { boundary } => boundary,
                    _ => {
                        proof {
                            assert(false);
                        }
                        0
                    },
                };
                self.buf.consume(boundary);
                self.frame_step()
            },
            Event::WriteFailed => {
                self.phase = Phase::Closed { reason: CloseReason::TransportError };
                Action::Close { reason: CloseReason::TransportError }
            },
        }
    }
}

} // verus!
