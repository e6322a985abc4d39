use vstd::prelude::*;

use crate::buffer::{Buffer, BufferMode};
use crate::events::{ClientResult, RequiredEvents};

verus! {

/// Phase of a proxied connection pair.
#[derive(Debug, PartialEq, Eq, Structural, Clone, Copy)]
pub enum ConnectionStatus {
    Initial,
    ClientConnected,
    Connected,
    ClientClosed,
    ServerClosed,
    Closed,
}

/// What one readiness-driven read produced: a chunk of bytes, a
/// would-block, or a transport error.
pub enum ReadOutcome {
    Data(Vec<u8>),
    WouldBlock,
    Failed,
}

/// What one readiness-driven write produced: a byte count actually
/// written, a would-block, or a transport error.
pub enum WriteOutcome {
    Wrote(usize),
    WouldBlock,
    Failed,
}

/// Interest bits for one socket.
#[derive(Debug, PartialEq, Eq, Structural, Clone, Copy)]
pub struct Interest {
    pub readable: bool,
    pub writable: bool,
}

/// Default capacity of each of the two per-session buffers.
pub const SESSION_BUFFER_CAPACITY: usize = 2048;

/// One TCP session: the two sockets' buffers, tokens and interest
/// sets, plus ghost logs of every byte that crossed it.  The logs are
/// what the forwarding-order law speaks about: `front_log` holds all
/// bytes read from the front, `back_delivered` all bytes written to
/// the back, and symmetrically for the other direction.
pub struct Client {
    pub front_buf: Buffer,
    pub back_buf: Buffer,
    pub token: Option<usize>,
    pub backend_token: Option<usize>,
    pub front_interest: Interest,
    pub back_interest: Interest,
    pub status: ConnectionStatus,
    pub rx_count: usize,
    pub tx_count: usize,
    pub front_log: Ghost<Seq<u8>>,
    pub back_delivered: Ghost<Seq<u8>>,
    pub back_log: Ghost<Seq<u8>>,
    pub front_delivered: Ghost<Seq<u8>>,
}

impl Client {
    /// Everything read was either already forwarded or still sits in
    /// the buffer, in order and in full.
    pub open spec fn wf(&self) -> bool {
        &&& self.front_buf.wf()
        &&& self.back_buf.wf()
        &&& self.front_log@ == self.back_delivered@ + self.front_buf@.data
        &&& self.back_log@ == self.front_delivered@ + self.back_buf@.data
        &&& self.rx_count == self.front_log@.len()
        &&& self.tx_count == self.front_delivered@.len()
    }

    pub fn new() -> (c: Client)
        ensures
            c.wf(),
            c.status == ConnectionStatus::Initial,
            c.token is None,
            c.backend_token is None,
            c.front_buf@.data.len() == 0,
            c.back_buf@.data.len() == 0,
            c.front_buf@.mode == BufferMode::Fill,
            c.back_buf@.mode == BufferMode::Fill,
            c.front_buf@.capacity == SESSION_BUFFER_CAPACITY as nat,
            c.back_buf@.capacity == SESSION_BUFFER_CAPACITY as nat,
            c.front_log@ == Seq::<u8>::empty(),
            c.back_log@ == Seq::<u8>::empty(),
            c.back_delivered@ == Seq::<u8>::empty(),
            c.front_delivered@ == Seq::<u8>::empty(),
            c.rx_count == 0,
            c.tx_count == 0,
            c.front_interest == (Interest { readable: true, writable: true }),
            c.back_interest == (Interest { readable: true, writable: true }),
    {
        Client {
            front_buf: Buffer::new(SESSION_BUFFER_CAPACITY),
            back_buf: Buffer::new(SESSION_BUFFER_CAPACITY),
            token: None,
            backend_token: None,
            front_interest: Interest { readable: true, writable: true },
            back_interest: Interest { readable: true, writable: true },
            status: ConnectionStatus::Initial,
            rx_count: 0,
            tx_count: 0,
            front_log: Ghost(Seq::empty()),
            back_delivered: Ghost(Seq::empty()),
            back_log: Ghost(Seq::empty()),
            front_delivered: Ghost(Seq::empty()),
        }
    }

    /// Records the two slab identifiers this session answers to.
    pub fn set_tokens(&mut self, token: usize, backend: usize)
        ensures
            *final(self) == (Client {
                token: Some(token),
                backend_token: Some(backend),
                ..*old(self)
            }),
    {
        self.token = Some(token);
        self.backend_token = Some(backend);
    }

    /// Bytes arrived on the front socket.  A would-block or an error
    /// leaves the session exactly as it was; data is appended to the
    /// front buffer and the interest moves from reading the front to
    /// writing the back.
    pub fn readable(&mut self, outcome: ReadOutcome)
        requires
            old(self).wf(),
            outcome matches ReadOutcome::Data(b) ==> {
                &&& old(self).front_buf@.mode == BufferMode::Fill
                &&& old(self).front_buf@.data.len() + b@.len() <= old(self).front_buf@.capacity
                &&& old(self).rx_count + b@.len() <= usize::MAX
            },
        ensures
            final(self).wf(),
            outcome matches ReadOutcome::WouldBlock ==> *final(self) == *old(self),
            outcome matches ReadOutcome::Failed ==> *final(self) == *old(self),
            outcome matches ReadOutcome::Data(b) ==> {
                &&& final(self).front_buf@.data == old(self).front_buf@.data + b@
                &&& final(self).front_buf@.mode == BufferMode::Fill
                &&& final(self).front_buf@.capacity == old(self).front_buf@.capacity
                &&& final(self).front_log@ == old(self).front_log@ + b@
                &&& final(self).rx_count == old(self).rx_count + b@.len()
                &&& final(self).front_interest == (Interest {
                    readable: false,
                    ..old(self).front_interest
                })
                &&& final(self).back_interest == (Interest {
                    writable: true,
                    ..old(self).back_interest
                })
                &&& final(self).back_buf == old(self).back_buf
                &&& final(self).status == old(self).status
                &&& final(self).token == old(self).token
                &&& final(self).backend_token == old(self).backend_token
                &&& final(self).tx_count == old(self).tx_count
                &&& final(self).back_delivered == old(self).back_delivered
                &&& final(self).back_log == old(self).back_log
                &&& final(self).front_delivered == old(self).front_delivered
            },
    {
        match outcome {
            ReadOutcome::Data(b) => {
                self.front_buf.fill(b.as_slice());
                self.front_log = Ghost(self.front_log@ + b@);
                self.rx_count = self.rx_count + b.len();
                proof {
                    assert(self.front_log@ =~= self.back_delivered@ + self.front_buf@.data);
                }
                self.front_interest.readable = false;
                self.back_interest.writable = true;
            },
            ReadOutcome::WouldBlock => {},
            ReadOutcome::Failed => {},
        }
    }

    /// The back socket accepted `n` of the front buffer's pending
    /// bytes.  They leave the buffer in order; a would-block only
    /// turns the back-write interest on again.
    pub fn back_writable(&mut self, outcome: WriteOutcome)
        requires
            old(self).wf(),
            outcome matches WriteOutcome::Wrote(n) ==> {
                &&& old(self).front_buf@.data.len() > 0
                &&& n <= old(self).front_buf@.data.len()
            },
        ensures
            final(self).wf(),
            outcome matches WriteOutcome::WouldBlock ==> *final(self) == (Client {
                back_interest: Interest { writable: true, ..old(self).back_interest },
                ..*old(self)
            }),
            outcome matches WriteOutcome::Failed ==> *final(self) == *old(self),
            outcome matches WriteOutcome::Wrote(n) ==> {
                &&& final(self).front_buf@.data == old(self).front_buf@.data.skip(n as int)
                &&& final(self).front_buf@.capacity == old(self).front_buf@.capacity
                &&& final(self).back_delivered@ == old(self).back_delivered@ + old(
                    self,
                ).front_buf@.data.take(n as int)
                &&& final(self).front_buf@.mode == (if old(self).front_buf@.data.len() == n {
                    BufferMode::Fill
                } else {
                    BufferMode::Drain
                })
                &&& final(self).front_log == old(self).front_log
                &&& final(self).front_interest == (Interest {
                    readable: true,
                    ..old(self).front_interest
                })
                &&& final(self).back_interest == (Interest { readable: true, writable: false })
                &&& final(self).back_buf == old(self).back_buf
                &&& final(self).status == old(self).status
                &&& final(self).token == old(self).token
                &&& final(self).backend_token == old(self).backend_token
                &&& final(self).rx_count == old(self).rx_count
                &&& final(self).tx_count == old(self).tx_count
                &&& final(self).back_log == old(self).back_log
                &&& final(self).front_delivered == old(self).front_delivered
            },
    {
        match outcome {
            WriteOutcome::Wrote(n) => {
                let ghost pending = self.front_buf@.data;
                if self.front_buf.mode() == BufferMode::Fill {
                    self.front_buf.flip_to_drain();
                }
                self.front_buf.consume(n);
                if self.front_buf.is_empty() {
                    self.front_buf.flip_to_fill();
                }
                self.back_delivered = Ghost(self.back_delivered@ + pending.take(n as int));
                proof {
                    assert(self.back_delivered@ + self.front_buf@.data =~= old(
                        self,
                    ).back_delivered@ + pending);
                }
                self.front_interest.readable = true;
                self.back_interest.writable = false;
                self.back_interest.readable = true;
            },
            WriteOutcome::WouldBlock => {
                self.back_interest.writable = true;
            },
            WriteOutcome::Failed => {},
        }
    }

    /// Bytes arrived on the back socket; symmetric to `readable`.
    pub fn back_readable(&mut self, outcome: ReadOutcome)
        requires
            old(self).wf(),
            outcome matches ReadOutcome::Data(b) ==> {
                &&& old(self).back_buf@.mode == BufferMode::Fill
                &&& old(self).back_buf@.data.len() + b@.len() <= old(self).back_buf@.capacity
            },
        ensures
            final(self).wf(),
            outcome matches ReadOutcome::WouldBlock ==> *final(self) == *old(self),
            outcome matches ReadOutcome::Failed ==> *final(self) == *old(self),
            outcome matches ReadOutcome::Data(b) ==> {
                &&& final(self).back_buf@.data == old(self).back_buf@.data + b@
                &&& final(self).back_buf@.mode == BufferMode::Fill
                &&& final(self).back_buf@.capacity == old(self).back_buf@.capacity
                &&& final(self).back_log@ == old(self).back_log@ + b@
                &&& final(self).back_interest == (Interest {
                    readable: false,
                    ..old(self).back_interest
                })
                &&& final(self).front_interest == (Interest {
                    writable: true,
                    ..old(self).front_interest
                })
                &&& final(self).front_buf == old(self).front_buf
                &&& final(self).status == old(self).status
                &&& final(self).token == old(self).token
                &&& final(self).backend_token == old(self).backend_token
                &&& final(self).rx_count == old(self).rx_count
                &&& final(self).tx_count == old(self).tx_count
                &&& final(self).front_log == old(self).front_log
                &&& final(self).back_delivered == old(self).back_delivered
                &&& final(self).front_delivered == old(self).front_delivered
            },
    {
        match outcome {
            ReadOutcome::Data(b) => {
                self.back_buf.fill(b.as_slice());
                self.back_log = Ghost(self.back_log@ + b@);
                proof {
                    assert(self.back_log@ =~= self.front_delivered@ + self.back_buf@.data);
                }
                self.back_interest.readable = false;
                self.front_interest.writable = true;
            },
            ReadOutcome::WouldBlock => {},
            ReadOutcome::Failed => {},
        }
    }

    /// The front socket accepted `n` of the back buffer's pending
    /// bytes; symmetric to `back_writable`, and counted in `tx_count`.
    pub fn writable(&mut self, outcome: WriteOutcome)
        requires
            old(self).wf(),
            outcome matches WriteOutcome::Wrote(n) ==> {
                &&& old(self).back_buf@.data.len() > 0
                &&& n <= old(self).back_buf@.data.len()
                &&& old(self).tx_count + n <= usize::MAX
            },
        ensures
            final(self).wf(),
            outcome matches WriteOutcome::WouldBlock ==> *final(self) == (Client {
                front_interest: Interest { writable: true, ..old(self).front_interest },
                ..*old(self)
            }),
            outcome matches WriteOutcome::Failed ==> *final(self) == *old(self),
            outcome matches WriteOutcome::Wrote(n) ==> {
                &&& final(self).back_buf@.data == old(self).back_buf@.data.skip(n as int)
                &&& final(self).back_buf@.capacity == old(self).back_buf@.capacity
                &&& final(self).front_delivered@ == old(self).front_delivered@ + old(
                    self,
                ).back_buf@.data.take(n as int)
                &&& final(self).back_buf@.mode == (if old(self).back_buf@.data.len() == n {
                    BufferMode::Fill
                } else {
                    BufferMode::Drain
                })
                &&& final(self).tx_count == old(self).tx_count + n
                &&& final(self).front_interest == (Interest {
                    writable: false,
                    ..old(self).front_interest
                })
                &&& final(self).back_interest == (Interest {
                    readable: true,
                    ..old(self).back_interest
                })
                &&& final(self).front_buf == old(self).front_buf
                &&& final(self).status == old(self).status
                &&& final(self).token == old(self).token
                &&& final(self).backend_token == old(self).backend_token
                &&& final(self).rx_count == old(self).rx_count
                &&& final(self).front_log == old(self).front_log
                &&& final(self).back_delivered == old(self).back_delivered
                &&& final(self).back_log == old(self).back_log
            },
    {
        match outcome {
            WriteOutcome::Wrote(n) => {
                let ghost pending = self.back_buf@.data;
                if self.back_buf.mode() == BufferMode::Fill {
                    self.back_buf.flip_to_drain();
                }
                self.back_buf.consume(n);
                if self.back_buf.is_empty() {
                    self.back_buf.flip_to_fill();
                }
                self.front_delivered = Ghost(self.front_delivered@ + pending.take(n as int));
                self.tx_count = self.tx_count + n;
                proof {
                    assert(self.front_delivered@ + self.back_buf@.data =~= old(
                        self,
                    ).front_delivered@ + pending);
                }
                self.front_interest.writable = false;
                self.back_interest.readable = true;
            },
            WriteOutcome::WouldBlock => {
                self.front_interest.writable = true;
            },
            WriteOutcome::Failed => {},
        }
    }

    /// The front peer hung up.  If the back already closed, or never
    /// answered, the session is over; otherwise it half-closes and
    /// keeps draining.
    pub fn front_hup(&mut self) -> (r: ClientResult)
        ensures
            (old(self).status == ConnectionStatus::ServerClosed || old(self).status
                == ConnectionStatus::ClientConnected) ==> {
                &&& final(self).status == ConnectionStatus::Closed
                &&& r == ClientResult::CloseClient
            },
            !(old(self).status == ConnectionStatus::ServerClosed || old(self).status
                == ConnectionStatus::ClientConnected) ==> {
                &&& final(self).status == ConnectionStatus::ClientClosed
                &&& r == ClientResult::Continue
            },
            *final(self) == (Client { status: final(self).status, ..*old(self) }),
    {
        if self.status == ConnectionStatus::ServerClosed || self.status
            == ConnectionStatus::ClientConnected {
            self.status = ConnectionStatus::Closed;
            ClientResult::CloseClient
        } else {
            self.status = ConnectionStatus::ClientClosed;
            ClientResult::Continue
        }
    }

    /// The back peer hung up; symmetric to `front_hup`.
    pub fn back_hup(&mut self) -> (r: ClientResult)
        ensures
            old(self).status == ConnectionStatus::ClientClosed ==> {
                &&& final(self).status == ConnectionStatus::Closed
                &&& r == ClientResult::CloseClient
            },
            old(self).status != ConnectionStatus::ClientClosed ==> {
                &&& final(self).status == ConnectionStatus::ServerClosed
                &&& r == ClientResult::Continue
            },
            *final(self) == (Client { status: final(self).status, ..*old(self) }),
    {
        if self.status == ConnectionStatus::ClientClosed {
            self.status = ConnectionStatus::Closed;
            ClientResult::CloseClient
        } else {
            self.status = ConnectionStatus::ServerClosed;
            ClientResult::Continue
        }
    }

    // -----------------------------------------------------------------
    // Interest derivation: the four booleans are a function of the
    // phase and of each buffer's state, nothing else.
    // -----------------------------------------------------------------

    /// Read the front while it is open, its buffer filling and not
    /// full.
    pub open spec fn wants_front_read(&self) -> bool {
        &&& (self.status == ConnectionStatus::ClientConnected || self.status
            == ConnectionStatus::Connected || self.status == ConnectionStatus::ServerClosed)
        &&& self.front_buf@.mode == BufferMode::Fill
        &&& self.front_buf@.data.len() < self.front_buf@.capacity
    }

    /// Write to the front whenever response bytes are pending.
    pub open spec fn wants_front_write(&self) -> bool {
        &&& self.status != ConnectionStatus::Initial
        &&& self.status != ConnectionStatus::Closed
        &&& self.back_buf@.data.len() > 0
    }

    /// Read the back while it is connected and open, its buffer
    /// filling and not full.
    pub open spec fn wants_back_read(&self) -> bool {
        &&& (self.status == ConnectionStatus::Connected || self.status
            == ConnectionStatus::ClientClosed)
        &&& self.back_buf@.mode == BufferMode::Fill
        &&& self.back_buf@.data.len() < self.back_buf@.capacity
    }

    /// Write to the back whenever request bytes are pending and the
    /// back is connected and open.
    pub open spec fn wants_back_write(&self) -> bool {
        &&& (self.status == ConnectionStatus::Connected || self.status
            == ConnectionStatus::ClientClosed)
        &&& self.front_buf@.data.len() > 0
    }

    /// The interest set to re-register after any handler ran, derived
    /// from phase and buffer state alone.
    pub fn required_events(&self) -> (r: RequiredEvents)
        requires
            self.front_buf.wf(),
            self.back_buf.wf(),
        ensures
            r.spec_front_readable() == self.wants_front_read(),
            r.spec_front_writable() == self.wants_front_write(),
            r.spec_back_readable() == self.wants_back_read(),
            r.spec_back_writable() == self.wants_back_write(),
    {
        let fr = (self.status == ConnectionStatus::ClientConnected || self.status
            == ConnectionStatus::Connected || self.status == ConnectionStatus::ServerClosed)
            && self.front_buf.mode() == BufferMode::Fill && !self.front_buf.is_full();
        let fw = self.status != ConnectionStatus::Initial && self.status
            != ConnectionStatus::Closed && !self.back_buf.is_empty();
        let br = (self.status == ConnectionStatus::Connected || self.status
            == ConnectionStatus::ClientClosed) && self.back_buf.mode() == BufferMode::Fill
            && !self.back_buf.is_full();
        let bw = (self.status == ConnectionStatus::Connected || self.status
            == ConnectionStatus::ClientClosed) && !self.front_buf.is_empty();
        match (fr, fw, br, bw) {
            (true, false, false, false) => RequiredEvents::FrontReadBackNone,
            (false, true, false, false) => RequiredEvents::FrontWriteBackNone,
            (true, true, false, false) => RequiredEvents::FrontReadWriteBackNone,
            (false, false, false, false) => RequiredEvents::FrontNoneBackNone,
            (true, false, true, false) => RequiredEvents::FrontReadBackRead,
            (false, true, true, false) => RequiredEvents::FrontWriteBackRead,
            (true, true, true, false) => RequiredEvents::FrontReadWriteBackRead,
            (false, false, true, false) => RequiredEvents::FrontNoneBackRead,
            (true, false, false, true) => RequiredEvents::FrontReadBackWrite,
            (false, true, false, true) => RequiredEvents::FrontWriteBackWrite,
            (true, true, false, true) => RequiredEvents::FrontReadWriteBackWrite,
            (false, false, false, true) => RequiredEvents::FrontNoneBackWrite,
            (true, false, true, true) => RequiredEvents::FrontReadBackReadWrite,
            (false, true, true, true) => RequiredEvents::FrontWriteBackReadWrite,
            (true, true, true, true) => RequiredEvents::FrontReadWriteBackReadWrite,
            (false, false, true, true) => RequiredEvents::FrontNoneBackReadWrite,
        }
    }
}

// ---------------------------------------------------------------------------
// Forwarding order.
// ---------------------------------------------------------------------------

/// What the back has received is always a prefix of what the front
/// sent, byte for byte and in order; and symmetrically.
pub proof fn lemma_forwarding_order(c: Client)
    requires
        c.wf(),
    ensures
        c.back_delivered@.is_prefix_of(c.front_log@),
        c.front_delivered@.is_prefix_of(c.back_log@),
{
    assert(c.front_log@.take(c.back_delivered@.len() as int) =~= c.back_delivered@);
    assert(c.back_log@.take(c.front_delivered@.len() as int) =~= c.front_delivered@);
}

/// A session whose buffers drained cleanly forwarded everything: the
/// back received exactly the bytes the front wrote, in order, and the
/// front received exactly what the back wrote.
pub proof fn lemma_forwarding_complete(c: Client)
    requires
        c.wf(),
        c.front_buf@.data.len() == 0,
        c.back_buf@.data.len() == 0,
    ensures
        c.back_delivered@ == c.front_log@,
        c.front_delivered@ == c.back_log@,
{
    assert(c.back_delivered@ =~= c.front_log@);
    assert(c.front_delivered@ =~= c.back_log@);
}

/// A half-close from the front does not stop delivery: bytes already
/// received still want to reach the back, and pending response bytes
/// still want to reach the front, before anything is torn down.
pub proof fn lemma_half_close_still_drains(c: Client)
    requires
        c.status == ConnectionStatus::ClientClosed,
    ensures
        c.front_buf@.data.len() > 0 ==> c.wants_back_write(),
        c.back_buf@.data.len() > 0 ==> c.wants_front_write(),
{
}

} // verus!
