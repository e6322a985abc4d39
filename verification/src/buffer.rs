use vstd::prelude::*;

verus! {

/// A session buffer is always in exactly one of two modes: while it
/// fills, reads append to it; while it drains, writes take bytes off
/// its front.  The flips are explicit and one-way per cycle: to drain
/// only with bytes in hand, back to fill only once empty.
#[derive(Debug, PartialEq, Eq, Structural, Clone, Copy)]
pub enum BufferMode {
    Fill,
    Drain,
}

pub struct BufferV {
    pub data: Seq<u8>,
    pub capacity: nat,
    pub mode: BufferMode,
}

/// A bounded FIFO byte buffer with the fill/drain discipline.
pub struct Buffer {
    data: Vec<u8>,
    capacity: usize,
    mode: BufferMode,
}

impl View for Buffer {
    type V = BufferV;

    closed spec fn view(&self) -> BufferV {
        BufferV { data: self.data@, capacity: self.capacity as nat, mode: self.mode }
    }
}

impl Buffer {
    /// The buffer never holds more than its capacity.
    pub open spec fn wf(&self) -> bool {
        self@.data.len() <= self@.capacity
    }

    pub fn new(capacity: usize) -> (b: Buffer)
        ensures
            b.wf(),
            b@.data == Seq::<u8>::empty(),
            b@.capacity == capacity as nat,
            b@.mode == BufferMode::Fill,
    {
        Buffer { data: Vec::new(), capacity, mode: BufferMode::Fill }
    }

    pub fn len(&self) -> (r: usize)
        ensures
            r == self@.data.len(),
    {
        self.data.len()
    }

    pub fn is_empty(&self) -> (r: bool)
        ensures
            r == (self@.data.len() == 0),
    {
        self.data.len() == 0
    }

    pub fn is_full(&self) -> (r: bool)
        requires
            self.wf(),
        ensures
            r == (self@.data.len() == self@.capacity),
    {
        self.data.len() == self.capacity
    }

    /// Room left for filling.
    pub fn available(&self) -> (r: usize)
        requires
            self.wf(),
        ensures
            r == self@.capacity - self@.data.len(),
    {
        self.capacity - self.data.len()
    }

    pub fn mode(&self) -> (r: BufferMode)
        ensures
            r == self@.mode,
    {
        self.mode
    }

    /// The bytes currently held, oldest first.
    pub fn pending(&self) -> (r: &Vec<u8>)
        ensures
            r@ == self@.data,
    {
        &self.data
    }

    /// Appends freshly read bytes; only a filling buffer accepts them.
    pub fn fill(&mut self, bytes: &[u8])
        requires
            old(self).wf(),
            old(self)@.mode == BufferMode::Fill,
            old(self)@.data.len() + bytes@.len() <= old(self)@.capacity,
        ensures
            final(self).wf(),
            final(self)@.data == old(self)@.data + bytes@,
            final(self)@.capacity == old(self)@.capacity,
            final(self)@.mode == BufferMode::Fill,
    {
        let mut i: usize = 0;
        while i < bytes.len()
            invariant
                0 <= i <= bytes@.len(),
                self.data@ == old(self).data@ + bytes@.take(i as int),
                self.capacity == old(self).capacity,
                self.mode == old(self).mode,
            decreases bytes@.len() - i,
        {
            self.data.push(bytes[i]);
            proof {
                assert(self.data@ =~= old(self).data@ + bytes@.take(i as int + 1));
            }
            i = i + 1;
        }
        proof {
            assert(self.data@ =~= old(self).data@ + bytes@);
        }
    }

    /// A buffer flips to drain only when it holds unwritten bytes.
    pub fn flip_to_drain(&mut self)
        requires
            old(self)@.mode == BufferMode::Fill,
            old(self)@.data.len() > 0,
        ensures
            final(self)@.data == old(self)@.data,
            final(self)@.capacity == old(self)@.capacity,
            final(self)@.mode == BufferMode::Drain,
    {
        self.mode = BufferMode::Drain;
    }

    /// A buffer flips back to fill only once fully drained.
    pub fn flip_to_fill(&mut self)
        requires
            old(self)@.mode == BufferMode::Drain,
            old(self)@.data.len() == 0,
        ensures
            final(self)@.data == old(self)@.data,
            final(self)@.capacity == old(self)@.capacity,
            final(self)@.mode == BufferMode::Fill,
    {
        self.mode = BufferMode::Fill;
    }

    /// Drops the `n` oldest bytes, after the caller wrote them out.
    pub fn consume(&mut self, n: usize)
        requires
            old(self).wf(),
            old(self)@.mode == BufferMode::Drain,
            n <= old(self)@.data.len(),
        ensures
            final(self).wf(),
            final(self)@.data == old(self)@.data.skip(n as int),
            final(self)@.capacity == old(self)@.capacity,
            final(self)@.mode == BufferMode::Drain,
    {
        let mut rest: Vec<u8> = Vec::new();
        let mut i: usize = n;
        while i < self.data.len()
            invariant
                n <= i <= self.data@.len(),
                self.data@ == old(self).data@,
                rest@ == self.data@.subrange(n as int, i as int),
            decreases self.data@.len() - i,
        {
            let b = self.data[i];
            rest.push(b);
            proof {
                assert(rest@ =~= self.data@.subrange(n as int, i as int + 1));
            }
            i = i + 1;
        }
        proof {
            assert(rest@ =~= self.data@.skip(n as int));
        }
        self.data = rest;
    }
}

} // verus!
