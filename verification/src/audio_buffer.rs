//! Bounded FIFO of capture samples covering the model-swap window: thirty
//! seconds at 16 kHz. On overflow the oldest samples are evicted; overflow
//! is a normal condition, not an error. Samples are the raw 32-bit
//! patterns of the capture floats.

use vstd::prelude::*;
use std::collections::VecDeque;

verus! {

broadcast use vstd::std_specs::vecdeque::axiom_spec_len;

/// 30 s of audio at 16 kHz.
pub const AUDIO_BUFFER_CAPACITY: usize = 480000;

/// The buffer after pushing `data`: the concatenation, keeping only the
/// newest `cap` samples.
pub open spec fn fifo_push(buf: Seq<u32>, data: Seq<u32>, cap: int) -> Seq<u32> {
    if buf.len() + data.len() <= cap {
        buf + data
    } else {
        (buf + data).skip(buf.len() + data.len() - cap)
    }
}

pub struct CircularAudioBuffer {
    buffer: VecDeque<u32>,
    capacity: usize,
}

impl CircularAudioBuffer {
    /// The buffered samples, oldest first.
    pub closed spec fn contents(&self) -> Seq<u32> {
        self.buffer@
    }

    pub closed spec fn cap(&self) -> int {
        self.capacity as int
    }

    /// The buffer never holds more than its capacity, which is positive.
    pub open spec fn wf(&self) -> bool {
        self.contents().len() <= self.cap() && self.cap() >= 1
    }

    pub fn new() -> (r: Self)
        ensures
            r.contents() == Seq::<u32>::empty(),
            r.cap() == AUDIO_BUFFER_CAPACITY as int,
            r.wf(),
    {
        CircularAudioBuffer { buffer: VecDeque::new(), capacity: AUDIO_BUFFER_CAPACITY }
    }

    /// Append `data`, evicting oldest samples as needed so the length never
    /// exceeds the capacity.
    pub fn push(&mut self, data: &[u32])
        requires
            old(self).wf(),
        ensures
            final(self).contents() == fifo_push(old(self).contents(), data@, old(self).cap()),
            final(self).cap() == old(self).cap(),
            final(self).wf(),
    {
        let len = data.len();
        let mut i: usize = 0;
        while i < len
            invariant
                len == data@.len(),
                0 <= i <= len,
                self.capacity == old(self).capacity,
                self.buffer@ == fifo_push(old(self).contents(), data@.take(i as int), self.cap()),
                self.buffer@.len() <= self.cap(),
                self.cap() >= 1,
            decreases len - i,
        {
            let ghost cur = self.buffer@;
            let ghost oldc = old(self).contents();
            let ghost cap = self.cap();
            if self.buffer.len() == self.capacity {
                self.buffer.pop_front();
            }
            self.buffer.push_back(data[i]);
            proof {
                let d = data@[i as int];
                assert(data@.take(i + 1) =~= data@.take(i as int).push(d));
                if oldc.len() + i < cap {
                    assert(fifo_push(oldc, data@.take(i as int), cap) =~= oldc + data@.take(
                        i as int,
                    ));
                    assert(cur.push(d) =~= fifo_push(oldc, data@.take(i + 1), cap));
                } else {
                    let m = oldc.len() + i - cap;
                    assert(cur == (oldc + data@.take(i as int)).skip(m));
                    assert(cur.len() == cap);
                    assert(cur.subrange(1, cur.len() as int).push(d) =~= (oldc + data@.take(i + 1)).skip(
                        m + 1,
                    ));
                }
            }
            i += 1;
        }
        proof {
            assert(data@.take(len as int) =~= data@);
        }
    }

    /// Drain all samples and return them in FIFO order.
    pub fn read_all(&mut self) -> (r: Vec<u32>)
        requires
            old(self).wf(),
        ensures
            r@ == old(self).contents(),
            final(self).contents() == Seq::<u32>::empty(),
            final(self).cap() == old(self).cap(),
            final(self).wf(),
    {
        let mut r: Vec<u32> = Vec::new();
        while self.buffer.len() > 0
            invariant
                self.capacity == old(self).capacity,
                old(self).contents() == r@ + self.buffer@,
            decreases self.buffer@.len(),
        {
            match self.buffer.pop_front() {
                Some(x) => {
                    r.push(x);
                    proof {
                        assert(old(self).contents() =~= r@ + self.buffer@);
                    }
                },
                None => {
                    proof {
                        assert(false);
                    }
                },
            }
        }
        proof {
            assert(old(self).contents() =~= r@);
        }
        r
    }

    pub fn is_empty(&self) -> (r: bool)
        ensures
            r == (self.contents().len() == 0),
    {
        self.buffer.len() == 0
    }

    /// Number of buffered samples.
    pub fn len(&self) -> (r: usize)
        ensures
            r == self.contents().len(),
    {
        self.buffer.len()
    }

    pub fn clear(&mut self)
        requires
            old(self).wf(),
        ensures
            final(self).contents() == Seq::<u32>::empty(),
            final(self).cap() == old(self).cap(),
            final(self).wf(),
    {
        self.buffer.clear();
    }
}

} // verus!
