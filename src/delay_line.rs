//! A fixed-length delay line: a ring buffer of the last samples written.
use vstd::prelude::*;

verus! {

/// Where the `k`-th oldest sample sits in a ring of length `n` whose oldest
/// sample is at `head`.
pub open spec fn ring_index(head: int, k: int, n: int) -> int {
    if head + k < n {
        head + k
    } else {
        head + k - n
    }
}

/// The position, oldest first, that a read with `delay` looks at in a line of
/// length `n`: the sample written `delay` writes ago (the latest write counts
/// as one ago), with `delay` capped at `n - 1`; a delay of 0 reads the oldest
/// sample held.
pub open spec fn read_position(n: nat, delay: nat) -> int {
    let d = if delay < n { delay as int } else { n - 1 };
    if d == 0 {
        0
    } else {
        n - d
    }
}

/// The last samples written to a line, oldest first.
pub struct DelayLine<T> {
    buffer: Vec<T>,
    write_pos: usize,
}

impl<T> View for DelayLine<T> {
    type V = Seq<T>;

    closed spec fn view(&self) -> Seq<T> {
        Seq::new(
            self.buffer@.len(),
            |k: int| self.buffer@[ring_index(self.write_pos as int, k, self.buffer@.len() as int)],
        )
    }
}

impl<T> DelayLine<T> {
    /// The ring holds at least one sample and its write position lies inside it.
    pub closed spec fn wf(&self) -> bool {
        &&& self.buffer@.len() >= 1
        &&& self.write_pos < self.buffer@.len()
    }
}

impl<T: Copy> DelayLine<T> {
    /// A line holding `length` samples, all `silence`.
    pub fn new(length: usize, silence: T) -> (r: DelayLine<T>)
        requires
            length >= 1,
        ensures
            r@ == Seq::new(length as nat, |k: int| silence),
            r.wf(),
    {
        let mut buffer: Vec<T> = Vec::new();
        let mut i: usize = 0;
        while i < length
            invariant
                i <= length,
                buffer@.len() == i,
                forall|j: int| 0 <= j < i ==> (#[trigger] buffer@[j]) == silence,
            decreases length - i,
        {
            buffer.push(silence);
            i = i + 1;
        }
        let r = DelayLine { buffer, write_pos: 0 };
        assert(r@ =~= Seq::new(length as nat, |k: int| silence));
        r
    }

    /// How many samples the line holds.
    pub fn len(&self) -> (r: usize)
        requires
            self.wf(),
        ensures
            r == self@.len(),
            r >= 1,
    {
        self.buffer.len()
    }

    /// Writes one sample; the oldest one leaves the line.
    pub fn write(&mut self, input: T)
        requires
            old(self).wf(),
        ensures
            final(self)@ == old(self)@.drop_first().push(input),
            final(self).wf(),
    {
        let ghost before = self@;
        let pos = self.write_pos;
        self.buffer.set(pos, input);
        let n = self.buffer.len();
        self.write_pos = if pos + 1 == n {
            0
        } else {
            pos + 1
        };
        assert(self@ =~= before.drop_first().push(input));
    }

    /// The sample at [`read_position`] for `delay`.
    pub fn read(&self, delay: usize) -> (r: T)
        requires
            self.wf(),
        ensures
            r == self@[read_position(self@.len(), delay as nat)],
    {
        let n = self.buffer.len();
        let d = if delay < n {
            delay
        } else {
            n - 1
        };
        let pos = if self.write_pos >= d {
            self.write_pos - d
        } else {
            n - d + self.write_pos
        };
        self.buffer[pos]
    }
}

} // verus!
