//! A decimated record of the output for display: every `decimation`-th sample
//! is kept, and only the latest `capacity` of those.
use vstd::prelude::*;
use std::collections::VecDeque;

verus! {

/// What a waveform buffer is, as numbers.
pub struct WaveformModel<T> {
    /// The kept samples, oldest first.
    pub samples: Seq<T>,
    pub capacity: nat,
    pub decimation: nat,
    /// Samples seen since the last one kept.
    pub counter: nat,
}

/// `samples` with `x` appended, the oldest dropped if that would exceed `capacity`.
pub open spec fn append_bounded<T>(samples: Seq<T>, x: T, capacity: nat) -> Seq<T> {
    if samples.len() >= capacity {
        samples.drop_first().push(x)
    } else {
        samples.push(x)
    }
}

impl<T> WaveformModel<T> {
    pub open spec fn wf(self) -> bool {
        &&& self.capacity >= 1
        &&& self.decimation >= 1
        &&& self.samples.len() <= self.capacity
        &&& self.counter < self.decimation
    }

    /// The buffer after one more output sample `x`.
    pub open spec fn pushed(self, x: T) -> WaveformModel<T> {
        if self.counter + 1 == self.decimation {
            WaveformModel {
                samples: append_bounded(self.samples, x, self.capacity),
                counter: 0,
                ..self
            }
        } else {
            WaveformModel { counter: self.counter + 1, ..self }
        }
    }
}

/// The latest decimated output samples.
pub struct WaveformBuffer<T> {
    samples: VecDeque<T>,
    capacity: usize,
    decimation: usize,
    counter: usize,
}

impl<T> View for WaveformBuffer<T> {
    type V = WaveformModel<T>;

    closed spec fn view(&self) -> WaveformModel<T> {
        WaveformModel {
            samples: self.samples@,
            capacity: self.capacity as nat,
            decimation: self.decimation as nat,
            counter: self.counter as nat,
        }
    }
}

impl<T: Copy> WaveformBuffer<T> {
    /// An empty buffer keeping the latest `capacity` of every `decimation`-th sample.
    pub fn new(capacity: usize, decimation: usize) -> (r: WaveformBuffer<T>)
        requires
            capacity >= 1,
            decimation >= 1,
        ensures
            r@ == (WaveformModel::<T> {
                samples: Seq::empty(),
                capacity: capacity as nat,
                decimation: decimation as nat,
                counter: 0,
            }),
            r@.wf(),
    {
        WaveformBuffer { samples: VecDeque::new(), capacity, decimation, counter: 0 }
    }

    /// Counts one output sample and keeps it if it is a `decimation`-th one.
    pub fn push(&mut self, x: T)
        requires
            old(self)@.wf(),
        ensures
            final(self)@ == old(self)@.pushed(x),
            final(self)@.wf(),
    {
        if self.counter + 1 == self.decimation {
            self.counter = 0;
            if self.samples.len() >= self.capacity {
                self.samples.pop_front();
            }
            self.samples.push_back(x);
            assert(self.samples@ =~= append_bounded(old(self)@.samples, x, old(self)@.capacity));
        } else {
            self.counter = self.counter + 1;
        }
    }

    /// Number of samples kept.
    pub fn len(&self) -> (r: usize)
        ensures
            r == self@.samples.len(),
    {
        self.samples.len()
    }

    /// A copy of the kept samples, oldest first.
    pub fn snapshot(&self) -> (r: VecDeque<T>)
        ensures
            r@ == self@.samples,
    {
        let mut out: VecDeque<T> = VecDeque::new();
        let mut i: usize = 0;
        while i < self.samples.len()
            invariant
                i <= self.samples@.len(),
                out@ == self.samples@.subrange(0, i as int),
            decreases self.samples@.len() - i,
        {
            out.push_back(self.samples[i]);
            i = i + 1;
            assert(out@ =~= self.samples@.subrange(0, i as int));
        }
        assert(self.samples@.subrange(0, i as int) =~= self.samples@);
        out
    }
}

} // verus!
