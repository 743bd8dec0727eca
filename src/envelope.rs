//! The ADSR amplitude envelope.
//!
//! Times are sample counts measured from the note's start; levels are
//! fixed-point fractions of [`LEVEL_ONE`].
use vstd::prelude::*;
use vstd::arithmetic::div_mod::{lemma_div_is_ordered, lemma_div_multiples_vanish};
use vstd::arithmetic::mul::lemma_mul_inequality;

verus! {

/// Full scale of an envelope level: a level `l` stands for the amplitude `l / LEVEL_ONE`.
pub const LEVEL_ONE: u32 = 1_000_000;

/// The attack, decay and sustain curve at time `t`, before any release:
/// a linear ramp from 0 to full scale over `attack`, a linear fall from full
/// scale to `sustain` over `decay`, then `sustain` held indefinitely.
pub open spec fn curve(attack: nat, decay: nat, sustain: nat, t: nat) -> nat {
    if t < attack {
        (t * LEVEL_ONE / (attack as int)) as nat
    } else if t < attack + decay {
        (LEVEL_ONE - (LEVEL_ONE - sustain) * (t - attack) / (decay as int)) as nat
    } else {
        sustain
    }
}

/// The release ramp `elapsed` samples after release began: a linear fall from
/// `snapshot` to 0 over `release`, and 0 from then on.
pub open spec fn release_curve(snapshot: nat, release: nat, elapsed: nat) -> nat {
    if elapsed >= release {
        0
    } else {
        (snapshot * (release - elapsed) / (release as int)) as nat
    }
}

/// What an envelope is, as numbers.
pub struct EnvelopeModel {
    pub attack: nat,
    pub decay: nat,
    pub sustain: nat,
    pub release: nat,
    pub start_time: nat,
    /// When release began, relative to the start; `None` while the note is held.
    pub release_time: Option<nat>,
    /// The level at the moment release began.
    pub snapshot: nat,
}

impl EnvelopeModel {
    /// The level `t` samples after the start.
    pub open spec fn level_at(self, t: nat) -> nat {
        match self.release_time {
            Some(tr) => if t >= tr {
                release_curve(self.snapshot, self.release, (t - tr) as nat)
            } else {
                curve(self.attack, self.decay, self.sustain, t)
            },
            None => curve(self.attack, self.decay, self.sustain, t),
        }
    }

    /// The envelope after a release at `t`: the first release records `t` and
    /// the level of the held curve there; later ones change nothing.
    pub open spec fn stopped(self, t: nat) -> EnvelopeModel {
        if self.release_time is None {
            EnvelopeModel {
                release_time: Some(t),
                snapshot: curve(self.attack, self.decay, self.sustain, t),
                ..self
            }
        } else {
            self
        }
    }

    pub open spec fn is_released(self) -> bool {
        self.release_time is Some
    }
}

/// The level a parameter update stores: clamped to full scale.
pub open spec fn clamp_level(level: nat) -> nat {
    if level > LEVEL_ONE { LEVEL_ONE as nat } else { level }
}

/// `x * n / d <= x` for a fraction `n / d` of at most one.
proof fn lemma_fraction_at_most(x: int, n: int, d: int)
    requires
        0 <= x,
        0 <= n <= d,
        0 < d,
    ensures
        x * n / d <= x,
        0 <= x * n / d,
{
    lemma_mul_inequality(n, d, x);
    assert(n * x == x * n && d * x == x * d) by (nonlinear_arith);
    lemma_div_is_ordered(x * n, x * d, d);
    lemma_div_multiples_vanish(x, d);
    assert(d * x == x * d) by (nonlinear_arith);
    assert(0 <= x * n) by (nonlinear_arith)
        requires 0 <= x, 0 <= n;
    lemma_div_is_ordered(0, x * n, d);
}

/// Releasing is click-free: at the moment of release the level is the one the
/// held curve had there, whichever phase the note was in. (A release of length
/// 0 cuts the note at once instead.)
pub proof fn lemma_release_is_continuous(e: EnvelopeModel, t: nat)
    requires
        e.release_time is None,
        e.release > 0,
    ensures
        e.stopped(t).level_at(t) == e.level_at(t),
{
    let snapshot = curve(e.attack, e.decay, e.sustain, t);
    lemma_div_multiples_vanish(snapshot as int, e.release as int);
    assert(snapshot * e.release == e.release * snapshot) by (nonlinear_arith);
}

/// Once released, the level never rises, and it is 0 from `release` samples
/// after the release on.
pub proof fn lemma_release_falls(e: EnvelopeModel, t1: nat, t2: nat)
    requires
        e.release_time is Some,
        e.release_time->0 <= t1 <= t2,
    ensures
        e.level_at(t2) <= e.level_at(t1),
        t2 >= e.release_time->0 + e.release ==> e.level_at(t2) == 0,
{
    let tr = e.release_time->0;
    let (e1, e2) = ((t1 - tr) as nat, (t2 - tr) as nat);
    if e2 < e.release {
        lemma_mul_inequality((e.release - e2) as int, (e.release - e1) as int, e.snapshot as int);
        assert((e.release - e2) * e.snapshot == e.snapshot * (e.release - e2)) by (nonlinear_arith);
        assert((e.release - e1) * e.snapshot == e.snapshot * (e.release - e1)) by (nonlinear_arith);
        lemma_div_is_ordered(
            e.snapshot * (e.release - e2),
            e.snapshot * (e.release - e1),
            e.release as int,
        );
    }
}

/// An attack-decay-sustain-release envelope.
#[derive(Clone, Copy, Debug)]
pub struct ADSR {
    attack: u64,
    decay: u64,
    sustain: u32,
    release: u64,
    start_time: u64,
    release_time: Option<u64>,
    current_value: u32,
}

impl View for ADSR {
    type V = EnvelopeModel;

    closed spec fn view(&self) -> EnvelopeModel {
        EnvelopeModel {
            attack: self.attack as nat,
            decay: self.decay as nat,
            sustain: self.sustain as nat,
            release: self.release as nat,
            start_time: self.start_time as nat,
            release_time: match self.release_time {
                Some(t) => Some(t as nat),
                None => None,
            },
            snapshot: self.current_value as nat,
        }
    }
}

impl ADSR {
    #[verifier::type_invariant]
    spec fn levels_in_range(self) -> bool {
        &&& self.sustain <= LEVEL_ONE
        &&& self.current_value <= LEVEL_ONE
    }

    /// An envelope with the given phase lengths (in samples) and sustain level;
    /// the sustain level is clamped to full scale.
    pub fn new(attack: u64, decay: u64, sustain: u32, release: u64) -> (r: ADSR)
        ensures
            r@ == (EnvelopeModel {
                attack: attack as nat,
                decay: decay as nat,
                sustain: clamp_level(sustain as nat),
                release: release as nat,
                start_time: 0,
                release_time: None,
                snapshot: 0,
            }),
    {
        let sustain = if sustain > LEVEL_ONE { LEVEL_ONE } else { sustain };
        ADSR {
            attack,
            decay,
            sustain,
            release,
            start_time: 0,
            release_time: None,
            current_value: 0,
        }
    }

    /// Begins a new cycle: records the start and forgets any release.
    pub fn start(&mut self, start_time: u64)
        ensures
            final(self)@ == (EnvelopeModel {
                start_time: start_time as nat,
                release_time: None,
                snapshot: 0,
                ..old(self)@
            }),
    {
        proof {
            use_type_invariant(&*self);
        }
        self.start_time = start_time;
        self.release_time = None;
        self.current_value = 0;
    }

    /// Begins the release at `t` (relative to the start). Only the first call
    /// of a cycle has an effect.
    pub fn stop(&mut self, t: u64)
        ensures
            final(self)@ == old(self)@.stopped(t as nat),
    {
        proof {
            use_type_invariant(&*self);
        }
        if self.release_time.is_none() {
            let level = self.held_value(t);
            self.release_time = Some(t);
            self.current_value = level;
        }
    }

    /// The level `t` samples after the start.
    pub fn value(&self, t: u64) -> (r: u32)
        ensures
            r == self@.level_at(t as nat),
            r <= LEVEL_ONE,
    {
        proof {
            use_type_invariant(self);
        }
        match self.release_time {
            Some(tr) => {
                if t >= tr {
                    self.release_value(t - tr)
                } else {
                    self.held_value(t)
                }
            },
            None => self.held_value(t),
        }
    }

    /// The held curve (attack, decay, sustain) at `t`.
    fn held_value(&self, t: u64) -> (r: u32)
        ensures
            r == curve(self.attack as nat, self.decay as nat, self.sustain as nat, t as nat),
            r <= LEVEL_ONE,
    {
        proof {
            use_type_invariant(self);
        }
        if t < self.attack {
            proof {
                lemma_fraction_at_most(LEVEL_ONE as int, t as int, self.attack as int);
                assert(t * LEVEL_ONE == LEVEL_ONE * t) by (nonlinear_arith);
            }
            ((t as u128 * LEVEL_ONE as u128) / self.attack as u128) as u32
        } else if t - self.attack < self.decay {
            let span = (LEVEL_ONE - self.sustain) as u128;
            let into = (t - self.attack) as u128;
            proof {
                lemma_fraction_at_most(span as int, into as int, self.decay as int);
                assert(span * into <= LEVEL_ONE * 0x1_0000_0000_0000_0000) by (nonlinear_arith)
                    requires span <= LEVEL_ONE, into < 0x1_0000_0000_0000_0000;
            }
            let fall = (span * into) / self.decay as u128;
            (LEVEL_ONE as u128 - fall) as u32
        } else {
            self.sustain
        }
    }

    /// The release ramp `elapsed` samples after release began.
    fn release_value(&self, elapsed: u64) -> (r: u32)
        ensures
            r == release_curve(self.current_value as nat, self.release as nat, elapsed as nat),
            r <= LEVEL_ONE,
    {
        proof {
            use_type_invariant(self);
        }
        if elapsed >= self.release {
            0
        } else {
            let left = (self.release - elapsed) as u128;
            proof {
                lemma_fraction_at_most(self.current_value as int, left as int, self.release as int);
                assert(self.current_value * left <= LEVEL_ONE * 0x1_0000_0000_0000_0000)
                    by (nonlinear_arith)
                    requires self.current_value <= LEVEL_ONE, left < 0x1_0000_0000_0000_0000;
            }
            ((self.current_value as u128 * left) / self.release as u128) as u32
        }
    }

    /// Sets the attack length; takes effect at the next reading.
    pub fn update_attack(&mut self, attack: u64)
        ensures
            final(self)@ == (EnvelopeModel { attack: attack as nat, ..old(self)@ }),
    {
        proof {
            use_type_invariant(&*self);
        }
        self.attack = attack;
    }

    /// Sets the decay length; takes effect at the next reading.
    pub fn update_decay(&mut self, decay: u64)
        ensures
            final(self)@ == (EnvelopeModel { decay: decay as nat, ..old(self)@ }),
    {
        proof {
            use_type_invariant(&*self);
        }
        self.decay = decay;
    }

    /// Sets the sustain level, clamped to full scale; takes effect at the next reading.
    pub fn update_sustain(&mut self, sustain: u32)
        ensures
            final(self)@ == (EnvelopeModel { sustain: clamp_level(sustain as nat), ..old(self)@ }),
    {
        proof {
            use_type_invariant(&*self);
        }
        self.sustain = if sustain > LEVEL_ONE { LEVEL_ONE } else { sustain };
    }

    /// Sets the release length; takes effect at the next reading.
    pub fn update_release(&mut self, release: u64)
        ensures
            final(self)@ == (EnvelopeModel { release: release as nat, ..old(self)@ }),
    {
        proof {
            use_type_invariant(&*self);
        }
        self.release = release;
    }
}

} // verus!
