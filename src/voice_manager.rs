//! Polyphonic voice management: a fixed arena of voice slots, a sample clock,
//! allocation and stealing on note-on, release on note-off, and retirement of
//! voices that have fallen silent.
use vstd::prelude::*;
use crate::voice::{Voice, VoiceModel, EnvelopeSettings, level_of};

verus! {

/// A slot's content as numbers.
pub open spec fn slot_view(o: Option<Voice>) -> Option<VoiceModel> {
    match o {
        Some(v) => Some(v@),
        None => None,
    }
}

/// Number of occupied slots.
pub open spec fn voice_count(slots: Seq<Option<VoiceModel>>) -> nat
    decreases slots.len(),
{
    if slots.len() == 0 {
        0
    } else {
        voice_count(slots.drop_last()) + if slots.last() is Some {
            1nat
        } else {
            0nat
        }
    }
}

/// Whether voice `a` in slot `i` is stolen before voice `b` in slot `j`:
/// released voices before held ones, then the earlier start, then the lower
/// key, then the lower slot.
pub open spec fn steals_before(a: VoiceModel, i: int, b: VoiceModel, j: int) -> bool {
    if a.released != b.released {
        a.released
    } else if a.start_time != b.start_time {
        a.start_time < b.start_time
    } else if a.key != b.key {
        a.key < b.key
    } else {
        i < j
    }
}

/// Whether slot `i` holds the voice that is stolen first.
pub open spec fn is_victim(slots: Seq<Option<VoiceModel>>, i: int) -> bool {
    &&& 0 <= i < slots.len()
    &&& slots[i] is Some
    &&& forall|j: int|
        0 <= j < slots.len() && j != i && (#[trigger] slots[j]) is Some ==> steals_before(
            slots[i]->0,
            i,
            slots[j]->0,
            j,
        )
}

/// The slot whose voice is stolen first.
pub open spec fn victim(slots: Seq<Option<VoiceModel>>) -> int {
    choose|i: int| is_victim(slots, i)
}

pub open spec fn has_free(slots: Seq<Option<VoiceModel>>) -> bool {
    exists|i: int| 0 <= i < slots.len() && (#[trigger] slots[i]) is None
}

/// Whether slot `i` is the lowest free slot.
pub open spec fn is_first_free(slots: Seq<Option<VoiceModel>>, i: int) -> bool {
    &&& 0 <= i < slots.len()
    &&& slots[i] is None
    &&& forall|j: int| 0 <= j < i ==> (#[trigger] slots[j]) is Some
}

pub open spec fn first_free(slots: Seq<Option<VoiceModel>>) -> int {
    choose|i: int| is_first_free(slots, i)
}

/// Every voice of `key` released at `now`.
pub open spec fn release_key(slots: Seq<Option<VoiceModel>>, key: u8, now: nat) -> Seq<Option<VoiceModel>> {
    Seq::new(
        slots.len(),
        |i: int|
            match slots[i] {
                Some(v) => if v.key == key {
                    Some(v.note_off(now))
                } else {
                    Some(v)
                },
                None => None,
            },
    )
}

/// The slots with every retired voice removed.
pub open spec fn prune(slots: Seq<Option<VoiceModel>>) -> Seq<Option<VoiceModel>> {
    Seq::new(
        slots.len(),
        |i: int|
            match slots[i] {
                Some(v) => if v.active {
                    Some(v)
                } else {
                    None
                },
                None => None,
            },
    )
}

/// The clock after one sample; it stops at the largest count it can hold.
pub open spec fn next_tick(now: nat) -> nat {
    if now < u64::MAX {
        now + 1
    } else {
        now
    }
}

/// A voice as the manager keeps it at time `now`.
pub open spec fn voice_wf(v: VoiceModel, now: nat) -> bool {
    &&& v.start_time <= now
    &&& v.released == v.envelope.is_released()
    &&& !v.active ==> v.released
}

/// What a voice manager is, as numbers.
pub struct ManagerModel {
    pub slots: Seq<Option<VoiceModel>>,
    /// The envelope parameters new voices are made with.
    pub settings: EnvelopeSettings,
    /// The sample clock.
    pub now: nat,
}

impl ManagerModel {
    /// At least one slot; every voice well formed; at most one held voice per key.
    pub open spec fn wf(self) -> bool {
        &&& self.slots.len() >= 1
        &&& self.now <= u64::MAX
        &&& forall|i: int|
            0 <= i < self.slots.len() && (#[trigger] self.slots[i]) is Some ==> voice_wf(
                self.slots[i]->0,
                self.now,
            )
        &&& forall|i: int, j: int|
            0 <= i < self.slots.len() && 0 <= j < self.slots.len() && i != j && (#[trigger] self.slots[i]) is Some
                && (#[trigger] self.slots[j]) is Some && !self.slots[i]->0.released
                && !self.slots[j]->0.released ==> self.slots[i]->0.key != self.slots[j]->0.key
    }

    pub open spec fn max_voices(self) -> nat {
        self.slots.len()
    }

    /// The manager after a note-off for `key`.
    pub open spec fn note_off(self, key: u8) -> ManagerModel {
        ManagerModel { slots: release_key(self.slots, key, self.now), ..self }
    }

    /// The slot a note-on for `key` fills: the lowest free slot once the key's
    /// own voice is released, or else the slot of the voice stolen first.
    pub open spec fn note_on_slot(self, key: u8) -> int {
        let released = release_key(self.slots, key, self.now);
        if has_free(released) {
            first_free(released)
        } else {
            victim(released)
        }
    }

    /// The manager after a note-on for `key`.
    pub open spec fn note_on(self, key: u8, velocity: u8) -> ManagerModel {
        ManagerModel {
            slots: release_key(self.slots, key, self.now).update(
                self.note_on_slot(key),
                Some(VoiceModel::fresh(key, velocity, self.now, self.settings)),
            ),
            ..self
        }
    }

    /// The levels of one sample: retired voices are removed first, then each
    /// slot gives its voice's level, or `None`.
    pub open spec fn levels(self) -> Seq<Option<nat>> {
        let live = prune(self.slots);
        Seq::new(
            live.len(),
            |i: int|
                match live[i] {
                    Some(v) => v.output(self.now),
                    None => None,
                },
        )
    }

    /// The manager after one sample.
    pub open spec fn sounded(self) -> ManagerModel {
        let live = prune(self.slots);
        ManagerModel {
            slots: Seq::new(
                live.len(),
                |i: int|
                    match live[i] {
                        Some(v) => Some(v.after_output(self.now)),
                        None => None,
                    },
            ),
            now: next_tick(self.now),
            ..self
        }
    }

    /// The manager after a settings update: stored for new voices and applied
    /// to every voice.
    pub open spec fn with_settings(self, settings: EnvelopeSettings) -> ManagerModel {
        ManagerModel {
            slots: Seq::new(
                self.slots.len(),
                |i: int|
                    match self.slots[i] {
                        Some(v) => Some(v.with_settings(settings)),
                        None => None,
                    },
            ),
            settings,
            ..self
        }
    }
}

proof fn lemma_count_prefix(s: Seq<Option<VoiceModel>>, i: int)
    requires
        0 <= i < s.len(),
    ensures
        voice_count(s.subrange(0, i + 1)) == voice_count(s.subrange(0, i)) + if s[i] is Some {
            1nat
        } else {
            0nat
        },
{
    assert(s.subrange(0, i + 1).drop_last() =~= s.subrange(0, i));
}

/// Slots occupied alike hold as many voices.
proof fn lemma_count_same_shape(a: Seq<Option<VoiceModel>>, b: Seq<Option<VoiceModel>>)
    requires
        a.len() == b.len(),
        forall|i: int| 0 <= i < a.len() ==> ((#[trigger] a[i]) is Some <==> b[i] is Some),
    ensures
        voice_count(a) == voice_count(b),
    decreases a.len(),
{
    if a.len() > 0 {
        lemma_count_same_shape(a.drop_last(), b.drop_last());
    }
}

/// A full count means no free slot.
proof fn lemma_count_full(s: Seq<Option<VoiceModel>>)
    ensures
        voice_count(s) <= s.len(),
        voice_count(s) == s.len() ==> forall|i: int| 0 <= i < s.len() ==> (#[trigger] s[i]) is Some,
    decreases s.len(),
{
    if s.len() > 0 {
        lemma_count_full(s.drop_last());
        assert forall|i: int| 0 <= i < s.len() && voice_count(s) == s.len() implies (#[trigger] s[i]) is Some by {
            if i < s.len() - 1 {
                assert(s.drop_last()[i] == s[i]);
            }
        }
    }
}

/// Replacing one occupied slot by another voice keeps the count.
proof fn lemma_count_replace(s: Seq<Option<VoiceModel>>, i: int, v: VoiceModel)
    requires
        0 <= i < s.len(),
        s[i] is Some,
    ensures
        voice_count(s.update(i, Some(v))) == voice_count(s),
{
    lemma_count_same_shape(s.update(i, Some(v)), s);
}

proof fn lemma_victim_unique(s: Seq<Option<VoiceModel>>, a: int, b: int)
    requires
        is_victim(s, a),
        is_victim(s, b),
    ensures
        a == b,
{
    if a != b {
        assert(s[b] is Some);
        assert(s[a] is Some);
    }
}

/// A slot whose voice is stolen before every other is the one [`victim`] names.
pub proof fn lemma_victim_is(s: Seq<Option<VoiceModel>>, b: int)
    requires
        is_victim(s, b),
    ensures
        victim(s) == b,
{
    lemma_victim_unique(s, victim(s), b);
}

/// The lowest free slot is the one [`first_free`] names.
pub proof fn lemma_first_free_is(s: Seq<Option<VoiceModel>>, b: int)
    requires
        is_first_free(s, b),
    ensures
        first_free(s) == b,
{
    let c = first_free(s);
    if c < b {
        assert(s[c] is Some);
    } else if b < c {
        assert(s[b] is Some);
    }
}

/// Among the first `n` slots, all occupied, some voice is stolen before every other.
proof fn lemma_best_in_prefix(s: Seq<Option<VoiceModel>>, n: int) -> (b: int)
    requires
        1 <= n <= s.len(),
        forall|i: int| 0 <= i < s.len() ==> (#[trigger] s[i]) is Some,
    ensures
        0 <= b < n,
        forall|j: int| 0 <= j < n && j != b ==> steals_before(s[b]->0, b, (#[trigger] s[j])->0, j),
    decreases n,
{
    if n == 1 {
        0
    } else {
        let c = lemma_best_in_prefix(s, n - 1);
        let k = n - 1;
        assert(s[k] is Some && s[c] is Some);
        if steals_before(s[k]->0, k, s[c]->0, c) {
            assert forall|j: int| 0 <= j < n && j != k implies steals_before(s[k]->0, k, (#[trigger] s[j])->0, j) by {
                if j != c {
                    assert(steals_before(s[c]->0, c, s[j]->0, j));
                }
            }
            k
        } else {
            c
        }
    }
}

/// With every slot occupied, the voice stolen first exists.
proof fn lemma_victim_exists(s: Seq<Option<VoiceModel>>)
    requires
        s.len() >= 1,
        forall|i: int| 0 <= i < s.len() ==> (#[trigger] s[i]) is Some,
    ensures
        is_victim(s, victim(s)),
{
    let b = lemma_best_in_prefix(s, s.len() as int);
    assert(is_victim(s, b));
}

/// Voice stealing. A note-on into a manager whose every slot is taken evicts
/// exactly one voice, once the note's own key has been released: its slot
/// takes the new voice, every other slot is kept, and the number of voices
/// stays the same. The evicted voice is a released one whenever any voice is
/// released, and it started no later than any other voice of its kind
/// (released or held).
pub proof fn lemma_stealing(m: ManagerModel, key: u8, velocity: u8)
    requires
        m.wf(),
        voice_count(m.slots) == m.max_voices(),
    ensures
        ({
            let released = release_key(m.slots, key, m.now);
            let r = m.note_on_slot(key);
            let after = m.note_on(key, velocity);
            &&& 0 <= r < m.max_voices()
            &&& released[r] is Some
            &&& after.slots[r] == Some(VoiceModel::fresh(key, velocity, m.now, m.settings))
            &&& forall|j: int| 0 <= j < m.max_voices() && j != r ==> after.slots[j] == released[j]
            &&& voice_count(after.slots) == voice_count(m.slots)
            &&& (exists|j: int| 0 <= j < m.max_voices() && (#[trigger] released[j]) is Some && released[j]->0.released)
                ==> released[r]->0.released
            &&& forall|j: int|
                0 <= j < m.max_voices() && (#[trigger] released[j]) is Some && released[j]->0.released
                    == released[r]->0.released ==> released[r]->0.start_time <= released[j]->0.start_time
        }),
{
    let released = release_key(m.slots, key, m.now);
    lemma_count_full(m.slots);
    assert forall|i: int| 0 <= i < released.len() implies (#[trigger] released[i]) is Some by {
        assert(m.slots[i] is Some);
    }
    assert(!has_free(released));
    lemma_victim_exists(released);
    let r = victim(released);
    assert(m.note_on_slot(key) == r);
    lemma_count_same_shape(released, m.slots);
    lemma_count_replace(released, r, VoiceModel::fresh(key, velocity, m.now, m.settings));
    assert forall|j: int| 0 <= j < m.max_voices() && (#[trigger] released[j]) is Some && released[j]->0.released
        implies released[r]->0.released by {
        if j != r {
            assert(steals_before(released[r]->0, r, released[j]->0, j));
        }
    }
    assert forall|j: int|
        0 <= j < m.max_voices() && (#[trigger] released[j]) is Some && released[j]->0.released
            == released[r]->0.released implies released[r]->0.start_time <= released[j]->0.start_time by {
        if j != r {
            assert(steals_before(released[r]->0, r, released[j]->0, j));
        }
    }
}

/// A second note-off for a key changes nothing: it leaves the manager as the
/// first one left it, envelopes included.
pub proof fn lemma_note_off_idempotent(m: ManagerModel, key: u8)
    ensures
        m.note_off(key).note_off(key) == m.note_off(key),
{
    assert(m.note_off(key).note_off(key).slots =~= m.note_off(key).slots);
}

/// A settings update keeps every voice where it is, with its key (hence its
/// pitch), velocity, start, release state and phase; only the envelope
/// parameters change.
pub proof fn lemma_settings_keep_voices(m: ManagerModel, settings: EnvelopeSettings)
    ensures
        ({
            let after = m.with_settings(settings);
            &&& after.slots.len() == m.slots.len()
            &&& after.now == m.now
            &&& forall|i: int| 0 <= i < m.slots.len() ==> ((#[trigger] after.slots[i]) is Some <==> m.slots[i] is Some)
            &&& forall|i: int|
                0 <= i < m.slots.len() && (#[trigger] m.slots[i]) is Some ==> {
                    let (a, b) = (after.slots[i]->0, m.slots[i]->0);
                    &&& a.key == b.key
                    &&& a.velocity == b.velocity
                    &&& a.start_time == b.start_time
                    &&& a.active == b.active
                    &&& a.released == b.released
                    &&& a.envelope.release_time == b.envelope.release_time
                    &&& a.envelope.snapshot == b.envelope.snapshot
                }
        }),
{
}

/// One sample moves voices forward in their lifecycle only: a retired voice is
/// removed, and every voice that stays keeps its key and release state and is
/// never made active again.
pub proof fn lemma_sample_lifecycle(m: ManagerModel)
    ensures
        ({
            let after = m.sounded();
            &&& after.slots.len() == m.slots.len()
            &&& forall|i: int|
                0 <= i < m.slots.len() && (#[trigger] m.slots[i]) is Some && !m.slots[i]->0.active
                    ==> after.slots[i] is None
            &&& forall|i: int|
                0 <= i < m.slots.len() && (#[trigger] after.slots[i]) is Some ==> {
                    &&& m.slots[i] is Some
                    &&& m.slots[i]->0.active
                    &&& after.slots[i]->0.key == m.slots[i]->0.key
                    &&& after.slots[i]->0.released == m.slots[i]->0.released
                    &&& after.slots[i]->0.start_time == m.slots[i]->0.start_time
                }
        }),
{
}

/// The voices of a synthesizer, in a fixed number of slots.
pub struct VoiceManager {
    slots: Vec<Option<Voice>>,
    settings: EnvelopeSettings,
    now: u64,
}

impl View for VoiceManager {
    type V = ManagerModel;

    closed spec fn view(&self) -> ManagerModel {
        ManagerModel {
            slots: self.slots@.map_values(|o: Option<Voice>| slot_view(o)),
            settings: self.settings,
            now: self.now as nat,
        }
    }
}

/// Voice `a` in slot `i` against voice `b` in slot `j`.
fn steals_before_exec(a: &Voice, i: usize, b: &Voice, j: usize) -> (r: bool)
    ensures
        r == steals_before(a@, i as int, b@, j as int),
{
    if a.is_released != b.is_released {
        a.is_released
    } else if a.start_time != b.start_time {
        a.start_time < b.start_time
    } else if a.key != b.key {
        a.key < b.key
    } else {
        i < j
    }
}

impl VoiceManager {
    /// An empty manager with `max_voices` slots; new voices take their
    /// envelope from `settings`.
    pub fn new(max_voices: usize, settings: EnvelopeSettings) -> (r: VoiceManager)
        requires
            max_voices >= 1,
        ensures
            r@ == (ManagerModel {
                slots: Seq::new(max_voices as nat, |i: int| None),
                settings,
                now: 0,
            }),
            r@.wf(),
    {
        let mut slots: Vec<Option<Voice>> = Vec::new();
        let mut i: usize = 0;
        while i < max_voices
            invariant
                i <= max_voices,
                slots@.len() == i,
                forall|j: int| 0 <= j < i ==> (#[trigger] slots@[j]) is None,
            decreases max_voices - i,
        {
            slots.push(None);
            i = i + 1;
        }
        let r = VoiceManager { slots, settings, now: 0 };
        assert(r@.slots =~= Seq::new(max_voices as nat, |i: int| None));
        r
    }

    pub fn max_voices(&self) -> (r: usize)
        ensures
            r == self@.max_voices(),
    {
        self.slots.len()
    }

    /// The sample clock.
    pub fn now(&self) -> (r: u64)
        ensures
            r == self@.now,
    {
        self.now
    }

    /// The envelope parameters new voices are made with.
    pub fn settings(&self) -> (r: EnvelopeSettings)
        ensures
            r == self@.settings,
    {
        self.settings
    }

    /// The voice in `slot`, if any.
    pub fn voice(&self, slot: usize) -> (r: Option<Voice>)
        ensures
            slot < self@.max_voices() ==> slot_view(r) == self@.slots[slot as int],
            slot >= self@.max_voices() ==> r is None,
    {
        if slot < self.slots.len() {
            self.slots[slot]
        } else {
            None
        }
    }

    /// Number of voices held, retired ones not yet removed included.
    pub fn active_voice_count(&self) -> (r: usize)
        ensures
            r == voice_count(self@.slots),
            r <= self@.max_voices(),
    {
        proof {
            lemma_count_full(self@.slots);
        }
        let mut count: usize = 0;
        let mut i: usize = 0;
        while i < self.slots.len()
            invariant
                i <= self.slots.len(),
                count <= i,
                count == voice_count(self@.slots.subrange(0, i as int)),
            decreases self.slots.len() - i,
        {
            proof {
                lemma_count_prefix(self@.slots, i as int);
            }
            if self.slots[i].is_some() {
                count = count + 1;
            }
            i = i + 1;
        }
        assert(self@.slots.subrange(0, i as int) =~= self@.slots);
        count
    }

    /// Releases the voice held for `key`, if any; its envelope fades from
    /// where it stood.
    pub fn note_off(&mut self, key: u8)
        requires
            old(self)@.wf(),
        ensures
            final(self)@ == old(self)@.note_off(key),
            final(self)@.wf(),
    {
        let ghost before = self@;
        let mut i: usize = 0;
        while i < self.slots.len()
            invariant
                i <= self.slots.len(),
                self.slots.len() == before.slots.len(),
                self.now == before.now,
                self.settings == before.settings,
                forall|j: int| 0 <= j < i ==> slot_view(#[trigger] self.slots@[j]) == release_key(before.slots, key, before.now)[j],
                forall|j: int| i <= j < self.slots.len() ==> slot_view(#[trigger] self.slots@[j]) == before.slots[j],
            decreases self.slots.len() - i,
        {
            let o = self.slots[i];
            if let Some(v) = o {
                if v.key == key {
                    let mut v = v;
                    v.note_off(self.now);
                    self.slots.set(i, Some(v));
                }
            }
            i = i + 1;
        }
        assert(self@.slots =~= release_key(before.slots, key, before.now));
        proof {
            self.lemma_release_keeps_wf(before, key);
        }
    }

    proof fn lemma_release_keeps_wf(&self, before: ManagerModel, key: u8)
        requires
            before.wf(),
            self@ == before.note_off(key),
        ensures
            self@.wf(),
    {
        let s = self@.slots;
        assert forall|i: int, j: int|
            0 <= i < s.len() && 0 <= j < s.len() && i != j && (#[trigger] s[i]) is Some && (#[trigger] s[j]) is Some
                && !s[i]->0.released && !s[j]->0.released implies s[i]->0.key != s[j]->0.key by {
            assert(before.slots[i] is Some && before.slots[j] is Some);
        }
        assert forall|i: int| 0 <= i < s.len() && (#[trigger] s[i]) is Some implies voice_wf(s[i]->0, self@.now) by {
            assert(before.slots[i] is Some);
        }
    }

    /// The lowest free slot, if any.
    fn find_free(&self) -> (r: Option<usize>)
        ensures
            match r {
                Some(i) => is_first_free(self@.slots, i as int),
                None => !has_free(self@.slots),
            },
    {
        let mut i: usize = 0;
        while i < self.slots.len()
            invariant
                i <= self.slots.len(),
                forall|j: int| 0 <= j < i ==> slot_view(#[trigger] self.slots@[j]) is Some,
            decreases self.slots.len() - i,
        {
            if self.slots[i].is_none() {
                return Some(i);
            }
            i = i + 1;
        }
        None
    }

    /// The slot of the voice stolen first, when every slot is taken.
    fn find_victim(&self) -> (r: usize)
        requires
            self@.slots.len() >= 1,
            !has_free(self@.slots),
        ensures
            is_victim(self@.slots, r as int),
    {
        let ghost s = self@.slots;
        assert(s[0] is Some);
        let mut best: usize = 0;
        let mut i: usize = 1;
        while i < self.slots.len()
            invariant
                s == self@.slots,
                !has_free(s),
                1 <= i <= self.slots.len(),
                best < i,
                s[best as int] is Some,
                forall|j: int| 0 <= j < i && j != best ==> steals_before(s[best as int]->0, best as int, (#[trigger] s[j])->0, j),
            decreases self.slots.len() - i,
        {
            assert(s[i as int] is Some);
            let cand = self.slots[i];
            let cur = self.slots[best];
            if let (Some(a), Some(b)) = (cand, cur) {
                if steals_before_exec(&a, i, &b, best) {
                    let ghost k = best as int;
                    assert forall|j: int| 0 <= j < i + 1 && j != i implies steals_before(s[i as int]->0, i as int, (#[trigger] s[j])->0, j) by {
                        if j != k {
                            assert(steals_before(s[k]->0, k, s[j]->0, j));
                        }
                    }
                    best = i;
                }
            }
            i = i + 1;
        }
        proof {
            assert forall|j: int| 0 <= j < s.len() && j != best && (#[trigger] s[j]) is Some implies steals_before(s[best as int]->0, best as int, s[j]->0, j) by {
                assert(steals_before(s[best as int]->0, best as int, s[j]->0, j));
            }
        }
        best
    }

    /// Starts a voice for `key` and returns its slot. A voice still held for
    /// `key` is released first and fades out on its own. The new voice takes
    /// the lowest free slot; when there is none, the voice stolen first (see
    /// [`steals_before`]) is removed at once and its slot reused.
    pub fn note_on(&mut self, key: u8, velocity: u8) -> (slot: usize)
        requires
            old(self)@.wf(),
        ensures
            slot == old(self)@.note_on_slot(key),
            final(self)@ == old(self)@.note_on(key, velocity),
            final(self)@.wf(),
    {
        let ghost before = self@;
        self.note_off(key);
        let ghost released = self@.slots;
        let slot = match self.find_free() {
            Some(i) => {
                proof {
                    lemma_first_free_is(released, i as int);
                }
                i
            },
            None => {
                let i = self.find_victim();
                proof {
                    lemma_victim_is(released, i as int);
                }
                i
            },
        };
        let mut voice = Voice::new(key, velocity, self.now, &self.settings);
        voice.start_envelope();
        self.slots.set(slot, Some(voice));
        assert(self@.slots =~= before.note_on(key, velocity).slots);
        proof {
            let s = self@.slots;
            assert forall|i: int, j: int|
                0 <= i < s.len() && 0 <= j < s.len() && i != j && (#[trigger] s[i]) is Some && (#[trigger] s[j]) is Some
                    && !s[i]->0.released && !s[j]->0.released implies s[i]->0.key != s[j]->0.key by {
                if i != slot && j != slot {
                    assert(released[i] is Some && released[j] is Some);
                } else if i == slot {
                    assert(released[j] is Some);
                    assert(before.slots[j] is Some);
                } else {
                    assert(released[i] is Some);
                    assert(before.slots[i] is Some);
                }
            }
            assert forall|i: int| 0 <= i < s.len() && (#[trigger] s[i]) is Some implies voice_wf(s[i]->0, self@.now) by {
                if i != slot {
                    assert(released[i] is Some);
                }
            }
        }
        slot
    }

    /// Removes every retired voice.
    pub fn prune_inactive(&mut self)
        requires
            old(self)@.wf(),
        ensures
            final(self)@ == (ManagerModel { slots: prune(old(self)@.slots), ..old(self)@ }),
            final(self)@.wf(),
    {
        let ghost before = self@;
        let mut i: usize = 0;
        while i < self.slots.len()
            invariant
                i <= self.slots.len(),
                self.slots.len() == before.slots.len(),
                self.now == before.now,
                self.settings == before.settings,
                forall|j: int| 0 <= j < i ==> slot_view(#[trigger] self.slots@[j]) == prune(before.slots)[j],
                forall|j: int| i <= j < self.slots.len() ==> slot_view(#[trigger] self.slots@[j]) == before.slots[j],
            decreases self.slots.len() - i,
        {
            let o = self.slots[i];
            if let Some(v) = o {
                if !v.is_active {
                    self.slots.set(i, None);
                }
            }
            i = i + 1;
        }
        assert(self@.slots =~= prune(before.slots));
        proof {
            let s = self@.slots;
            assert forall|i: int, j: int|
                0 <= i < s.len() && 0 <= j < s.len() && i != j && (#[trigger] s[i]) is Some && (#[trigger] s[j]) is Some
                    && !s[i]->0.released && !s[j]->0.released implies s[i]->0.key != s[j]->0.key by {
                assert(before.slots[i] is Some && before.slots[j] is Some);
            }
            assert forall|i: int| 0 <= i < s.len() && (#[trigger] s[i]) is Some implies voice_wf(s[i]->0, self@.now) by {
                assert(before.slots[i] is Some);
            }
        }
    }

    /// Produces one sample's envelope levels: removes the retired voices, then
    /// writes each slot's level to `levels` (`None` where no voice sounds,
    /// retiring released voices that have fallen silent), then advances the
    /// clock by one sample.
    pub fn next_levels(&mut self, levels: &mut Vec<Option<u32>>)
        requires
            old(self)@.wf(),
            old(levels)@.len() == old(self)@.max_voices(),
        ensures
            final(self)@ == old(self)@.sounded(),
            final(self)@.wf(),
            final(levels)@.len() == old(levels)@.len(),
            forall|i: int| 0 <= i < final(levels)@.len() ==> level_of(#[trigger] final(levels)@[i]) == old(self)@.levels()[i],
    {
        let ghost before = self@;
        self.prune_inactive();
        let ghost live = self@.slots;
        let mut i: usize = 0;
        while i < self.slots.len()
            invariant
                i <= self.slots.len(),
                self.slots.len() == before.slots.len(),
                levels@.len() == before.slots.len(),
                self.now == before.now,
                self.settings == before.settings,
                live == prune(before.slots),
                forall|j: int| 0 <= j < i ==> slot_view(#[trigger] self.slots@[j]) == before.sounded().slots[j],
                forall|j: int| 0 <= j < i ==> level_of(#[trigger] levels@[j]) == before.levels()[j],
                forall|j: int| i <= j < self.slots.len() ==> slot_view(#[trigger] self.slots@[j]) == live[j],
            decreases self.slots.len() - i,
        {
            let o = self.slots[i];
            match o {
                Some(v) => {
                    let mut v = v;
                    let level = v.level(self.now);
                    self.slots.set(i, Some(v));
                    levels.set(i, level);
                },
                None => {
                    levels.set(i, None);
                },
            }
            i = i + 1;
        }
        if self.now < u64::MAX {
            self.now = self.now + 1;
        }
        assert(self@.slots =~= before.sounded().slots);
        proof {
            let s = self@.slots;
            assert forall|i: int, j: int|
                0 <= i < s.len() && 0 <= j < s.len() && i != j && (#[trigger] s[i]) is Some && (#[trigger] s[j]) is Some
                    && !s[i]->0.released && !s[j]->0.released implies s[i]->0.key != s[j]->0.key by {
                assert(before.slots[i] is Some && before.slots[j] is Some);
            }
            assert forall|i: int| 0 <= i < s.len() && (#[trigger] s[i]) is Some implies voice_wf(s[i]->0, self@.now) by {
                assert(before.slots[i] is Some);
            }
        }
    }

    /// Replaces the envelope settings: new voices are made with them and every
    /// present voice takes them at once.
    pub fn update_settings(&mut self, settings: EnvelopeSettings)
        requires
            old(self)@.wf(),
        ensures
            final(self)@ == old(self)@.with_settings(settings),
            final(self)@.wf(),
    {
        let ghost before = self@;
        self.settings = settings;
        let mut i: usize = 0;
        while i < self.slots.len()
            invariant
                i <= self.slots.len(),
                self.slots.len() == before.slots.len(),
                self.now == before.now,
                self.settings == settings,
                forall|j: int| 0 <= j < i ==> slot_view(#[trigger] self.slots@[j]) == before.with_settings(settings).slots[j],
                forall|j: int| i <= j < self.slots.len() ==> slot_view(#[trigger] self.slots@[j]) == before.slots[j],
            decreases self.slots.len() - i,
        {
            let o = self.slots[i];
            if let Some(v) = o {
                let mut v = v;
                v.set_settings(&settings);
                self.slots.set(i, Some(v));
            }
            i = i + 1;
        }
        assert(self@.slots =~= before.with_settings(settings).slots);
        proof {
            let s = self@.slots;
            assert forall|i: int, j: int|
                0 <= i < s.len() && 0 <= j < s.len() && i != j && (#[trigger] s[i]) is Some && (#[trigger] s[j]) is Some
                    && !s[i]->0.released && !s[j]->0.released implies s[i]->0.key != s[j]->0.key by {
                assert(before.slots[i] is Some && before.slots[j] is Some);
            }
            assert forall|i: int| 0 <= i < s.len() && (#[trigger] s[i]) is Some implies voice_wf(s[i]->0, self@.now) by {
                assert(before.slots[i] is Some);
            }
        }
    }
}

} // verus!
