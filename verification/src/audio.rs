//! The always-on microphone's buffers. The stream never stops: it feeds a
//! pre-roll ring of the last half second, so a recording starts instantly
//! with the audio just before the hotkey and the first word is never
//! clipped. Samples are mono `i16` at the device's own rate. The shell owns
//! the device stream and calls in from its callback.

use vstd::prelude::*;
use std::collections::VecDeque;
use crate::text::same_text;

verus! {

broadcast use vstd::std_specs::vecdeque::group_vec_dequeue_axioms;

/// One step of the pre-roll ring: a full ring drops its oldest sample before
/// taking `s`.
pub open spec fn ring_step(ring: Seq<i16>, s: i16, cap: nat) -> Seq<i16> {
    if ring.len() == cap && ring.len() > 0 {
        ring.drop_first().push(s)
    } else {
        ring.push(s)
    }
}

/// The ring after the samples `mono` arrive, one at a time.
pub open spec fn ring_after(ring: Seq<i16>, mono: Seq<i16>, cap: nat) -> Seq<i16>
    decreases mono.len(),
{
    if mono.len() == 0 {
        ring
    } else {
        ring_step(ring_after(ring, mono.drop_last(), cap), mono.last(), cap)
    }
}

/// The size of a sample, as `i16::unsigned_abs`.
pub open spec fn abs16(s: i16) -> u16 {
    if s < 0 {
        (-(s as int)) as u16
    } else {
        s as u16
    }
}

/// The largest size among `mono`, 0 for none.
pub open spec fn peak_of(mono: Seq<i16>) -> u16
    decreases mono.len(),
{
    if mono.len() == 0 {
        0
    } else {
        let p = peak_of(mono.drop_last());
        let a = abs16(mono.last());
        if a > p {
            a
        } else {
            p
        }
    }
}

/// The pre-roll ring's capacity at `rate` Hz: half a second of samples.
pub fn preroll_capacity(rate: u32) -> (n: usize)
    ensures
        n == rate / 2,
{
    (rate / 2) as usize
}

/// Which input device to open.
pub enum DevicePick {
    /// The device at this index of the list.
    Listed(usize),
    /// The system default device; `missing` tells that a preferred device
    /// was asked for and is not there.
    Default { missing: bool },
}

/// The device to open among devices named `names` (`None` for a device whose
/// name cannot be read): the first one named as `preferred`, else the
/// system default.
pub fn pick_device(names: &Vec<Option<String>>, preferred: &Option<String>) -> (p: DevicePick)
    ensures
        match *preferred {
            None => p matches DevicePick::Default { missing } && !missing,
            Some(want) => match p {
                DevicePick::Listed(i) => i < names@.len() && (names@[i as int] matches Some(n) && n@ == want@)
                    && forall|j: int| 0 <= j < i ==> !(#[trigger] names@[j] matches Some(n) && n@ == want@),
                DevicePick::Default { missing } => missing && forall|j: int|
                    0 <= j < names@.len() ==> !(#[trigger] names@[j] matches Some(n) && n@ == want@),
            },
        },
{
    let want = match preferred {
        None => return DevicePick::Default { missing: false },
        Some(w) => w,
    };
    let mut i: usize = 0;
    while i < names.len()
        invariant
            i <= names@.len(),
            *preferred == Some(*want),
            forall|j: int| 0 <= j < i ==> !(#[trigger] names@[j] matches Some(n) && n@ == want@),
        decreases names.len() - i,
    {
        match &names[i] {
            Some(n) => {
                if same_text(n.as_str(), want.as_str()) {
                    return DevicePick::Listed(i);
                }
            },
            None => {},
        }
        i += 1;
    }
    DevicePick::Default { missing: true }
}

/// Whether the device `active` that is recording is a fallback for the
/// device `wanted` the user picked: another device, or none.
pub open spec fn on_fallback(wanted: Option<String>, active: Option<String>) -> bool {
    match (wanted, active) {
        (Some(w), Some(a)) => w@ != a@,
        (Some(_), None) => true,
        _ => false,
    }
}

/// Whether a device named as `wanted` is among `names`.
pub open spec fn listed(names: Seq<Option<String>>, wanted: Seq<char>) -> bool {
    exists|j: int| 0 <= j < names.len() && (#[trigger] names[j] matches Some(n) && n@ == wanted)
}

/// The device watch, run about once a second: whether to reopen the
/// capture device. A stream that is down (its device disappeared) is
/// reopened, which falls back to the system default while the picked
/// device is missing; a stream running on a fallback is reopened as soon as
/// the picked device is listed again, which returns to it.
pub fn device_check(
    wanted: &Option<String>,
    active: &Option<String>,
    healthy: bool,
    names: &Vec<Option<String>>,
) -> (reopen: bool)
    ensures
        reopen == (!healthy || (on_fallback(*wanted, *active) && listed(names@, wanted->0@))),
{
    if !healthy {
        return true;
    }
    let fallback = match (wanted, active) {
        (Some(w), Some(a)) => !same_text(w.as_str(), a.as_str()),
        (Some(_), None) => true,
        _ => false,
    };
    if !fallback {
        return false;
    }
    match pick_device(names, wanted) {
        DevicePick::Listed(i) => {
            assert(names@[i as int] matches Some(n) && n@ == wanted->0@);
            true
        },
        DevicePick::Default { .. } => false,
    }
}

pub struct AudioEngine {
    ring: VecDeque<i16>,
    recording: Option<Vec<i16>>,
    rate: u32,
    peak: u16,
    healthy: bool,
    requested_device: Option<Option<String>>,
}

/// An optional buffer as plain values.
pub open spec fn opt_samples(b: Option<Vec<i16>>) -> Option<Seq<i16>> {
    match b {
        Some(v) => Some(v@),
        None => None,
    }
}

/// An optional device name as plain values.
pub open spec fn opt_name(d: Option<String>) -> Option<Seq<char>> {
    match d {
        Some(s) => Some(s@),
        None => None,
    }
}

impl AudioEngine {
    /// The pre-roll ring, oldest sample first.
    pub closed spec fn ring(&self) -> Seq<i16> {
        self.ring@
    }

    /// The take being recorded, if any.
    pub closed spec fn recording(&self) -> Option<Seq<i16>> {
        opt_samples(self.recording)
    }

    /// The device's sample rate.
    pub closed spec fn rate(&self) -> u32 {
        self.rate
    }

    /// The largest sample size since the level was last read.
    pub closed spec fn peak(&self) -> u16 {
        self.peak
    }

    /// Whether a stream is open.
    pub closed spec fn healthy(&self) -> bool {
        self.healthy
    }

    /// A device change the stream thread has not picked up yet.
    pub closed spec fn requested_device(&self) -> Option<Option<Seq<char>>> {
        match self.requested_device {
            Some(d) => Some(opt_name(d)),
            None => None,
        }
    }

    /// Empty buffers, no stream yet, 16 kHz until a device says otherwise.
    pub fn new() -> (e: Self)
        ensures
            e.ring().len() == 0,
            e.recording() is None,
            e.rate() == 16_000,
            e.peak() == 0,
            !e.healthy(),
            e.requested_device() is None,
    {
        AudioEngine {
            ring: VecDeque::new(),
            recording: None,
            rate: 16_000,
            peak: 0,
            healthy: false,
            requested_device: None,
        }
    }

    /// Whether a stream is open; a dictation without one gets the "No mic
    /// detected" pill.
    pub fn is_healthy(&self) -> (b: bool)
        ensures
            b == self.healthy(),
    {
        self.healthy
    }

    /// Records whether the device stream is open.
    pub fn set_healthy(&mut self, healthy: bool)
        ensures
            final(self).healthy() == healthy,
            final(self).ring() == old(self).ring(),
            final(self).recording() == old(self).recording(),
            final(self).rate() == old(self).rate(),
            final(self).peak() == old(self).peak(),
            final(self).requested_device() == old(self).requested_device(),
    {
        self.healthy = healthy;
    }

    /// Records the sample rate of the device being opened.
    pub fn set_rate(&mut self, rate: u32)
        ensures
            final(self).rate() == rate,
            final(self).healthy() == old(self).healthy(),
            final(self).ring() == old(self).ring(),
            final(self).recording() == old(self).recording(),
            final(self).peak() == old(self).peak(),
            final(self).requested_device() == old(self).requested_device(),
    {
        self.rate = rate;
    }

    /// Asks the stream thread to change the capture device without
    /// restarting the app; a later request replaces an earlier one.
    pub fn switch_device(&mut self, preferred: Option<String>)
        ensures
            final(self).requested_device() == Some(opt_name(preferred)),
            final(self).healthy() == old(self).healthy(),
            final(self).ring() == old(self).ring(),
            final(self).recording() == old(self).recording(),
            final(self).rate() == old(self).rate(),
            final(self).peak() == old(self).peak(),
    {
        self.requested_device = Some(preferred);
    }

    /// The device change to carry out, if one was requested; the request is
    /// consumed.
    pub fn take_device_request(&mut self) -> (r: Option<Option<String>>)
        ensures
            match r {
                Some(d) => old(self).requested_device() == Some(opt_name(d)),
                None => old(self).requested_device() is None,
            },
            final(self).requested_device() is None,
            final(self).healthy() == old(self).healthy(),
            final(self).ring() == old(self).ring(),
            final(self).recording() == old(self).recording(),
            final(self).rate() == old(self).rate(),
            final(self).peak() == old(self).peak(),
    {
        self.requested_device.take()
    }

    /// Drops the pre-roll and any take: a new device may run at another
    /// rate, and splicing the two would garble the first half second.
    pub fn reset_buffers(&mut self)
        ensures
            final(self).ring().len() == 0,
            final(self).recording() is None,
            final(self).healthy() == old(self).healthy(),
            final(self).rate() == old(self).rate(),
            final(self).peak() == old(self).peak(),
            final(self).requested_device() == old(self).requested_device(),
    {
        self.ring.clear();
        self.recording = None;
    }

    /// Starts a take, seeded with the pre-roll.
    pub fn start_recording(&mut self)
        ensures
            final(self).recording() == Some(old(self).ring()),
            final(self).ring() == old(self).ring(),
            final(self).healthy() == old(self).healthy(),
            final(self).rate() == old(self).rate(),
            final(self).peak() == old(self).peak(),
            final(self).requested_device() == old(self).requested_device(),
    {
        let mut seed: Vec<i16> = Vec::new();
        let n = self.ring.len();
        let mut i: usize = 0;
        while i < n
            invariant
                n == self.ring@.len(),
                i <= n,
                seed@ == self.ring@.take(i as int),
            decreases n - i,
        {
            seed.push(self.ring[i]);
            assert(seed@ =~= self.ring@.take(i + 1));
            i += 1;
        }
        assert(self.ring@.take(n as int) =~= self.ring@);
        self.recording = Some(seed);
    }

    /// Ends the take: its samples (none if nothing was recording) and the
    /// rate they were captured at.
    pub fn stop_recording(&mut self) -> (r: (Vec<i16>, u32))
        ensures
            r.0@ == match old(self).recording() {
                Some(s) => s,
                None => Seq::empty(),
            },
            r.1 == old(self).rate(),
            final(self).recording() is None,
            final(self).ring() == old(self).ring(),
            final(self).healthy() == old(self).healthy(),
            final(self).rate() == old(self).rate(),
            final(self).peak() == old(self).peak(),
            final(self).requested_device() == old(self).requested_device(),
    {
        let samples = match self.recording.take() {
            Some(s) => s,
            None => Vec::new(),
        };
        (samples, self.rate)
    }

    /// Whether a take is being recorded.
    pub fn is_recording(&self) -> (b: bool)
        ensures
            b == self.recording() is Some,
    {
        self.recording.is_some()
    }

    /// The largest sample size since the last call, for the level meter;
    /// the meter starts over from zero.
    pub fn take_peak(&mut self) -> (p: u16)
        ensures
            p == old(self).peak(),
            final(self).peak() == 0,
            final(self).ring() == old(self).ring(),
            final(self).recording() == old(self).recording(),
            final(self).healthy() == old(self).healthy(),
            final(self).rate() == old(self).rate(),
            final(self).requested_device() == old(self).requested_device(),
    {
        let p = self.peak;
        self.peak = 0;
        p
    }

    /// Takes in a block of mono samples from the device: each enters the
    /// pre-roll ring of `ring_cap` samples, the block is appended to the
    /// take, and the peak is raised to the block's largest sample.
    pub fn ingest(&mut self, mono: &[i16], ring_cap: usize)
        ensures
            final(self).ring() == ring_after(old(self).ring(), mono@, ring_cap as nat),
            took_in(*old(self), *final(self), mono@),
            final(self).peak() == (if peak_of(mono@) > old(self).peak() {
                peak_of(mono@)
            } else {
                old(self).peak()
            }),
            final(self).healthy() == old(self).healthy(),
            final(self).rate() == old(self).rate(),
            final(self).requested_device() == old(self).requested_device(),
    {
        let ghost r0 = self.ring@;
        let ghost e0 = *self;
        let mut i: usize = 0;
        let mut block_peak: u16 = 0;
        while i < mono.len()
            invariant
                i <= mono@.len(),
                self.recording == e0.recording,
                self.peak == e0.peak,
                self.healthy == e0.healthy,
                self.rate == e0.rate,
                self.requested_device == e0.requested_device,
                self.ring@ == ring_after(r0, mono@.take(i as int), ring_cap as nat),
                block_peak == peak_of(mono@.take(i as int)),
            decreases mono.len() - i,
        {
            let s = mono[i];
            assert(mono@.take(i + 1).drop_last() =~= mono@.take(i as int));
            if self.ring.len() == ring_cap {
                let _ = self.ring.pop_front();
            }
            self.ring.push_back(s);
            let a: u16 = if s < 0 {
                (-(s as i32)) as u16
            } else {
                s as u16
            };
            if a > block_peak {
                block_peak = a;
            }
            i += 1;
        }
        assert(mono@.take(mono@.len() as int) =~= mono@);
        if let Some(mut buf) = self.recording.take() {
            let mut k: usize = 0;
            let ghost b0 = buf@;
            while k < mono.len()
                invariant
                    k <= mono@.len(),
                    buf@ == b0 + mono@.take(k as int),
                decreases mono.len() - k,
            {
                buf.push(mono[k]);
                assert(buf@ =~= b0 + mono@.take(k + 1));
                k += 1;
            }
            assert(mono@.take(mono@.len() as int) =~= mono@);
            self.recording = Some(buf);
        }
        if block_peak > self.peak {
            self.peak = block_peak;
        }
    }
}

/// The pre-roll ring of capacity `cap` holds the last `cap` samples it was
/// given, or all of them while there are fewer.
pub proof fn lemma_ring_keeps_last_samples(ring: Seq<i16>, mono: Seq<i16>, cap: nat)
    requires
        cap > 0,
        ring.len() <= cap,
    ensures
        ring_after(ring, mono, cap) == {
            let all = ring + mono;
            if all.len() > cap {
                all.skip(all.len() - cap)
            } else {
                all
            }
        },
    decreases mono.len(),
{
    if mono.len() > 0 {
        lemma_ring_keeps_last_samples(ring, mono.drop_last(), cap);
        let all0 = ring + mono.drop_last();
        let all = ring + mono;
        assert(all0 =~= all.drop_last());
        let r0 = ring_after(ring, mono.drop_last(), cap);
        if all0.len() > cap {
            assert(r0.len() == cap);
            assert(r0.drop_first().push(mono.last()) =~= all.skip(all.len() - cap));
        } else if all0.len() == cap {
            assert(r0.drop_first().push(mono.last()) =~= all.skip(all.len() - cap));
        } else {
            assert(r0.push(mono.last()) =~= all);
        }
    }
}

/// What taking in the block `mono` does to a take: a running take gains the
/// block at its end, no take stays no take, and the rate stays.
pub open spec fn took_in(before: AudioEngine, after: AudioEngine, mono: Seq<i16>) -> bool {
    &&& after.recording() == match before.recording() {
        Some(s) => Some(s + mono),
        None => None,
    }
    &&& after.rate() == before.rate()
}

/// A take is the pre-roll it started with followed by every block taken in
/// since, in order: after `start_recording` seeded the take with `preroll`
/// and `ingest` took in `blocks`, one state to the next, with no stop or
/// device switch in between, `stop_recording` returns `preroll` and the
/// blocks joined, at the rate the take started at.
pub proof fn lemma_take_is_preroll_and_blocks(
    states: Seq<AudioEngine>,
    blocks: Seq<Seq<i16>>,
    preroll: Seq<i16>,
)
    requires
        states.len() == blocks.len() + 1,
        states[0].recording() == Some(preroll),
        forall|k: int| 0 <= k < blocks.len() ==> took_in(states[k], states[k + 1], #[trigger] blocks[k]),
    ensures
        states.last().recording() == Some(preroll + blocks.flatten_alt()),
        states.last().rate() == states[0].rate(),
    decreases blocks.len(),
{
    if blocks.len() > 0 {
        let n = blocks.len() - 1;
        lemma_take_is_preroll_and_blocks(states.drop_last(), blocks.drop_last(), preroll);
        assert(took_in(states[n as int], states[n + 1], blocks[n as int]));
        assert(states.drop_last().last() == states[n as int]);
        assert(preroll + blocks.drop_last().flatten_alt() + blocks[n as int] =~= preroll + blocks.flatten_alt());
    } else {
        assert(preroll + blocks.flatten_alt() =~= preroll);
    }
}

} // verus!
