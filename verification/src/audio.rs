//! What the audio side decides without touching a sample: which rate and
//! channel count a file is played at, what a backend can do, the counters
//! the output keeps, and the playing position with the stamp that tells a
//! stale report from a current one.

use vstd::prelude::*;

verus! {

/// What a decoded stream is, as the file itself declares it.
///
/// `bits_per_sample` is carried even though the samples are floats by this
/// point: dither has to know how many bits the output will be squeezed into,
/// and a bit-perfect path has to know what it is claiming to be perfect about.
#[derive(Debug, Clone, Copy, PartialEq, Eq, Structural)]
pub struct StreamSpec {
    pub sample_rate: u32,
    pub channels: u16,
    pub bits_per_sample: Option<u32>,
}

/// What a backend supports. The interface asks before offering a control, so
/// a setting it cannot honour is shown as unavailable rather than ignored.
#[derive(Debug, Clone, Copy, PartialEq, Eq)]
pub struct Capabilities {
    /// Shown in the interface and in `muscli doctor`.
    pub name: &'static str,
    pub replay_gain: bool,
    pub equalizer: bool,
    pub volume: bool,
    /// Whether the next track can begin without a gap.
    pub gapless: bool,
    /// Whether samples can reach the device untouched.
    pub bit_perfect: bool,
}

/// Whether `choose_rate` can decide without dividing by zero: a rate of zero
/// is only asked for where the device offers it or offers nothing higher.
pub open spec fn rate_decidable(wanted: u32, available: Seq<u32>) -> bool {
    wanted > 0 || available.contains(wanted) || forall|i: int| 0 <= i < available.len() ==> available[i] <= wanted
}

/// A rate above `wanted` that is a whole multiple of it.
pub open spec fn is_multiple_above(rate: u32, wanted: u32) -> bool {
    rate > wanted && wanted > 0 && rate % wanted == 0
}

/// The rate a file at `wanted` is played at on a device offering `available`:
/// the file's own rate; else the lowest whole multiple of it; else the lowest
/// rate above it; else the highest the device has.
pub open spec fn rate_choice(wanted: u32, available: Seq<u32>, chosen: Option<u32>) -> bool {
    match chosen {
        None => available.len() == 0,
        Some(x) => available.contains(x) && if available.contains(wanted) {
            x == wanted
        } else if exists|i: int| 0 <= i < available.len() && is_multiple_above(#[trigger] available[i], wanted) {
            is_multiple_above(x, wanted) && forall|i: int|
                0 <= i < available.len() && is_multiple_above(#[trigger] available[i], wanted) ==> x <= available[i]
        } else if exists|i: int| 0 <= i < available.len() && #[trigger] available[i] > wanted {
            x > wanted && forall|i: int| 0 <= i < available.len() && #[trigger] available[i] > wanted ==> x <= available[i]
        } else {
            forall|i: int| 0 <= i < available.len() ==> #[trigger] available[i] <= x
        },
    }
}

/// Pick the rate to play a file at on a device offering `available`.
///
/// The file's own rate first, always: converting a stream that did not need
/// converting is the one avoidable loss in the whole path. Failing that, a
/// whole multiple of it, which a converter handles with the least work and
/// the least error. Failing that, the highest rate above the file's, because
/// converting downwards throws away the top of the band for nothing. Only if
/// there is nothing higher does a lower rate get used.
pub fn choose_rate(wanted: u32, available: &[u32]) -> (r: Option<u32>)
    requires
        rate_decidable(wanted, available@),
    ensures
        rate_choice(wanted, available@, r),
{
    let mut i: usize = 0;
    while i < available.len()
        invariant
            i <= available@.len(),
            forall|j: int| 0 <= j < i ==> available@[j] != wanted,
        decreases available.len() - i,
    {
        if available[i] == wanted {
            return Some(wanted);
        }
        i = i + 1;
    }
    assert(!available@.contains(wanted));
    let mut multiple: Option<u32> = None;
    let mut higher: Option<u32> = None;
    let mut highest: Option<u32> = None;
    let mut k: usize = 0;
    while k < available.len()
        invariant
            k <= available@.len(),
            rate_decidable(wanted, available@),
            !available@.contains(wanted),
            match multiple {
                Some(m) => is_multiple_above(m, wanted) && available@.contains(m) && forall|j: int|
                    0 <= j < k && is_multiple_above(#[trigger] available@[j], wanted) ==> m <= available@[j],
                None => forall|j: int| 0 <= j < k ==> !is_multiple_above(#[trigger] available@[j], wanted),
            },
            match higher {
                Some(h) => h > wanted && available@.contains(h) && forall|j: int|
                    0 <= j < k && #[trigger] available@[j] > wanted ==> h <= available@[j],
                None => forall|j: int| 0 <= j < k ==> #[trigger] available@[j] <= wanted,
            },
            match highest {
                Some(t) => available@.contains(t) && forall|j: int| 0 <= j < k ==> #[trigger] available@[j] <= t,
                None => k == 0,
            },
        decreases available.len() - k,
    {
        let rate = available[k];
        proof {
            assert(available@[k as int] == rate);
        }
        if rate > wanted {
            assert(wanted > 0) by {
                if wanted == 0 {
                    assert(available@[k as int] > wanted);
                }
            }
            if rate % wanted == 0 {
                multiple = match multiple {
                    Some(m) => if rate < m {
                        Some(rate)
                    } else {
                        Some(m)
                    },
                    None => Some(rate),
                };
            }
            higher = match higher {
                Some(h) => if rate < h {
                    Some(rate)
                } else {
                    Some(h)
                },
                None => Some(rate),
            };
        }
        highest = match highest {
            Some(t) => if rate > t {
                Some(rate)
            } else {
                Some(t)
            },
            None => Some(rate),
        };
        k = k + 1;
    }
    match multiple {
        Some(m) => Some(m),
        None => match higher {
            Some(h) => Some(h),
            None => highest,
        },
    }
}

/// The channel count a file with `wanted` channels is played in: its own,
/// or two for a mono file on a device that only does stereo.
pub open spec fn channel_choice(wanted: u16, available: Seq<u16>) -> Option<u16> {
    if available.contains(wanted) {
        Some(wanted)
    } else if wanted == 1 && available.contains(2) {
        Some(2)
    } else {
        None
    }
}

fn offers(available: &[u16], count: u16) -> (b: bool)
    ensures
        b == available@.contains(count),
{
    let mut i: usize = 0;
    while i < available.len()
        invariant
            i <= available@.len(),
            forall|j: int| 0 <= j < i ==> available@[j] != count,
        decreases available.len() - i,
    {
        if available[i] == count {
            assert(available@[i as int] == count);
            return true;
        }
        i = i + 1;
    }
    false
}

/// Pick the channel count to play a file in.
///
/// A mono file on a stereo-only device is played to both channels; anything
/// else is refused rather than folded, because a fold is a mix, and mixing
/// somebody's recording without being asked is not this player's business.
pub fn choose_channels(wanted: u16, available: &[u16]) -> (r: Option<u16>)
    ensures
        r == channel_choice(wanted, available@),
{
    if offers(available, wanted) {
        return Some(wanted);
    }
    if wanted == 1 && offers(available, 2) {
        return Some(2);
    }
    None
}

/// The listener's volume, shared between the interface and the output, as
/// the bit pattern of an `f64` from 0 to 1. Turning the number into a gain
/// is the output's floating-point work.
#[derive(Debug)]
pub struct Volume {
    bits: u64,
}

/// The bit pattern of `1.0f64`, full volume.
pub const FULL_VOLUME_BITS: u64 = 0x3ff0_0000_0000_0000;

impl Default for Volume {
    fn default() -> (v: Self)
        ensures
            v.stored() == FULL_VOLUME_BITS,
    {
        Volume { bits: FULL_VOLUME_BITS }
    }
}

impl Volume {
    /// The bit pattern held.
    pub closed spec fn stored(&self) -> u64 {
        self.bits
    }

    /// Hold a new volume, given as the bit pattern of an `f64` already
    /// brought within 0 to 1.
    pub fn set_bits(&mut self, bits: u64)
        ensures
            final(self).stored() == bits,
    {
        self.bits = bits;
    }

    /// The volume held, as the bit pattern of an `f64`.
    pub fn bits(&self) -> (b: u64)
        ensures
            b == self.stored(),
    {
        self.bits
    }
}

/// `a + b` wrapped to 64 bits, as `AtomicU64::fetch_add` adds.
pub open spec fn wrapping(v: int) -> u64 {
    (v % 0x1_0000_0000_0000_0000) as u64
}

fn wrap_add(a: u64, b: u64) -> (r: u64)
    ensures
        r == wrapping(a + b),
{
    if b <= u64::MAX - a {
        a + b
    } else {
        let r = b - (u64::MAX - a) - 1;
        assert(r == a + b - 0x1_0000_0000_0000_0000);
        r
    }
}

/// What the output reports back, in frames.
///
/// `played` and `starved` only ever grow (modulo 2^64), which is what lets
/// the engine read them from another thread without a lock.
#[derive(Debug)]
pub struct SinkState {
    /// What the listener asked for, shared across every stream this player
    /// opens so that changing it needs no round trip through the engine.
    pub volume: std::sync::Arc<Volume>,
    /// Frames handed to the device since the stream was started.
    pub played: u64,
    /// Frames the device asked for and did not get.
    pub starved: u64,
    /// Bumped by the engine when what is still in the ring belongs to
    /// somewhere else in the track and must not be played.
    pub flush: u64,
    /// The request the output has carried out.
    pub flushed: u64,
    /// The frame the first sample after the flush will be played at.
    pub flushed_at: u64,
}

/// `n` frames of `channels` channels, counted as the output counts them: a
/// channel count of zero is taken as one.
pub open spec fn frames_of(n: int, channels: u16) -> int {
    n / if channels == 0 {
        1int
    } else {
        channels as int
    }
}

impl SinkState {
    pub fn new(volume: std::sync::Arc<Volume>) -> (s: Self)
        ensures
            s.volume == volume,
            s.played == 0,
            s.starved == 0,
            s.flush == 0,
            s.flushed == 0,
            s.flushed_at == 0,
    {
        SinkState { volume, played: 0, starved: 0, flush: 0, flushed: 0, flushed_at: 0 }
    }

    /// Whether a flush has been asked for and not yet carried out.
    pub open spec fn pending_flush(&self) -> bool {
        self.flush != self.flushed
    }

    /// The state once the engine has asked for a flush.
    pub open spec fn after_request_flush(self) -> SinkState {
        SinkState { flush: wrapping(self.flush + 1), ..self }
    }

    /// The state once the output has begun a buffer of `wanted` samples.
    pub open spec fn after_begin_fill(self, wanted: int, channels: u16) -> SinkState {
        if self.pending_flush() {
            SinkState {
                flushed: self.flush,
                flushed_at: wrapping(self.played + frames_of(wanted, channels)),
                ..self
            }
        } else {
            self
        }
    }

    /// The state once the output has finished that buffer, `short` samples
    /// of it missing.
    pub open spec fn after_end_fill(self, wanted: int, short: int, channels: u16, flushed_now: bool) -> SinkState {
        SinkState {
            played: wrapping(self.played + frames_of(wanted, channels)),
            starved: if short > 0 && !flushed_now {
                wrapping(self.starved + frames_of(short, channels))
            } else {
                self.starved
            },
            ..self
        }
    }

    /// The engine asks the output to drop what the ring holds.
    pub fn request_flush(&mut self)
        ensures
            *final(self) == old(self).after_request_flush(),
    {
        self.flush = wrap_add(self.flush, 1);
    }

    /// The start of a device buffer of `wanted` samples: a flush asked for
    /// and not carried out is carried out here, landing where this buffer
    /// ends. Returns whether it was.
    pub fn begin_fill(&mut self, wanted: usize, channels: u16) -> (flushed_now: bool)
        ensures
            flushed_now == old(self).pending_flush(),
            *final(self) == old(self).after_begin_fill(wanted as int, channels),
    {
        let channel_count: u64 = if channels == 0 {
            1
        } else {
            channels as u64
        };
        let flushed_now = self.flush != self.flushed;
        if flushed_now {
            self.flushed_at = wrap_add(self.played, wanted as u64 / channel_count);
            self.flushed = self.flush;
        }
        flushed_now
    }

    /// The end of that buffer, `short` samples of which the ring could not
    /// supply: the frames are counted as played, and a shortfall as starved
    /// unless the buffer carried out a flush, where silence is the seek
    /// landing and not the decoder falling behind.
    pub fn end_fill(&mut self, wanted: usize, short: usize, channels: u16, flushed_now: bool)
        ensures
            *final(self) == old(self).after_end_fill(wanted as int, short as int, channels, flushed_now),
    {
        let channel_count: u64 = if channels == 0 {
            1
        } else {
            channels as u64
        };
        self.played = wrap_add(self.played, wanted as u64 / channel_count);
        if short > 0 && !flushed_now {
            self.starved = wrap_add(self.starved, short as u64 / channel_count);
        }
    }
}

/// A flush the engine asks for is carried out by the next buffer the output
/// begins, and only once: the buffer after it finds nothing to flush.
pub proof fn lemma_flush_is_carried_out_once(state: SinkState, wanted: int, channels: u16)
    requires
        !state.pending_flush(),
    ensures
        state.after_request_flush().pending_flush(),
        !state.after_request_flush().after_begin_fill(wanted, channels).pending_flush(),
{
}

/// A buffer that carries out a flush never counts as starved, however much
/// of it was silence.
pub proof fn lemma_flush_buffer_is_not_starved(state: SinkState, wanted: int, short: int, channels: u16)
    ensures
        state.after_end_fill(wanted, short, channels, true).starved == state.starved,
{
}

/// The playing position, and a stamp saying which track it belongs to.
///
/// The application reads the position back in the same tick it asks for a
/// track, while the engine is still playing the previous one. The stamp marks
/// a reading from before the change so it can be dropped rather than stored
/// as the new track's resume point.
#[derive(Debug, Default)]
pub struct Position {
    ms: u64,
    epoch: u64,
}

impl Position {
    /// The position held.
    pub closed spec fn position(&self) -> u64 {
        self.ms
    }

    /// The stamp held.
    pub closed spec fn stamp(&self) -> u64 {
        self.epoch
    }

    /// The position once the application has declared `ms`.
    pub closed spec fn after_declare(self, ms: u64) -> Position {
        Position { ms, epoch: wrapping(self.epoch + 1) }
    }

    /// The position once the engine has reported `ms` under `epoch`.
    pub closed spec fn after_report(self, epoch: u64, ms: u64) -> Position {
        if epoch == self.epoch {
            Position { ms, epoch: self.epoch }
        } else {
            self
        }
    }

    /// State a position from the application's side, retiring whatever the
    /// engine has not caught up with yet.
    pub fn declare(&mut self, ms: u64)
        ensures
            *final(self) == old(self).after_declare(ms),
            final(self).position() == ms,
            final(self).stamp() == wrapping(old(self).stamp() + 1),
            final(self).stamp() != old(self).stamp(),
    {
        self.ms = ms;
        self.epoch = wrap_add(self.epoch, 1);
    }

    pub fn ms(&self) -> (ms: u64)
        ensures
            ms == self.position(),
    {
        self.ms
    }

    /// The stamp a report from the engine must carry to be taken.
    pub fn epoch(&self) -> (e: u64)
        ensures
            e == self.stamp(),
    {
        self.epoch
    }

    /// Report from the engine, ignored if the application has moved on.
    pub fn report(&mut self, epoch: u64, ms: u64)
        ensures
            *final(self) == old(self).after_report(epoch, ms),
            final(self).stamp() == old(self).stamp(),
            final(self).position() == if epoch == old(self).stamp() {
                ms
            } else {
                old(self).position()
            },
    {
        if self.epoch == epoch {
            self.ms = ms;
        }
    }
}

/// A declared position survives a report the engine made before the
/// declaration: that report carries the old stamp, which the declaration
/// retired. A report under the new stamp is taken.
pub proof fn lemma_stale_report_is_dropped(position: Position, declared: u64, reported: u64)
    ensures
        position.after_declare(declared).after_report(position.stamp(), reported).position() == declared,
        position.after_declare(declared).after_report(position.after_declare(declared).stamp(), reported).position()
            == reported,
{
}


/// Ties a frame the device plays to the place in the track it came from:
/// one per block, kept until the device is past it.
#[derive(Debug, Clone, Copy, PartialEq, Eq, Structural)]
pub struct Mark {
    pub output_frame: u64,
    pub source_ms: u64,
}

/// The engine's count of where the audio it sent stands: the marks that tie
/// output frames to the track, the frames at which a following track takes
/// over, where the audio runs out, and the flush a seek is waiting for.
pub struct Timeline {
    pub marks: Vec<Mark>,
    pub handovers: Vec<u64>,
    pub pushed: u64,
    pub awaiting_flush: Option<u64>,
    pub ends_at: Option<u64>,
    pub announced_end: bool,
    /// Frames already announced as missed, so a shortfall is told once.
    pub reported_starved: u64,
    pub sample_rate: u32,
}

/// A mark moved `by` frames later in the output.
pub open spec fn moved(mark: Mark, by: u64) -> Mark {
    Mark { output_frame: (mark.output_frame + by) as u64, source_ms: mark.source_ms }
}

/// What one look at the device's progress has to tell.
#[derive(Debug, Clone, Copy, PartialEq, Eq, Structural)]
pub struct Progress {
    /// Where in the track the device is, when a mark says.
    pub position_ms: Option<u64>,
    /// How many following tracks the device has rolled into.
    pub handovers_passed: usize,
    /// Milliseconds the device went without audio, when that is to be said.
    pub underrun_ms: Option<u64>,
    /// The device has played everything: the track is over.
    pub end_of_file: bool,
}

/// The marks still needed once the device has played `played` frames: those
/// it is past go, except the newest of them, which the position is measured
/// from.
pub open spec fn marks_kept(marks: Seq<Mark>, played: u64) -> Seq<Mark>
    decreases marks.len(),
{
    if marks.len() > 1 && marks[1].output_frame <= played {
        marks_kept(marks.drop_first(), played)
    } else {
        marks
    }
}

/// How many of the handovers, from the front, the device is past.
pub open spec fn handovers_passed(handovers: Seq<u64>, played: u64) -> nat
    decreases handovers.len(),
{
    if handovers.len() > 0 && handovers[0] <= played {
        1 + handovers_passed(handovers.drop_first(), played)
    } else {
        0
    }
}

/// Where in the track the device is: from the mark it is measured from and
/// the frames played since.
pub open spec fn position_from(marks: Seq<Mark>, played: u64, sample_rate: u32) -> Option<u64> {
    if marks.len() > 0 && marks[0].output_frame <= played {
        Some((marks[0].source_ms + (played - marks[0].output_frame) * 1000 / (sample_rate as int)) as u64)
    } else {
        None
    }
}

/// Whether the device is still inside the audio, short of where it ends.
pub open spec fn inside_the_track(ends_at: Option<u64>, played: u64) -> bool {
    match ends_at {
        Some(end) => played < end,
        None => true,
    }
}

/// Whether the device has just reached the end of the audio, not yet
/// announced.
pub open spec fn ends_now(t: Timeline, played: u64) -> bool {
    match t.ends_at {
        Some(end) => !t.announced_end && played >= end,
        None => false,
    }
}

/// Nothing to tell.
pub open spec fn nothing_to_tell() -> Progress {
    Progress { position_ms: None, handovers_passed: 0, underrun_ms: None, end_of_file: false }
}

/// Whether the device has newly gone short inside the track.
pub open spec fn newly_starved(t: Timeline, played: u64, starved: u64) -> bool {
    inside_the_track(t.ends_at, played) && starved > t.reported_starved
}

/// The silence to tell of: at least a millisecond.
pub open spec fn underrun_of(missed: int, sample_rate: u32) -> u64 {
    let ms = missed * 1000 / (sample_rate as int);
    if ms < 1 {
        1
    } else {
        ms as u64
    }
}

impl Timeline {
    /// The counts stay within reach of the arithmetic done on them, and the
    /// rate is a rate.
    pub open spec fn wf(&self) -> bool {
        &&& self.sample_rate > 0
        &&& forall|k: int| 0 <= k < self.marks@.len() ==> (#[trigger] self.marks@[k]).source_ms <= u64::MAX / 2
    }

    /// A stream just opened at `position_ms`: nothing sent yet.
    pub fn new(sample_rate: u32) -> (t: Self)
        requires
            sample_rate > 0,
        ensures
            t.wf(),
            t.marks@.len() == 0,
            t.handovers@.len() == 0,
            t.pushed == 0,
            t.awaiting_flush is None,
            t.ends_at is None,
            !t.announced_end,
            t.reported_starved == 0,
            t.sample_rate == sample_rate,
    {
        Timeline {
            marks: Vec::new(),
            handovers: Vec::new(),
            pushed: 0,
            awaiting_flush: None,
            ends_at: None,
            announced_end: false,
            reported_starved: 0,
            sample_rate,
        }
    }

    /// A seek: everything measured from the old position goes, and nothing
    /// is sent until the output has flushed under `generation`.
    pub fn restart_for_seek(&mut self, generation: u64)
        ensures
            final(self).marks@.len() == 0,
            final(self).handovers@.len() == 0,
            final(self).pushed == 0,
            final(self).awaiting_flush == Some(generation),
            final(self).ends_at is None,
            !final(self).announced_end,
            final(self).reported_starved == old(self).reported_starved,
            final(self).sample_rate == old(self).sample_rate,
    {
        self.marks.clear();
        self.handovers.clear();
        self.pushed = 0;
        self.awaiting_flush = Some(generation);
        self.ends_at = None;
        self.announced_end = false;
    }

    /// The output reports a flush under `flushed`, with playing resuming at
    /// output frame `resumes_at`. If it is the one waited for, everything
    /// counted since the seek is moved to that frame, and the silence the
    /// seek itself cost is not reported as a shortfall. Returns whether it
    /// was.
    pub fn flush_landed(&mut self, flushed: u64, resumes_at: u64, starved: u64) -> (taken: bool)
        requires
            old(self).pushed + resumes_at <= u64::MAX,
            forall|k: int| 0 <= k < old(self).marks@.len() ==> (#[trigger] old(self).marks@[k]).output_frame + resumes_at <= u64::MAX,
            forall|k: int| 0 <= k < old(self).handovers@.len() ==> #[trigger] old(self).handovers@[k] + resumes_at <= u64::MAX,
        ensures
            taken == (old(self).awaiting_flush == Some(flushed)),
            taken ==> {
                &&& final(self).pushed == old(self).pushed + resumes_at
                &&& final(self).marks@.len() == old(self).marks@.len()
                &&& forall|k: int| 0 <= k < old(self).marks@.len() ==> (#[trigger] final(self).marks@[k]) == moved(old(self).marks@[k], resumes_at)
                &&& final(self).handovers@.len() == old(self).handovers@.len()
                &&& forall|k: int| 0 <= k < old(self).handovers@.len() ==> #[trigger] final(self).handovers@[k] == old(self).handovers@[k] + resumes_at
                &&& final(self).reported_starved == starved
                &&& final(self).awaiting_flush is None
            },
            !taken ==> final(self).marks@ == old(self).marks@ && final(self).handovers@ == old(self).handovers@
                && final(self).pushed == old(self).pushed && final(self).awaiting_flush == old(self).awaiting_flush
                && final(self).reported_starved == old(self).reported_starved,
            final(self).ends_at == old(self).ends_at,
            final(self).announced_end == old(self).announced_end,
            final(self).sample_rate == old(self).sample_rate,
    {
        if self.awaiting_flush != Some(flushed) {
            return false;
        }
        self.pushed = self.pushed + resumes_at;
        let mut k: usize = 0;
        while k < self.marks.len()
            invariant
                k <= self.marks@.len(),
                self.marks@.len() == old(self).marks@.len(),
                forall|j: int| 0 <= j < old(self).marks@.len() ==> (#[trigger] old(self).marks@[j]).output_frame + resumes_at <= u64::MAX,
                forall|j: int| 0 <= j < k ==> (#[trigger] self.marks@[j]) == moved(old(self).marks@[j], resumes_at),
                forall|j: int| k <= j < self.marks@.len() ==> #[trigger] self.marks@[j] == old(self).marks@[j],
                self.handovers@ == old(self).handovers@,
                self.pushed == old(self).pushed + resumes_at,
                self.ends_at == old(self).ends_at,
                self.announced_end == old(self).announced_end,
                self.sample_rate == old(self).sample_rate,
                self.awaiting_flush == old(self).awaiting_flush,
                self.reported_starved == old(self).reported_starved,
            decreases self.marks.len() - k,
        {
            let mark = self.marks[k];
            self.marks.set(k, Mark { output_frame: mark.output_frame + resumes_at, source_ms: mark.source_ms });
            k = k + 1;
        }
        let mut h: usize = 0;
        while h < self.handovers.len()
            invariant
                h <= self.handovers@.len(),
                self.handovers@.len() == old(self).handovers@.len(),
                forall|j: int| 0 <= j < old(self).handovers@.len() ==> #[trigger] old(self).handovers@[j] + resumes_at <= u64::MAX,
                forall|j: int| 0 <= j < h ==> #[trigger] self.handovers@[j] == old(self).handovers@[j] + resumes_at,
                forall|j: int| h <= j < self.handovers@.len() ==> #[trigger] self.handovers@[j] == old(self).handovers@[j],
                self.marks@.len() == old(self).marks@.len(),
                forall|j: int| 0 <= j < old(self).marks@.len() ==> (#[trigger] self.marks@[j]) == moved(old(self).marks@[j], resumes_at),
                self.pushed == old(self).pushed + resumes_at,
                self.ends_at == old(self).ends_at,
                self.announced_end == old(self).announced_end,
                self.sample_rate == old(self).sample_rate,
                self.awaiting_flush == old(self).awaiting_flush,
                self.reported_starved == old(self).reported_starved,
            decreases self.handovers.len() - h,
        {
            let frame = self.handovers[h];
            self.handovers.set(h, frame + resumes_at);
            h = h + 1;
        }
        self.reported_starved = starved;
        self.awaiting_flush = None;
        true
    }

    /// Look at how far the device has played: the position, the following
    /// tracks rolled into, a shortfall worth telling (`notice_due` says
    /// whether enough time has passed since the last notice), and the end of
    /// the audio, announced once. Nothing is said while a seek waits for its
    /// flush.
    pub fn report(&mut self, played: u64, starved: u64, notice_due: bool) -> (p: Progress)
        requires
            old(self).wf(),
            played <= u64::MAX / 2000,
            starved <= u64::MAX / 1000,
        ensures
            final(self).wf(),
            final(self).sample_rate == old(self).sample_rate,
            final(self).pushed == old(self).pushed,
            final(self).awaiting_flush == old(self).awaiting_flush,
            final(self).ends_at == old(self).ends_at,
            old(self).awaiting_flush is Some ==> p == nothing_to_tell() && final(self).marks@ == old(self).marks@ && final(self).handovers@ == old(self).handovers@
                && final(self).announced_end == old(self).announced_end
                && final(self).reported_starved == old(self).reported_starved,
            old(self).awaiting_flush is None ==> {
                let kept = marks_kept(old(self).marks@, played);
                let passed = handovers_passed(old(self).handovers@, played);
                let starving = newly_starved(*old(self), played, starved);
                let ending = ends_now(*old(self), played);
                &&& final(self).marks@ == kept
                &&& p.position_ms == position_from(kept, played, old(self).sample_rate)
                &&& p.handovers_passed == passed
                &&& final(self).handovers@ == old(self).handovers@.skip(passed as int)
                &&& p.underrun_ms == if starving && notice_due {
                    Some(underrun_of(starved - old(self).reported_starved, old(self).sample_rate))
                } else {
                    None
                }
                &&& final(self).reported_starved == if starving {
                    starved
                } else {
                    old(self).reported_starved
                }
                &&& p.end_of_file == ending
                &&& final(self).announced_end == (old(self).announced_end || ending)
            },
    {
        let nothing = Progress { position_ms: None, handovers_passed: 0, underrun_ms: None, end_of_file: false };
        if self.awaiting_flush.is_some() {
            return nothing;
        }
        let ghost start = *self;
        while self.marks.len() > 1 && self.marks[1].output_frame <= played
            invariant
                self.wf(),
                marks_kept(self.marks@, played) == marks_kept(start.marks@, played),
                self.sample_rate == start.sample_rate,
                self.handovers@ == start.handovers@,
                self.pushed == start.pushed,
                self.awaiting_flush == start.awaiting_flush,
                self.ends_at == start.ends_at,
                self.announced_end == start.announced_end,
                self.reported_starved == start.reported_starved,
            decreases self.marks.len(),
        {
            let ghost before = self.marks@;
            self.marks.remove(0);
            assert(self.marks@ =~= before.drop_first());
        }
        let position_ms = if self.marks.len() > 0 && self.marks[0].output_frame <= played {
            let mark = self.marks[0];
            let elapsed = (played - mark.output_frame) * 1000 / (self.sample_rate as u64);
            Some(mark.source_ms + elapsed)
        } else {
            None
        };
        let mut passed: usize = 0;
        let total: usize = self.handovers.len();
        while self.handovers.len() > 0 && self.handovers[0] <= played
            invariant
                self.wf(),
                passed + self.handovers@.len() == total,
                total == start.handovers@.len(),
                self.handovers@ == start.handovers@.skip(passed as int),
                passed <= start.handovers@.len(),
                handovers_passed(start.handovers@, played) == passed + handovers_passed(self.handovers@, played),
                self.marks@ == marks_kept(start.marks@, played),
                self.sample_rate == start.sample_rate,
                self.pushed == start.pushed,
                self.awaiting_flush == start.awaiting_flush,
                self.ends_at == start.ends_at,
                self.announced_end == start.announced_end,
                self.reported_starved == start.reported_starved,
            decreases self.handovers.len(),
        {
            let ghost before = self.handovers@;
            self.handovers.remove(0);
            assert(self.handovers@ =~= before.drop_first());
            assert(start.handovers@.skip(passed + 1) =~= before.drop_first());
            passed = passed + 1;
        }
        let inside = match self.ends_at {
            Some(end) => played < end,
            None => true,
        };
        let mut underrun_ms: Option<u64> = None;
        if inside && starved > self.reported_starved {
            let missed = starved - self.reported_starved;
            if notice_due {
                let ms = missed * 1000 / (self.sample_rate as u64);
                underrun_ms = Some(if ms < 1 {
                    1
                } else {
                    ms
                });
            }
            self.reported_starved = starved;
        }
        let mut end_of_file = false;
        match self.ends_at {
            Some(end) => {
                if !self.announced_end && played >= end {
                    self.announced_end = true;
                    end_of_file = true;
                }
            },
            None => {},
        }
        Progress { position_ms, handovers_passed: passed, underrun_ms, end_of_file }
    }
}

/// A sample format an output device takes.
#[derive(Debug, Clone, Copy, PartialEq, Eq, Structural)]
pub enum SampleKind {
    F32,
    I32,
    I24,
    U24,
    I16,
    /// Any other format, which the output never asks for.
    Other,
}

/// One range of configurations an output device offers: a channel count, a
/// sample format, and every rate from `min_rate` to `max_rate`.
#[derive(Debug, Clone, Copy, PartialEq, Eq, Structural)]
pub struct DeviceConfig {
    pub channels: u16,
    pub min_rate: u32,
    pub max_rate: u32,
    pub kind: SampleKind,
}

/// What the output is opened with; `bits` is the depth of an integer
/// format, and `None` for floating point.
#[derive(Debug, Clone, Copy, PartialEq, Eq, Structural)]
pub struct OutputFormat {
    pub sample_rate: u32,
    pub channels: u16,
    pub bits: Option<u32>,
}

/// The rates worth asking a device about: devices advertise ranges, and
/// these are the points in them that music is distributed at.
pub const KNOWN_RATES: [u32; 18] = [
    8_000, 11_025, 12_000, 16_000, 22_050, 24_000, 32_000, 44_100, 48_000, 64_000, 88_200, 96_000,
    176_400, 192_000, 352_800, 384_000, 705_600, 768_000,
];

pub open spec fn known_rates() -> Seq<u32> {
    seq![
        8_000u32, 11_025, 12_000, 16_000, 22_050, 24_000, 32_000, 44_100, 48_000, 64_000, 88_200, 96_000,
        176_400, 192_000, 352_800, 384_000, 705_600, 768_000,
    ]
}

/// The formats worth taking, best first: floating point needs no
/// conversion, and after it the wider the integer the less rounding costs.
pub open spec fn format_order() -> Seq<(SampleKind, Option<u32>)> {
    seq![
        (SampleKind::F32, None),
        (SampleKind::I32, Some(32u32)),
        (SampleKind::I24, Some(24u32)),
        (SampleKind::U24, Some(24u32)),
        (SampleKind::I16, Some(16u32)),
    ]
}

/// Whether a configuration takes this rate, channel count and format.
pub open spec fn takes(c: DeviceConfig, rate: u32, channels: u16, kind: SampleKind) -> bool {
    c.channels == channels && c.min_rate <= rate && rate <= c.max_rate && c.kind == kind
}

/// Whether the device takes this rate, channel count and format.
pub open spec fn device_takes(configs: Seq<DeviceConfig>, rate: u32, channels: u16, kind: SampleKind) -> bool {
    exists|i: int| 0 <= i < configs.len() && takes(#[trigger] configs[i], rate, channels, kind)
}

/// The first format, from the `k`-th on, that the device takes.
pub open spec fn pick_from(configs: Seq<DeviceConfig>, rate: u32, channels: u16, k: int) -> Option<(SampleKind, Option<u32>)>
    decreases 5 - k,
{
    if k < 0 || k >= 5 {
        None
    } else if device_takes(configs, rate, channels, format_order()[k].0) {
        Some(format_order()[k])
    } else {
        pick_from(configs, rate, channels, k + 1)
    }
}

/// The best format the device offers for a stream, and its depth.
pub open spec fn pick_spec(configs: Seq<DeviceConfig>, rate: u32, channels: u16) -> Option<(SampleKind, Option<u32>)> {
    pick_from(configs, rate, channels, 0)
}

/// The known rates among the first `n` that the device offers for a
/// channel count.
pub open spec fn rates_from(configs: Seq<DeviceConfig>, channels: u16, n: int) -> Seq<u32>
    decreases n,
{
    if n <= 0 {
        seq![]
    } else {
        rates_from(configs, channels, n - 1) + if pick_spec(configs, known_rates()[n - 1], channels) is Some {
            seq![known_rates()[n - 1]]
        } else {
            seq![]
        }
    }
}

/// The known rates the device offers for a channel count.
pub open spec fn device_rates(configs: Seq<DeviceConfig>, channels: u16) -> Seq<u32> {
    rates_from(configs, channels, 18)
}

/// Whether the device offers this channel count at all.
pub open spec fn offers_channels(configs: Seq<DeviceConfig>, channels: u16) -> bool {
    exists|i: int| 0 <= i < configs.len() && (#[trigger] configs[i]).channels == channels
}

/// The channel count a file is played in on this device.
pub open spec fn device_channels(configs: Seq<DeviceConfig>, wanted: u16) -> Option<u16> {
    if offers_channels(configs, wanted) {
        Some(wanted)
    } else if wanted == 1 && offers_channels(configs, 2) {
        Some(2)
    } else {
        None
    }
}

fn format_at(k: usize) -> (f: (SampleKind, Option<u32>))
    requires
        k < 5,
    ensures
        f == format_order()[k as int],
{
    match k {
        0 => (SampleKind::F32, None),
        1 => (SampleKind::I32, Some(32)),
        2 => (SampleKind::I24, Some(24)),
        3 => (SampleKind::U24, Some(24)),
        _ => (SampleKind::I16, Some(16)),
    }
}

fn device_takes_exec(configs: &[DeviceConfig], rate: u32, channels: u16, kind: SampleKind) -> (b: bool)
    ensures
        b == device_takes(configs@, rate, channels, kind),
{
    let mut i: usize = 0;
    while i < configs.len()
        invariant
            i <= configs@.len(),
            forall|j: int| 0 <= j < i ==> !takes(#[trigger] configs@[j], rate, channels, kind),
        decreases configs.len() - i,
    {
        let c = configs[i];
        if c.channels == channels && c.min_rate <= rate && rate <= c.max_rate && c.kind == kind {
            assert(takes(configs@[i as int], rate, channels, kind));
            return true;
        }
        i = i + 1;
    }
    false
}

proof fn lemma_offered_rates_are_playable(configs: Seq<DeviceConfig>, channels: u16, n: int, rate: u32)
    requires
        n <= 18,
        rates_from(configs, channels, n).contains(rate),
    ensures
        pick_spec(configs, rate, channels) is Some,
    decreases n,
{
    if n > 0 {
        let before = rates_from(configs, channels, n - 1);
        let w = choose|w: int| 0 <= w < rates_from(configs, channels, n).len() && rates_from(configs, channels, n)[w] == rate;
        if w < before.len() {
            assert(rates_from(configs, channels, n)[w] == before[w]);
            assert(before.contains(rate));
            lemma_offered_rates_are_playable(configs, channels, n - 1, rate);
        }
    }
}

/// The best format this device offers for a stream, and its depth.
pub fn pick(configs: &[DeviceConfig], sample_rate: u32, channels: u16) -> (r: Option<(SampleKind, Option<u32>)>)
    ensures
        r == pick_spec(configs@, sample_rate, channels),
{
    let mut k: usize = 0;
    while k < 5
        invariant
            k <= 5,
            pick_spec(configs@, sample_rate, channels) == pick_from(configs@, sample_rate, channels, k as int),
        decreases 5 - k,
    {
        let format = format_at(k);
        if device_takes_exec(configs, sample_rate, channels, format.0) {
            return Some(format);
        }
        k = k + 1;
    }
    None
}

/// The channel counts this device offers, in increasing order, each once.
pub fn channel_counts(configs: &[DeviceConfig]) -> (counts: Vec<u16>)
    ensures
        forall|i: int, j: int| 0 <= i < j < counts@.len() ==> counts@[i] < counts@[j],
        forall|c: u16| counts@.contains(c) <==> offers_channels(configs@, c),
{
    let mut counts: Vec<u16> = Vec::new();
    let mut k: usize = 0;
    while k < configs.len()
        invariant
            k <= configs@.len(),
            forall|i: int, j: int| 0 <= i < j < counts@.len() ==> counts@[i] < counts@[j],
            forall|c: u16| counts@.contains(c) <==> exists|i: int| 0 <= i < k && (#[trigger] configs@[i]).channels == c,
        decreases configs.len() - k,
    {
        let x = configs[k].channels;
        let mut p: usize = 0;
        while p < counts.len() && counts[p] < x
            invariant
                p <= counts@.len(),
                forall|j: int| 0 <= j < p ==> counts@[j] < x,
            decreases counts.len() - p,
        {
            p = p + 1;
        }
        let ghost before = counts@;
        if p < counts.len() && counts[p] == x {
            assert forall|c: u16| before.contains(c) <==> exists|i: int| 0 <= i < k + 1 && (#[trigger] configs@[i]).channels == c by {
                if c == x {
                    assert(before[p as int] == x);
                    assert(configs@[k as int].channels == c);
                }
                if exists|i: int| 0 <= i < k + 1 && (#[trigger] configs@[i]).channels == c {
                    let i = choose|i: int| 0 <= i < k + 1 && (#[trigger] configs@[i]).channels == c;
                    if i < k {
                        assert(exists|i: int| 0 <= i < k && (#[trigger] configs@[i]).channels == c);
                    }
                }
            }
        } else {
            counts.insert(p, x);
            assert(counts@ == before.insert(p as int, x));
            assert forall|i: int, j: int| 0 <= i < j < counts@.len() implies counts@[i] < counts@[j] by {
                if j < p {
                    assert(counts@[i] == before[i] && counts@[j] == before[j]);
                } else if j == p {
                    assert(counts@[i] == before[i]);
                } else if i < p {
                    assert(counts@[i] == before[i] && counts@[j] == before[j - 1]);
                    if j - 1 > p {
                        assert(before[p as int] < before[j - 1]);
                    }
                    assert(before[p as int] >= x);
                    assert(before[p as int] != x);
                } else if i == p {
                    assert(counts@[j] == before[j - 1]);
                    assert(before[p as int] > x || j - 1 > p);
                    if j - 1 > p {
                        assert(before[p as int] < before[j - 1]);
                    }
                } else {
                    assert(counts@[i] == before[i - 1] && counts@[j] == before[j - 1]);
                }
            }
            assert forall|c: u16| counts@.contains(c) <==> exists|i: int| 0 <= i < k + 1 && (#[trigger] configs@[i]).channels == c by {
                if counts@.contains(c) {
                    let w = choose|w: int| 0 <= w < counts@.len() && counts@[w] == c;
                    if w < p {
                        assert(before[w] == c);
                        assert(before.contains(c));
                    } else if w > p {
                        assert(before[w - 1] == c);
                        assert(before.contains(c));
                    } else {
                        assert(configs@[k as int].channels == c);
                    }
                }
                if exists|i: int| 0 <= i < k + 1 && (#[trigger] configs@[i]).channels == c {
                    let i = choose|i: int| 0 <= i < k + 1 && (#[trigger] configs@[i]).channels == c;
                    if i < k {
                        assert(exists|i: int| 0 <= i < k && (#[trigger] configs@[i]).channels == c);
                        assert(before.contains(c));
                        let w = choose|w: int| 0 <= w < before.len() && before[w] == c;
                        if w < p {
                            assert(counts@[w] == c);
                        } else {
                            assert(counts@[w + 1] == c);
                        }
                    } else {
                        assert(counts@[p as int] == c);
                    }
                }
            }
        }
        k = k + 1;
    }
    counts
}

/// The known rates this device offers for a channel count, in increasing
/// order.
pub fn rates(configs: &[DeviceConfig], channels: u16) -> (r: Vec<u32>)
    ensures
        r@ == device_rates(configs@, channels),
{
    let mut out: Vec<u32> = Vec::new();
    let mut n: usize = 0;
    while n < 18
        invariant
            n <= 18,
            out@ == rates_from(configs@, channels, n as int),
        decreases 18 - n,
    {
        let rate = KNOWN_RATES[n];
        assert(rate == known_rates()[n as int]);
        if pick(configs, rate, channels).is_some() {
            out.push(rate);
        }
        n = n + 1;
    }
    out
}

/// The format a stream is played in on this device: its channels if the
/// device has them (or two for mono), a rate as `choose_rate` picks among
/// the known rates the device offers for those channels, and the best
/// sample format at that rate. `None` where the device cannot play it.
pub fn negotiate(configs: &[DeviceConfig], source: StreamSpec) -> (r: Option<OutputFormat>)
    requires
        source.sample_rate > 0,
    ensures
        ({
            let wanted = if source.channels == 0 {
                1u16
            } else {
                source.channels
            };
            match r {
                Some(f) => {
                    &&& device_channels(configs@, wanted) == Some(f.channels)
                    &&& rate_choice(source.sample_rate, device_rates(configs@, f.channels), Some(f.sample_rate))
                    &&& pick_spec(configs@, f.sample_rate, f.channels) matches Some(p) && p.1 == f.bits
                },
                None => match device_channels(configs@, wanted) {
                    Some(c) => device_rates(configs@, c).len() == 0,
                    None => true,
                },
            }
        }),
{
    let wanted: u16 = if source.channels == 0 {
        1
    } else {
        source.channels
    };
    let counts = channel_counts(configs);
    assert(counts@.contains(wanted) == offers_channels(configs@, wanted));
    assert(counts@.contains(2u16) == offers_channels(configs@, 2u16));
    let channels = match choose_channels(wanted, &counts) {
        Some(c) => c,
        None => {
            return None;
        },
    };
    let available = rates(configs, channels);
    let sample_rate = match choose_rate(source.sample_rate, &available) {
        Some(rate) => rate,
        None => {
            return None;
        },
    };
    proof {
        lemma_offered_rates_are_playable(configs@, channels, 18, sample_rate);
    }
    let bits = match pick(configs, sample_rate, channels) {
        Some(p) => p.1,
        None => {
            return None;
        },
    };
    Some(OutputFormat { sample_rate, channels, bits })
}
/// How much audio, in milliseconds, the ring between the engine and the
/// device holds.
pub const BUFFER_MS: u64 = 500;

/// How a track is carried to the device once its format is agreed.
#[derive(Debug, Clone, Copy, PartialEq, Eq, Structural)]
pub struct StreamPlan {
    /// A mono file going to a device that only does stereo: each sample is
    /// written to both channels.
    pub duplicate: bool,
    /// Nothing is converted that bit-perfect playback rules out: bit-perfect
    /// is off, or the device takes the file's own rate and channel count.
    pub untouched: bool,
    /// The device would not take the file's rate, so it is resampled.
    pub resample: bool,
    /// Bit-perfect playback holds for this track.
    pub bit_perfect: bool,
    /// Samples the ring holds: `BUFFER_MS` of audio at the output's rate,
    /// over all its channels.
    pub capacity: usize,
}

/// The file's channel count, a file claiming none taken as mono.
pub open spec fn source_channels(source: StreamSpec) -> u16 {
    if source.channels == 0 {
        1
    } else {
        source.channels
    }
}

/// Samples a ring of `BUFFER_MS` holds at an output format.
pub open spec fn ring_capacity(format: OutputFormat) -> int {
    (format.sample_rate * BUFFER_MS / 1000) * format.channels
}

/// How a track in `source` is carried to a device playing `format`, with
/// bit-perfect playback asked for or not. A bit-perfect request that the
/// device cannot honour is dropped for this track only.
pub fn plan_stream(source: StreamSpec, format: OutputFormat, bit_perfect: bool) -> (p: StreamPlan)
    requires
        ring_capacity(format) <= usize::MAX,
    ensures
        p.duplicate == (format.channels == 2 && source_channels(source) == 1),
        p.untouched == (!bit_perfect || (format.sample_rate == source.sample_rate && format.channels
            == source_channels(source))),
        p.resample == (format.sample_rate != source.sample_rate),
        p.bit_perfect == (bit_perfect && p.untouched),
        p.capacity == ring_capacity(format),
{
    let channels: u16 = if source.channels == 0 {
        1
    } else {
        source.channels
    };
    let duplicate = format.channels == 2 && channels == 1;
    let untouched = !bit_perfect || (format.sample_rate == source.sample_rate && format.channels == channels);
    let frames: u64 = (format.sample_rate as u64) * BUFFER_MS / 1000;
    assert(frames * format.channels == ring_capacity(format));
    assert(frames * format.channels <= usize::MAX);
    let capacity: usize = (frames as usize) * (format.channels as usize);
    StreamPlan {
        duplicate,
        untouched,
        resample: format.sample_rate != source.sample_rate,
        bit_perfect: bit_perfect && untouched,
        capacity,
    }
}

} // verus!
