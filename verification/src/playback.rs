//! The decode/buffer engine: a pull interface over a compressed stream.
//!
//! A `Playback` owns the demuxer and decoder of one track plus a reusable
//! window of interleaved `i16` samples.  Consecutive global sample indices
//! are served from the window; an index beyond it triggers refills, which
//! decode one packet at a time and slide the window forward.  The window
//! only ever moves forward: an index below it is a contract violation.
//!
//! Position, speed and volume are `FP`-scaled fixed-point values: `FP`
//! stands for `1.0`.  The position counts frames; speed is the position
//! step per output frame; volume scales sample amplitude.

use vstd::prelude::*;
use crate::error::Error;
use crate::log::{Log, LogEntry, LogMessage};
use crate::media;
use crate::media::{Decoded, TrackMeta};
use crate::smooth::{interp, Smooth};

verus! {

/// Fixed-point scale: the representation of `1.0`.
pub const FP: u64 = 65536;

/// Seconds stepped per unit of `skip`'s multiplier.
pub const SKIP_SECS: u64 = 5;

/// Cap on refills within one lookup, so a stream that keeps yielding empty
/// blocks cannot hang the real-time callback.
pub const MAX_LOOKUP_REFILLS: usize = 64;

/// Cap on packets examined within one refill, for the same reason.
pub const MAX_REFILL_PACKETS: usize = 4096;

/// The track chosen at open time, with the metadata the pipeline needs.
#[derive(Clone, Copy, Debug, PartialEq, Eq)]
pub struct SelectedTrack {
    pub index: usize,
    pub id: u32,
    pub sample_rate: u32,
    pub channels: usize,
    pub total_frames: u64,
}

/// The checks applied to the chosen track: every piece of metadata must be
/// present and usable, or opening fails fast.
pub open spec fn validate_track(t: TrackMeta, index: int) -> Result<SelectedTrack, Error> {
    match t.sample_rate {
        None => Err(Error::NoSampleRate),
        Some(sample_rate) => if sample_rate == 0 {
            Err(Error::NoSampleRate)
        } else {
            match t.channels {
                None => Err(Error::NoChannels),
                Some(channels) => if channels == 0 {
                    Err(Error::NoChannels)
                } else {
                    match t.n_frames {
                        None => Err(Error::NoFrames),
                        Some(total_frames) => if total_frames == 0 {
                            Err(Error::NoFrames)
                        } else {
                            Ok(SelectedTrack {
                                index: index as usize,
                                id: t.id,
                                sample_rate,
                                channels,
                                total_frames,
                            })
                        },
                    }
                },
            }
        },
    }
}

/// What track selection returns when started at index `i`: the first track
/// from `i` on whose codec is supported, validated, or `NoTrack` when none
/// is left.
pub open spec fn select_from(tracks: Seq<TrackMeta>, i: int) -> Result<SelectedTrack, Error>
    decreases tracks.len() - i,
{
    if i < 0 || i >= tracks.len() {
        Err(Error::NoTrack)
    } else if tracks[i].has_codec {
        validate_track(tracks[i], i)
    } else {
        select_from(tracks, i + 1)
    }
}

/// Pick the first track with a supported codec and validate its metadata.
pub fn select_track(tracks: &Vec<TrackMeta>) -> (r: Result<SelectedTrack, Error>)
    ensures
        r == select_from(tracks@, 0),
        r matches Ok(s) ==> {
            &&& s.sample_rate >= 1
            &&& s.channels >= 1
            &&& s.total_frames >= 1
            &&& s.index < tracks@.len()
        },
        r matches Err(e) ==> (e is NoTrack || e is NoSampleRate || e is NoChannels
            || e is NoFrames),
{
    let n = tracks.len();
    let mut i: usize = 0;
    while i < n
        invariant
            n == tracks@.len(),
            i <= n,
            select_from(tracks@, 0) == select_from(tracks@, i as int),
            forall|j: int| 0 <= j < i ==> !tracks@[j].has_codec,
        decreases n - i,
    {
        let t = &tracks[i];
        if t.has_codec {
            let sample_rate = match t.sample_rate {
                Some(v) => v,
                None => return Err(Error::NoSampleRate),
            };
            if sample_rate == 0 {
                return Err(Error::NoSampleRate);
            }
            let channels = match t.channels {
                Some(v) => v,
                None => return Err(Error::NoChannels),
            };
            if channels == 0 {
                return Err(Error::NoChannels);
            }
            let total_frames = match t.n_frames {
                Some(v) => v,
                None => return Err(Error::NoFrames),
            };
            if total_frames == 0 {
                return Err(Error::NoFrames);
            }
            return Ok(SelectedTrack { index: i, id: t.id, sample_rate, channels, total_frames });
        }
        i += 1;
    }
    Err(Error::NoTrack)
}

/// Where the position lands after a skip of `mult` steps: the signed step
/// `mult * SKIP_SECS * sample_rate` frames (`FP`-scaled) is added and the
/// result clamped to the representable range, in particular never below
/// zero.
pub open spec fn skip_target(pos: int, mult: int, sample_rate: int) -> int {
    let t = pos + mult * (SKIP_SECS as int) * sample_rate * (FP as int);
    if t < 0 {
        0
    } else if t > u64::MAX {
        u64::MAX as int
    } else {
        t
    }
}

/// A sample scaled by an `FP`-scaled volume: the magnitude is multiplied,
/// truncated toward zero and saturated to the `i16` range.
pub open spec fn scaled_sample(s: int, vol: int) -> int {
    let mag = if s >= 0 {
        s
    } else {
        -s
    };
    let scaled = mag * vol / (FP as int);
    if s >= 0 {
        if scaled > i16::MAX {
            i16::MAX as int
        } else {
            scaled
        }
    } else {
        if scaled > 32768 {
            -32768
        } else {
            -scaled
        }
    }
}

/// Multiply one sample by an `FP`-scaled volume factor.
pub fn scale_sample(s: i16, vol: u64) -> (r: i16)
    ensures
        r == scaled_sample(s as int, vol as int),
{
    let mag: u64 = if s >= 0 {
        s as u64
    } else {
        (-(s as i32)) as u64
    };
    proof {
        assert((mag as u128) * (vol as u128) <= 0x10000u128 * 0xFFFF_FFFF_FFFF_FFFFu128)
            by (nonlinear_arith)
            requires
                mag as u128 <= 0x10000u128,
                vol as u128 <= 0xFFFF_FFFF_FFFF_FFFFu128,
        ;
    }
    let scaled: u128 = (mag as u128) * (vol as u128) / (FP as u128);
    if s >= 0 {
        if scaled > (i16::MAX as u128) {
            i16::MAX
        } else {
            scaled as i16
        }
    } else {
        if scaled > 32768 {
            i16::MIN
        } else {
            (-(scaled as i32)) as i16
        }
    }
}

/// The whole-second time a position corresponds to: the frame count, with
/// its fractional part discarded, divided by the sample rate.  This is the
/// time a skip hands to the demuxer's coarse seek.
pub fn seek_seconds(pos: u64, rate: u32) -> (s: u64)
    requires
        rate >= 1,
    ensures
        s as int == pos as int / (FP as int) / (rate as int),
{
    pos / FP / (rate as u64)
}

/// `a + b`, saturating at `u64::MAX`.
pub open spec fn sat_add_u64(a: int, b: int) -> int {
    if a + b > u64::MAX {
        u64::MAX as int
    } else {
        a + b
    }
}

/// The playback position after the first `i` of `frames` output frames,
/// each advancing it by the speed interpolated at that frame's fraction of
/// the region.
pub open spec fn advanced_position(pos: int, speed: Smooth, i: int, frames: int) -> int
    decreases i,
{
    if i <= 0 {
        pos
    } else {
        sat_add_u64(
            advanced_position(pos, speed, i - 1, frames),
            interp(speed.from_val() as int, speed.to_val() as int, i - 1, frames),
        )
    }
}

/// Global index of the first sample of the frame `pos` points into (the
/// fractional part of the position is discarded), saturated to the
/// machine's index range.
pub open spec fn frame_base_index(pos: int, channels: int) -> int {
    let b = (pos / (FP as int)) * channels;
    if b > usize::MAX {
        usize::MAX as int
    } else {
        b
    }
}

/// Compute `frame_base_index` on machine integers.
pub fn frame_base_of(pos: u64, channels: usize) -> (r: usize)
    ensures
        r == frame_base_index(pos as int, channels as int),
{
    let frames: u64 = pos / FP;
    proof {
        assert((frames as u128) * (channels as u128)
            <= 0xFFFF_FFFF_FFFF_FFFE_0000_0000_0000_0001u128) by (nonlinear_arith)
            requires
                frames as u128 <= 0xFFFF_FFFF_FFFF_FFFFu128,
                channels as u128 <= 0xFFFF_FFFF_FFFF_FFFFu128,
        ;
    }
    let b: u128 = (frames as u128) * (channels as u128);
    if b > (usize::MAX as u128) {
        usize::MAX
    } else {
        b as usize
    }
}

/// The global sample index channel `c` of output frame `f` reads, given
/// the engine state at the start of the region.
pub open spec fn region_index(p: Playback, f: int, c: int, frames: int) -> int {
    let b = frame_base_index(
        advanced_position(p.position_val() as int, p.speed_val(), f, frames),
        p.channels_val() as int,
    );
    if b + c > usize::MAX {
        usize::MAX as int
    } else {
        b + c
    }
}

/// Whether a whole `frames`-frame region lies inside `p`'s current window,
/// so that filling it needs no refill.
pub open spec fn region_in_window(p: Playback, frames: int) -> bool {
    forall|f: int, c: int|
        0 <= f < frames && 0 <= c < p.channels_val() ==> p.offset_val()
            <= #[trigger] region_index(p, f, c, frames) < p.offset_val()
            + p.buffer_view().len()
}

/// A log entry that neither reports a misaligned output region nor a
/// failed lookup: the kinds only the callback itself emits.
pub open spec fn benign_entry(e: LogEntry) -> bool {
    &&& !(e.message is MisalignedOutput)
    &&& !(e.message is LookupFailed)
}

/// `new` is `base` with only benign entries appended.
pub open spec fn logs_extended_from(new: Seq<LogEntry>, base: Seq<LogEntry>) -> bool {
    &&& base.len() <= new.len()
    &&& new.subrange(0, base.len() as int) == base
    &&& forall|j: int| base.len() <= j < new.len() ==> benign_entry(#[trigger] new[j])
}

pub proof fn lemma_extended_refl(s: Seq<LogEntry>)
    ensures
        logs_extended_from(s, s),
{
    assert(s.subrange(0, s.len() as int) =~= s);
}

pub proof fn lemma_extended_push(s: Seq<LogEntry>, base: Seq<LogEntry>, e: LogEntry)
    requires
        logs_extended_from(s, base),
        benign_entry(e),
    ensures
        logs_extended_from(s.push(e), base),
{
    assert(s.push(e).subrange(0, base.len() as int) =~= base);
    assert forall|j: int| base.len() <= j < s.push(e).len() implies benign_entry(
        #[trigger] s.push(e)[j],
    ) by {
        if j < s.len() {
            assert(s.push(e)[j] == s[j]);
        } else {
            assert(s.push(e)[j] == e);
        }
    }
}

pub proof fn lemma_extended_trans(c: Seq<LogEntry>, b: Seq<LogEntry>, a: Seq<LogEntry>)
    requires
        logs_extended_from(c, b),
        logs_extended_from(b, a),
    ensures
        logs_extended_from(c, a),
{
    assert forall|j: int| 0 <= j < b.len() implies c[j] == b[j] by {
        assert(c.subrange(0, b.len() as int)[j] == c[j]);
    }
    assert(c.subrange(0, a.len() as int) =~= a);
    assert forall|j: int| a.len() <= j < c.len() implies benign_entry(#[trigger] c[j]) by {
        if j < b.len() {
            assert(c[j] == b[j]);
            assert(benign_entry(b[j]));
        }
    }
}

/// Prefix chains compose: if `b` extends `a` and `c` extends `b`, then `c`
/// extends `a`, elementwise.
pub proof fn lemma_prefix_trans(c: Seq<LogEntry>, b: Seq<LogEntry>, a: Seq<LogEntry>)
    requires
        a.len() <= b.len(),
        b.len() <= c.len(),
        b.subrange(0, a.len() as int) == a,
        c.subrange(0, b.len() as int) == b,
    ensures
        c.subrange(0, a.len() as int) == a,
        forall|j: int| 0 <= j < b.len() ==> c[j] == b[j],
{
    assert forall|j: int| 0 <= j < b.len() implies c[j] == b[j] by {
        assert(c.subrange(0, b.len() as int)[j] == c[j]);
    }
    assert(c.subrange(0, a.len() as int) =~= a);
}

/// Benign entries appended by refills keep the callback's log discipline:
/// the running prefix survives, and any misaligned or lookup-failure entry
/// in the tail already stood there before.
pub proof fn lemma_benign_range_keeps_discipline(
    new: Seq<LogEntry>,
    pre: Seq<LogEntry>,
    logs1: Seq<LogEntry>,
)
    requires
        logs_extended_from(new, pre),
        logs1.len() <= pre.len(),
        pre.subrange(0, logs1.len() as int) == logs1,
    ensures
        logs1.len() <= new.len(),
        new.subrange(0, logs1.len() as int) == logs1,
        forall|j: int| 0 <= j < pre.len() ==> new[j] == pre[j],
        forall|j: int|
            logs1.len() <= j < new.len() && (#[trigger] new[j].message is MisalignedOutput)
                ==> (j < pre.len() && pre[j].message is MisalignedOutput),
        forall|j: int|
            logs1.len() <= j < new.len() && (#[trigger] new[j].message is LookupFailed) ==> (j
                < pre.len() && pre[j].message is LookupFailed),
{
    lemma_prefix_trans(new, pre, logs1);
}

/// Pushing one lookup-failure entry keeps the discipline: the prefix
/// survives, no misaligned entry appears, and the new index is the only
/// place a lookup-failure entry can newly stand.
pub proof fn lemma_failure_push_keeps_discipline(
    before: Seq<LogEntry>,
    e: LogEntry,
    logs1: Seq<LogEntry>,
)
    requires
        logs1.len() <= before.len(),
        before.subrange(0, logs1.len() as int) == logs1,
        !(e.message is MisalignedOutput),
    ensures
        before.push(e).subrange(0, logs1.len() as int) == logs1,
        forall|j: int| 0 <= j < before.len() ==> before.push(e)[j] == before[j],
        before.push(e)[before.len() as int] == e,
        forall|j: int|
            logs1.len() <= j < before.push(e).len() && (#[trigger] before.push(
                e,
            )[j].message is MisalignedOutput) ==> (j < before.len()
                && before[j].message is MisalignedOutput),
        forall|j: int|
            logs1.len() <= j < before.push(e).len() && (#[trigger] before.push(
                e,
            )[j].message is LookupFailed) ==> (j == before.len() || (j < before.len()
                && before[j].message is LookupFailed)),
{
    assert(before.push(e).subrange(0, logs1.len() as int) =~= logs1);
}

/// The streaming engine of one track.
pub struct Playback {
    reader: media::Reader,
    codec: media::Codec,
    buffer: Vec<i16>,
    track_id: u32,
    pub sample_rate: u32,
    pub channels: usize,
    offset: usize,
    position: u64,
    total_frames: u64,
    pub speed: Smooth,
    pub volume: Smooth,
    pub end: bool,
    /// Queued log events, drained and rendered by the host outside the
    /// real-time deadline.
    pub logs: Vec<LogEntry>,
}

impl Playback {
    /// The interleaved samples currently windowed.
    pub closed spec fn buffer_view(&self) -> Seq<i16> {
        self.buffer@
    }

    /// Global sample index of the window's first element.
    pub closed spec fn offset_val(&self) -> usize {
        self.offset
    }

    /// Playback position in `FP`-scaled frames.
    pub closed spec fn position_val(&self) -> u64 {
        self.position
    }

    /// Total frames of the track, as reported at open time.
    pub closed spec fn total_frames_val(&self) -> u64 {
        self.total_frames
    }

    /// Id of the selected track.
    pub closed spec fn track_id_val(&self) -> u32 {
        self.track_id
    }

    /// Sample rate of the selected track.
    pub closed spec fn sample_rate_val(&self) -> u32 {
        self.sample_rate
    }

    /// Channel count of the selected track.
    pub closed spec fn channels_val(&self) -> usize {
        self.channels
    }

    /// The speed smoother.
    pub closed spec fn speed_val(&self) -> Smooth {
        self.speed
    }

    /// The volume smoother.
    pub closed spec fn volume_val(&self) -> Smooth {
        self.volume
    }

    /// The end-of-stream flag.
    pub closed spec fn end_val(&self) -> bool {
        self.end
    }

    /// The queued log events.
    pub closed spec fn logs_view(&self) -> Seq<LogEntry> {
        self.logs@
    }

    /// Well-formedness: the metadata is usable and the window fits the
    /// machine's index range.
    pub open spec fn wf(&self) -> bool {
        &&& self.sample_rate_val() >= 1
        &&& self.channels_val() >= 1
        &&& self.total_frames_val() >= 1
        &&& self.offset_val() + self.buffer_view().len() <= usize::MAX
    }

    /// The fields refills and lookups never touch.
    pub open spec fn control_unchanged(&self, other: &Self) -> bool {
        &&& self.position_val() == other.position_val()
        &&& self.end_val() == other.end_val()
        &&& self.speed_val() == other.speed_val()
        &&& self.volume_val() == other.volume_val()
        &&& self.sample_rate_val() == other.sample_rate_val()
        &&& self.channels_val() == other.channels_val()
        &&& self.total_frames_val() == other.total_frames_val()
        &&& self.track_id_val() == other.track_id_val()
    }

    /// The given entries were appended to `base`'s log queue, and none of
    /// them is one of the callback-owned kinds.
    pub open spec fn logs_extended(&self, base: Seq<LogEntry>) -> bool {
        logs_extended_from(self.logs_view(), base)
    }

    /// Open a probed stream: select a track, build its decoder, and adopt
    /// the caller's reclaimed sample buffer (or start with an empty one).
    pub fn new(
        mss: symphonia::core::io::MediaSourceStream,
        buffer: Option<Vec<i16>>,
    ) -> (r: Result<Playback, Error>)
        ensures
            r matches Ok(p) ==> {
                &&& p.wf()
                &&& p.offset_val() == 0
                &&& p.position_val() == 0
                &&& !p.end_val()
                &&& p.speed_val().from_val() == FP && p.speed_val().to_val() == FP
                &&& p.volume_val().from_val() == FP / 4 && p.volume_val().to_val() == FP / 4
                &&& p.logs_view() =~= Seq::<LogEntry>::empty()
                &&& (match buffer {
                    Some(b) => p.buffer_view() == b@,
                    None => p.buffer_view() =~= Seq::<i16>::empty(),
                })
            },
            r matches Err(e) ==> (e is Probe || e is NoTrack || e is NoSampleRate
                || e is NoChannels || e is NoFrames || e is Decoder),
    {
        let reader = match media::probe(mss) {
            Ok(v) => v,
            Err(m) => return Err(Error::Probe(m)),
        };
        let tracks = media::track_list(&reader);
        let sel = match select_track(&tracks) {
            Ok(s) => s,
            Err(e) => return Err(e),
        };
        let codec = match media::make_decoder(&reader, sel.index) {
            Ok(c) => c,
            Err(m) => return Err(Error::Decoder(m)),
        };
        let buf = match buffer {
            Some(b) => b,
            None => Vec::new(),
        };
        proof {
            broadcast use vstd::std_specs::vec::axiom_spec_len;

            assert(buf@.len() == buf.len());
        }
        Ok(Playback {
            reader,
            codec,
            buffer: buf,
            track_id: sel.id,
            sample_rate: sel.sample_rate,
            channels: sel.channels,
            offset: 0,
            position: 0,
            total_frames: sel.total_frames,
            speed: Smooth::new(FP),
            volume: Smooth::new(FP / 4),
            end: false,
            logs: Vec::new(),
        })
    }

    /// Whether `index` lies at or beyond the current window.
    pub fn needs_refill(&self, index: usize) -> (r: bool)
        requires
            self.wf(),
        ensures
            r == (self.offset_val() + self.buffer_view().len() <= index),
    {
        self.offset + self.buffer.len() <= index
    }

    /// Install one decoded block: the window slides past the superseded
    /// buffer, whose place the block takes.  A block of a different size
    /// means the buffer is reallocated, which is reported through the log
    /// queue.
    pub fn apply_block(&mut self, samples: Vec<i16>) -> (r: Result<(), Error>)
        requires
            old(self).wf(),
        ensures
            final(self).wf(),
            final(self).control_unchanged(old(self)),
            r is Ok ==> {
                &&& final(self).offset_val() == old(self).offset_val()
                    + old(self).buffer_view().len()
                &&& final(self).buffer_view() == samples@
                &&& (samples@.len() != old(self).buffer_view().len() ==> final(self).logs_view()
                    =~= old(self).logs_view().push(
                    (LogEntry {
                        kind: Log::Info,
                        message: LogMessage::BufferResized {
                            before: old(self).buffer_view().len() as usize,
                            after: samples@.len() as usize,
                        },
                    }),
                ))
                &&& (samples@.len() == old(self).buffer_view().len() ==> final(self).logs_view()
                    == old(self).logs_view())
            },
            r is Err ==> {
                &&& r == Err::<(), Error>(Error::Overflow)
                &&& final(self).offset_val() == old(self).offset_val()
                &&& final(self).buffer_view() == old(self).buffer_view()
                &&& final(self).logs_view() == old(self).logs_view()
            },
            (r is Err) <==> (old(self).offset_val() + old(self).buffer_view().len()
                + samples@.len() > usize::MAX),
            final(self).logs_extended(old(self).logs_view()),
            final(self).offset_val() >= old(self).offset_val(),
    {
        let new_off = self.offset + self.buffer.len();
        if samples.len() > usize::MAX - new_off {
            proof {
                lemma_extended_refl(self.logs@);
            }
            return Err(Error::Overflow);
        }
        if samples.len() != self.buffer.len() {
            let entry = (LogEntry {
                kind: Log::Info,
                message: LogMessage::BufferResized {
                    before: self.buffer.len(),
                    after: samples.len(),
                },
            });
            proof {
                lemma_extended_refl(self.logs@);
                lemma_extended_push(self.logs@, self.logs@, entry);
            }
            self.logs.push(entry);
        } else {
            proof {
                lemma_extended_refl(self.logs@);
            }
        }
        self.offset = new_off;
        self.buffer = samples;
        Ok(())
    }

    /// Pull packets until one decodes for the selected track, then install
    /// the decoded block.  Packets of other tracks are skipped, stale
    /// metadata revisions are drained, and transient decode errors are
    /// logged and skipped; unrecoverable errors end the track.
    pub fn refill(&mut self) -> (r: Result<(), Error>)
        requires
            old(self).wf(),
        ensures
            final(self).wf(),
            final(self).control_unchanged(old(self)),
            final(self).logs_extended(old(self).logs_view()),
            final(self).offset_val() >= old(self).offset_val(),
            r is Ok ==> final(self).offset_val() == old(self).offset_val()
                + old(self).buffer_view().len(),
            r is Err ==> {
                &&& final(self).offset_val() == old(self).offset_val()
                &&& final(self).buffer_view() == old(self).buffer_view()
            },
            r matches Err(e) ==> (e is Stream || e is Decoder || e is Stalled || e is Overflow),
    {
        let mut tries: usize = 0;
        proof {
            lemma_extended_refl(self.logs@);
        }
        while tries < MAX_REFILL_PACKETS
            invariant
                self.wf(),
                self.control_unchanged(old(self)),
                self.logs_extended(old(self).logs_view()),
                self.offset_val() == old(self).offset_val(),
                self.buffer_view() == old(self).buffer_view(),
            decreases MAX_REFILL_PACKETS - tries,
        {
            tries += 1;
            let packet = match media::next_packet(&mut self.reader) {
                Ok(p) => p,
                Err(m) => return Err(Error::Stream(m)),
            };
            media::drain_stale_metadata(&mut self.reader);
            if packet.track_id() != self.track_id {
                continue;
            }
            match media::decode_packet(&mut self.codec, &packet) {
                Decoded::Block(samples) => {
                    let ghost pre = self.logs@;
                    let r = self.apply_block(samples);
                    proof {
                        lemma_extended_trans(self.logs@, pre, old(self).logs_view());
                    }
                    return r;
                },
                Decoded::TransientIo(m) => {
                    let entry = (LogEntry {
                        kind: Log::Warning,
                        message: LogMessage::TransientIo(m),
                    });
                    proof {
                        lemma_extended_push(self.logs@, old(self).logs_view(), entry);
                    }
                    self.logs.push(entry);
                },
                Decoded::TransientDecode(m) => {
                    let entry = (LogEntry {
                        kind: Log::Warning,
                        message: LogMessage::TransientDecode(m),
                    });
                    proof {
                        lemma_extended_push(self.logs@, old(self).logs_view(), entry);
                    }
                    self.logs.push(entry);
                },
                Decoded::Fatal(m) => {
                    return Err(Error::Decoder(m));
                },
            }
        }
        Err(Error::Stalled)
    }

    /// The sample at global index `index`.
    ///
    /// Indices must be requested monotonically: an index below the window
    /// fails with `Internal` and changes nothing.  An index at or beyond
    /// the window triggers refills (at most `MAX_LOOKUP_REFILLS`) until the
    /// window covers it; an index already inside the window is served with
    /// no refill at all, so consecutive lookups never re-decode a packet.
    pub fn get(&mut self, index: usize) -> (r: Result<i16, Error>)
        requires
            old(self).wf(),
        ensures
            final(self).wf(),
            final(self).control_unchanged(old(self)),
            final(self).logs_extended(old(self).logs_view()),
            final(self).offset_val() >= old(self).offset_val(),
            index < old(self).offset_val() ==> {
                &&& r == Err::<i16, Error>(Error::Internal)
                &&& final(self).offset_val() == old(self).offset_val()
                &&& final(self).buffer_view() == old(self).buffer_view()
                &&& final(self).logs_view() == old(self).logs_view()
            },
            old(self).offset_val() <= index < old(self).offset_val()
                + old(self).buffer_view().len() ==> {
                &&& r == Ok::<i16, Error>(
                    old(self).buffer_view()[index - old(self).offset_val()],
                )
                &&& final(self).offset_val() == old(self).offset_val()
                &&& final(self).buffer_view() == old(self).buffer_view()
                &&& final(self).logs_view() == old(self).logs_view()
            },
            r matches Ok(s) ==> {
                &&& final(self).offset_val() <= index < final(self).offset_val()
                    + final(self).buffer_view().len()
                &&& s == final(self).buffer_view()[index - final(self).offset_val()]
            },
            r matches Err(e) ==> (e is Internal || e is Stream || e is Decoder || e is Stalled
                || e is Overflow),
    {
        let mut attempts: usize = 0;
        proof {
            lemma_extended_refl(self.logs@);
        }
        loop
            invariant
                self.wf(),
                self.control_unchanged(old(self)),
                self.logs_extended(old(self).logs_view()),
                self.offset_val() >= old(self).offset_val(),
                attempts == 0 ==> {
                    &&& self.offset_val() == old(self).offset_val()
                    &&& self.buffer_view() == old(self).buffer_view()
                    &&& self.logs_view() == old(self).logs_view()
                },
                attempts > 0 ==> index >= old(self).offset_val() + old(
                    self,
                ).buffer_view().len(),
                attempts <= MAX_LOOKUP_REFILLS,
            decreases MAX_LOOKUP_REFILLS - attempts,
        {
            if self.needs_refill(index) {
                if attempts >= MAX_LOOKUP_REFILLS {
                    return Err(Error::Stalled);
                }
                attempts += 1;
                let ghost pre = self.logs@;
                match self.refill() {
                    Ok(()) => {
                        proof {
                            lemma_extended_trans(self.logs@, pre, old(self).logs_view());
                        }
                    },
                    Err(e) => {
                        proof {
                            lemma_extended_trans(self.logs@, pre, old(self).logs_view());
                        }
                        return Err(e);
                    },
                }
            } else if index < self.offset {
                return Err(Error::Internal);
            } else {
                return Ok(self.buffer[index - self.offset]);
            }
        }
    }

    /// Skip by `mult` steps of `SKIP_SECS` seconds, clamping the position
    /// at zero however far back the step reaches, recomputing the window
    /// offset from the new position, coarsely seeking the stream to the
    /// whole-second time `seek_seconds(new position, sample rate)` scoped
    /// to the selected track, and resetting the decoder.  On a seek
    /// failure playback continues from wherever the position counter
    /// already is, uncorrected.
    ///
    /// Seeking is undefined in the decoding library when a stream's total
    /// frame count is unknown; a track only opens here with a known total,
    /// so the situation cannot arise.
    pub fn skip(&mut self, mult: i32) -> (r: Result<(), Error>)
        requires
            old(self).wf(),
        ensures
            final(self).wf(),
            final(self).position_val() == skip_target(
                old(self).position_val() as int,
                mult as int,
                old(self).sample_rate_val() as int,
            ),
            final(self).buffer_view() == old(self).buffer_view(),
            final(self).end_val() == old(self).end_val(),
            final(self).speed_val() == old(self).speed_val(),
            final(self).volume_val() == old(self).volume_val(),
            final(self).logs_view() == old(self).logs_view(),
            final(self).sample_rate_val() == old(self).sample_rate_val(),
            final(self).channels_val() == old(self).channels_val(),
            final(self).total_frames_val() == old(self).total_frames_val(),
            final(self).track_id_val() == old(self).track_id_val(),
            ({
                let tgt = skip_target(
                    old(self).position_val() as int,
                    mult as int,
                    old(self).sample_rate_val() as int,
                );
                let otgt = (tgt / FP as int) * old(self).channels_val() as int;
                &&& (otgt + old(self).buffer_view().len() > usize::MAX ==> {
                    &&& r == Err::<(), Error>(Error::Overflow)
                    &&& final(self).offset_val() == old(self).offset_val()
                })
                &&& (otgt + old(self).buffer_view().len() <= usize::MAX ==> {
                    &&& final(self).offset_val() == otgt
                    &&& (r is Ok || (r matches Err(e) && e is Seek))
                })
            }),
    {
        proof {
            assert(-0x10_0000_0000i128 <= (mult as i128) * (SKIP_SECS as i128)
                <= 0x10_0000_0000i128) by (nonlinear_arith)
                requires
                    -0x8000_0000i128 <= mult as i128 <= 0x8000_0000i128,
                    (SKIP_SECS as i128) == 5i128,
            ;
        }
        let step: i128 = (mult as i128) * (SKIP_SECS as i128);
        proof {
            assert(-0x10_0000_0000_0000_0000i128 <= step * (self.sample_rate as i128)
                <= 0x10_0000_0000_0000_0000i128) by (nonlinear_arith)
                requires
                    -0x10_0000_0000i128 <= step <= 0x10_0000_0000i128,
                    0 <= (self.sample_rate as i128) < 0x1_0000_0000i128,
            ;
        }
        let rated: i128 = step * (self.sample_rate as i128);
        proof {
            assert(-0x1000_0000_0000_0000_0000_0000i128 <= rated * (FP as i128)
                <= 0x1000_0000_0000_0000_0000_0000i128) by (nonlinear_arith)
                requires
                    -0x10_0000_0000_0000_0000i128 <= rated <= 0x10_0000_0000_0000_0000i128,
            ;
        }
        let delta: i128 = rated * (FP as i128);
        let t: i128 = (self.position as i128) + delta;
        let newpos: u64 = if t < 0 {
            0
        } else if t > (u64::MAX as i128) {
            u64::MAX
        } else {
            t as u64
        };
        self.position = newpos;
        let frames: u64 = newpos / FP;
        proof {
            assert((frames as u128) * (self.channels as u128)
                <= 0xFFFF_FFFF_FFFF_FFFE_0000_0000_0000_0001u128) by (nonlinear_arith)
                requires
                    frames as u128 <= 0xFFFF_FFFF_FFFF_FFFFu128,
                    self.channels as u128 <= 0xFFFF_FFFF_FFFF_FFFFu128,
            ;
        }
        let base: u128 = (frames as u128) * (self.channels as u128);
        if base > (usize::MAX as u128) - (self.buffer.len() as u128) {
            return Err(Error::Overflow);
        }
        self.offset = base as usize;
        let seconds = seek_seconds(self.position, self.sample_rate);
        match media::seek_stream(&mut self.reader, self.track_id, seconds) {
            Ok(()) => {},
            Err(m) => return Err(Error::Seek(m)),
        }
        media::reset_decoder(&mut self.codec);
        Ok(())
    }

    /// Fill one output region of `out_len` interleaved samples, the
    /// real-time pull: for each whole frame, advance the position by the
    /// speed interpolated at the frame's fraction of the region, look the
    /// frame's samples up, scale them by the interpolated volume, and fall
    /// back to silence once a lookup fails — setting `end` for good and
    /// warning about the first failure only.  A region length not
    /// divisible by the channel count is warned about and truncated to
    /// whole frames.  Both smoothers are stabilized afterwards, so the
    /// next region's transition starts from the values just reached.
    ///
    /// A lookup beyond the window refills, which reads and decodes from
    /// the underlying stream inside the caller's real-time deadline: a
    /// latency risk inherent in this pull design, which the host must
    /// budget for.
    pub fn callback(&mut self, out_len: usize) -> (out: Vec<i16>)
        requires
            old(self).wf(),
            out_len <= u32::MAX,
        ensures
            final(self).wf(),
            out@.len() == (out_len / old(self).channels_val()) * old(self).channels_val(),
            final(self).sample_rate_val() == old(self).sample_rate_val(),
            final(self).channels_val() == old(self).channels_val(),
            final(self).total_frames_val() == old(self).total_frames_val(),
            final(self).track_id_val() == old(self).track_id_val(),
            final(self).offset_val() >= old(self).offset_val(),
            old(self).end_val() ==> final(self).end_val(),
            final(self).speed_val().from_val() == old(self).speed_val().to_val(),
            final(self).speed_val().to_val() == old(self).speed_val().to_val(),
            final(self).volume_val().from_val() == old(self).volume_val().to_val(),
            final(self).volume_val().to_val() == old(self).volume_val().to_val(),
            final(self).position_val() == advanced_position(
                old(self).position_val() as int,
                old(self).speed_val(),
                (out_len / old(self).channels_val()) as int,
                (out_len / old(self).channels_val()) as int,
            ),
            old(self).logs_view().len() <= final(self).logs_view().len(),
            final(self).logs_view().subrange(0, old(self).logs_view().len() as int) == old(
                self,
            ).logs_view(),
            out_len % old(self).channels_val() != 0 ==> {
                &&& final(self).logs_view().len() > old(self).logs_view().len()
                &&& final(self).logs_view()[old(self).logs_view().len() as int] == (LogEntry {
                    kind: Log::Warning,
                    message: LogMessage::MisalignedOutput,
                })
            },
            out_len % old(self).channels_val() == 0 ==> forall|j: int|
                old(self).logs_view().len() <= j < final(self).logs_view().len() ==> !(
                #[trigger] final(self).logs_view()[j].message is MisalignedOutput),
            old(self).end_val() ==> forall|j: int|
                old(self).logs_view().len() <= j < final(self).logs_view().len() ==> !(
                #[trigger] final(self).logs_view()[j].message is LookupFailed),
            forall|j: int, k: int|
                (old(self).logs_view().len() <= j < final(self).logs_view().len() && old(
                    self,
                ).logs_view().len() <= k < final(self).logs_view().len() && (
                #[trigger] final(self).logs_view()[j].message is LookupFailed) && (
                #[trigger] final(self).logs_view()[k].message is LookupFailed)) ==> j == k,
            forall|j: int|
                (old(self).logs_view().len() <= j < final(self).logs_view().len() && (
                #[trigger] final(self).logs_view()[j].message is LookupFailed))
                    ==> final(self).end_val(),
            (final(self).end_val() && !old(self).end_val()) ==> exists|j: int|
                old(self).logs_view().len() <= j < final(self).logs_view().len() && (
                #[trigger] final(self).logs_view()[j].message is LookupFailed),
            region_in_window(*old(self), (out_len / old(self).channels_val()) as int) ==> {
                &&& final(self).offset_val() == old(self).offset_val()
                &&& final(self).buffer_view() == old(self).buffer_view()
                &&& final(self).end_val() == old(self).end_val()
                &&& forall|f: int, c: int|
                    #![trigger region_index(*old(self), f, c, (out_len / old(self).channels_val()) as int)]
                    0 <= f < out_len / old(self).channels_val() && 0 <= c < old(
                        self,
                    ).channels_val() ==> out@[f * old(self).channels_val() + c]
                        == scaled_sample(
                        old(self).buffer_view()[region_index(
                            *old(self),
                            f,
                            c,
                            (out_len / old(self).channels_val()) as int,
                        ) - old(self).offset_val()] as int,
                        interp(
                            old(self).volume_val().from_val() as int,
                            old(self).volume_val().to_val() as int,
                            f,
                            (out_len / old(self).channels_val()) as int,
                        ),
                    )
            },
    {
        let channels = self.channels;
        let frames = out_len / channels;
        let ghost base0 = self.logs@;
        if out_len % channels != 0 {
            self.logs.push(
                (LogEntry { kind: Log::Warning, message: LogMessage::MisalignedOutput }),
            );
        }
        let ghost logs1 = self.logs@;
        let mut out: Vec<i16> = Vec::new();
        let mut frame: usize = 0;
        while frame < frames
            invariant
                self.wf(),
                channels == self.channels_val(),
                self.channels_val() == old(self).channels_val(),
                frames == out_len / channels,
                frames <= u32::MAX,
                frame <= frames,
                self.sample_rate_val() == old(self).sample_rate_val(),
                self.total_frames_val() == old(self).total_frames_val(),
                self.track_id_val() == old(self).track_id_val(),
                self.speed_val() == old(self).speed_val(),
                self.volume_val() == old(self).volume_val(),
                self.offset_val() >= old(self).offset_val(),
                old(self).end_val() ==> self.end_val(),
                out@.len() == frame * channels,
                self.position_val() == advanced_position(
                    old(self).position_val() as int,
                    old(self).speed_val(),
                    frame as int,
                    frames as int,
                ),
                logs1.len() <= self.logs_view().len(),
                self.logs_view().subrange(0, logs1.len() as int) == logs1,
                forall|j: int|
                    logs1.len() <= j < self.logs_view().len() ==> !(
                    #[trigger] self.logs_view()[j].message is MisalignedOutput),
                forall|j: int|
                    logs1.len() <= j < self.logs_view().len() && (
                    #[trigger] self.logs_view()[j].message is LookupFailed) ==> self.end_val(),
                old(self).end_val() ==> forall|j: int|
                    logs1.len() <= j < self.logs_view().len() ==> !(
                    #[trigger] self.logs_view()[j].message is LookupFailed),
                forall|j: int, k: int|
                    (logs1.len() <= j < self.logs_view().len() && logs1.len() <= k < self
                        .logs_view().len() && (
                    #[trigger] self.logs_view()[j].message is LookupFailed) && (
                    #[trigger] self.logs_view()[k].message is LookupFailed)) ==> j == k,
                (self.end_val() && !old(self).end_val()) ==> exists|j: int|
                    logs1.len() <= j < self.logs_view().len() && (
                    #[trigger] self.logs_view()[j].message is LookupFailed),
                region_in_window(*old(self), frames as int) ==> {
                    &&& self.offset_val() == old(self).offset_val()
                    &&& self.buffer_view() == old(self).buffer_view()
                    &&& self.end_val() == old(self).end_val()
                    &&& self.logs_view() == logs1
                },
                region_in_window(*old(self), frames as int) ==> forall|f: int, c: int|
                    #![trigger region_index(*old(self), f, c, frames as int)]
                    0 <= f < frame && 0 <= c < channels ==> out@[f * channels + c]
                        == scaled_sample(
                        old(self).buffer_view()[region_index(*old(self), f, c, frames as int)
                            - old(self).offset_val()] as int,
                        interp(
                            old(self).volume_val().from_val() as int,
                            old(self).volume_val().to_val() as int,
                            f,
                            frames as int,
                        ),
                    ),
            decreases frames - frame,
        {
            let pos_now = self.position;
            let num = frame as u32;
            let den = frames as u32;
            let step = self.speed.interpolate(num, den);
            proof {
                crate::smooth::lemma_interp_bounds(
                    self.speed_val().from_val() as int,
                    self.speed_val().to_val() as int,
                    num as int,
                    den as int,
                );
            }
            self.position = if self.position > u64::MAX - step {
                u64::MAX
            } else {
                self.position + step
            };
            let vol = self.volume.interpolate(num, den);
            let base_idx = frame_base_of(pos_now, channels);
            let mut ch: usize = 0;
            while ch < channels
                invariant
                    self.wf(),
                    channels == self.channels_val(),
                    self.channels_val() == old(self).channels_val(),
                    ch <= channels,
                    frame < frames,
                    self.sample_rate_val() == old(self).sample_rate_val(),
                    self.total_frames_val() == old(self).total_frames_val(),
                    self.track_id_val() == old(self).track_id_val(),
                    self.speed_val() == old(self).speed_val(),
                    self.volume_val() == old(self).volume_val(),
                    self.offset_val() >= old(self).offset_val(),
                    old(self).end_val() ==> self.end_val(),
                    out@.len() == frame * channels + ch,
                    self.position_val() == advanced_position(
                        old(self).position_val() as int,
                        old(self).speed_val(),
                        (frame + 1) as int,
                        frames as int,
                    ),
                    logs1.len() <= self.logs_view().len(),
                    self.logs_view().subrange(0, logs1.len() as int) == logs1,
                    forall|j: int|
                        logs1.len() <= j < self.logs_view().len() ==> !(
                        #[trigger] self.logs_view()[j].message is MisalignedOutput),
                    forall|j: int|
                        logs1.len() <= j < self.logs_view().len() && (
                        #[trigger] self.logs_view()[j].message is LookupFailed) ==> self
                            .end_val(),
                    old(self).end_val() ==> forall|j: int|
                        logs1.len() <= j < self.logs_view().len() ==> !(
                        #[trigger] self.logs_view()[j].message is LookupFailed),
                    forall|j: int, k: int|
                        (logs1.len() <= j < self.logs_view().len() && logs1.len() <= k < self
                            .logs_view().len() && (
                        #[trigger] self.logs_view()[j].message is LookupFailed) && (
                        #[trigger] self.logs_view()[k].message is LookupFailed)) ==> j == k,
                    (self.end_val() && !old(self).end_val()) ==> exists|j: int|
                        logs1.len() <= j < self.logs_view().len() && (
                        #[trigger] self.logs_view()[j].message is LookupFailed),
                    vol == interp(
                        old(self).volume_val().from_val() as int,
                        old(self).volume_val().to_val() as int,
                        frame as int,
                        frames as int,
                    ),
                    base_idx == frame_base_index(
                        advanced_position(
                            old(self).position_val() as int,
                            old(self).speed_val(),
                            frame as int,
                            frames as int,
                        ),
                        channels as int,
                    ),
                    region_in_window(*old(self), frames as int) ==> {
                        &&& self.offset_val() == old(self).offset_val()
                        &&& self.buffer_view() == old(self).buffer_view()
                        &&& self.end_val() == old(self).end_val()
                        &&& self.logs_view() == logs1
                    },
                    region_in_window(*old(self), frames as int) ==> forall|f: int, c: int|
                        #![trigger region_index(*old(self), f, c, frames as int)]
                        0 <= f < frame && 0 <= c < channels ==> out@[f * channels + c]
                            == scaled_sample(
                            old(self).buffer_view()[region_index(
                                *old(self),
                                f,
                                c,
                                frames as int,
                            ) - old(self).offset_val()] as int,
                            interp(
                                old(self).volume_val().from_val() as int,
                                old(self).volume_val().to_val() as int,
                                f,
                                frames as int,
                            ),
                        ),
                    region_in_window(*old(self), frames as int) ==> forall|c: int|
                        #![trigger region_index(*old(self), frame as int, c, frames as int)]
                        0 <= c < ch ==> out@[frame * channels + c] == scaled_sample(
                            old(self).buffer_view()[region_index(
                                *old(self),
                                frame as int,
                                c,
                                frames as int,
                            ) - old(self).offset_val()] as int,
                            interp(
                                old(self).volume_val().from_val() as int,
                                old(self).volume_val().to_val() as int,
                                frame as int,
                                frames as int,
                            ),
                        ),
                decreases channels - ch,
            {
                let idx = if base_idx > usize::MAX - ch {
                    usize::MAX
                } else {
                    base_idx + ch
                };
                proof {
                    if region_in_window(*old(self), frames as int) {
                        assert(region_index(*old(self), frame as int, ch as int, frames as int)
                            == idx);
                    }
                }
                let ghost pre_logs = self.logs@;
                let ghost pre_state = *self;
                let ghost out_pre = out@;
                match self.get(idx) {
                    Ok(s) => {
                        out.push(scale_sample(s, vol));
                        proof {
                            lemma_benign_range_keeps_discipline(self.logs@, pre_logs, logs1);
                            if self.end_val() && !old(self).end_val() {
                                let j = choose|j: int|
                                    logs1.len() <= j < pre_logs.len() && (
                                    #[trigger] pre_logs[j].message is LookupFailed);
                                assert(self.logs_view()[j] == pre_logs[j]);
                            }
                        }
                    },
                    Err(e) => {
                        proof {
                            lemma_benign_range_keeps_discipline(self.logs@, pre_logs, logs1);
                            if region_in_window(*old(self), frames as int) {
                                assert(pre_state.offset_val() <= idx < pre_state.offset_val()
                                    + pre_state.buffer_view().len());
                                assert(false);
                            }
                            if self.end_val() && !old(self).end_val() {
                                let j = choose|j: int|
                                    logs1.len() <= j < pre_logs.len() && (
                                    #[trigger] pre_logs[j].message is LookupFailed);
                                assert(self.logs_view()[j] == pre_logs[j]);
                            }
                        }
                        if !self.end {
                            let ghost before_push = self.logs@;
                            let entry = (LogEntry {
                                kind: Log::Warning,
                                message: LogMessage::LookupFailed(e.message()),
                            });
                            proof {
                                lemma_failure_push_keeps_discipline(before_push, entry, logs1);
                            }
                            self.logs.push(entry);
                            proof {
                                assert(self.logs_view()[before_push.len() as int].message
                                    is LookupFailed);
                            }
                        }
                        self.end = true;
                        out.push(0i16);
                    },
                }
                proof {
                    if region_in_window(*old(self), frames as int) {
                        assert forall|f: int, c: int|
                            #![trigger region_index(*old(self), f, c, frames as int)]
                            0 <= f < frame && 0 <= c < channels implies out@[f * channels + c]
                            == out_pre[f * channels + c] by {
                            assert(0 <= f * channels + c < frame * channels) by (nonlinear_arith)
                                requires
                                    0 <= f < frame,
                                    0 <= c < channels,
                            ;
                        }
                        assert forall|c: int|
                            #![trigger region_index(*old(self), frame as int, c, frames as int)]
                            0 <= c < ch implies out@[frame * channels + c] == out_pre[frame
                            * channels + c] by {
                            assert(frame * channels + c < out_pre.len());
                        }
                        assert(out@[frame * channels + ch] == out_pre.push(
                            out@[out_pre.len() as int],
                        )[out_pre.len() as int]);
                    }
                }
                ch += 1;
            }
            proof {
                assert((frame + 1) * channels == frame * channels + channels)
                    by (nonlinear_arith);
            }
            frame += 1;
        }
        self.speed.stabilize();
        self.volume.stabilize();
        proof {
            assert(logs1.subrange(0, base0.len() as int) =~= base0);
            lemma_prefix_trans(self.logs@, logs1, base0);
            assert forall|j: int|
                base0.len() <= j < self.logs_view().len() && (
                #[trigger] self.logs_view()[j].message is LookupFailed) implies self.end_val()
                by {
                if j < logs1.len() {
                    assert(self.logs_view()[j] == logs1[j]);
                }
            }
        }
        out
    }

    /// Global sample index of the window's first element.
    pub fn offset(&self) -> (r: usize)
        ensures
            r == self.offset_val(),
    {
        self.offset
    }

    /// Number of samples currently windowed.
    pub fn buffer_len(&self) -> (r: usize)
        ensures
            r == self.buffer_view().len(),
    {
        self.buffer.len()
    }

    /// The position counter, in `FP`-scaled frames.
    pub fn position(&self) -> (r: u64)
        ensures
            r == self.position_val(),
    {
        self.position
    }

    /// Total frames of the track, as reported at open time.
    pub fn total_frames(&self) -> (r: u64)
        ensures
            r == self.total_frames_val(),
    {
        self.total_frames
    }

    /// Hand the sample buffer back for reuse by the next track, consuming
    /// the engine.
    pub fn take_buffer(self) -> (r: Vec<i16>)
        ensures
            r@ == self.buffer_view(),
    {
        self.buffer
    }

    /// Playback progress as an `FP`-scaled ratio of the track's total
    /// frames (meaningless once `end` is set, as the position may then
    /// exceed the total).
    pub fn progress(&self) -> (r: u64)
        requires
            self.wf(),
        ensures
            r == self.position_val() / self.total_frames_val(),
    {
        self.position / self.total_frames
    }
}

} // verus!
