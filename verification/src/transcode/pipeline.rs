//! The decisions in transcoding the audio of one segment.
//!
//! The decoded audio is cut into AAC frames that lie on one grid for the whole file, so that
//! the segments join without gaps.

use vstd::prelude::*;
use crate::media::{AudioStreamInfo, Id, SegmentInfo};
use crate::segment::packets::{clock_90k, shown_90k, shown_time, PacketInfo, Verdict};
use crate::timebase::{rescale_ts, rescaled, Rational};

verus! {

/// The sample rate of transcoded audio.
pub const HLS_SAMPLE_RATE: u32 = 48000;

/// The samples in an AAC frame.
pub const AAC_FRAME_SIZE: usize = 1024;

/// The codecs that need no transcoding.
pub open spec fn plays_directly(id: Id) -> bool {
    id is AAC || id is AC3 || id is EAC3 || id is MP3 || id is OPUS
}

/// Whether an audio stream has to be transcoded.
pub fn needs_transcoding(audio_stream: &AudioStreamInfo) -> (needed: bool)
    ensures
        needed == !plays_directly(audio_stream.codec_id),
{
    match audio_stream.codec_id {
        Id::AAC | Id::AC3 | Id::EAC3 | Id::MP3 | Id::OPUS => false,
        _ => true,
    }
}

/// The bit rate for a number of channels.
pub open spec fn bitrate_for(channels: u16) -> u64 {
    if channels <= 1 {
        64_000
    } else if channels == 2 {
        128_000
    } else {
        192_000
    }
}

/// The bit rate for a number of channels.
pub fn get_recommended_bitrate(channels: u16) -> (rate: u64)
    ensures
        rate == bitrate_for(channels),
{
    if channels <= 1 {
        64_000
    } else if channels == 2 {
        128_000
    } else {
        192_000
    }
}

/// What transcoding a stream takes.
#[derive(Debug, Clone, Copy)]
pub struct TranscodeRequirements {
    pub needs_transcoding: bool,
    pub source_codec: Id,
    pub source_sample_rate: u32,
    pub source_channels: u16,
    pub target_sample_rate: u32,
    pub target_channels: u16,
    pub target_bitrate: u64,
}

/// What transcoding a stream takes.
pub fn get_transcode_requirements(audio_stream: &AudioStreamInfo) -> (r: TranscodeRequirements)
    ensures
        r == (TranscodeRequirements {
            needs_transcoding: !plays_directly(audio_stream.codec_id),
            source_codec: audio_stream.codec_id,
            source_sample_rate: audio_stream.sample_rate,
            source_channels: audio_stream.channels,
            target_sample_rate: HLS_SAMPLE_RATE,
            target_channels: 2,
            target_bitrate: bitrate_for(audio_stream.channels),
        }),
{
    TranscodeRequirements {
        needs_transcoding: needs_transcoding(audio_stream),
        source_codec: audio_stream.codec_id,
        source_sample_rate: audio_stream.sample_rate,
        source_channels: audio_stream.channels,
        target_sample_rate: HLS_SAMPLE_RATE,
        target_channels: 2,
        target_bitrate: get_recommended_bitrate(audio_stream.channels),
    }
}

/// The multiple of the frame size at `t` or next to it in the direction of 0.
pub open spec fn grid_start(t: int) -> int {
    if t >= 0 {
        t / 1024 * 1024
    } else {
        -((-t) / 1024 * 1024)
    }
}

/// The samples from `t` up to the next multiple of the frame size.
pub open spec fn to_next_frame(t: int) -> int {
    if t % 1024 == 0 {
        0
    } else {
        1024 - t % 1024
    }
}

/// The transcoding of the audio of one segment.
#[derive(Debug, Clone, Copy)]
pub struct TranscodeState {
    pub stream_index: usize,
    /// The end of the segment, in ticks of 1/90000 s.
    pub end_90k: i64,
    /// The first sample of the segment, on the grid.
    pub target_start: i64,
    /// Whether times are counted from the start of the segment.
    pub shift_to_zero: bool,
    /// The time of the first decoded frame, in samples.
    pub first_frame: Option<i64>,
    /// The time of the next frame to be encoded, in samples.
    pub next_frame: i64,
}

/// An encoded packet, as it goes into the segment.
#[derive(Debug, Clone, Copy, PartialEq, Eq)]
pub struct Placed {
    /// Its new decode and presentation time; the old ones stay if there is none.
    pub time: Option<i64>,
}

impl TranscodeState {
    /// Starts on a segment. `segment_start` is its start, in samples.
    pub fn new(
        stream_index: usize,
        segment: &SegmentInfo,
        video_timebase: Rational,
        segment_start: i64,
        shift_to_zero: bool,
    ) -> (state: Self)
        ensures
            state.stream_index == stream_index,
            state.end_90k == rescaled(segment.end_pts as int, video_timebase, clock_90k()),
            state.target_start == grid_start(segment_start as int),
            state.shift_to_zero == shift_to_zero,
            state.first_frame is None,
            state.next_frame == 0,
    {
        let frames: i64 = if segment_start >= 0 {
            segment_start / 1024
        } else if segment_start == i64::MIN {
            -(0x8000_0000_0000_0000i128 / 1024) as i64
        } else {
            -((-segment_start) / 1024)
        };
        TranscodeState {
            stream_index,
            end_90k: rescale_ts(segment.end_pts, video_timebase, Rational(1, 90000)),
            target_start: frames * 1024,
            shift_to_zero,
            first_frame: None,
            next_frame: 0,
        }
    }

    /// Decides whether a packet is decoded: those of the stream up to the end of the segment
    /// are.
    pub fn judge(&self, p: &PacketInfo) -> (verdict: Verdict)
        ensures
            verdict == if p.stream_id != self.stream_index {
                Verdict::Skip
            } else if shown_90k(*p) >= self.end_90k {
                Verdict::Stop
            } else {
                Verdict::Keep
            },
    {
        if p.stream_id != self.stream_index {
            Verdict::Skip
        } else if rescale_ts(shown_time(p.pts, p.dts), p.timebase, Rational(1, 90000))
            >= self.end_90k {
            Verdict::Stop
        } else {
            Verdict::Keep
        }
    }

    /// Takes note of a decoded frame; the first one fixes the timeline.
    pub fn on_frame(&mut self, pts: Option<i64>, timebase: Rational)
        ensures
            *final(self) == (TranscodeState {
                first_frame: if old(self).first_frame is Some {
                    old(self).first_frame
                } else {
                    Some(
                        rescaled(
                            match pts {
                                Some(t) => t as int,
                                None => 0,
                            },
                            timebase,
                            Rational(1, 48000),
                        ) as i64,
                    )
                },
                ..*old(self)
            }),
    {
        if self.first_frame.is_none() {
            let t: i64 = match pts {
                Some(t) => t,
                None => 0,
            };
            self.first_frame = Some(rescale_ts(t, timebase, Rational(1, 48000)));
        }
    }

    /// The samples to drop from the front of the decoded audio so that what is left starts
    /// on the grid; the next frame starts there.
    pub fn align(&mut self) -> (discard: usize)
        requires
            old(self).first_frame matches Some(t) ==> t + 1024 <= i64::MAX,
        ensures
            ({
                let base = match old(self).first_frame {
                    Some(t) => t as int,
                    None => 0,
                };
                &&& discard == to_next_frame(base)
                &&& *final(self) == (TranscodeState {
                    next_frame: (base + to_next_frame(base)) as i64,
                    ..*old(self)
                })
            }),
    {
        let base: i64 = match self.first_frame {
            Some(t) => t,
            None => 0,
        };
        let offset: i64 = if base >= 0 {
            base % 1024
        } else {
            (1023 - (-1 - base) % 1024)
        };
        assert(offset == base as int % 1024);
        let discard: i64 = if offset == 0 {
            0
        } else {
            1024 - offset
        };
        self.next_frame = base + discard;
        discard as usize
    }

    /// The time of the next frame to be encoded, which has `samples` samples.
    pub fn stamp(&mut self, samples: usize) -> (time: i64)
        requires
            old(self).next_frame + samples <= i64::MAX,
        ensures
            time == old(self).next_frame,
            *final(self) == (TranscodeState {
                next_frame: (old(self).next_frame + samples) as i64,
                ..*old(self)
            }),
    {
        let time: i64 = self.next_frame;
        self.next_frame = (time as i128 + samples as i128) as i64;
        time
    }

    /// What becomes of an encoded packet: one from before the segment is dropped.
    pub fn place(&self, pts: Option<i64>) -> (placed: Option<Placed>)
        requires
            self.shift_to_zero ==> (match pts {
                Some(t) => t as int,
                None => 0,
            }) - self.target_start <= i64::MAX,
        ensures
            ({
                let t = match pts {
                    Some(t) => t as int,
                    None => 0,
                };
                placed == if t < self.target_start {
                    None
                } else if self.shift_to_zero {
                    Some(Placed { time: Some((t - self.target_start) as i64) })
                } else {
                    Some(Placed { time: None })
                }
            }),
    {
        let t: i64 = match pts {
            Some(t) => t,
            None => 0,
        };
        if t < self.target_start {
            None
        } else if self.shift_to_zero {
            Some(Placed { time: Some(t - self.target_start) })
        } else {
            Some(Placed { time: None })
        }
    }
}

/// The first frame of every segment lies on the grid, at most one frame before the segment.
pub proof fn law_grid(t: int)
    ensures
        grid_start(t) % 1024 == 0,
        t >= 0 ==> grid_start(t) <= t < grid_start(t) + 1024,
        t <= 0 ==> grid_start(t) - 1024 < t <= grid_start(t),
        (t + to_next_frame(t)) % 1024 == 0,
        0 <= to_next_frame(t) < 1024,
{
}

/// Audio in AAC, AC-3, E-AC-3, MP3 or Opus goes as it is, any other is transcoded; more channels
/// never get a lower bit rate, and each of one or two gets 64 kbit/s.
pub proof fn law_transcoding_is_sparing(id: Id, channels: u16, more: u16)
    requires
        channels <= more,
    ensures
        id == Id::AAC || id == Id::AC3 || id == Id::EAC3 || id == Id::MP3 || id == Id::OPUS
            <==> plays_directly(id),
        bitrate_for(channels) <= bitrate_for(more),
        1 <= channels <= 2 ==> bitrate_for(channels) == channels * 64_000,
        channels > 2 ==> bitrate_for(channels) == 3 * 64_000,
        bitrate_for(0) == 64_000,
{
}

/// A span of samples.
#[derive(Debug, Clone, Copy, PartialEq, Eq, Structural)]
pub struct Chunk {
    pub start: usize,
    pub len: usize,
}

/// How a sample is coded.
#[derive(Debug, Clone, Copy, PartialEq, Eq, Structural)]
pub enum SampleCoding {
    U8,
    I16,
    I32,
    I64,
    F32,
    F64,
}

/// The format of samples.
#[derive(Debug, Clone, Copy, PartialEq, Eq, Structural)]
pub struct SampleFormat {
    pub coding: SampleCoding,
    /// Whether each channel has a plane of its own.
    pub planar: bool,
}

/// The channels of mono sound: the front center.
pub const MONO: u64 = 4;

/// The channels of stereo sound: the front left and the front right.
pub const STEREO: u64 = 3;

/// Sound as planes of samples, one plane for each channel. A sample is held by its bits.
#[derive(Debug, Clone)]
pub struct PcmFrame {
    pub planes: Vec<Vec<u32>>,
    /// Samples per second.
    pub rate: u32,
    pub format: SampleFormat,
    /// The channels, one bit for each; 0 if they are not known.
    pub layout: u64,
}

/// The channels of a frame; of one in which they are not known, those of mono or stereo.
pub open spec fn layout_of(f: PcmFrame) -> u64 {
    if f.layout != 0 {
        f.layout
    } else if f.planes@.len() == 1 {
        MONO
    } else {
        STEREO
    }
}

/// A frame is made for sound like that of `first`.
pub open spec fn sounds_like(f: PcmFrame, first: PcmFrame) -> bool {
    f.rate == first.rate && f.format == first.format && f.layout == layout_of(first)
}

/// The planes of a frame as values.
pub open spec fn planes_of(f: PcmFrame) -> Seq<Seq<u32>> {
    Seq::new(f.planes@.len(), |c: int| f.planes@[c]@)
}

/// The samples of one channel of several frames, one frame behind the other.
pub open spec fn channel_of(frames: Seq<PcmFrame>, c: int) -> Seq<u32>
    decreases frames.len(),
{
    if frames.len() == 0 {
        Seq::empty()
    } else {
        channel_of(frames.drop_last(), c) + planes_of(frames.last())[c]
    }
}

/// The chunks of `size` samples into which `total` samples are cut from `skip` on; the last
/// one may be shorter.
pub open spec fn chunks(total: nat, size: nat, skip: nat) -> Seq<Chunk>
    decreases total - skip,
{
    if size == 0 || skip >= total {
        Seq::empty()
    } else {
        let len = if total - skip < size {
            (total - skip) as nat
        } else {
            size
        };
        seq![Chunk { start: skip as usize, len: len as usize }] + chunks(total, size, skip + len)
    }
}

/// Cuts samples into chunks.
pub fn plan_chunks(total: usize, size: usize, skip: usize) -> (plan: Vec<Chunk>)
    requires
        size > 0,
    ensures
        plan@ == chunks(total as nat, size as nat, skip as nat),
{
    let mut plan: Vec<Chunk> = Vec::new();
    let mut start: usize = skip;
    let ghost whole = chunks(total as nat, size as nat, skip as nat);
    assert(plan@ + whole =~= whole);
    while start < total
        invariant
            size > 0,
            whole == plan@ + chunks(total as nat, size as nat, start as nat),
        decreases total - start,
    {
        let len: usize = if total - start < size {
            total - start
        } else {
            size
        };
        let ghost before = plan@;
        plan.push(Chunk { start, len });
        assert(before + (seq![Chunk { start, len }] + chunks(
            total as nat,
            size as nat,
            (start + len) as nat,
        )) =~= plan@ + chunks(total as nat, size as nat, (start + len) as nat));
        start = start + len;
    }
    assert(plan@ + chunks(total as nat, size as nat, start as nat) =~= plan@);
    plan
}

fn flatten(frames: &Vec<PcmFrame>, c: usize) -> (samples: Vec<u32>)
    requires
        forall|i: int| 0 <= i < frames@.len() ==> c < (#[trigger] frames@[i]).planes@.len(),
    ensures
        samples@ == channel_of(frames@, c as int),
{
    let mut samples: Vec<u32> = Vec::new();
    let mut i: usize = 0;
    while i < frames.len()
        invariant
            i <= frames@.len(),
            forall|i: int| 0 <= i < frames@.len() ==> c < (#[trigger] frames@[i]).planes@.len(),
            samples@ == channel_of(frames@.take(i as int), c as int),
        decreases frames.len() - i,
    {
        assert(frames@.take(i + 1).drop_last() =~= frames@.take(i as int));
        let mut plane: Vec<u32> = copy_span(&frames[i].planes[c], 0, frames[i].planes[c].len());
        assert(plane@ =~= planes_of(frames@[i as int])[c as int]);
        samples.append(&mut plane);
        i += 1;
    }
    assert(frames@.take(frames@.len() as int) =~= frames@);
    samples
}

fn copy_span(samples: &Vec<u32>, from: usize, to: usize) -> (span: Vec<u32>)
    requires
        from <= to <= samples@.len(),
    ensures
        span@ == samples@.subrange(from as int, to as int),
{
    let mut span: Vec<u32> = Vec::new();
    let mut i: usize = from;
    while i < to
        invariant
            from <= i <= to <= samples@.len(),
            span@ == samples@.subrange(from as int, i as int),
        decreases to - i,
    {
        span.push(samples[i]);
        assert(span@ =~= samples@.subrange(from as int, i + 1));
        i += 1;
    }
    span
}

/// Frames in which every frame has as many channels as the first, and every channel of a
/// frame as many samples as its first channel.
pub open spec fn are_even(frames: Seq<PcmFrame>) -> bool {
    &&& forall|i: int|
        0 <= i < frames.len() ==> (#[trigger] frames[i]).planes@.len() == frames[0].planes@.len()
    &&& forall|i: int, c: int|
        0 <= i < frames.len() && 0 <= c < frames[0].planes@.len() ==> (#[trigger] planes_of(
            frames[i],
        )[c]).len() == planes_of(frames[i])[0].len()
}

proof fn lemma_channels_even(frames: Seq<PcmFrame>, n: int, c: int)
    requires
        are_even(frames),
        0 <= n <= frames.len(),
        frames.len() > 0,
        0 <= c < frames[0].planes@.len(),
    ensures
        channel_of(frames.take(n), c).len() == channel_of(frames.take(n), 0).len(),
    decreases n,
{
    if n > 0 {
        assert(frames.take(n).drop_last() =~= frames.take(n - 1));
        assert(frames.take(n).last() == frames[n - 1]);
        lemma_channels_even(frames, n - 1, c);
        assert(planes_of(frames[n - 1])[c].len() == planes_of(frames[n - 1])[0].len());
    }
}

/// The frame that holds a span of each channel of several frames.
pub open spec fn span_of(frames: Seq<PcmFrame>, chunk: Chunk) -> Seq<Seq<u32>> {
    Seq::new(
        frames[0].planes@.len(),
        |c: int|
            channel_of(frames, c).subrange(chunk.start as int, chunk.start + chunk.len),
    )
}

proof fn lemma_chunk_fits(total: nat, size: nat, skip: nat, k: int)
    requires
        0 <= k < chunks(total, size, skip).len(),
        total <= usize::MAX,
        size > 0,
    ensures
        chunks(total, size, skip)[k].start + chunks(total, size, skip)[k].len <= total,
    decreases total - skip,
{
    let len = if total - skip < size {
        (total - skip) as nat
    } else {
        size
    };
    if k > 0 {
        lemma_chunk_fits(total, size, skip + len, k - 1);
    }
}

/// Cuts sound into frames of `chunk_size` samples, without its first `skip_samples` samples.
/// The last frame may be shorter. The rate, the format and the channels are those of the first
/// frame.
pub fn rechunk_pcm_frames(frames: &Vec<PcmFrame>, chunk_size: usize, skip_samples: usize) -> (out:
    Vec<PcmFrame>)
    requires
        chunk_size > 0,
        are_even(frames@),
        frames@.len() > 0 ==> frames@[0].planes@.len() > 0,
    ensures
        frames@.len() == 0 ==> out@.len() == 0,
        frames@.len() > 0 ==> is_rechunked(
            frames@,
            out@,
            chunk_size as nat,
            skip_samples as nat,
        ),
{
    let mut out: Vec<PcmFrame> = Vec::new();
    if frames.len() == 0 {
        return out;
    }
    let channels: usize = frames[0].planes.len();
    let (rate, format): (u32, SampleFormat) = (frames[0].rate, frames[0].format);
    let layout: u64 = if frames[0].layout != 0 {
        frames[0].layout
    } else if channels == 1 {
        MONO
    } else {
        STEREO
    };
    proof {
        assert(frames@.take(frames@.len() as int) =~= frames@);
    }
    let mut flat: Vec<Vec<u32>> = Vec::new();
    while flat.len() < channels
        invariant
            flat@.len() <= channels,
            forall|i: int| 0 <= i < frames@.len() ==> (#[trigger] frames@[i]).planes@.len()
                == channels,
            forall|c: int| 0 <= c < flat@.len() ==> (#[trigger] flat@[c])@ == channel_of(
                frames@,
                c,
            ),
        decreases channels - flat.len(),
    {
        let samples: Vec<u32> = flatten(frames, flat.len());
        flat.push(samples);
    }
    let total: usize = flat[0].len();
    let plan: Vec<Chunk> = plan_chunks(total, chunk_size, skip_samples);
    let mut k: usize = 0;
    while k < plan.len()
        invariant
            k <= plan@.len(),
            out@.len() == k,
            chunk_size > 0,
            frames@.len() > 0,
            are_even(frames@),
            channels == frames@[0].planes@.len(),
            channels > 0,
            flat@.len() == channels,
            total == channel_of(frames@, 0).len(),
            frames@.take(frames@.len() as int) == frames@,
            plan@ == chunks(total as nat, chunk_size as nat, skip_samples as nat),
            forall|c: int| 0 <= c < flat@.len() ==> (#[trigger] flat@[c])@ == channel_of(
                frames@,
                c,
            ),
            forall|j: int|
                0 <= j < k ==> planes_of(#[trigger] out@[j]) == span_of(frames@, plan@[j])
                    && sounds_like(out@[j], frames@[0]),
            rate == frames@[0].rate,
            format == frames@[0].format,
            layout == layout_of(frames@[0]),
        decreases plan.len() - k,
    {
        let chunk: Chunk = plan[k];
        proof {
            lemma_chunk_fits(total as nat, chunk_size as nat, skip_samples as nat, k as int);
        }
        let mut planes: Vec<Vec<u32>> = Vec::new();
        while planes.len() < channels
            invariant
                planes@.len() <= channels,
                frames@.len() > 0,
                are_even(frames@),
                channels == frames@[0].planes@.len(),
                flat@.len() == channels,
                chunk.start + chunk.len <= total,
                total == channel_of(frames@, 0).len(),
                frames@.take(frames@.len() as int) == frames@,
                forall|c: int| 0 <= c < flat@.len() ==> (#[trigger] flat@[c])@ == channel_of(
                    frames@,
                    c,
                ),
                forall|c: int|
                    0 <= c < planes@.len() ==> (#[trigger] planes@[c])@ == channel_of(
                        frames@,
                        c,
                    ).subrange(chunk.start as int, chunk.start + chunk.len),
            decreases channels - planes.len(),
        {
            let c: usize = planes.len();
            proof {
                lemma_channels_even(frames@, frames@.len() as int, c as int);
                assert(flat@[c as int]@ == channel_of(frames@, c as int));
            }
            let span: Vec<u32> = copy_span(&flat[c], chunk.start, chunk.start + chunk.len);
            planes.push(span);
        }
        let frame = PcmFrame { planes, rate, format, layout };
        assert(planes_of(frame) =~= span_of(frames@, chunk));
        out.push(frame);
        k += 1;
    }
    out
}

/// All chunks but the last have the full size, and the chunks follow each other without gap
/// from the first sample that is kept to the end.
pub proof fn law_chunks_are_seamless(total: nat, size: nat, skip: nat, k: int)
    requires
        size > 0,
        total <= usize::MAX,
        0 <= k < chunks(total, size, skip).len(),
    ensures
        ({
            let list = chunks(total, size, skip);
            &&& list[k].start == skip + k * size
            &&& if k < list.len() - 1 {
                list[k].len == size && list[k].start + list[k].len == list[k + 1].start
            } else {
                list[k].start + list[k].len == total
            }
        }),
    decreases total - skip,
{
    let len = if total - skip < size {
        (total - skip) as nat
    } else {
        size
    };
    let rest = chunks(total, size, skip + len);
    let list = chunks(total, size, skip);
    assert(list =~= seq![Chunk { start: skip as usize, len: len as usize }] + rest);
    assert(k * size == (k - 1) * size + size) by (nonlinear_arith);
    if k > 0 {
        law_chunks_are_seamless(total, size, skip + len, k - 1);
    } else if rest.len() > 0 {
        law_chunks_are_seamless(total, size, skip + len, 0);
    }
}

/// The end of the first `n` chunks.
spec fn chunks_end(list: Seq<Chunk>, skip: nat, n: int) -> int {
    if n == 0 {
        skip as int
    } else {
        list[n - 1].start + list[n - 1].len
    }
}

proof fn lemma_rechunked(
    frames: Seq<PcmFrame>,
    out: Seq<PcmFrame>,
    size: nat,
    skip: nat,
    c: int,
    n: int,
)
    requires
        is_rechunked(frames, out, size, skip),
        0 <= c < frames[0].planes@.len(),
        channel_of(frames, c).len() == channel_of(frames, 0).len(),
        0 <= n <= out.len(),
        skip <= channel_of(frames, 0).len() <= usize::MAX,
        size > 0,
    ensures
        ({
            let list = chunks(channel_of(frames, 0).len(), size, skip);
            &&& skip <= chunks_end(list, skip, n) <= channel_of(frames, 0).len()
            &&& channel_of(out.take(n), c) == channel_of(frames, c).subrange(
                skip as int,
                chunks_end(list, skip, n),
            )
        }),
    decreases n,
{
    let total = channel_of(frames, 0).len();
    let list = chunks(total, size, skip);
    let samples = channel_of(frames, c);
    if n == 0 {
        assert(samples.subrange(skip as int, skip as int) =~= Seq::<u32>::empty());
        assert(out.take(0) =~= Seq::<PcmFrame>::empty());
    } else {
        lemma_rechunked(frames, out, size, skip, c, n - 1);
        lemma_chunk_fits(total, size, skip, n - 1);
        law_chunks_are_seamless(total, size, skip, n - 1);
        if n > 1 {
            law_chunks_are_seamless(total, size, skip, n - 2);
        }
        let k = list[n - 1];
        assert(k.start == chunks_end(list, skip, n - 1));
        assert(out.take(n).drop_last() =~= out.take(n - 1));
        assert(out.take(n).last() == out[n - 1]);
        assert(planes_of(out[n - 1])[c] == samples.subrange(k.start as int, k.start + k.len));
        assert(samples.subrange(skip as int, k.start as int) + samples.subrange(
            k.start as int,
            k.start + k.len,
        ) =~= samples.subrange(skip as int, k.start + k.len));
    }
}

/// Frames cut anew: each holds the span of its chunk, at the rate and in the format of the
/// first frame.
pub open spec fn is_rechunked(
    frames: Seq<PcmFrame>,
    out: Seq<PcmFrame>,
    size: nat,
    skip: nat,
) -> bool {
    let plan = chunks(channel_of(frames, 0).len(), size, skip);
    &&& frames.len() > 0
    &&& out.len() == plan.len()
    &&& forall|k: int|
        0 <= k < out.len() ==> planes_of(#[trigger] out[k]) == span_of(frames, plan[k])
            && sounds_like(out[k], frames[0])
}

/// Cutting sound anew keeps every sample but the first ones that are dropped, in order; every
/// frame but the last has the full size, and none is empty; nothing is left exactly if all is
/// dropped.
pub proof fn law_rechunk_keeps_samples(
    frames: Seq<PcmFrame>,
    out: Seq<PcmFrame>,
    size: nat,
    skip: nat,
    c: int,
)
    requires
        is_rechunked(frames, out, size, skip),
        are_even(frames),
        0 <= c < frames[0].planes@.len(),
        channel_of(frames, 0).len() <= usize::MAX,
        size > 0,
    ensures
        ({
            let total = channel_of(frames, 0).len();
            &&& channel_of(out, c) == channel_of(frames, c).skip(
                if skip < total {
                    skip as int
                } else {
                    total as int
                },
            )
            &&& (out.len() == 0) == (skip >= total)
            &&& forall|k: int|
                0 <= k < out.len() ==> 1 <= (#[trigger] planes_of(out[k])[c]).len() <= size && (k
                    < out.len() - 1 ==> planes_of(out[k])[c].len() == size)
        }),
{
    let total = channel_of(frames, 0).len();
    let list = chunks(total, size, skip);
    let samples = channel_of(frames, c);
    assert(frames.take(frames.len() as int) =~= frames);
    lemma_channels_even(frames, frames.len() as int, c);
    assert(out.take(out.len() as int) =~= out);
    if skip >= total {
        assert(channel_of(out, c) =~= samples.skip(total as int));
    } else {
        lemma_rechunked(frames, out, size, skip, c, out.len() as int);
        law_chunks_are_seamless(total, size, skip, list.len() - 1);
        assert(samples.subrange(skip as int, total as int) =~= samples.skip(skip as int));
    }
    assert forall|k: int| 0 <= k < out.len() implies 1 <= (#[trigger] planes_of(out[k])[c]).len()
        <= size && (k < out.len() - 1 ==> planes_of(out[k])[c].len() == size) by {
        lemma_chunk_fits(total, size, skip, k);
        lemma_chunk_is_filled(total, size, skip, k);
        law_chunks_are_seamless(total, size, skip, k);
        assert(planes_of(out[k]) == span_of(frames, list[k]));
    }
}

proof fn lemma_chunk_is_filled(total: nat, size: nat, skip: nat, k: int)
    requires
        0 <= k < chunks(total, size, skip).len(),
        total <= usize::MAX,
        size > 0,
    ensures
        1 <= chunks(total, size, skip)[k].len <= size,
    decreases total - skip,
{
    let len = if total - skip < size {
        (total - skip) as nat
    } else {
        size
    };
    if k > 0 {
        lemma_chunk_is_filled(total, size, skip + len, k - 1);
    }
}

} // verus!
