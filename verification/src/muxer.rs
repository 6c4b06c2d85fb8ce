//! The muxer: cues queued per track, and chunks sent at a steady pace.

use crate::sink::{
    lemma_write_done, lemma_write_nothing, lemma_write_then, write_outcome, wrote_all, ByteSink,
    WriteError,
};
use crate::text::{cue_block, nul_free, push_cue_block, WebvttString};
use crate::time::Duration;
use crate::webvtt::{
    header_message, message_outcome, payload_message, track_infos, TrackInfo, WebvttTrack,
    WebvttWrite,
};
use std::collections::VecDeque;
use vstd::prelude::*;

verus! {

/// The most tracks a muxer can have: the track index is one byte, and so is
/// the number of tracks.
pub const MAX_TRACKS: usize = 0xff;

/// The chunks that can be numbered: the chunk number has to fit in 32 bits
/// when the start of the chunk is worked out.
pub const MAX_CHUNKS: u64 = 0x1_0000_0000;

/// What a cue says: when it starts and how long it lasts, in nanoseconds,
/// and its text.
pub struct CueInfo {
    pub start: nat,
    pub duration: nat,
    pub text: Seq<char>,
}

/// A cue in the queue of a track.
struct WebvttCue {
    start_time: Duration,
    duration: Duration,
    text: WebvttString,
}

impl View for WebvttCue {
    type V = CueInfo;

    closed spec fn view(&self) -> CueInfo {
        CueInfo { start: self.start_time@, duration: self.duration@, text: self.text@ }
    }
}

/// Whether the cues in `cues` stand in the order of their start times.
pub open spec fn sorted(cues: Seq<CueInfo>) -> bool {
    forall|i: int, j: int| 0 <= i <= j < cues.len() ==> cues[i].start <= cues[j].start
}

/// Where a cue that starts at `start` goes into `cues`: before the first cue
/// that starts later, or at the end where there is none.
pub open spec fn insert_position(cues: Seq<CueInfo>, start: nat) -> nat
    decreases cues.len(),
{
    if cues.len() == 0 || cues[0].start > start {
        0
    } else {
        1 + insert_position(cues.skip(1), start)
    }
}

/// The insert position lies within the queue; every cue before it starts
/// no later than `start`, and the cue at it, if any, starts later.
pub proof fn lemma_insert_position(cues: Seq<CueInfo>, start: nat)
    ensures
        insert_position(cues, start) <= cues.len(),
        forall|i: int| 0 <= i < insert_position(cues, start) ==> (#[trigger] cues[i]).start <= start,
        insert_position(cues, start) < cues.len() ==> cues[insert_position(cues, start) as int].start
            > start,
    decreases cues.len(),
{
    if !(cues.len() == 0 || cues[0].start > start) {
        let rest = cues.skip(1);
        lemma_insert_position(rest, start);
        let p = insert_position(rest, start) as int;
        assert forall|i: int| 0 <= i < p + 1 implies (#[trigger] cues[i]).start <= start by {
            if i > 0 {
                assert(cues[i] == rest[i - 1]);
            }
        }
        if p + 1 < cues.len() {
            assert(cues[p + 1] == rest[p]);
        }
    }
}

/// A queue in the order of start times stays in that order when a cue is
/// put in at its insert position.
pub proof fn lemma_insert_keeps_sorted(cues: Seq<CueInfo>, cue: CueInfo)
    requires
        sorted(cues),
    ensures
        sorted(cues.insert(insert_position(cues, cue.start) as int, cue)),
{
    lemma_insert_position(cues, cue.start);
    let p = insert_position(cues, cue.start) as int;
    let grown = cues.insert(p, cue);
    assert forall|i: int, j: int| 0 <= i <= j < grown.len() implies grown[i].start
        <= grown[j].start by {
        if i < p && j > p {
            assert(grown[i] == cues[i] && grown[j] == cues[j - 1]);
        } else if i < p && j < p {
            assert(grown[i] == cues[i] && grown[j] == cues[j]);
        } else if i > p {
            assert(grown[i] == cues[i - 1] && grown[j] == cues[j - 1]);
        } else if i == p && j > p {
            assert(grown[j] == cues[j - 1]);
            assert(cues[p].start <= cues[j - 1].start);
        } else if j == p && i < p {
            assert(grown[i] == cues[i]);
        }
    }
}

/// A subtitle track of a muxer: its description and its queue of cues.
struct WebvttMuxerTrack {
    cues: VecDeque<WebvttCue>,
    default: bool,
    autoselect: bool,
    forced: bool,
    name: String,
    language: String,
    assoc_language: Option<String>,
    characteristics: Option<String>,
}

impl WebvttMuxerTrack {
    /// What the track says of itself.
    closed spec fn info(&self) -> TrackInfo {
        TrackInfo {
            default: self.default,
            autoselect: self.autoselect,
            forced: self.forced,
            name: self.name@,
            language: self.language@,
            assoc_language: match self.assoc_language {
                Some(s) => Some(s@),
                None => None,
            },
            characteristics: match self.characteristics {
                Some(s) => Some(s@),
                None => None,
            },
        }
    }

    /// The cues in the queue, first to last.
    closed spec fn cue_infos(&self) -> Seq<CueInfo> {
        queue_infos(self.cues@)
    }
}

/// Whether no string of `track` holds a NUL byte.
pub open spec fn track_nul_free(track: TrackInfo) -> bool {
    &&& nul_free(track.name)
    &&& nul_free(track.language)
    &&& track.assoc_language matches Some(text) ==> nul_free(text)
    &&& track.characteristics matches Some(text) ==> nul_free(text)
}

/// What a muxer knows: its settings, its tracks with their queues, the
/// number of the next chunk, and the video timestamp of the first call, once
/// there was one. Times are in nanoseconds.
pub struct MuxerState {
    pub latency_to_video: nat,
    pub send_frequency_hz: u8,
    pub video_frame_time: nat,
    pub tracks: Seq<TrackInfo>,
    pub cues: Seq<Seq<CueInfo>>,
    pub next_chunk_number: u64,
    pub first_video_timestamp: Option<nat>,
}

impl MuxerState {
    /// What holds of every muxer: the send frequency is above zero, there
    /// are at most 255 tracks, each with a queue in the order of start times
    /// and with strings free of NUL bytes, and the chunks sent can be numbered.
    pub open spec fn valid(self) -> bool {
        &&& self.send_frequency_hz > 0
        &&& self.tracks.len() <= MAX_TRACKS
        &&& self.cues.len() == self.tracks.len()
        &&& self.next_chunk_number <= MAX_CHUNKS
        &&& forall|t: int| 0 <= t < self.tracks.len() ==> track_nul_free(#[trigger] self.tracks[t])
        &&& forall|t: int| 0 <= t < self.cues.len() ==> sorted(#[trigger] self.cues[t])
    }
}

/// The settings and the tracks of a muxer that is yet to be made.
pub struct WebvttMuxerBuilder {
    latency_to_video: Duration,
    send_frequency_hz: u8,
    video_frame_time: Duration,
    tracks: Vec<WebvttMuxerTrack>,
}

/// A track was refused because the muxer has its 255 tracks already. The
/// strings that were handed in come back.
pub struct TooManySubtitleTracksError {
    pub name: WebvttString,
    pub language: WebvttString,
    pub assoc_language: Option<WebvttString>,
    pub characteristics: Option<WebvttString>,
}

/// The text of an optional string.
pub open spec fn optional_text(text: Option<WebvttString>) -> Option<Seq<char>> {
    match text {
        Some(text) => Some(text@),
        None => None,
    }
}

/// Takes the string out of an optional `WebvttString`.
fn optional_string(text: Option<WebvttString>) -> (s: Option<String>)
    ensures
        match s {
            Some(s) => optional_text(text) == Some(s@) && nul_free(s@),
            None => text is None,
        },
{
    match text {
        Some(text) => Some(text.into_string()),
        None => None,
    }
}

impl View for WebvttMuxerBuilder {
    type V = MuxerState;

    /// The muxer that the builder would make.
    closed spec fn view(&self) -> MuxerState {
        MuxerState {
            latency_to_video: self.latency_to_video@,
            send_frequency_hz: self.send_frequency_hz,
            video_frame_time: self.video_frame_time@,
            tracks: Seq::new(self.tracks@.len(), |t: int| self.tracks@[t].info()),
            cues: Seq::new(self.tracks@.len(), |t: int| self.tracks@[t].cue_infos()),
            next_chunk_number: 0,
            first_video_timestamp: None,
        }
    }
}

impl WebvttMuxerBuilder {
    /// The builder is sound: it would make a valid muxer that starts with
    /// chunk number zero, has seen no video timestamp, and has empty queues.
    pub open spec fn wf(&self) -> bool {
        &&& self@.valid()
        &&& self@.next_chunk_number == 0
        &&& self@.first_video_timestamp is None
        &&& forall|t: int| 0 <= t < self@.cues.len() ==> (#[trigger] self@.cues[t]).len() == 0
    }

    /// A builder with the given settings and no tracks.
    ///
    /// `send_frequency_hz` is the number of chunks per second, and must not
    /// be zero.
    pub fn new(latency_to_video: Duration, send_frequency_hz: u8, video_frame_time: Duration) -> (builder:
        Self)
        requires
            send_frequency_hz > 0,
        ensures
            builder.wf(),
            builder@ == (MuxerState {
                latency_to_video: latency_to_video@,
                send_frequency_hz,
                video_frame_time: video_frame_time@,
                tracks: Seq::empty(),
                cues: Seq::empty(),
                next_chunk_number: 0,
                first_video_timestamp: None,
            }),
    {
        let builder = Self { latency_to_video, send_frequency_hz, video_frame_time, tracks: Vec::new() };
        assert(builder@.tracks =~= Seq::empty());
        assert(builder@.cues =~= Seq::empty());
        builder
    }

    /// Adds a track behind the tracks that are there.
    ///
    /// A builder that has 255 tracks takes no more: it stays as it is, and
    /// the strings come back in the error.
    pub fn add_track(
        &mut self,
        default: bool,
        autoselect: bool,
        forced: bool,
        name: WebvttString,
        language: WebvttString,
        assoc_language: Option<WebvttString>,
        characteristics: Option<WebvttString>,
    ) -> (r: Result<&mut Self, TooManySubtitleTracksError>)
        requires
            old(self).wf(),
        ensures
            match r {
                Ok(builder) => {
                    &&& old(self)@.tracks.len() < MAX_TRACKS
                    &&& *final(self) == *final(builder)
                    &&& builder.wf()
                    &&& builder@ == (MuxerState {
                        tracks: old(self)@.tracks.push(
                            TrackInfo {
                                default,
                                autoselect,
                                forced,
                                name: name@,
                                language: language@,
                                assoc_language: optional_text(assoc_language),
                                characteristics: optional_text(characteristics),
                            },
                        ),
                        cues: old(self)@.cues.push(Seq::empty()),
                        ..old(self)@
                    })
                },
                Err(e) => {
                    &&& old(self)@.tracks.len() == MAX_TRACKS
                    &&& *final(self) == *old(self)
                    &&& e.name == name
                    &&& e.language == language
                    &&& e.assoc_language == assoc_language
                    &&& e.characteristics == characteristics
                },
            },
    {
        if self.tracks.len() == MAX_TRACKS {
            return Err(TooManySubtitleTracksError { name, language, assoc_language, characteristics });
        }
        let track = WebvttMuxerTrack {
            cues: VecDeque::new(),
            default,
            autoselect,
            forced,
            name: name.into_string(),
            language: language.into_string(),
            assoc_language: optional_string(assoc_language),
            characteristics: optional_string(characteristics),
        };
        assert(track.cue_infos() =~= Seq::empty());
        self.tracks.push(track);
        proof {
            assert(self@.tracks =~= old(self)@.tracks.push(track.info()));
            assert(self@.cues =~= old(self)@.cues.push(Seq::empty()));
        }
        Ok(self)
    }

    /// Makes the muxer: it starts with chunk number zero and has seen no
    /// video timestamp yet.
    pub fn create_muxer(self) -> (muxer: WebvttMuxer)
        requires
            self.wf(),
        ensures
            muxer.wf(),
            muxer@ == self@,
            muxer@.next_chunk_number == 0,
            muxer@.first_video_timestamp is None,
            forall|t: int| 0 <= t < muxer@.cues.len() ==> (#[trigger] muxer@.cues[t]).len() == 0,
    {
        let muxer = WebvttMuxer {
            latency_to_video: self.latency_to_video,
            send_frequency_hz: self.send_frequency_hz,
            video_frame_time: self.video_frame_time,
            tracks: self.tracks,
            webvtt_buffer: String::new(),
            next_chunk_number: 0,
            first_video_timestamp: None,
        };
        assert(muxer@.tracks =~= self@.tracks);
        assert(muxer@.cues =~= self@.cues);
        muxer
    }
}

/// A muxer of WebVTT cues into a video stream.
pub struct WebvttMuxer {
    latency_to_video: Duration,
    send_frequency_hz: u8,
    video_frame_time: Duration,
    tracks: Vec<WebvttMuxerTrack>,
    webvtt_buffer: String,
    next_chunk_number: u64,
    first_video_timestamp: Option<Duration>,
}

/// There is no track with this index.
#[derive(Clone, Copy, Debug)]
pub struct InvalidWebvttTrack(pub u8);

impl View for WebvttMuxer {
    type V = MuxerState;

    closed spec fn view(&self) -> MuxerState {
        MuxerState {
            latency_to_video: self.latency_to_video@,
            send_frequency_hz: self.send_frequency_hz,
            video_frame_time: self.video_frame_time@,
            tracks: Seq::new(self.tracks@.len(), |t: int| self.tracks@[t].info()),
            cues: Seq::new(self.tracks@.len(), |t: int| self.tracks@[t].cue_infos()),
            next_chunk_number: self.next_chunk_number,
            first_video_timestamp: match self.first_video_timestamp {
                Some(t) => Some(t@),
                None => None,
            },
        }
    }
}

impl WebvttMuxer {
    /// The muxer is sound.
    pub open spec fn wf(&self) -> bool {
        self@.valid()
    }

    /// The number of the chunk that is sent next.
    pub fn next_chunk_number(&self) -> (number: u64)
        ensures
            number == self@.next_chunk_number,
    {
        self.next_chunk_number
    }

    /// The video timestamp of the first call, once there was one.
    pub fn first_video_timestamp(&self) -> (first: Option<Duration>)
        ensures
            match first {
                Some(first) => self@.first_video_timestamp == Some(first@),
                None => self@.first_video_timestamp is None,
            },
    {
        self.first_video_timestamp
    }

    /// Puts a cue into the queue of the track `track`: before the first cue
    /// that starts later, and so behind every cue that starts at the same time.
    pub fn add_cue(&mut self, track: u8, start_time: Duration, duration: Duration, text: WebvttString) -> (r:
        Result<(), InvalidWebvttTrack>)
        requires
            old(self).wf(),
        ensures
            final(self).wf(),
            match r {
                Ok(()) => {
                    let queue = old(self)@.cues[track as int];
                    let cue = CueInfo { start: start_time@, duration: duration@, text: text@ };
                    &&& track < old(self)@.tracks.len()
                    &&& final(self)@ == (MuxerState {
                        cues: old(self)@.cues.update(
                            track as int,
                            queue.insert(insert_position(queue, start_time@) as int, cue),
                        ),
                        ..old(self)@
                    })
                },
                Err(e) => {
                    &&& track >= old(self)@.tracks.len()
                    &&& e == InvalidWebvttTrack(track)
                    &&& *final(self) == *old(self)
                },
            },
    {
        let t = track as usize;
        if t >= self.tracks.len() {
            return Err(InvalidWebvttTrack(track));
        }
        let ghost queue = self.tracks@[t as int].cue_infos();
        let start = start_time.as_nanos();
        let mut index: usize = 0;
        assert(queue.skip(0) =~= queue);
        while index < self.tracks[t].cues.len() && self.tracks[t].cues[index].start_time.as_nanos()
            <= start
            invariant
                t < self.tracks@.len(),
                *self == *old(self),
                queue == self.tracks@[t as int].cue_infos(),
                start == start_time@,
                index <= queue.len(),
                insert_position(queue, start_time@) == index + insert_position(
                    queue.skip(index as int),
                    start_time@,
                ),
            decreases queue.len() - index,
        {
            proof {
                assert(queue.skip(index as int).skip(1) =~= queue.skip(index as int + 1));
            }
            index += 1;
        }
        let cue = WebvttCue { start_time, duration, text };
        self.tracks[t].cues.insert(index, cue);
        proof {
            let grown = queue.insert(index as int, cue@);
            assert(self.tracks@[t as int].cue_infos() =~= grown);
            assert(final(self)@.cues =~= old(self)@.cues.update(track as int, grown));
            assert(final(self)@.tracks =~= old(self)@.tracks);
            lemma_insert_keeps_sorted(queue, cue@);
            assert(old(self)@.cues[t as int] == queue);
        }
        Ok(())
    }
}

/// The time between two chunks in nanoseconds: the whole number of
/// nanoseconds that is nearest to one second divided by `send_frequency_hz`.
pub open spec fn period_nanos(send_frequency_hz: u8) -> nat {
    ((2_000_000_000 + send_frequency_hz) / (2 * send_frequency_hz)) as nat
}

/// Whether `cue` is over before the chunk that starts at `chunk_start`.
pub open spec fn expired(cue: CueInfo, chunk_start: nat) -> bool {
    cue.start + cue.duration < chunk_start
}

/// `cues` without the expired cues at its front.
pub open spec fn drop_expired(cues: Seq<CueInfo>, chunk_start: nat) -> Seq<CueInfo>
    decreases cues.len(),
{
    if cues.len() > 0 && expired(cues[0], chunk_start) {
        drop_expired(cues.skip(1), chunk_start)
    } else {
        cues
    }
}

/// `cue` as it shows in the chunk that starts at `chunk_start` and lasts
/// `period`: its times are cut to the chunk.
pub open spec fn cue_in_chunk(cue: CueInfo, chunk_start: nat, period: nat) -> Seq<char> {
    let cue_start = if cue.start > chunk_start {
        cue.start
    } else {
        chunk_start
    };
    let cue_end = if cue.start + cue.duration < chunk_start + period {
        cue.start + cue.duration
    } else {
        chunk_start + period
    };
    cue_block(cue_start, cue_end, cue.text)
}

/// The text of the chunk that starts at `chunk_start` and lasts `period`:
/// the cues of `cues` in their order, up to the first that starts after the
/// end of the chunk.
pub open spec fn chunk_text(cues: Seq<CueInfo>, chunk_start: nat, period: nat) -> Seq<char>
    decreases cues.len(),
{
    if cues.len() == 0 || cues[0].start > chunk_start + period {
        Seq::empty()
    } else {
        cue_in_chunk(cues[0], chunk_start, period) + chunk_text(cues.skip(1), chunk_start, period)
    }
}

/// Dropping the expired cues leaves a queue in the order of start times in
/// that order.
pub proof fn lemma_drop_expired_sorted(cues: Seq<CueInfo>, chunk_start: nat)
    requires
        sorted(cues),
    ensures
        sorted(drop_expired(cues, chunk_start)),
    decreases cues.len(),
{
    if cues.len() > 0 && expired(cues[0], chunk_start) {
        let rest = cues.skip(1);
        assert(sorted(rest)) by {
            assert forall|i: int, j: int| 0 <= i <= j < rest.len() implies rest[i].start
                <= rest[j].start by {
                assert(rest[i] == cues[i + 1] && rest[j] == cues[j + 1]);
            }
        }
        lemma_drop_expired_sorted(rest, chunk_start);
    }
}

/// The views of the cues in `cues`, in the same order.
spec fn queue_infos(cues: Seq<WebvttCue>) -> Seq<CueInfo> {
    Seq::new(cues.len(), |i: int| cues[i]@)
}

impl WebvttMuxer {
    /// Forms the text of a chunk from the queue `cues`.
    ///
    /// Takes the expired cues off the front of the queue, then writes into
    /// `buffer`, in place of what it held, the cues that show in the chunk
    /// that starts at `timestamp` and lasts `duration`.
    fn consume_cues_into_chunk(
        cues: &mut VecDeque<WebvttCue>,
        timestamp: Duration,
        duration: Duration,
        buffer: &mut String,
    )
        ensures
            queue_infos(final(cues)@) == drop_expired(queue_infos(old(cues)@), timestamp@),
            final(buffer)@ == chunk_text(queue_infos(final(cues)@), timestamp@, duration@),
    {
        let chunk_start = timestamp.as_nanos();
        let chunk_end = chunk_start + duration.as_nanos();
        while cues.len() > 0 && cues[0].start_time.as_nanos() + cues[0].duration.as_nanos()
            < chunk_start
            invariant
                chunk_start == timestamp@,
                drop_expired(queue_infos(cues@), timestamp@) == drop_expired(
                    queue_infos(old(cues)@),
                    timestamp@,
                ),
            decreases cues@.len(),
        {
            let ghost before = cues@;
            cues.pop_front();
            assert(queue_infos(cues@) =~= queue_infos(before).skip(1));
        }
        *buffer = String::new();
        let ghost kept = cues@;
        let ghost infos = queue_infos(cues@);
        let mut i: usize = 0;
        assert(infos.skip(0) =~= infos);
        assert(buffer@ + chunk_text(infos, timestamp@, duration@) =~= chunk_text(
            infos,
            timestamp@,
            duration@,
        ));
        while i < cues.len() && cues[i].start_time.as_nanos() <= chunk_end
            invariant
                i <= cues@.len(),
                cues@ == kept,
                infos == queue_infos(cues@),
                chunk_start == timestamp@,
                chunk_end == timestamp@ + duration@,
                chunk_text(infos, timestamp@, duration@) == buffer@ + chunk_text(
                    infos.skip(i as int),
                    timestamp@,
                    duration@,
                ),
            decreases cues@.len() - i,
        {
            let cue = &cues[i];
            let start = cue.start_time.as_nanos();
            let end = start + cue.duration.as_nanos();
            let cue_start = if start > chunk_start {
                start
            } else {
                chunk_start
            };
            let cue_end = if end < chunk_end {
                end
            } else {
                chunk_end
            };
            let ghost before = buffer@;
            push_cue_block(buffer, cue_start, cue_end, cue.text.as_str());
            proof {
                let rest = infos.skip(i as int);
                assert(rest[0] == cue@);
                assert(rest.skip(1) =~= infos.skip(i as int + 1));
                let line = cue_in_chunk(cue@, timestamp@, duration@);
                assert(buffer@ == before + line);
                assert(before + (line + chunk_text(rest.skip(1), timestamp@, duration@)) =~= (before
                    + line) + chunk_text(rest.skip(1), timestamp@, duration@));
            }
            i += 1;
        }
        assert(buffer@ + Seq::<char>::empty() =~= buffer@);
    }
}

impl MuxerState {
    /// The time between two chunks, in nanoseconds.
    pub open spec fn period(self) -> nat {
        period_nanos(self.send_frequency_hz)
    }

    /// Where the next chunk starts on the timeline of the subtitles.
    pub open spec fn chunk_start(self) -> nat {
        self.next_chunk_number as nat * self.period()
    }

    /// The video timestamp at which the subtitles start: that of the first
    /// call, which is this call, at `video_timestamp`, where there was none before.
    pub open spec fn origin(self, video_timestamp: nat) -> nat {
        match self.first_video_timestamp {
            Some(first) => first,
            None => video_timestamp,
        }
    }

    /// Whether the next chunk is due at `video_timestamp`: its place on the
    /// video timeline lies no more than two frames ahead.
    pub open spec fn chunk_due(self, video_timestamp: nat) -> bool {
        self.origin(video_timestamp) + self.latency_to_video + self.chunk_start() <= video_timestamp
            + 2 * self.video_frame_time
    }

    /// How far `video_timestamp` lies behind the start of the next chunk,
    /// in nanoseconds; below zero where it lies before it.
    pub open spec fn video_offset(self, video_timestamp: nat) -> int {
        video_timestamp - (self.origin(video_timestamp) + self.chunk_start())
    }

    /// Whether the offset to the video can be sent: it is not below zero and
    /// stays below 65 536 milliseconds.
    pub open spec fn offset_fits(self, video_timestamp: nat) -> bool {
        0 <= self.video_offset(video_timestamp) && self.video_offset(video_timestamp) / 1_000_000
            <= 0xffff
    }

    /// The message that announces the tracks, where it can be sent.
    pub open spec fn header(self) -> Option<Seq<u8>> {
        header_message(self.latency_to_video, self.send_frequency_hz, self.tracks)
    }

    /// The queue of the track `track` once the next chunk has been formed.
    pub open spec fn queue_in_chunk(self, track: int) -> Seq<CueInfo> {
        drop_expired(self.cues[track], self.chunk_start())
    }

    /// The message that carries the next chunk of the track `track`, where
    /// it can be sent.
    pub open spec fn payload(self, track: int, video_timestamp: nat) -> Option<Seq<u8>> {
        payload_message(
            track as u8,
            self.next_chunk_number,
            0,
            self.video_offset(video_timestamp) as nat,
            chunk_text(self.queue_in_chunk(track), self.chunk_start(), self.period()),
        )
    }

    /// The messages that carry the next chunk of the first `upto` tracks,
    /// one after the other.
    pub open spec fn payloads(self, upto: nat, video_timestamp: nat) -> Seq<u8>
        decreases upto,
    {
        if upto == 0 {
            Seq::empty()
        } else {
            self.payloads((upto - 1) as nat, video_timestamp) + match self.payload(
                upto - 1,
                video_timestamp,
            ) {
                Some(message) => message,
                None => Seq::empty(),
            }
        }
    }

    /// The state with the start of the subtitles fixed.
    pub open spec fn latched(self, video_timestamp: nat) -> MuxerState {
        MuxerState { first_video_timestamp: Some(self.origin(video_timestamp)), ..self }
    }

    /// The state once the next chunk has been formed for the first `upto` tracks.
    pub open spec fn consumed(self, upto: nat) -> MuxerState {
        MuxerState {
            cues: Seq::new(
                self.cues.len(),
                |t: int|
                    if t < upto {
                        self.queue_in_chunk(t)
                    } else {
                        self.cues[t]
                    },
            ),
            ..self
        }
    }

    /// The first track, from `from` on, whose message does not go through
    /// on `writer`, which has taken `lead` on top already: the message
    /// cannot be sent, or the writer does not hold it. Where all go through,
    /// the number of tracks.
    pub open spec fn first_failure<W: ByteSink>(
        self,
        writer: W,
        lead: Seq<u8>,
        video_timestamp: nat,
        from: nat,
    ) -> nat
        decreases self.tracks.len() - from,
    {
        if from >= self.tracks.len() {
            self.tracks.len()
        } else if self.payload(from as int, video_timestamp) is None || !writer.holds(
            writer.taken() + (lead + self.payloads(from + 1, video_timestamp)),
        ) {
            from
        } else {
            self.first_failure(writer, lead, video_timestamp, from + 1)
        }
    }
}

/// How sending the next chunk went, once it was found due: `after` and
/// `writer_after` are what became of the muxer and of the writer, which had
/// taken `lead` on top of `writer_before` already.
///
/// The tracks are served in their order. Each has its queue cut and its
/// message written. Where all went through, the answer is `true` and the
/// chunk number has gone up by one. Else the track that failed is the last
/// whose queue was cut, the chunk number is as before, and the answer tells
/// why: a numeric overflow where the message could not be sent, and the
/// refusal of the writer, as the writer gave it, where it did not hold the
/// message.
pub open spec fn chunk_outcome<W: ByteSink>(
    before: MuxerState,
    after: MuxerState,
    writer_before: W,
    writer_after: W,
    lead: Seq<u8>,
    video_timestamp: nat,
    r: Result<bool, WriteError>,
) -> bool {
    let tracks = before.tracks.len();
    let failed = before.first_failure(writer_before, lead, video_timestamp, 0);
    if failed == tracks {
        &&& r == Ok::<bool, WriteError>(true)
        &&& after == (MuxerState {
            next_chunk_number: (before.next_chunk_number + 1) as u64,
            ..before.consumed(tracks)
        })
        &&& wrote_all(writer_before, writer_after, lead + before.payloads(tracks, video_timestamp))
    } else {
        &&& after == before.consumed(failed + 1)
        &&& if before.payload(failed as int, video_timestamp) is None {
            &&& r == Err::<bool, WriteError>(WriteError::NumericOverflow)
            &&& wrote_all(
                writer_before,
                writer_after,
                lead + before.payloads(failed, video_timestamp),
            )
        } else {
            &&& r matches Err(e) && write_outcome(
                writer_before,
                writer_after,
                lead + before.payloads(failed + 1, video_timestamp),
                Err::<(), WriteError>(e),
            )
        }
    }
}

/// How a call of [`WebvttMuxer::try_mux_into_bytestream`] went.
///
/// 1. With `add_header`, the header message is written first. Where it
///    cannot be sent or the writer does not hold it, the call fails and the
///    muxer is as before.
/// 2. The start of the subtitles is fixed, if it was not yet.
/// 3. Where the chunks cannot be numbered any more, the call fails with a
///    numeric overflow.
/// 4. Where no chunk is due, the answer is `add_header`: whether anything
///    was written.
/// 5. Where there is a track, and so a message to carry the offset to the
///    video, and the offset cannot be sent, the call fails with a numeric
///    overflow. A muxer without tracks has no use for the offset.
/// 6. Else the chunk is sent as [`chunk_outcome`] tells.
pub open spec fn mux_outcome<W: ByteSink>(
    before: MuxerState,
    after: MuxerState,
    writer_before: W,
    writer_after: W,
    video_timestamp: nat,
    add_header: bool,
    r: Result<bool, WriteError>,
) -> bool {
    let header = if add_header {
        before.header()
    } else {
        Some(Seq::empty())
    };
    match header {
        None => {
            &&& r == Err::<bool, WriteError>(WriteError::NumericOverflow)
            &&& after == before
            &&& writer_after == writer_before
        },
        Some(lead) => {
            let latched = before.latched(video_timestamp);
            if !writer_before.holds(writer_before.taken() + lead) {
                &&& r matches Err(e) && write_outcome(
                    writer_before,
                    writer_after,
                    lead,
                    Err::<(), WriteError>(e),
                )
                &&& after == before
            } else if before.next_chunk_number >= MAX_CHUNKS {
                &&& r == Err::<bool, WriteError>(WriteError::NumericOverflow)
                &&& after == latched
                &&& wrote_all(writer_before, writer_after, lead)
            } else if !before.chunk_due(video_timestamp) {
                &&& r == Ok::<bool, WriteError>(add_header)
                &&& after == latched
                &&& wrote_all(writer_before, writer_after, lead)
            } else if before.tracks.len() > 0 && !before.offset_fits(video_timestamp) {
                &&& r == Err::<bool, WriteError>(WriteError::NumericOverflow)
                &&& after == latched
                &&& wrote_all(writer_before, writer_after, lead)
            } else {
                chunk_outcome(
                    latched,
                    after,
                    writer_before,
                    writer_after,
                    lead,
                    video_timestamp,
                    r,
                )
            }
        },
    }
}

/// The message that goes before the chunk in a call: the header message
/// where `add_header` asks for it and it can be sent, else nothing.
pub open spec fn lead_of(before: MuxerState, add_header: bool) -> Seq<u8> {
    if add_header && before.header() is Some {
        before.header().unwrap()
    } else {
        Seq::empty()
    }
}

/// A call sends no more than one chunk, and counts a chunk only when it has
/// sent it: the chunk number stays or goes up by one, and where it goes up,
/// the chunk was due, the answer is `true`, and the writer has taken the
/// messages of all tracks.
pub proof fn lemma_at_most_one_chunk<W: ByteSink>(
    before: MuxerState,
    after: MuxerState,
    writer_before: W,
    writer_after: W,
    video_timestamp: nat,
    add_header: bool,
    r: Result<bool, WriteError>,
)
    requires
        before.valid(),
        mux_outcome(before, after, writer_before, writer_after, video_timestamp, add_header, r),
    ensures
        after.next_chunk_number == before.next_chunk_number || after.next_chunk_number
            == before.next_chunk_number + 1,
        after.next_chunk_number != before.next_chunk_number ==> {
            &&& r == Ok::<bool, WriteError>(true)
            &&& before.chunk_due(video_timestamp)
            &&& wrote_all(
                writer_before,
                writer_after,
                lead_of(before, add_header) + before.latched(video_timestamp).payloads(
                    before.tracks.len(),
                    video_timestamp,
                ),
            )
        },
{
}

/// Sending the header does not count as a chunk: a call that writes the
/// header while no chunk is due leaves the chunk number as it is, though it
/// answers `true`.
pub proof fn lemma_header_leaves_counter<W: ByteSink>(
    before: MuxerState,
    after: MuxerState,
    writer_before: W,
    writer_after: W,
    video_timestamp: nat,
    r: Result<bool, WriteError>,
)
    requires
        before.valid(),
        !before.chunk_due(video_timestamp),
        mux_outcome(before, after, writer_before, writer_after, video_timestamp, true, r),
    ensures
        after.next_chunk_number == before.next_chunk_number,
        r is Ok ==> r == Ok::<bool, WriteError>(true) && before.header() is Some && wrote_all(
            writer_before,
            writer_after,
            before.header().unwrap(),
        ),
{
}

/// Forming the chunk for no track leaves the state as it is.
pub proof fn lemma_consumed_none(state: MuxerState)
    requires
        state.cues.len() == state.tracks.len(),
    ensures
        state.consumed(0) == state,
{
    assert(state.consumed(0).cues =~= state.cues);
}

/// Forming the chunk for one more track cuts the queue of that track and
/// leaves the others as they are.
pub proof fn lemma_consumed_step(state: MuxerState, track: nat)
    requires
        track < state.cues.len(),
    ensures
        state.consumed(track + 1) == (MuxerState {
            cues: state.consumed(track).cues.update(
                track as int,
                drop_expired(state.consumed(track).cues[track as int], state.chunk_start()),
            ),
            ..state.consumed(track)
        }),
{
    assert(state.consumed(track + 1).cues =~= state.consumed(track).cues.update(
        track as int,
        drop_expired(state.consumed(track).cues[track as int], state.chunk_start()),
    ));
}

/// Forming chunks keeps a valid state valid: every queue stays in the order
/// of start times.
pub proof fn lemma_consumed_valid(state: MuxerState, upto: nat)
    requires
        state.valid(),
    ensures
        state.consumed(upto).valid(),
{
    let after = state.consumed(upto);
    assert forall|t: int| 0 <= t < after.cues.len() implies sorted(#[trigger] after.cues[t]) by {
        assert(sorted(state.cues[t]));
        lemma_drop_expired_sorted(state.cues[t], state.chunk_start());
    }
}

/// The first failure is the same whether the writer is looked at before it
/// took `lead` or after.
pub proof fn lemma_first_failure_lead<W: ByteSink>(
    state: MuxerState,
    start: W,
    mid: W,
    lead: Seq<u8>,
    video_timestamp: nat,
    from: nat,
)
    requires
        wrote_all(start, mid, lead),
    ensures
        state.first_failure(mid, Seq::empty(), video_timestamp, from) == state.first_failure(
            start,
            lead,
            video_timestamp,
            from,
        ),
    decreases state.tracks.len() - from,
{
    if from < state.tracks.len() {
        let next = state.payloads(from + 1, video_timestamp);
        assert(mid.taken() + (Seq::<u8>::empty() + next) =~= start.taken() + (lead + next));
        mid.follows_holds(&start, start.taken() + (lead + next));
        lemma_first_failure_lead(state, start, mid, lead, video_timestamp, from + 1);
    }
}

/// A chunk sent on a writer that had taken `lead` before is a chunk sent
/// behind `lead`.
pub proof fn lemma_chunk_outcome_lead<W: ByteSink>(
    before: MuxerState,
    after: MuxerState,
    start: W,
    mid: W,
    end: W,
    lead: Seq<u8>,
    video_timestamp: nat,
    r: Result<bool, WriteError>,
)
    requires
        wrote_all(start, mid, lead),
        chunk_outcome(before, after, mid, end, Seq::empty(), video_timestamp, r),
    ensures
        chunk_outcome(before, after, start, end, lead, video_timestamp, r),
{
    lemma_first_failure_lead(before, start, mid, lead, video_timestamp, 0);
    let tracks = before.tracks.len();
    let failed = before.first_failure(mid, Seq::empty(), video_timestamp, 0);
    if failed == tracks {
        let sent = before.payloads(tracks, video_timestamp);
        lemma_write_done(mid, end, Seq::empty() + sent);
        lemma_write_then(start, mid, end, lead, Seq::empty() + sent, Ok(()));
        assert(lead + (Seq::<u8>::empty() + sent) =~= lead + sent);
    } else if before.payload(failed as int, video_timestamp) is None {
        let sent = before.payloads(failed, video_timestamp);
        lemma_write_done(mid, end, Seq::empty() + sent);
        lemma_write_then(start, mid, end, lead, Seq::empty() + sent, Ok(()));
        assert(lead + (Seq::<u8>::empty() + sent) =~= lead + sent);
    } else {
        let sent = before.payloads(failed + 1, video_timestamp);
        lemma_write_then(start, mid, end, lead, Seq::empty() + sent, Err(r->Err_0));
        assert(lead + (Seq::<u8>::empty() + sent) =~= lead + sent);
    }
}

/// Where the sending of a chunk stands when the first `track` tracks have
/// been served on a writer that was `start` and is `now_writer`: their
/// messages are written, and none of them failed.
pub open spec fn served<W: ByteSink>(
    before: MuxerState,
    start: W,
    now_writer: W,
    video_timestamp: nat,
    track: nat,
) -> bool {
    &&& start.inv()
    &&& wrote_all(start, now_writer, Seq::empty() + before.payloads(track, video_timestamp))
    &&& before.first_failure(start, Seq::empty(), video_timestamp, 0) == before.first_failure(
        start,
        Seq::empty(),
        video_timestamp,
        track,
    )
}

/// One track more is served: where its message went through, the sending
/// stands one track further; where not, the chunk has failed at this track.
pub proof fn lemma_chunk_step<W: ByteSink>(
    before: MuxerState,
    start: W,
    mid: W,
    end: W,
    video_timestamp: nat,
    track: nat,
    r: Result<(), WriteError>,
)
    requires
        track < before.tracks.len(),
        served(before, start, mid, video_timestamp, track),
        message_outcome(mid, end, before.payload(track as int, video_timestamp), r),
    ensures
        r is Ok ==> served(before, start, end, video_timestamp, track + 1),
        r matches Err(e) ==> chunk_outcome(
            before,
            before.consumed(track + 1),
            start,
            end,
            Seq::empty(),
            video_timestamp,
            Err::<bool, WriteError>(e),
        ),
{
    let lead = Seq::<u8>::empty();
    let done = lead + before.payloads(track, video_timestamp);
    let next = before.payloads(track + 1, video_timestamp);
    match before.payload(track as int, video_timestamp) {
        Some(message) => {
            assert(done + message =~= lead + next);
            assert(mid.taken() + message =~= start.taken() + (lead + next));
            mid.follows_holds(&start, mid.taken() + message);
            lemma_write_then(start, mid, end, done, message, r);
        },
        None => {
            assert(lead + next =~= done);
        },
    }
}

/// Every track is served: the chunk is sent.
pub proof fn lemma_chunk_sent<W: ByteSink>(
    before: MuxerState,
    after: MuxerState,
    start: W,
    end: W,
    video_timestamp: nat,
)
    requires
        served(before, start, end, video_timestamp, before.tracks.len()),
        after == (MuxerState {
            next_chunk_number: (before.next_chunk_number + 1) as u64,
            ..before.consumed(before.tracks.len())
        }),
    ensures
        chunk_outcome(
            before,
            after,
            start,
            end,
            Seq::empty(),
            video_timestamp,
            Ok::<bool, WriteError>(true),
        ),
{
}

/// The time between two chunks, in nanoseconds.
fn send_period(send_frequency_hz: u8) -> (period: u64)
    requires
        send_frequency_hz > 0,
    ensures
        period == period_nanos(send_frequency_hz),
        period <= 1_000_000_000,
{
    let hz = send_frequency_hz as u64;
    let period: u64 = (2_000_000_000 + hz) / (2 * hz);
    assert(period <= 1_000_000_000) by (nonlinear_arith)
        requires
            period == (2_000_000_000 + hz) / (2 * hz),
            1 <= hz <= 255,
    ;
    period
}

impl WebvttMuxer {
    /// The tracks as the header record describes them.
    fn track_descriptions(&self) -> (tracks: Vec<WebvttTrack<'_>>)
        ensures
            track_infos(tracks@) == self@.tracks,
    {
        let mut tracks: Vec<WebvttTrack<'_>> = Vec::new();
        let mut i: usize = 0;
        while i < self.tracks.len()
            invariant
                i <= self.tracks@.len(),
                tracks@.len() == i,
                forall|t: int| 0 <= t < i ==> (#[trigger] tracks@[t])@ == self.tracks@[t].info(),
            decreases self.tracks@.len() - i,
        {
            let track = &self.tracks[i];
            tracks.push(
                WebvttTrack {
                    default: track.default,
                    autoselect: track.autoselect,
                    forced: track.forced,
                    name: track.name.as_str(),
                    language: track.language.as_str(),
                    assoc_language: match &track.assoc_language {
                        Some(text) => Some(text.as_str()),
                        None => None,
                    },
                    characteristics: match &track.characteristics {
                        Some(text) => Some(text.as_str()),
                        None => None,
                    },
                },
            );
            i += 1;
        }
        assert(track_infos(tracks@) =~= self@.tracks);
        tracks
    }

    /// Writes the message that announces the tracks.
    fn send_header<W: WebvttWrite>(&self, writer: &mut W) -> (r: Result<(), WriteError>)
        requires
            old(writer).inv(),
        ensures
            message_outcome(*old(writer), *final(writer), self@.header(), r),
    {
        let webvtt_tracks = self.track_descriptions();
        writer.write_webvtt_header(
            self.latency_to_video,
            self.send_frequency_hz,
            webvtt_tracks.as_slice(),
        )
    }

    /// Forms the chunk of the track `track_index`: cuts its queue and puts
    /// the text of the chunk into the buffer.
    fn form_chunk(&mut self, track_index: usize, timestamp: Duration, duration: Duration)
        requires
            track_index < old(self)@.cues.len(),
        ensures
            final(self)@ == (MuxerState {
                cues: old(self)@.cues.update(
                    track_index as int,
                    drop_expired(old(self)@.cues[track_index as int], timestamp@),
                ),
                ..old(self)@
            }),
            final(self).webvtt_buffer@ == chunk_text(
                final(self)@.cues[track_index as int],
                timestamp@,
                duration@,
            ),
    {
        Self::consume_cues_into_chunk(
            &mut self.tracks[track_index].cues,
            timestamp,
            duration,
            &mut self.webvtt_buffer,
        );
        proof {
            assert(self@.tracks =~= old(self)@.tracks);
            assert(self@.cues =~= old(self)@.cues.update(
                track_index as int,
                drop_expired(old(self)@.cues[track_index as int], timestamp@),
            ));
        }
    }

    /// Serves one track of the next chunk: forms the chunk of the track and
    /// writes its message.
    fn serve_track<W: WebvttWrite>(
        &mut self,
        writer: &mut W,
        track_index: usize,
        chunk_timestamp: Duration,
        period: Duration,
        video_offset: Duration,
        Ghost(before): Ghost<MuxerState>,
        Ghost(start): Ghost<W>,
        Ghost(now): Ghost<nat>,
    ) -> (r: Result<(), WriteError>)
        requires
            track_index < before.tracks.len(),
            before.valid(),
            before.chunk_start() == chunk_timestamp@,
            before.period() == period@,
            before.video_offset(now) == video_offset@,
            old(self)@ == before.consumed(track_index as nat),
            served(before, start, *old(writer), now, track_index as nat),
        ensures
            final(self)@ == before.consumed((track_index + 1) as nat),
            r is Ok ==> served(before, start, *final(writer), now, (track_index + 1) as nat),
            r matches Err(e) ==> chunk_outcome(
                before,
                final(self)@,
                start,
                *final(writer),
                Seq::empty(),
                now,
                Err::<bool, WriteError>(e),
            ),
    {
        let ghost mid = *writer;
        self.form_chunk(track_index, chunk_timestamp, period);
        proof {
            lemma_consumed_step(before, track_index as nat);
        }
        let r = writer.write_webvtt_payload(
            track_index as u8,
            self.next_chunk_number,
            0,
            video_offset,
            self.webvtt_buffer.as_str(),
        );
        proof {
            lemma_chunk_step(before, start, mid, *writer, now, track_index as nat, r);
        }
        r
    }

    /// Sends the next chunk: for every track in its order, forms the chunk
    /// and writes its message, then counts the chunk.
    fn send_chunk<W: WebvttWrite>(
        &mut self,
        writer: &mut W,
        chunk_timestamp: Duration,
        period: Duration,
        video_offset: Duration,
        Ghost(now): Ghost<nat>,
    ) -> (r: Result<bool, WriteError>)
        requires
            old(self).wf(),
            old(writer).inv(),
            old(self)@.next_chunk_number < MAX_CHUNKS,
            old(self)@.chunk_start() == chunk_timestamp@,
            old(self)@.period() == period@,
            old(self)@.video_offset(now) == video_offset@,
        ensures
            final(self).wf(),
            chunk_outcome(
                old(self)@,
                final(self)@,
                *old(writer),
                *final(writer),
                Seq::empty(),
                now,
                r,
            ),
    {
        let ghost before = self@;
        let ghost start = *writer;
        let mut track_index: usize = 0;
        proof {
            lemma_consumed_none(before);
            lemma_write_nothing(start);
            assert(Seq::<u8>::empty() + before.payloads(0, now) =~= Seq::<u8>::empty());
        }
        while track_index < self.tracks.len()
            invariant
                track_index <= before.tracks.len(),
                self.tracks@.len() == before.tracks.len(),
                before == old(self)@,
                start == *old(writer),
                before.valid(),
                before.next_chunk_number < MAX_CHUNKS,
                before.chunk_start() == chunk_timestamp@,
                before.period() == period@,
                before.video_offset(now) == video_offset@,
                self@ == before.consumed(track_index as nat),
                served(before, start, *writer, now, track_index as nat),
            decreases before.tracks.len() - track_index,
        {
            let r = self.serve_track(
                writer,
                track_index,
                chunk_timestamp,
                period,
                video_offset,
                Ghost(before),
                Ghost(start),
                Ghost(now),
            );
            proof {
                lemma_consumed_valid(before, (track_index + 1) as nat);
            }
            if let Err(e) = r {
                return Err(e);
            }
            track_index += 1;
        }
        proof {
            lemma_consumed_valid(before, before.tracks.len());
        }
        self.count_chunk();
        proof {
            lemma_chunk_sent(before, self@, start, *writer, now);
        }
        Ok(true)
    }

    /// Counts a chunk as sent.
    fn count_chunk(&mut self)
        requires
            old(self)@.next_chunk_number < MAX_CHUNKS,
        ensures
            final(self)@ == (MuxerState {
                next_chunk_number: (old(self)@.next_chunk_number + 1) as u64,
                ..old(self)@
            }),
    {
        self.next_chunk_number += 1;
        proof {
            assert(self@.tracks =~= old(self)@.tracks);
            assert(self@.cues =~= old(self)@.cues);
        }
    }

    /// Sends what is due at `video_timestamp` to `writer`: the header
    /// message where `add_header` asks for it, and the next chunk of every
    /// track where the time for it has come.
    ///
    /// Returns whether anything was written. No more than one chunk is sent
    /// in a call, and the chunk number goes up only when the chunk was sent
    /// for every track.
    pub fn try_mux_into_bytestream<W: WebvttWrite>(
        &mut self,
        video_timestamp: Duration,
        add_header: bool,
        writer: &mut W,
    ) -> (r: Result<bool, WriteError>)
        requires
            old(self).wf(),
            old(writer).inv(),
        ensures
            final(self).wf(),
            mux_outcome(
                old(self)@,
                final(self)@,
                *old(writer),
                *final(writer),
                video_timestamp@,
                add_header,
                r,
            ),
    {
        let ghost before = self@;
        let ghost start = *writer;
        let ghost lead = if add_header {
            match before.header() {
                Some(message) => message,
                None => Seq::empty(),
            }
        } else {
            Seq::empty()
        };
        if add_header {
            if let Err(e) = self.send_header(writer) {
                return Err(e);
            }
        } else {
            proof {
                lemma_write_nothing(start);
                lemma_write_done(start, start, lead);
            }
        }
        let ghost mid = *writer;
        let first = match self.first_video_timestamp {
            Some(first) => first,
            None => {
                self.first_video_timestamp = Some(video_timestamp);
                video_timestamp
            },
        };
        let ghost latched = before.latched(video_timestamp@);
        proof {
            assert(self@.tracks =~= before.tracks);
            assert(self@.cues =~= before.cues);
            assert(self@ == latched);
        }
        if self.next_chunk_number >= MAX_CHUNKS {
            return Err(WriteError::NumericOverflow);
        }
        let period = send_period(self.send_frequency_hz);
        assert(self.next_chunk_number * period <= 0xffff_ffff * 1_000_000_000) by (nonlinear_arith)
            requires
                self.next_chunk_number <= 0xffff_ffff,
                period <= 1_000_000_000,
        ;
        let chunk_start: u64 = self.next_chunk_number * period;
        let wide_start: u128 = chunk_start as u128;
        let now = video_timestamp.as_nanos();
        if first.as_nanos() + self.latency_to_video.as_nanos() + wide_start > now + 2
            * self.video_frame_time.as_nanos() {
            return Ok(add_header);
        }
        if self.tracks.len() == 0 {
            self.count_chunk();
            proof {
                lemma_consumed_none(latched);
                assert(lead + latched.payloads(0, video_timestamp@) =~= lead);
            }
            return Ok(true);
        }
        let chunk_timestamp = Duration::from_nanos(chunk_start);
        let video_offset = match first.checked_add(chunk_timestamp) {
            Some(chunk_origin) => match video_timestamp.checked_sub(chunk_origin) {
                Some(video_offset) => video_offset,
                None => {
                    return Err(WriteError::NumericOverflow);
                },
            },
            None => {
                return Err(WriteError::NumericOverflow);
            },
        };
        if video_offset.as_millis() > 0xffff {
            return Err(WriteError::NumericOverflow);
        }
        let r = self.send_chunk(
            writer,
            chunk_timestamp,
            Duration::from_nanos(period),
            video_offset,
            Ghost(video_timestamp@),
        );
        proof {
            lemma_chunk_outcome_lead(
                latched,
                self@,
                start,
                mid,
                *writer,
                lead,
                video_timestamp@,
                r,
            );
        }
        r
    }
}

} // verus!
