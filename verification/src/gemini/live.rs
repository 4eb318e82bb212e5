//! The Live session controller. Utterances queue up in the order they were
//! started; the front one is streamed over a single WebSocket session that is
//! reused while its configuration stays the same and it is younger than
//! `SESSION_REFRESH_AFTER_MS`. Speech is bracketed by activity-start and
//! activity-end messages, audio goes out in 40 ms frames, and the transcript
//! that comes back completes the utterance. A failed session is retried once,
//! never after a rejected key. An idle controller can pre-warm a session for
//! the configuration the user will dictate with next.
//!
//! The shell owns the socket, the clock and the channels to its callers: it
//! passes commands, server messages and clock ticks in, performs the steps
//! this controller asks for, and carries out the events it emits.

use vstd::prelude::*;
use std::collections::VecDeque;
use super::{GeminiError, GeminiErrorView, LiveConfig, LiveConfigView, network_error, server_error};
use super::protocol::{
    activity_end_message, activity_end_text, activity_start_message, activity_start_text, audio_message,
    audio_text, decode_server_message, message_in, message_view, opt_text, WireFrame,
};
use crate::json::utf8_chars;
use super::transcript_buffer::{ServerMessage, ServerSignal, TranscriptBuffer, text_of};
use crate::dsp::StreamingResampler;
use crate::text::{concat, copy_string, decimal, decimal_string};

verus! {

broadcast use vstd::std_specs::vecdeque::group_vec_dequeue_axioms;

/// Samples per audio frame: 40 ms at 16 kHz.
pub const LIVE_FRAME_SAMPLES: usize = 640;
/// A session older than this is replaced before it is used again (9 minutes).
pub const SESSION_REFRESH_AFTER_MS: u64 = 540_000;
/// How long a completion without text waits for a late transcript.
pub const FINAL_TRANSCRIPT_GRACE_MS: u64 = 250;
/// Pause between failed pre-warm attempts.
pub const PREWARM_RETRY_INTERVAL_MS: u64 = 3_000;
/// Silence appended when speech ends (200 ms at 16 kHz), so the recognizer
/// has context to finalize the last word.
pub const TRAILING_SILENCE_SAMPLES: usize = 3_200;

/// What the shell asks of the controller.
pub enum LiveCommand {
    /// The configuration the next dictation will use, or none.
    Warm(Option<LiveConfig>),
    /// A dictation starts; `true` when the caller wants interim text.
    Start(LiveConfig, bool),
    /// Captured samples at the given rate.
    Audio(Vec<i16>, u32),
    /// The dictation ended; the caller waits for its transcript.
    Finish,
    /// The dictation was abandoned.
    Cancel,
}

/// The controller's answer to a command.
pub enum CommandReply {
    /// The command needs no answer.
    Done,
    /// A dictation was queued under this id.
    Started(u64),
    /// The transcript of the dictation with this id will be delivered later.
    FinishPending(u64),
    /// The transcript, or why there is none, right away.
    FinishNow(Result<String, GeminiError>),
}

/// Work for the shell on the channels it keeps per dictation.
pub enum LiveEvent {
    /// Send the result to the dictation's waiting caller and forget it.
    Deliver { id: u64, result: Result<String, GeminiError> },
    /// Send interim text to the dictation's stream.
    Stream { id: u64, text: String },
    /// Close the dictation's stream.
    CloseStream { id: u64 },
    /// Forget the dictation without a result.
    Forget { id: u64 },
}

/// What arrived from the socket.
pub enum ServerEvent {
    /// The server closed the connection, or the stream ended.
    Closed,
    /// A decoded text or binary message.
    Message(ServerMessage),
    /// A message that is neither text nor binary (ping, pong, frame).
    Ignored,
    /// The socket failed, or a message could not be decoded.
    Failed(GeminiError),
}

/// How the front dictation gets a session.
pub enum FrontStep {
    /// Nothing to stream.
    Skip,
    /// Connect with this configuration, then report the outcome.
    Connect(LiveConfig),
    /// The open session serves the front dictation.
    Ready,
}

/// One queued dictation.
pub struct Utterance {
    pub id: u64,
    pub config: LiveConfig,
    pub resampler: StreamingResampler,
    /// 16 kHz audio captured so far.
    pub pcm: Vec<i16>,
    /// How much of `pcm` was sent on the current session.
    pub sent_samples: usize,
    pub start_sent: bool,
    pub end_requested: bool,
    pub end_sent: bool,
    pub end_sent_at: Option<u64>,
    pub completion_seen_at: Option<u64>,
    pub cancelled: bool,
    pub retry_count: usize,
    pub transcript: TranscriptBuffer,
    /// The caller wants interim text.
    pub streaming: bool,
    /// The caller waits for the result.
    pub awaiting_result: bool,
    /// A result that came before anyone waited for it.
    pub terminal_result: Option<Result<String, GeminiError>>,
}

/// The open session, as far as the controller needs to know it.
pub struct SessionInfo {
    pub config: LiveConfig,
    pub opened_at: u64,
}

pub open spec fn utterance_wf(u: Utterance) -> bool {
    &&& u.sent_samples <= u.pcm@.len()
    &&& u.resampler.wf()
    &&& u.retry_count <= 1
    &&& u.end_sent ==> u.start_sent && u.end_requested
    &&& u.end_sent_at is Some <==> u.end_sent
    &&& u.completion_seen_at is Some ==> u.end_sent
    &&& u.terminal_result is Some ==> u.end_requested && !u.awaiting_result
    &&& u.awaiting_result ==> u.end_requested
    &&& u.cancelled ==> u.end_requested
}

/// A dictation that has not been streamed yet.
pub open spec fn untouched(u: Utterance) -> bool {
    &&& !u.start_sent
    &&& u.sent_samples == 0
    &&& !u.end_sent
}

/// `u` is a dictation just queued under `id`: nothing captured, nothing
/// sent, no transcript, a resampler that has seen no audio, and no result.
pub open spec fn fresh_dictation(u: Utterance, id: u64, config: LiveConfig, streaming: bool) -> bool {
    &&& untouched(u)
    &&& u.id == id
    &&& u.config == config
    &&& u.streaming == streaming
    &&& u.pcm@.len() == 0
    &&& u.resampler.rate() == 0
    &&& u.resampler.history() == Seq::<i16>::empty()
    &&& u.transcript.finalized().len() == 0
    &&& u.transcript.interim().len() == 0
    &&& u.end_sent_at is None
    &&& u.completion_seen_at is None
    &&& !u.end_requested
    &&& !u.cancelled
    &&& u.retry_count == 0
    &&& !u.awaiting_result
    &&& u.terminal_result is None
}

/// Ids of the queued dictations, in queue order.
pub open spec fn ids(q: Seq<Utterance>) -> Seq<u64> {
    q.map_values(|u: Utterance| u.id)
}

pub open spec fn queue_wf(q: Seq<Utterance>, next_id: u64) -> bool {
    &&& forall|i: int| 0 <= i < q.len() ==> utterance_wf(#[trigger] q[i])
    &&& forall|i: int| 1 <= i < q.len() ==> untouched(#[trigger] q[i])
    &&& forall|i: int, j: int| 0 <= i < j < q.len() ==> (#[trigger] q[i]).id < (#[trigger] q[j]).id
    &&& forall|i: int| 0 <= i < q.len() ==> (#[trigger] q[i]).id < next_id
}

/// Whether an event concerns the dictation `id`.
pub open spec fn event_id(e: LiveEvent) -> u64 {
    match e {
        LiveEvent::Deliver { id, .. } => id,
        LiveEvent::Stream { id, .. } => id,
        LiveEvent::CloseStream { id } => id,
        LiveEvent::Forget { id } => id,
    }
}


/// A result as plain values.
pub open spec fn result_view(r: Result<String, GeminiError>) -> Result<Seq<char>, GeminiErrorView> {
    match r {
        Ok(t) => Ok(t@),
        Err(e) => Err(e@),
    }
}

/// `q1` and `e1` are `q0` and `e0` after the front dictation of `q0` ended
/// with the result `rv`.
pub open spec fn completes_front(
    q0: Seq<Utterance>,
    q1: Seq<Utterance>,
    e0: Seq<LiveEvent>,
    e1: Seq<LiveEvent>,
    rv: Result<Seq<char>, GeminiErrorView>,
) -> bool {
    let f = q0[0];
    let close = if f.streaming {
        seq![LiveEvent::CloseStream { id: f.id }]
    } else {
        Seq::empty()
    };
    if f.cancelled {
        &&& q1 == q0.drop_first()
        &&& e1 == e0 + close + seq![LiveEvent::Forget { id: f.id }]
    } else if f.awaiting_result {
        &&& q1 == q0.drop_first()
        &&& e1.len() == e0.len() + close.len() + 1
        &&& e1.drop_last() == e0 + close
        &&& e1.last() matches LiveEvent::Deliver { id, result } && id == f.id && result_view(result) == rv
    } else {
        &&& q1 == q0.update(0, q1[0])
        &&& q1[0] == Utterance {
            streaming: false,
            end_requested: true,
            terminal_result: q1[0].terminal_result,
            ..f
        }
        &&& q1[0].terminal_result matches Some(r) && result_view(r) == rv
        &&& e1 == e0 + close
    }
}

/// `g` is `f` reset to stream again from the start on a new session.
pub open spec fn retried(f: Utterance, g: Utterance) -> bool {
    &&& g.retry_count == f.retry_count + 1
    &&& g.sent_samples == 0
    &&& !g.start_sent
    &&& !g.end_sent
    &&& g.end_sent_at is None
    &&& g.completion_seen_at is None
    &&& g.transcript.finalized().len() == 0
    &&& g.transcript.interim().len() == 0
    &&& g.id == f.id
    &&& g.config == f.config
    &&& g.resampler == f.resampler
    &&& g.pcm == f.pcm
    &&& g.end_requested == f.end_requested
    &&& g.cancelled == f.cancelled
    &&& g.streaming == f.streaming
    &&& g.awaiting_result == f.awaiting_result
    &&& g.terminal_result == f.terminal_result
}

/// The front id is the smallest and occurs once: it leaves with the front.
pub proof fn lemma_front_id_leaves(q: Seq<Utterance>)
    requires
        q.len() > 0,
        forall|i: int, j: int| 0 <= i < j < q.len() ==> (#[trigger] q[i]).id < (#[trigger] q[j]).id,
    ensures
        !ids(q.drop_first()).contains(q[0].id),
{
    if ids(q.drop_first()).contains(q[0].id) {
        let k = choose|k: int| 0 <= k < ids(q.drop_first()).len() && ids(q.drop_first())[k] == q[0].id;
        assert(q[k + 1].id == q[0].id);
    }
}

/// An optional configuration as plain values.
pub open spec fn opt_view(o: Option<LiveConfig>) -> Option<LiveConfigView> {
    match o {
        Some(c) => Some(c@),
        None => None,
    }
}

fn same_opt_config(a: &Option<LiveConfig>, b: &Option<LiveConfig>) -> (r: bool)
    ensures
        r == (opt_view(*a) == opt_view(*b)),
{
    match (a, b) {
        (Some(x), Some(y)) => x.same_as(y),
        (None, None) => true,
        _ => false,
    }
}

/// The back id is the largest and occurs once: it leaves with the back.
pub proof fn lemma_back_id_leaves(q: Seq<Utterance>)
    requires
        q.len() > 0,
        forall|i: int, j: int| 0 <= i < j < q.len() ==> (#[trigger] q[i]).id < (#[trigger] q[j]).id,
    ensures
        !ids(q.drop_last()).contains(q.last().id),
{
    if ids(q.drop_last()).contains(q.last().id) {
        let k = choose|k: int| 0 <= k < ids(q.drop_last()).len() && ids(q.drop_last())[k] == q.last().id;
        assert(q[k].id == q[q.len() - 1].id);
    }
}

/// `g` is `f` after the caller said the dictation ended: the controller now
/// owes it a result, and captured audio is followed by trailing silence.
pub open spec fn finished(f: Utterance, g: Utterance) -> bool {
    &&& g == Utterance { end_requested: true, awaiting_result: true, pcm: g.pcm, ..f }
    &&& g.pcm@ == if f.pcm@.len() > 0 {
        f.pcm@ + Seq::new(TRAILING_SILENCE_SAMPLES as nat, |i: int| 0i16)
    } else {
        f.pcm@
    }
}

/// A new warm configuration closes an idle session opened for another one.
pub open spec fn warm_drops_session(queued: nat, session: Option<SessionInfo>, config: Option<LiveConfig>) -> bool {
    queued == 0 && match session {
        Some(s) => opt_view(Some(s.config)) != opt_view(config),
        None => false,
    }
}

fn append_samples(pcm: &mut Vec<i16>, more: &Vec<i16>)
    ensures
        final(pcm)@ == old(pcm)@ + more@,
{
    let ghost p0 = pcm@;
    let mut k: usize = 0;
    while k < more.len()
        invariant
            k <= more@.len(),
            pcm@ == p0 + more@.take(k as int),
        decreases more.len() - k,
    {
        pcm.push(more[k]);
        assert(p0 + more@.take(k + 1) =~= (p0 + more@.take(k as int)).push(more@[k as int]));
        k += 1;
    }
    assert(more@.take(more@.len() as int) =~= more@);
}

fn append_silence(pcm: &mut Vec<i16>)
    ensures
        final(pcm)@ == old(pcm)@ + Seq::new(TRAILING_SILENCE_SAMPLES as nat, |i: int| 0i16),
{
    let ghost p0 = pcm@;
    let mut k: usize = 0;
    while k < TRAILING_SILENCE_SAMPLES
        invariant
            k <= TRAILING_SILENCE_SAMPLES,
            pcm@ == p0 + Seq::new(k as nat, |i: int| 0i16),
        decreases TRAILING_SILENCE_SAMPLES - k,
    {
        pcm.push(0i16);
        assert(p0 + Seq::new((k + 1) as nat, |i: int| 0i16) =~= (p0 + Seq::new(k as nat, |i: int| 0i16)).push(0i16));
        k += 1;
    }
}

fn copy_range(v: &Vec<i16>, lo: usize, hi: usize) -> (r: Vec<i16>)
    requires
        lo <= hi <= v@.len(),
    ensures
        r@ == v@.subrange(lo as int, hi as int),
{
    let mut r: Vec<i16> = Vec::new();
    let mut i = lo;
    while i < hi
        invariant
            lo <= i <= hi,
            hi <= v@.len(),
            r@ == v@.subrange(lo as int, i as int),
        decreases hi - i,
    {
        r.push(v[i]);
        assert(r@ =~= v@.subrange(lo as int, i + 1));
        i += 1;
    }
    r
}

/// Whether the front dictation with `config` needs a new session at `now`.
pub open spec fn needs_session(session: Option<SessionInfo>, config: LiveConfig, now: u64) -> bool {
    match session {
        None => true,
        Some(s) => s.config@ != config@ || elapsed(s.opened_at, now) >= SESSION_REFRESH_AFTER_MS,
    }
}

/// `q1` and `e1` are `q0` and `e0` after a session failed with the error
/// `ev`: the front dictation is retried from the start unless it was retried
/// before or the key was rejected, in which case it ends with the error.
pub open spec fn recovered(
    q0: Seq<Utterance>,
    q1: Seq<Utterance>,
    e0: Seq<LiveEvent>,
    e1: Seq<LiveEvent>,
    ev: GeminiErrorView,
) -> bool {
    if q0.len() == 0 {
        q1 == q0 && e1 == e0
    } else if q0[0].retry_count == 0 && !(ev is Unauthorized) {
        &&& q1 == q0.update(0, q1[0])
        &&& retried(q0[0], q1[0])
        &&& e1 == e0
    } else {
        completes_front(q0, q1, e0, e1, Err(ev))
    }
}

/// One step of streaming the front dictation `f`: the message `m` sent at
/// `now` and the dictation `g` after it. The activity start goes first, then
/// full audio frames as they fill, and once the dictation ended the last
/// partial frame and the activity end; after that nothing.
pub open spec fn front_step(f: Utterance, g: Utterance, m: Option<Seq<char>>, now: u64) -> bool {
    let sent = f.sent_samples as int;
    let len = f.pcm@.len() as int;
    if !f.start_sent {
        &&& m == Some(activity_start_text())
        &&& g == Utterance { start_sent: true, ..f }
    } else if sent + LIVE_FRAME_SAMPLES <= len {
        &&& m == Some(audio_text(f.pcm@.subrange(sent, sent + LIVE_FRAME_SAMPLES)))
        &&& g == Utterance { sent_samples: (sent + LIVE_FRAME_SAMPLES) as usize, ..f }
    } else if f.end_requested && !f.end_sent && sent < len {
        &&& m == Some(audio_text(f.pcm@.subrange(sent, len)))
        &&& g == Utterance { sent_samples: len as usize, ..f }
    } else if f.end_requested && !f.end_sent {
        &&& m == Some(activity_end_text())
        &&& g == Utterance { end_sent: true, end_sent_at: Some(now), completion_seen_at: None, ..f }
    } else {
        m is None && g == f
    }
}

/// The audio frames of `p`: 640 samples each, the last one possibly shorter
/// but never empty.
pub open spec fn audio_frames(p: Seq<i16>) -> Seq<Seq<char>>
    decreases p.len(),
{
    if p.len() == 0 {
        Seq::empty()
    } else if p.len() <= LIVE_FRAME_SAMPLES {
        seq![audio_text(p)]
    } else {
        seq![audio_text(p.take(LIVE_FRAME_SAMPLES as int))] + audio_frames(p.skip(LIVE_FRAME_SAMPLES as int))
    }
}

/// Everything sent for a dictation whose audio is `p`: the activity start,
/// the audio in frames, and the activity end.
pub open spec fn dictation_messages(p: Seq<i16>) -> Seq<Seq<char>> {
    seq![activity_start_text()] + audio_frames(p) + seq![activity_end_text()]
}

/// The texts actually sent, in order, among the steps' outcomes `ms`.
pub open spec fn sent_texts(ms: Seq<Option<Seq<char>>>) -> Seq<Seq<char>>
    decreases ms.len(),
{
    if ms.len() == 0 {
        Seq::empty()
    } else {
        match ms.last() {
            Some(t) => sent_texts(ms.drop_last()).push(t),
            None => sent_texts(ms.drop_last()),
        }
    }
}

/// `g` is `f` after captured audio arrived or the dictation ended, with
/// nothing sent: the audio only grows at its end, and stays fixed once the
/// dictation ended.
pub open spec fn appended(f: Utterance, g: Utterance) -> bool {
    &&& f.pcm@.len() <= g.pcm@.len()
    &&& g.pcm@.take(f.pcm@.len() as int) == f.pcm@
    &&& f.end_requested ==> g.end_requested && g.pcm@ == f.pcm@
    &&& g.sent_samples == f.sent_samples
    &&& g.start_sent == f.start_sent
    &&& g.end_sent == f.end_sent
}

/// The dictation `u` has been sent exactly the texts `m` so far.
pub open spec fn streamed_so_far(u: Utterance, m: Seq<Seq<char>>) -> bool {
    let s = u.sent_samples as int;
    let p = u.pcm@;
    &&& !u.start_sent ==> m.len() == 0 && s == 0 && !u.end_sent
    &&& u.start_sent ==> s <= p.len() && (s % (LIVE_FRAME_SAMPLES as int) == 0 || (s == p.len() && u.end_requested))
    &&& u.start_sent && !u.end_sent ==> m == seq![activity_start_text()] + audio_frames(p.take(s))
    &&& u.end_sent ==> u.start_sent && u.end_requested && s == p.len() && m == dictation_messages(p)
}

proof fn lemma_audio_frames_concat(x: Seq<i16>, y: Seq<i16>)
    requires
        (x.len() as int) % (LIVE_FRAME_SAMPLES as int) == 0,
    ensures
        audio_frames(x + y) == audio_frames(x) + audio_frames(y),
    decreases x.len(),
{
    let n = LIVE_FRAME_SAMPLES as int;
    let xy = x + y;
    if x.len() == 0 {
        assert(xy =~= y);
        assert(audio_frames(x) + audio_frames(y) =~= audio_frames(y));
    } else {
        assert(x.len() >= n);
        if x.len() == n && y.len() == 0 {
            assert(xy =~= x);
            assert(audio_frames(x) + audio_frames(y) =~= audio_frames(x));
        } else {
            assert(xy.take(n) =~= x.take(n));
            assert(xy.skip(n) =~= x.skip(n) + y);
            assert((x.len() - n) % n == 0);
            lemma_audio_frames_concat(x.skip(n), y);
            if x.len() == n {
                assert(x.take(n) =~= x);
                assert(x.skip(n) =~= Seq::<i16>::empty());
                assert(audio_frames(x.skip(n)) + audio_frames(y) =~= audio_frames(y));
            }
            assert(audio_frames(x) =~= seq![audio_text(x.take(n))] + audio_frames(x.skip(n)));
            assert(audio_frames(xy) =~= seq![audio_text(x.take(n))] + (audio_frames(x.skip(n)) + audio_frames(y)));
            assert(audio_frames(xy) =~= audio_frames(x) + audio_frames(y));
        }
    }
}

/// The frames of `p` up to `e` are those up to `s`, a whole number of
/// frames in, followed by the samples from `s` to `e` as one frame.
proof fn lemma_one_more_frame(p: Seq<i16>, s: int, e: int)
    requires
        0 <= s < e <= p.len(),
        e - s <= LIVE_FRAME_SAMPLES,
        s % (LIVE_FRAME_SAMPLES as int) == 0,
    ensures
        audio_frames(p.take(e)) == audio_frames(p.take(s)).push(audio_text(p.subrange(s, e))),
{
    assert(p.take(e) =~= p.take(s) + p.subrange(s, e));
    lemma_audio_frames_concat(p.take(s), p.subrange(s, e));
    assert(audio_frames(p.subrange(s, e)) =~= seq![audio_text(p.subrange(s, e))]);
    assert(audio_frames(p.take(s)) + seq![audio_text(p.subrange(s, e))] =~= audio_frames(p.take(s)).push(
        audio_text(p.subrange(s, e)),
    ));
}

proof fn lemma_stream_step(f: Utterance, g: Utterance, m: Seq<Seq<char>>, sent: Option<Seq<char>>, now: u64)
    requires
        streamed_so_far(f, m),
        front_step(f, g, sent, now) || (appended(f, g) && sent is None),
    ensures
        streamed_so_far(
            g,
            match sent {
                Some(t) => m.push(t),
                None => m,
            },
        ),
{
    let n = LIVE_FRAME_SAMPLES as int;
    let s = f.sent_samples as int;
    let p = f.pcm@;
    assert(f.pcm.len() == p.len());
    if front_step(f, g, sent, now) {
        if !f.start_sent {
            assert(p.take(0) =~= Seq::<i16>::empty());
            assert(m.push(activity_start_text()) =~= seq![activity_start_text()] + audio_frames(p.take(0)));
        } else if s + n <= p.len() {
            assert(s % n == 0);
            lemma_one_more_frame(p, s, s + n);
            assert(m.push(audio_text(p.subrange(s, s + n))) =~= seq![activity_start_text()] + audio_frames(
                p.take(s + n),
            ));
            assert((s + n) % n == 0);
        } else if f.end_requested && !f.end_sent && s < p.len() {
            assert(s % n == 0);
            lemma_one_more_frame(p, s, p.len() as int);
            assert(m.push(audio_text(p.subrange(s, p.len() as int))) =~= seq![activity_start_text()]
                + audio_frames(p.take(p.len() as int)));
        } else if f.end_requested && !f.end_sent {
            assert(s == p.len());
            assert(p.take(s) =~= p);
            assert(m.push(activity_end_text()) =~= dictation_messages(p));
        }
    } else {
        let q = g.pcm@;
        assert(q.take(s) =~= p.take(s)) by {
            if f.start_sent {
                assert(q.take(p.len() as int) == p);
            }
        }
    }
}

proof fn lemma_stream_run(us: Seq<Utterance>, ms: Seq<Option<Seq<char>>>, nows: Seq<u64>, k: int)
    requires
        us.len() == ms.len() + 1,
        nows.len() == ms.len(),
        0 <= k <= ms.len(),
        untouched(us[0]),
        forall|i: int|
            0 <= i < ms.len() ==> front_step(us[i], us[i + 1], #[trigger] ms[i], nows[i]) || (appended(us[i], us[i + 1])
                && ms[i] is None),
    ensures
        streamed_so_far(us[k], sent_texts(ms.take(k))),
    decreases k,
{
    if k == 0 {
        assert(ms.take(0) =~= Seq::<Option<Seq<char>>>::empty());
    } else {
        lemma_stream_run(us, ms, nows, k - 1);
        assert(ms.take(k).drop_last() =~= ms.take(k - 1));
        assert(ms.take(k).last() == ms[k - 1]);
        assert(front_step(us[k - 1], us[k], ms[k - 1], nows[k - 1]) || (appended(us[k - 1], us[k]) && ms[k - 1] is None));
        lemma_stream_step(us[k - 1], us[k], sent_texts(ms.take(k - 1)), ms[k - 1], nows[k - 1]);
    }
}

/// A dictation queued by `Start` is streamed as a whole: from the dictation
/// `handle_command` queued (the last of `m1`'s queue), a run of streaming
/// steps and arriving audio that ends with its activity end sent sends one
/// activity start, its final audio in 640-sample frames, and one activity
/// end.
pub proof fn lemma_started_dictation_message_order(
    m0: LiveManager,
    m1: LiveManager,
    config: LiveConfig,
    streaming: bool,
    us: Seq<Utterance>,
    ms: Seq<Option<Seq<char>>>,
    nows: Seq<u64>,
)
    requires
        started(m0, m1, config, streaming),
        us.len() == ms.len() + 1,
        nows.len() == ms.len(),
        us[0] == m1.queue().last(),
        forall|i: int|
            0 <= i < ms.len() ==> front_step(us[i], us[i + 1], #[trigger] ms[i], nows[i]) || (appended(us[i], us[i + 1])
                && ms[i] is None),
        us.last().end_sent,
    ensures
        sent_texts(ms) == dictation_messages(us.last().pcm@),
{
    lemma_dictation_message_order(us, ms, nows);
}

/// Audio arriving (`handle_command` with `Audio`) or a dictation ending
/// (`handle_command` with `Finish`, the result promised) is an
/// [`appended`] step for the front dictation.
pub proof fn lemma_commands_append_to_front(m0: LiveManager, m1: LiveManager, samples: Seq<i16>, rate: u32, reply: CommandReply)
    requires
        m0.queue().len() > 0,
        took_audio(m0, m1, samples, rate) || (finish_replied(m0, m1, reply) && reply is FinishPending),
    ensures
        m1.queue().len() == m0.queue().len(),
        appended(m0.queue()[0], m1.queue()[0]),
{
    let q = m0.queue();
    let q1 = m1.queue();
    assert(q[0].pcm@.take(q[0].pcm@.len() as int) =~= q[0].pcm@);
    if took_audio(m0, m1, samples, rate) && q.len() > 0 && !q.last().end_requested {
        if q.len() == 1 {
            let out = choose|out: Seq<i16>|
                {
                    &&& #[trigger] crate::dsp::pushed(q.last().resampler, q1.last().resampler, samples, rate, out)
                    &&& q1.last().pcm@ == q.last().pcm@ + out
                };
            assert(q1.last().pcm@.take(q.last().pcm@.len() as int) =~= q.last().pcm@);
            assert(q[0] == q.last());
            assert(q1[0] == q1.last());
        } else {
            assert(q1[0] == q1.drop_last()[0]);
            assert(q[0] == q.drop_last()[0]);
        }
    } else if took_audio(m0, m1, samples, rate) {
        assert(q1 == q);
    } else {
        assert(!(q.len() > 0 && q.last().terminal_result is Some));
        assert(q.len() > 0 && !q.last().end_requested);
        if q.len() == 1 {
            assert(finished(q.last(), q1.last()));
            assert(q1.last().pcm@.take(q.last().pcm@.len() as int) =~= q.last().pcm@);
            assert(q[0] == q.last());
            assert(q1[0] == q1.last());
        } else {
            assert(q1[0] == q1.drop_last()[0]);
            assert(q[0] == q.drop_last()[0]);
        }
    }
}

/// The messages of a whole dictation come in order. Over a run of steps on
/// the front dictation, each either a step of `next_message` (`front_step`)
/// or audio arriving or the dictation ending with nothing sent
/// (`appended`), from a dictation not streamed yet to one whose activity
/// end was sent, what was sent is exactly one activity start, then its
/// final audio `p` in consecutive frames of 640 samples (the last possibly
/// shorter, never empty), then exactly one activity end.
pub proof fn lemma_dictation_message_order(us: Seq<Utterance>, ms: Seq<Option<Seq<char>>>, nows: Seq<u64>)
    requires
        us.len() == ms.len() + 1,
        nows.len() == ms.len(),
        untouched(us[0]),
        forall|i: int|
            0 <= i < ms.len() ==> front_step(us[i], us[i + 1], #[trigger] ms[i], nows[i]) || (appended(us[i], us[i + 1])
                && ms[i] is None),
        us.last().end_sent,
    ensures
        sent_texts(ms) == dictation_messages(us.last().pcm@),
{
    lemma_stream_run(us, ms, nows, ms.len() as int);
    assert(ms.take(ms.len() as int) =~= ms);
}

pub struct LiveManager {
    queue: VecDeque<Utterance>,
    session: Option<SessionInfo>,
    warm_config: Option<LiveConfig>,
    last_prewarm_attempt: Option<u64>,
    next_id: u64,
    timeout_ms: u64,
    events: Vec<LiveEvent>,
}

/// The network error a Live failure reports, with a fixed description.
pub open spec fn network(d: Seq<char>) -> GeminiErrorView {
    GeminiErrorView::Network(d)
}

/// The error a failed socket reports: a handshake answered 400, 401 or 403
/// is a rejected key, another handshake status a server error, anything
/// else a network failure.
pub fn handshake_error(status: Option<u16>) -> (e: GeminiError)
    ensures
        match status {
            Some(s) => if s == 400 || s == 401 || s == 403 {
                e@ == GeminiErrorView::Unauthorized
            } else {
                e@ == GeminiErrorView::Server("Live handshake HTTP "@ + decimal(s as nat))
            },
            None => e@ == network("Live WebSocket failed"@),
        },
{
    match status {
        Some(s) => if s == 400 || s == 401 || s == 403 {
            GeminiError::Unauthorized
        } else {
            GeminiError::Server(concat("Live handshake HTTP ", decimal_string(s as u64).as_str()))
        },
        None => network_error("Live WebSocket failed"),
    }
}


/// Milliseconds from `t` to `now`.
pub open spec fn elapsed(t: u64, now: u64) -> int {
    if now >= t {
        now - t
    } else {
        0
    }
}

fn elapsed_ms(t: u64, now: u64) -> (e: u64)
    ensures
        e == elapsed(t, now),
{
    if now >= t {
        now - t
    } else {
        0
    }
}

impl Utterance {
    /// A dictation that was just started, with nothing captured or sent.
    fn new(id: u64, config: LiveConfig, streaming: bool) -> (u: Utterance)
        ensures
            utterance_wf(u),
            fresh_dictation(u, id, config, streaming),
    {
        Utterance {
            id,
            config,
            resampler: StreamingResampler::new(),
            pcm: Vec::new(),
            sent_samples: 0,
            start_sent: false,
            end_requested: false,
            end_sent: false,
            end_sent_at: None,
            completion_seen_at: None,
            cancelled: false,
            retry_count: 0,
            transcript: TranscriptBuffer::default(),
            streaming,
            awaiting_result: false,
            terminal_result: None,
        }
    }
}

impl LiveManager {
    pub closed spec fn queue(&self) -> Seq<Utterance> {
        self.queue@
    }

    pub closed spec fn session(&self) -> Option<SessionInfo> {
        self.session
    }

    pub closed spec fn warm_config(&self) -> Option<LiveConfig> {
        self.warm_config
    }

    pub closed spec fn next_id(&self) -> u64 {
        self.next_id
    }

    pub closed spec fn events(&self) -> Seq<LiveEvent> {
        self.events@
    }

    pub closed spec fn timeout(&self) -> u64 {
        self.timeout_ms
    }

    pub closed spec fn last_prewarm(&self) -> Option<u64> {
        self.last_prewarm_attempt
    }

    pub open spec fn wf(&self) -> bool {
        queue_wf(self.queue(), self.next_id())
    }

    /// A controller with nothing queued and no session, whose finalization
    /// waits at most `timeout_ms`.
    pub fn new(timeout_ms: u64) -> (m: Self)
        ensures
            m.wf(),
            m.queue().len() == 0,
            m.session() is None,
            m.warm_config() is None,
            m.events().len() == 0,
            m.timeout() == timeout_ms,
            m.next_id() == 0,
            m.last_prewarm() is None,
    {
        LiveManager {
            queue: VecDeque::new(),
            session: None,
            warm_config: None,
            last_prewarm_attempt: None,
            next_id: 0,
            timeout_ms,
            events: Vec::new(),
        }
    }

    /// Whether a session is open; when there is none the shell drops its
    /// socket.
    pub fn has_session(&self) -> (b: bool)
        ensures
            b == self.session() is Some,
    {
        self.session.is_some()
    }

    /// Whether another dictation can be given an id.
    pub fn can_start(&self) -> (b: bool)
        ensures
            b == (self.next_id() < u64::MAX),
    {
        self.next_id < u64::MAX
    }

    /// Takes in a command from a caller.
    pub fn handle_command(&mut self, cmd: LiveCommand) -> (reply: CommandReply)
        requires
            old(self).wf(),
            cmd is Start ==> old(self).next_id() < u64::MAX,
            cmd matches LiveCommand::Audio(_, rate) ==> rate > 0,
        ensures
            final(self).wf(),
            final(self).timeout() == old(self).timeout(),
            stepped(*old(self), *final(self)),
            match cmd {
                LiveCommand::Warm(config) => reply is Done && warmed(*old(self), *final(self), config),
                LiveCommand::Start(config, streaming) => reply == CommandReply::Started(old(self).next_id())
                    && started(*old(self), *final(self), config, streaming),
                LiveCommand::Audio(samples, rate) => reply is Done && took_audio(*old(self), *final(self), samples@, rate),
                LiveCommand::Finish => finish_replied(*old(self), *final(self), reply),
                LiveCommand::Cancel => reply is Done && cancelled(*old(self), *final(self)),
            },
    {
        match cmd {
            LiveCommand::Warm(config) => {
                self.warm(config);
                CommandReply::Done
            },
            LiveCommand::Start(config, streaming) => {
                let id = self.next_id;
                self.enqueue(config, streaming);
                CommandReply::Started(id)
            },
            LiveCommand::Audio(samples, rate) => {
                self.audio(samples, rate);
                CommandReply::Done
            },
            LiveCommand::Finish => self.finish(),
            LiveCommand::Cancel => {
                self.cancel();
                CommandReply::Done
            },
        }
    }

    fn warm(&mut self, config: Option<LiveConfig>)
        requires
            old(self).wf(),
        ensures
            final(self).wf(),
            final(self).timeout() == old(self).timeout(),
            final(self).events() == old(self).events(),
            warmed(*old(self), *final(self), config),
            stepped(*old(self), *final(self)),
    {
        proof {
            lemma_same_ids_step(self.queue@, self.events@, self.next_id, self.queue@, self.events@);
        }
        if !same_opt_config(&self.warm_config, &config) {
            self.warm_config = config;
            self.last_prewarm_attempt = None;
            if self.queue.len() == 0 {
                let drop_session = match &self.session {
                    Some(open) => match &self.warm_config {
                        Some(w) => !open.config.same_as(w),
                        None => true,
                    },
                    None => false,
                };
                if drop_session {
                    self.session = None;
                }
            }
        }
    }

    fn enqueue(&mut self, config: LiveConfig, streaming: bool)
        requires
            old(self).wf(),
            old(self).next_id() < u64::MAX,
        ensures
            final(self).wf(),
            final(self).timeout() == old(self).timeout(),
            final(self).events() == old(self).events(),
            started(*old(self), *final(self), config, streaming),
            stepped(*old(self), *final(self)),
    {
        let ghost q0 = self.queue@;
        let id = self.next_id;
        let u = Utterance::new(id, config, streaming);
        proof {
            lemma_push_step(q0, self.events@, id, u);
        }
        self.queue.push_back(u);
        self.next_id = id + 1;
        assert(self.queue@.drop_last() =~= q0);
    }

    fn audio(&mut self, samples: Vec<i16>, rate: u32)
        requires
            old(self).wf(),
            rate > 0,
        ensures
            final(self).wf(),
            final(self).timeout() == old(self).timeout(),
            final(self).events() == old(self).events(),
            took_audio(*old(self), *final(self), samples@, rate),
            stepped(*old(self), *final(self)),
    {
        let ghost q0 = self.queue@;
        let n = self.queue.len();
        if n > 0 && !self.queue[n - 1].end_requested {
            let mut back = self.queue.pop_back().unwrap();
            let out = back.resampler.push(samples.as_slice(), rate);
            append_samples(&mut back.pcm, &out);
            self.queue.push_back(back);
            assert(self.queue@.drop_last() =~= q0.drop_last());
        }
        proof {
            assert forall|i: int| 0 <= i < q0.len() implies (#[trigger] self.queue@[i]).id == q0[i].id by {
                if i < q0.len() - 1 {
                    assert(self.queue@[i] == self.queue@.drop_last()[i]);
                }
            }
            lemma_same_ids_step(q0, self.events@, self.next_id, self.queue@, self.events@);
        }
    }

    fn finish(&mut self) -> (reply: CommandReply)
        requires
            old(self).wf(),
        ensures
            final(self).wf(),
            final(self).timeout() == old(self).timeout(),
            stepped(*old(self), *final(self)),
            finish_replied(*old(self), *final(self), reply),
    {
        let ghost q0 = self.queue@;
        let ghost e0 = self.events@;
        let n = self.queue.len();
        if n > 0 && self.queue[n - 1].terminal_result.is_some() {
            let mut back = self.queue.pop_back().unwrap();
            let id = back.id;
            self.events.push(LiveEvent::Forget { id });
            proof {
                lemma_back_id_leaves(q0);
                lemma_drop_back_step(q0, e0, self.next_id);
                assert(self.queue@ =~= q0.drop_last());
            }
            assert(self.events@.skip(e0.len() as int) =~= seq![LiveEvent::Forget { id }]);
            assert(self.events@.take(e0.len() as int) =~= e0);
            match back.terminal_result.take() {
                Some(r) => CommandReply::FinishNow(r),
                None => CommandReply::Done,
            }
        } else if n > 0 && !self.queue[n - 1].end_requested {
            let mut back = self.queue.pop_back().unwrap();
            back.end_requested = true;
            back.awaiting_result = true;
            if back.pcm.len() > 0 {
                append_silence(&mut back.pcm);
            }
            let id = back.id;
            self.queue.push_back(back);
            assert(self.queue@.drop_last() =~= q0.drop_last());
            assert(self.events@.skip(e0.len() as int) =~= Seq::<LiveEvent>::empty());
            assert(self.events@.take(e0.len() as int) =~= e0);
            proof {
                assert forall|i: int| 0 <= i < q0.len() implies (#[trigger] self.queue@[i]).id == q0[i].id by {
                    if i < q0.len() - 1 {
                        assert(self.queue@[i] == self.queue@.drop_last()[i]);
                    }
                }
                lemma_same_ids_step(q0, e0, self.next_id, self.queue@, self.events@);
            }
            CommandReply::FinishPending(id)
        } else {
            assert(self.events@.skip(e0.len() as int) =~= Seq::<LiveEvent>::empty());
            assert(self.events@.take(e0.len() as int) =~= e0);
            proof {
                lemma_same_ids_step(q0, e0, self.next_id, self.queue@, self.events@);
            }
            CommandReply::FinishNow(Err(network_error("live transcription was not recording")))
        }
    }

    fn cancel(&mut self)
        requires
            old(self).wf(),
        ensures
            final(self).wf(),
            final(self).timeout() == old(self).timeout(),
            stepped(*old(self), *final(self)),
            cancelled(*old(self), *final(self)),
    {
        let ghost q0 = self.queue@;
        let ghost e0 = self.events@;
        let n = self.queue.len();
        if n > 1 || (n == 1 && self.queue[0].terminal_result.is_some()) {
            let back = self.queue.pop_back().unwrap();
            self.events.push(LiveEvent::Forget { id: back.id });
            proof {
                lemma_back_id_leaves(q0);
                lemma_drop_back_step(q0, e0, self.next_id);
                assert(self.queue@ =~= q0.drop_last());
            }
            assert(self.events@.skip(e0.len() as int) =~= seq![LiveEvent::Forget { id: back.id }]);
        } else if n == 1 {
            let mut only = self.queue.pop_back().unwrap();
            only.cancelled = true;
            only.end_requested = true;
            self.queue.push_back(only);
            assert(self.queue@ =~= q0.update(0, self.queue@[0]));
            assert(self.events@.skip(e0.len() as int) =~= Seq::<LiveEvent>::empty());
            proof {
                assert(self.events@ =~= e0);
                lemma_same_ids_step(q0, e0, self.next_id, self.queue@, self.events@);
            }
        } else {
            assert(self.events@.skip(e0.len() as int) =~= Seq::<LiveEvent>::empty());
            proof {
                assert(self.events@ =~= e0);
                lemma_same_ids_step(q0, e0, self.next_id, self.queue@, self.events@);
            }
        }
        assert(self.events@.take(e0.len() as int) =~= e0);
    }

    /// Whether the front dictation can be streamed on the open session, and
    /// if not, which session to open. A session serves when it was opened
    /// for the same configuration less than `SESSION_REFRESH_AFTER_MS` ago;
    /// otherwise it is dropped.
    pub fn prepare_front(&mut self, now: u64) -> (step: FrontStep)
        requires
            old(self).wf(),
        ensures
            stepped(*old(self), *final(self)),
            final(self).wf(),
            final(self).queue() == old(self).queue(),
            final(self).events() == old(self).events(),
            final(self).next_id() == old(self).next_id(),
            final(self).timeout() == old(self).timeout(),
            final(self).warm_config() == old(self).warm_config(),
            old(self).queue().len() == 0 || old(self).queue()[0].terminal_result is Some ==> step is Skip
                && final(self).session() == old(self).session(),
            old(self).queue().len() > 0 && old(self).queue()[0].terminal_result is None ==> {
                let f = old(self).queue()[0];
                if needs_session(old(self).session(), f.config, now) {
                    &&& step matches FrontStep::Connect(c) && c@ == f.config@
                    &&& final(self).session() is None
                } else {
                    step is Ready && final(self).session() == old(self).session()
                }
            },
    {
        proof {
            lemma_same_ids_step(self.queue@, self.events@, self.next_id, self.queue@, self.events@);
        }
        if self.queue.len() == 0 || self.queue[0].terminal_result.is_some() {
            return FrontStep::Skip;
        }
        let needs = match &self.session {
            None => true,
            Some(open) => !open.config.same_as(&self.queue[0].config) || elapsed_ms(open.opened_at, now)
                >= SESSION_REFRESH_AFTER_MS,
        };
        if needs {
            self.session = None;
            FrontStep::Connect(self.queue[0].config.duplicate())
        } else {
            FrontStep::Ready
        }
    }

    /// The session for the front dictation is open as of `now`.
    pub fn on_connected(&mut self, now: u64)
        requires
            old(self).wf(),
            old(self).queue().len() > 0,
        ensures
            stepped(*old(self), *final(self)),
            final(self).wf(),
            final(self).queue() == old(self).queue(),
            final(self).events() == old(self).events(),
            final(self).next_id() == old(self).next_id(),
            final(self).timeout() == old(self).timeout(),
            final(self).warm_config() == old(self).warm_config(),
            final(self).session() matches Some(s) && s.config@ == old(self).queue()[0].config@ && s.opened_at
                == now,
    {
        proof {
            lemma_same_ids_step(self.queue@, self.events@, self.next_id, self.queue@, self.events@);
        }
        let config = self.queue[0].config.duplicate();
        self.session = Some(SessionInfo { config, opened_at: now });
    }

    /// Opening a session for the front dictation failed: it ends with that
    /// error.
    pub fn on_connect_failed(&mut self, error: GeminiError)
        requires
            old(self).wf(),
        ensures
            stepped(*old(self), *final(self)),
            final(self).wf(),
            final(self).session() == old(self).session(),
            final(self).next_id() == old(self).next_id(),
            final(self).timeout() == old(self).timeout(),
            final(self).warm_config() == old(self).warm_config(),
            old(self).queue().len() == 0 ==> final(self).queue() == old(self).queue() && final(self).events()
                == old(self).events(),
            old(self).queue().len() > 0 ==> completes_front(old(self).queue(), final(self).queue(), old(self).events(), final(self).events(), Err(error@)),
    {
        self.complete_front(Err(error));
    }

    /// Sending on the session failed.
    pub fn on_send_failed(&mut self, error: GeminiError)
        requires
            old(self).wf(),
        ensures
            stepped(*old(self), *final(self)),
            final(self).wf(),
            final(self).session() is None,
            final(self).next_id() == old(self).next_id(),
            final(self).timeout() == old(self).timeout(),
            final(self).warm_config() == old(self).warm_config(),
            recovered(old(self).queue(), final(self).queue(), old(self).events(), final(self).events(), error@),
    {
        self.recover_or_complete(error);
    }

    /// The next message to send for the front dictation, if any: the
    /// activity start first, then full audio frames as they fill, and once
    /// the dictation ended the last partial frame and the activity end.
    pub fn next_message(&mut self, now: u64) -> (m: Option<String>)
        requires
            old(self).wf(),
        ensures
            stepped(*old(self), *final(self)),
            final(self).wf(),
            final(self).session() == old(self).session(),
            final(self).events() == old(self).events(),
            final(self).next_id() == old(self).next_id(),
            final(self).timeout() == old(self).timeout(),
            final(self).warm_config() == old(self).warm_config(),
            old(self).queue().len() == 0 ==> m is None && final(self).queue() == old(self).queue(),
            old(self).queue().len() > 0 ==> {
                &&& final(self).queue() == old(self).queue().update(0, final(self).queue()[0])
                &&& front_step(old(self).queue()[0], final(self).queue()[0], opt_text(m), now)
            },
    {
        proof {
            lemma_same_ids_step(self.queue@, self.events@, self.next_id, self.queue@, self.events@);
        }
        if self.queue.len() == 0 {
            return None;
        }
        let ghost q0 = self.queue@;
        let mut front = self.queue.pop_front().unwrap();
        let len = front.pcm.len();
        let m = if !front.start_sent {
            front.start_sent = true;
            Some(activity_start_message())
        } else if len >= LIVE_FRAME_SAMPLES && front.sent_samples <= len - LIVE_FRAME_SAMPLES {
            let end = front.sent_samples + LIVE_FRAME_SAMPLES;
            let frame = copy_range(&front.pcm, front.sent_samples, end);
            front.sent_samples = end;
            Some(audio_message(frame.as_slice()))
        } else if front.end_requested && !front.end_sent {
            if front.sent_samples < len {
                let frame = copy_range(&front.pcm, front.sent_samples, len);
                front.sent_samples = len;
                Some(audio_message(frame.as_slice()))
            } else {
                front.end_sent = true;
                front.end_sent_at = Some(now);
                front.completion_seen_at = None;
                Some(activity_end_message())
            }
        } else {
            None
        };
        self.queue.push_front(front);
        assert(self.queue@ =~= q0.update(0, self.queue@[0]));
        proof {
            assert forall|i: int| 0 <= i < q0.len() implies (#[trigger] self.queue@[i]).id == q0[i].id by {
                if i > 0 {
                    assert(self.queue@[i] == q0[i]);
                }
            }
            lemma_same_ids_step(q0, self.events@, self.next_id, self.queue@, self.events@);
        }
        m
    }

    /// With nothing queued, the session to open ahead of the next dictation:
    /// one for the warm configuration when there is one with a key, the open
    /// session does not already serve it, and the last failed attempt was at
    /// least `PREWARM_RETRY_INTERVAL_MS` ago.
    pub fn prewarm(&mut self, now: u64) -> (target: Option<LiveConfig>)
        requires
            old(self).wf(),
        ensures
            stepped(*old(self), *final(self)),
            final(self).wf(),
            final(self).queue() == old(self).queue(),
            final(self).events() == old(self).events(),
            final(self).next_id() == old(self).next_id(),
            final(self).timeout() == old(self).timeout(),
            final(self).warm_config() == old(self).warm_config(),
            if prewarm_due(*old(self), now) {
                &&& target matches Some(c) && c@ == old(self).warm_config()->0@
                &&& final(self).session() is None
                &&& final(self).last_prewarm() == Some(now)
            } else {
                &&& target is None
                &&& final(self).session() == old(self).session()
                &&& final(self).last_prewarm() == old(self).last_prewarm()
            },
    {
        proof {
            lemma_same_ids_step(self.queue@, self.events@, self.next_id, self.queue@, self.events@);
        }
        if self.queue.len() != 0 {
            return None;
        }
        let target = match &self.warm_config {
            Some(t) => t,
            None => return None,
        };
        if target.key.as_str().is_empty() {
            return None;
        }
        let needs_refresh = match &self.session {
            None => true,
            Some(open) => !open.config.same_as(target) || elapsed_ms(open.opened_at, now)
                >= SESSION_REFRESH_AFTER_MS,
        };
        if !needs_refresh {
            return None;
        }
        let can_attempt = match self.last_prewarm_attempt {
            None => true,
            Some(t) => elapsed_ms(t, now) >= PREWARM_RETRY_INTERVAL_MS,
        };
        if !can_attempt {
            return None;
        }
        let c = target.duplicate();
        self.session = None;
        self.last_prewarm_attempt = Some(now);
        Some(c)
    }

    /// A pre-warm session for `config` opened at `now`.
    pub fn on_prewarmed(&mut self, config: LiveConfig, now: u64)
        requires
            old(self).wf(),
        ensures
            stepped(*old(self), *final(self)),
            final(self).wf(),
            final(self).queue() == old(self).queue(),
            final(self).events() == old(self).events(),
            final(self).next_id() == old(self).next_id(),
            final(self).timeout() == old(self).timeout(),
            final(self).warm_config() == old(self).warm_config(),
            final(self).session() == Some(SessionInfo { config, opened_at: now }),
            final(self).last_prewarm() is None,
    {
        proof {
            lemma_same_ids_step(self.queue@, self.events@, self.next_id, self.queue@, self.events@);
        }
        self.session = Some(SessionInfo { config, opened_at: now });
        self.last_prewarm_attempt = None;
    }

    /// Takes in what arrived on the socket at `now`. A closed or failed
    /// socket, or a message that is not JSON, fails the session. A message
    /// updates the front dictation's transcript, streams its text, and
    /// completes the dictation once speech has ended and the server says the
    /// turn is complete, or the generation is complete with text, or text
    /// arrives after a completion without text. A go-away fails the session.
    pub fn on_server_event(&mut self, ev: ServerEvent, now: u64)
        requires
            old(self).wf(),
        ensures
            stepped(*old(self), *final(self)),
            final(self).wf(),
            final(self).next_id() == old(self).next_id(),
            final(self).timeout() == old(self).timeout(),
            final(self).warm_config() == old(self).warm_config(),
            match ev {
                ServerEvent::Closed => final(self).session() is None && recovered(
                    old(self).queue(),
                    final(self).queue(),
                    old(self).events(),
                    final(self).events(),
                    network("Live connection closed"@),
                ),
                ServerEvent::Ignored => final(self).queue() == old(self).queue() && final(self).events()
                    == old(self).events() && final(self).session() == old(self).session(),
                ServerEvent::Failed(e) => final(self).session() is None && recovered(
                    old(self).queue(),
                    final(self).queue(),
                    old(self).events(),
                    final(self).events(),
                    e@,
                ),
                ServerEvent::Message(msg) => message_taken(*old(self), *final(self), msg, now),
            },
    {
        proof {
            lemma_same_ids_step(self.queue@, self.events@, self.next_id, self.queue@, self.events@);
        }
        match ev {
            ServerEvent::Closed => self.recover_or_complete(network_error("Live connection closed")),
            ServerEvent::Ignored => {},
            ServerEvent::Failed(e) => self.recover_or_complete(e),
            ServerEvent::Message(msg) => self.take_message(&msg, now),
        }
    }

    fn take_message(&mut self, msg: &ServerMessage, now: u64)
        requires
            old(self).wf(),
        ensures
            stepped(*old(self), *final(self)),
            final(self).wf(),
            final(self).next_id() == old(self).next_id(),
            final(self).timeout() == old(self).timeout(),
            final(self).warm_config() == old(self).warm_config(),
            message_taken(*old(self), *final(self), *msg, now),
    {
        proof {
            lemma_same_ids_step(self.queue@, self.events@, self.next_id, self.queue@, self.events@);
        }
        if self.queue.len() == 0 {
            let mut scratch = TranscriptBuffer::default();
            let signal = scratch.ingest(msg);
            if signal == ServerSignal::GoAway {
                self.recover_or_complete(network_error("Live session expired"));
            }
            return;
        }
        let ghost m_old = *self;
        let ghost q0 = self.queue@;
        let ghost e0 = self.events@;
        let mut front = self.queue.pop_front().unwrap();
        let signal = front.transcript.ingest(msg);
        let text = front.transcript.text();
        if !text.as_str().is_empty() && front.streaming {
            self.events.push(LiveEvent::Stream { id: front.id, text: copy_string(&text) });
        }
        let has_text = !text.as_str().is_empty();
        let complete = match signal {
            ServerSignal::TurnComplete => front.end_sent,
            ServerSignal::GenerationComplete => {
                if front.end_sent && !has_text {
                    front.completion_seen_at = Some(now);
                }
                front.end_sent && has_text
            },
            ServerSignal::Continue => front.end_sent && front.completion_seen_at.is_some() && has_text,
            _ => false,
        };
        self.queue.push_front(front);
        assert(self.queue@ =~= q0.update(0, self.queue@[0]));
        let ghost g = self.queue@[0];
        let ghost e = self.events@;
        let ghost q_mid = self.queue@;
        assert(e.take(e0.len() as int) =~= e0);
        proof {
            assert forall|i: int| 0 <= i < q0.len() implies (#[trigger] q_mid[i]).id == q0[i].id by {
                if i > 0 {
                    assert(q_mid[i] == q0[i]);
                }
            }
            assert forall|k: int| e0.len() <= k < e.len() implies !is_final(#[trigger] e[k]) by {
                assert(e[k] is Stream);
            }
            lemma_same_ids_step(q0, e0, self.next_id, q_mid, e);
        }
        if complete {
            self.complete_front(Ok(text));
        } else if signal == ServerSignal::GoAway {
            self.recover_or_complete(network_error("Live session expired"));
        }
        proof {
            assert(message_step(m_old, *self, *msg, now, g, e));
            if !complete && signal != ServerSignal::GoAway {
                lemma_same_ids_step(q_mid, e, self.next_id, self.queue@, self.events@);
            }
            lemma_steps_compose(q0, e0, self.next_id, q_mid, e, self.next_id, self.queue@, self.events@, self.next_id);
        }
    }

    /// The clock ticked at `now` while a session is open: a completion that
    /// waited `FINAL_TRANSCRIPT_GRACE_MS` for text completes with the text
    /// there is; speech that ended `timeout` ago without a transcript fails
    /// the session; an idle session older than `SESSION_REFRESH_AFTER_MS` is
    /// dropped. Without a session nothing happens.
    pub fn on_tick(&mut self, now: u64)
        requires
            old(self).wf(),
        ensures
            stepped(*old(self), *final(self)),
            final(self).wf(),
            final(self).next_id() == old(self).next_id(),
            final(self).timeout() == old(self).timeout(),
            final(self).warm_config() == old(self).warm_config(),
            ticked(*old(self), *final(self), now),
    {
        proof {
            lemma_same_ids_step(self.queue@, self.events@, self.next_id, self.queue@, self.events@);
        }
        let open_at = match &self.session {
            None => return,
            Some(open) => open.opened_at,
        };
        if self.queue.len() > 0 {
            let grace_over = match self.queue[0].completion_seen_at {
                Some(t) => elapsed_ms(t, now) >= FINAL_TRANSCRIPT_GRACE_MS,
                None => false,
            };
            if grace_over {
                let text = self.queue[0].transcript.text();
                self.complete_front(Ok(text));
                return;
            }
            let timed_out = match self.queue[0].end_sent_at {
                Some(t) => elapsed_ms(t, now) >= self.timeout_ms,
                None => false,
            };
            if timed_out {
                self.recover_or_complete(network_error("Live finalization timed out"));
            }
        } else if elapsed_ms(open_at, now) >= SESSION_REFRESH_AFTER_MS {
            self.session = None;
        }
    }

    /// Ends the front dictation with `result`: its stream closes; a
    /// cancelled dictation is dropped, a waiting caller gets the result, and
    /// otherwise the result is kept until the caller asks for it.
    fn complete_front(&mut self, result: Result<String, GeminiError>)
        requires
            old(self).wf(),
        ensures
            stepped(*old(self), *final(self)),
            final(self).wf(),
            final(self).session() == old(self).session(),
            final(self).warm_config() == old(self).warm_config(),
            final(self).next_id() == old(self).next_id(),
            final(self).timeout() == old(self).timeout(),
            old(self).queue().len() == 0 ==> final(self).queue() == old(self).queue() && final(self).events()
                == old(self).events(),
            old(self).queue().len() > 0 ==> completes_front(old(self).queue(), final(self).queue(), old(self).events(), final(self).events(), result_view(result)),
    {
        let ghost rv = result_view(result);
        if self.queue.len() == 0 {
            proof {
                lemma_same_ids_step(self.queue@, self.events@, self.next_id, self.queue@, self.events@);
            }
            return;
        }
        let ghost q0 = self.queue@;
        let ghost e0 = self.events@;
        let mut front = self.queue.pop_front().unwrap();
        let ghost f0 = front;
        let ghost close = if f0.streaming {
            seq![LiveEvent::CloseStream { id: f0.id }]
        } else {
            Seq::empty()
        };
        if front.streaming {
            self.events.push(LiveEvent::CloseStream { id: front.id });
            front.streaming = false;
        }
        assert(self.events@ =~= e0 + close);
        if front.cancelled {
            self.events.push(LiveEvent::Forget { id: front.id });
            proof { lemma_front_id_leaves(q0); }
            assert(self.events@ =~= e0 + close + seq![LiveEvent::Forget { id: f0.id }]);
        } else if front.awaiting_result {
            self.events.push(LiveEvent::Deliver { id: front.id, result });
            proof { lemma_front_id_leaves(q0); }
            assert(self.events@.drop_last() =~= e0 + close);
        } else {
            front.end_requested = true;
            front.terminal_result = Some(result);
            self.queue.push_front(front);
            assert(self.queue@ =~= q0.update(0, self.queue@[0]));
        }
        proof {
            lemma_completes_front_step(q0, self.queue@, e0, self.events@, rv, self.next_id);
        }
    }

    /// After a failed session: the session is gone; the front dictation is
    /// streamed again from the start on a new session if it has not been
    /// retried and the key was not rejected, and ends with the error
    /// otherwise.
    fn recover_or_complete(&mut self, error: GeminiError)
        requires
            old(self).wf(),
        ensures
            stepped(*old(self), *final(self)),
            final(self).wf(),
            final(self).session() is None,
            final(self).warm_config() == old(self).warm_config(),
            final(self).next_id() == old(self).next_id(),
            final(self).timeout() == old(self).timeout(),
            old(self).queue().len() == 0 ==> final(self).queue() == old(self).queue() && final(self).events()
                == old(self).events(),
            recovered(old(self).queue(), final(self).queue(), old(self).events(), final(self).events(), error@),
    {
        let ghost q_start = self.queue@;
        let ghost e_start = self.events@;
        let ghost ev = error@;
        self.session = None;
        if self.queue.len() == 0 {
            proof {
                lemma_same_ids_step(self.queue@, self.events@, self.next_id, self.queue@, self.events@);
            }
            return;
        }
        let retry = self.queue[0].retry_count == 0 && !matches!(error, GeminiError::Unauthorized);
        if retry {
            let ghost q0 = self.queue@;
            let mut front = self.queue.pop_front().unwrap();
            front.retry_count = front.retry_count + 1;
            front.sent_samples = 0;
            front.start_sent = false;
            front.end_sent = false;
            front.end_sent_at = None;
            front.completion_seen_at = None;
            front.transcript = TranscriptBuffer::default();
            self.queue.push_front(front);
            assert(self.queue@ =~= q0.update(0, self.queue@[0]));
        } else {
            self.complete_front(Err(error));
        }
        proof {
            lemma_recovered_step(q_start, self.queue@, e_start, self.events@, ev, self.next_id);
        }
    }

    /// Hands the pending events to the shell.
    pub fn take_events(&mut self) -> (e: Vec<LiveEvent>)
        ensures
            e@ == old(self).events(),
            events_taken(*old(self), *final(self)),
            final(self).events().len() == 0,
            final(self).queue() == old(self).queue(),
            final(self).session() == old(self).session(),
            final(self).next_id() == old(self).next_id(),
            final(self).timeout() == old(self).timeout(),
            final(self).warm_config() == old(self).warm_config(),
    {
        let mut e: Vec<LiveEvent> = Vec::new();
        std::mem::swap(&mut e, &mut self.events);
        e
    }
}


/// `m1` is `m0` after the warm configuration `config` arrived: a change is
/// recorded, resets the pre-warm back-off and closes an idle session opened
/// for another configuration; the same configuration changes nothing.
pub open spec fn warmed(m0: LiveManager, m1: LiveManager, config: Option<LiveConfig>) -> bool {
    &&& m1.next_id() == m0.next_id()
    &&& m1.queue() == m0.queue()
    &&& m1.events() == m0.events()
    &&& if opt_view(m0.warm_config()) != opt_view(config) {
        &&& m1.warm_config() == config
        &&& m1.last_prewarm() is None
        &&& m1.session() == if warm_drops_session(m0.queue().len(), m0.session(), config) {
            None
        } else {
            m0.session()
        }
    } else {
        &&& m1.warm_config() == m0.warm_config()
        &&& m1.session() == m0.session()
        &&& m1.last_prewarm() == m0.last_prewarm()
    }
}

/// `m1` is `m0` with a new dictation queued at the back under the next id,
/// fresh: it will be streamed from its activity start on.
pub open spec fn started(m0: LiveManager, m1: LiveManager, config: LiveConfig, streaming: bool) -> bool {
    let q1 = m1.queue();
    &&& m1.next_id() == m0.next_id() + 1
    &&& q1.len() == m0.queue().len() + 1
    &&& q1.drop_last() == m0.queue()
    &&& fresh_dictation(q1.last(), m0.next_id(), config, streaming)
    &&& m1.session() == m0.session()
    &&& m1.warm_config() == m0.warm_config()
    &&& m1.events() == m0.events()
    &&& m1.last_prewarm() == m0.last_prewarm()
}

/// `m1` is `m0` after captured `samples` at `rate` Hz arrived: while the
/// newest dictation is still recording they are resampled into it, and
/// otherwise dropped.
pub open spec fn took_audio(m0: LiveManager, m1: LiveManager, samples: Seq<i16>, rate: u32) -> bool {
    let q = m0.queue();
    let q1 = m1.queue();
    &&& m1.events() == m0.events()
    &&& m1.last_prewarm() == m0.last_prewarm()
    &&& m1.next_id() == m0.next_id()
    &&& m1.session() == m0.session()
    &&& m1.warm_config() == m0.warm_config()
    &&& if q.len() > 0 && !q.last().end_requested {
        &&& q1.drop_last() == q.drop_last()
        &&& q1.len() == q.len()
        &&& exists|out: Seq<i16>|
            {
                &&& #[trigger] crate::dsp::pushed(q.last().resampler, q1.last().resampler, samples, rate, out)
                &&& q1.last().pcm@ == q.last().pcm@ + out
            }
        &&& q1.last() == Utterance { pcm: q1.last().pcm, resampler: q1.last().resampler, ..q.last() }
    } else {
        q1 == q
    }
}

/// `m1` and `reply` follow `m0` after the caller finished its dictation: a
/// result that is already there is handed over; a dictation still recording
/// is closed and its result promised; otherwise the caller learns that
/// nothing was recording.
pub open spec fn finish_replied(m0: LiveManager, m1: LiveManager, reply: CommandReply) -> bool {
    let q = m0.queue();
    let q1 = m1.queue();
    &&& m1.next_id() == m0.next_id()
    &&& m1.session() == m0.session()
    &&& m1.warm_config() == m0.warm_config()
    &&& if q.len() > 0 && q.last().terminal_result is Some {
        &&& reply == CommandReply::FinishNow(q.last().terminal_result->0)
        &&& q1 == q.drop_last()
        &&& m1.events() == m0.events().push(LiveEvent::Forget { id: q.last().id })
    } else if q.len() > 0 && !q.last().end_requested {
        &&& reply == CommandReply::FinishPending(q.last().id)
        &&& q1.drop_last() == q.drop_last()
        &&& q1.len() == q.len()
        &&& finished(q.last(), q1.last())
        &&& m1.events() == m0.events()
    } else {
        &&& reply matches CommandReply::FinishNow(Err(e)) && e@ == network("live transcription was not recording"@)
        &&& q1 == q
        &&& m1.events() == m0.events()
    }
}

/// `m1` is `m0` after the caller abandoned its dictation: the newest
/// dictation is dropped when others wait before it or its result is already
/// there; a lone dictation in flight is marked cancelled so that its result
/// is discarded.
pub open spec fn cancelled(m0: LiveManager, m1: LiveManager) -> bool {
    let q = m0.queue();
    let q1 = m1.queue();
    &&& m1.next_id() == m0.next_id()
    &&& m1.session() == m0.session()
    &&& m1.warm_config() == m0.warm_config()
    &&& if q.len() > 1 || (q.len() == 1 && q.last().terminal_result is Some) {
        &&& q1 == q.drop_last()
        &&& m1.events() == m0.events().push(LiveEvent::Forget { id: q.last().id })
    } else if q.len() == 1 {
        &&& q1 == q.update(0, Utterance { cancelled: true, end_requested: true, ..q[0] })
        &&& m1.events() == m0.events()
    } else {
        &&& q1 == q
        &&& m1.events() == m0.events()
    }
}

/// Whether an idle controller should open a pre-warm session at `now`.
pub open spec fn prewarm_due(m: LiveManager, now: u64) -> bool {
    &&& m.queue().len() == 0
    &&& m.warm_config() matches Some(t)
    &&& t.key@.len() > 0
    &&& needs_session(m.session(), t, now)
    &&& match m.last_prewarm() {
        None => true,
        Some(a) => elapsed(a, now) >= PREWARM_RETRY_INTERVAL_MS,
    }
}

/// Whether a message with signal `signal` completes a dictation whose speech
/// end was sent (`end_sent`), which saw a completion without text
/// (`seen`), and whose text is now `text`.
pub open spec fn completes(signal: ServerSignal, end_sent: bool, seen: bool, text: Seq<char>) -> bool {
    match signal {
        ServerSignal::TurnComplete => end_sent,
        ServerSignal::GenerationComplete => end_sent && text.len() > 0,
        ServerSignal::Continue => end_sent && seen && text.len() > 0,
        _ => false,
    }
}

/// `e` sends `text` to the stream of dictation `id`.
pub open spec fn streams(e: LiveEvent, id: u64, text: Seq<char>) -> bool {
    match e {
        LiveEvent::Stream { id: i, text: t } => i == id && t@ == text,
        _ => false,
    }
}

/// The front dictation saw a completion without text at least
/// `FINAL_TRANSCRIPT_GRACE_MS` before `now`.
pub open spec fn grace_over(q: Seq<Utterance>, now: u64) -> bool {
    q.len() > 0 && match q[0].completion_seen_at {
        Some(t) => elapsed(t, now) >= FINAL_TRANSCRIPT_GRACE_MS,
        None => false,
    }
}

/// The front dictation's speech end was sent at least `timeout` before `now`.
pub open spec fn finalization_overdue(q: Seq<Utterance>, now: u64, timeout: u64) -> bool {
    q.len() > 0 && match q[0].end_sent_at {
        Some(t) => elapsed(t, now) >= timeout,
        None => false,
    }
}

/// `m1` is `m0` after the server message `msg` arrived at `now`.
pub open spec fn message_taken(m0: LiveManager, m1: LiveManager, msg: ServerMessage, now: u64) -> bool {
    let q = m0.queue();
    let signal = crate::gemini::transcript_buffer::signal_of(msg);
    if q.len() == 0 {
        &&& m1.queue() == q
        &&& m1.events() == m0.events()
        &&& m1.session() == if signal == ServerSignal::GoAway {
            None
        } else {
            m0.session()
        }
    } else {
        exists|g: Utterance, e: Seq<LiveEvent>| #[trigger] message_step(m0, m1, msg, now, g, e)
    }
}

/// The front dictation of `m0` became `g` on the message `msg` at `now`, the
/// events became `e` with its interim text, and `m1` followed from there.
pub open spec fn message_step(
    m0: LiveManager,
    m1: LiveManager,
    msg: ServerMessage,
    now: u64,
    g: Utterance,
    e: Seq<LiveEvent>,
) -> bool {
    let q = m0.queue();
    let signal = crate::gemini::transcript_buffer::signal_of(msg);
    let f = q[0];
    let (fin, pending) = crate::gemini::transcript_buffer::ingest_text(
        f.transcript.finalized(),
        f.transcript.interim(),
        msg,
    );
    let text = text_of(fin, pending);
    let seen_now = signal == ServerSignal::GenerationComplete && f.end_sent && text.len() == 0;
    &&& g == Utterance {
        transcript: g.transcript,
        completion_seen_at: if seen_now {
            Some(now)
        } else {
            f.completion_seen_at
        },
        ..f
    }
    &&& g.transcript.finalized() == fin
    &&& g.transcript.interim() == pending
    &&& e.len() == m0.events().len() + (if text.len() > 0 && f.streaming { 1int } else { 0int })
    &&& e.take(m0.events().len() as int) == m0.events()
    &&& (text.len() > 0 && f.streaming ==> streams(e.last(), f.id, text))
    &&& if completes(signal, f.end_sent, f.completion_seen_at is Some, text) {
        &&& m1.session() == m0.session()
        &&& completes_front(q.update(0, g), m1.queue(), e, m1.events(), Ok(text))
    } else if signal == ServerSignal::GoAway {
        &&& m1.session() is None
        &&& recovered(q.update(0, g), m1.queue(), e, m1.events(), network("Live session expired"@))
    } else {
        &&& m1.session() == m0.session()
        &&& m1.queue() == q.update(0, g)
        &&& m1.events() == e
    }
}

/// Once the activity end was sent, a turn-complete message completes the
/// front dictation with its current text, empty or not: a caller waiting
/// gets that text as its result and the dictation leaves the queue; with no
/// caller waiting yet the text is kept as its result; a cancelled dictation
/// just leaves.
pub proof fn lemma_turn_complete_completes(m0: LiveManager, m1: LiveManager, msg: ServerMessage, now: u64)
    requires
        message_taken(m0, m1, msg, now),
        m0.queue().len() > 0,
        m0.queue()[0].end_sent,
        !msg.setup_complete,
        !msg.go_away,
        msg.server_content matches Some(c) && c.turn_complete,
    ensures
        ({
            let f = m0.queue()[0];
            let (fin, pending) = crate::gemini::transcript_buffer::ingest_text(
                f.transcript.finalized(),
                f.transcript.interim(),
                msg,
            );
            let text = text_of(fin, pending);
            &&& f.cancelled ==> m1.queue() == m0.queue().drop_first()
            &&& !f.cancelled && f.awaiting_result ==> m1.queue() == m0.queue().drop_first() && (
            m1.events().last() matches LiveEvent::Deliver { id, result: Ok(t) } && id == f.id && t@ == text)
            &&& !f.cancelled && !f.awaiting_result ==> m1.queue().len() == m0.queue().len() && m1.queue()[0].id
                == f.id && (m1.queue()[0].terminal_result matches Some(Ok(t)) && t@ == text)
        }),
{
    let q = m0.queue();
    let f = q[0];
    let (g, e) = choose|g: Utterance, e: Seq<LiveEvent>| #[trigger] message_step(m0, m1, msg, now, g, e);
    assert(message_step(m0, m1, msg, now, g, e));
    assert(crate::gemini::transcript_buffer::signal_of(msg) == ServerSignal::TurnComplete);
    let q0 = q.update(0, g);
    assert(q0[0] == g);
    assert(q0.drop_first() =~= q.drop_first());
}

/// `m1` is `m0` after a clock tick at `now`.
pub open spec fn ticked(m0: LiveManager, m1: LiveManager, now: u64) -> bool {
    let q = m0.queue();
    match m0.session() {
        None => m1.queue() == q && m1.events() == m0.events() && m1.session() == m0.session(),
        Some(s) => if grace_over(q, now) {
            &&& m1.session() == m0.session()
            &&& completes_front(
                q,
                m1.queue(),
                m0.events(),
                m1.events(),
                Ok(text_of(q[0].transcript.finalized(), q[0].transcript.interim())),
            )
        } else if finalization_overdue(q, now, m0.timeout()) {
            &&& m1.session() is None
            &&& recovered(q, m1.queue(), m0.events(), m1.events(), network("Live finalization timed out"@))
        } else if q.len() == 0 && elapsed(s.opened_at, now) >= SESSION_REFRESH_AFTER_MS {
            m1.queue() == q && m1.events() == m0.events() && m1.session() is None
        } else {
            m1.queue() == q && m1.events() == m0.events() && m1.session() == m0.session()
        },
    }
}


/// A rejected key is never retried: the front dictation ends with that error.
pub proof fn lemma_rejected_key_ends_dictation(
    q0: Seq<Utterance>,
    q1: Seq<Utterance>,
    e0: Seq<LiveEvent>,
    e1: Seq<LiveEvent>,
)
    requires
        q0.len() > 0,
        recovered(q0, q1, e0, e1, GeminiErrorView::Unauthorized),
    ensures
        completes_front(q0, q1, e0, e1, Err(GeminiErrorView::Unauthorized)),
{
}

/// A dictation is retried at most once: a second failure ends it with the
/// error, and a first one (other than a rejected key) streams it again from
/// the start with its audio intact.
pub proof fn lemma_retry_at_most_once(
    q0: Seq<Utterance>,
    q1: Seq<Utterance>,
    e0: Seq<LiveEvent>,
    e1: Seq<LiveEvent>,
    ev: GeminiErrorView,
    next_id: u64,
)
    requires
        queue_wf(q0, next_id),
        q0.len() > 0,
        recovered(q0, q1, e0, e1, ev),
    ensures
        q0[0].retry_count == 1 ==> completes_front(q0, q1, e0, e1, Err(ev)),
        q0[0].retry_count == 0 && !(ev is Unauthorized) ==> q1.len() == q0.len() && q1[0].retry_count == 1
            && q1[0].pcm == q0[0].pcm && q1[0].sent_samples == 0 && !q1[0].start_sent && e1 == e0,
{
    assert(utterance_wf(q0[0]));
}

/// A dictation's result is delivered once: the event that carries it is the
/// last one that names the dictation, which leaves the queue with it.
pub proof fn lemma_delivery_is_final(
    q0: Seq<Utterance>,
    q1: Seq<Utterance>,
    e0: Seq<LiveEvent>,
    e1: Seq<LiveEvent>,
    rv: Result<Seq<char>, GeminiErrorView>,
    next_id: u64,
)
    requires
        queue_wf(q0, next_id),
        q0.len() > 0,
        q0[0].awaiting_result && !q0[0].cancelled,
        completes_front(q0, q1, e0, e1, rv),
    ensures
        e1.last() matches LiveEvent::Deliver { id, result } && id == q0[0].id && result_view(result) == rv,
        !ids(q1).contains(q0[0].id),
        q1 == q0.drop_first(),
{
    lemma_front_id_leaves(q0);
}

/// A cancelled dictation gets no result: completing it only closes its
/// stream and forgets it.
pub proof fn lemma_cancelled_never_delivered(
    q0: Seq<Utterance>,
    q1: Seq<Utterance>,
    e0: Seq<LiveEvent>,
    e1: Seq<LiveEvent>,
    rv: Result<Seq<char>, GeminiErrorView>,
)
    requires
        q0.len() > 0,
        q0[0].cancelled,
        completes_front(q0, q1, e0, e1, rv),
    ensures
        e1.len() > e0.len(),
        e1.take(e0.len() as int) == e0,
        forall|k: int| e0.len() <= k < e1.len() ==> !((#[trigger] e1[k]) is Deliver),
        q1 == q0.drop_first(),
{
    let close = if q0[0].streaming {
        seq![LiveEvent::CloseStream { id: q0[0].id }]
    } else {
        Seq::<LiveEvent>::empty()
    };
    assert(e1 == e0 + close + seq![LiveEvent::Forget { id: q0[0].id }]);
    assert(e1.take(e0.len() as int) =~= e0);
}

/// A result that arrives before the caller finished is kept, not lost: the
/// dictation stays at the front holding it, and nothing is delivered.
pub proof fn lemma_early_result_is_kept(
    q0: Seq<Utterance>,
    q1: Seq<Utterance>,
    e0: Seq<LiveEvent>,
    e1: Seq<LiveEvent>,
    rv: Result<Seq<char>, GeminiErrorView>,
)
    requires
        q0.len() > 0,
        !q0[0].cancelled,
        !q0[0].awaiting_result,
        completes_front(q0, q1, e0, e1, rv),
    ensures
        q1.len() == q0.len(),
        q1[0].id == q0[0].id,
        q1[0].terminal_result matches Some(r) && result_view(r) == rv,
        forall|k: int| e0.len() <= k < e1.len() ==> !((#[trigger] e1[k]) is Deliver),
{
}

/// How opening a session went wrong before its setup finished.
pub enum ConnectFailure {
    /// The endpoint is not a WebSocket URL.
    InvalidEndpoint,
    /// The key cannot be sent as a header value.
    InvalidKey,
    /// The connection did not open within the timeout.
    ConnectTimedOut,
    /// The server did not finish the setup within the timeout.
    SetupTimedOut,
    /// The socket failed; with the HTTP status when the handshake was
    /// answered with one.
    Socket(Option<u16>),
}

/// The error a failed connection reports.
pub fn connect_error(f: ConnectFailure) -> (e: GeminiError)
    ensures
        match f {
            ConnectFailure::InvalidEndpoint => e@ == network("invalid Live endpoint"@),
            ConnectFailure::InvalidKey => e@ == GeminiErrorView::Unauthorized,
            ConnectFailure::ConnectTimedOut => e@ == network("live connection timed out"@),
            ConnectFailure::SetupTimedOut => e@ == network("Live setup timed out"@),
            ConnectFailure::Socket(status) => match status {
                Some(s) => if s == 400 || s == 401 || s == 403 {
                    e@ == GeminiErrorView::Unauthorized
                } else {
                    e@ == GeminiErrorView::Server("Live handshake HTTP "@ + decimal(s as nat))
                },
                None => e@ == network("Live WebSocket failed"@),
            },
        },
{
    match f {
        ConnectFailure::InvalidEndpoint => network_error("invalid Live endpoint"),
        ConnectFailure::InvalidKey => GeminiError::Unauthorized,
        ConnectFailure::ConnectTimedOut => network_error("live connection timed out"),
        ConnectFailure::SetupTimedOut => network_error("Live setup timed out"),
        ConnectFailure::Socket(status) => handshake_error(status),
    }
}

/// The controller's view of a frame from the socket: a close ends the
/// session, a control frame is ignored, and a text or binary frame is
/// decoded into a message, or fails the session when it is not JSON.
pub fn server_event(frame: WireFrame) -> (ev: ServerEvent)
    ensures
        match frame {
            WireFrame::Close => ev is Closed,
            WireFrame::Control => ev is Ignored,
            WireFrame::Text(t) => match message_in(t@) {
                Some(v) => ev matches ServerEvent::Message(m) && message_view(m) == v,
                None => ev matches ServerEvent::Failed(e) && e@ == GeminiErrorView::Server("invalid Live response"@),
            },
            WireFrame::Binary(b) => match utf8_chars(b@) {
                Some(t) => match message_in(t) {
                    Some(v) => ev matches ServerEvent::Message(m) && message_view(m) == v,
                    None => ev matches ServerEvent::Failed(e) && e@ == GeminiErrorView::Server(
                        "invalid Live response"@,
                    ),
                },
                None => ev matches ServerEvent::Failed(e) && e@ == GeminiErrorView::Server("invalid Live response"@),
            },
        },
{
    if let WireFrame::Close = frame {
        return ServerEvent::Closed;
    }
    match decode_server_message(&frame) {
        Ok(Some(m)) => ServerEvent::Message(m),
        Ok(None) => ServerEvent::Ignored,
        Err(e) => ServerEvent::Failed(e),
    }
}

/// Where a session's setup stands after a server event.
pub enum SetupStep {
    /// Keep waiting for the setup to complete.
    Wait,
    /// The session is ready for audio.
    Ready,
    /// The setup failed with this error.
    Fail(GeminiError),
}

/// The setup after the server event `ev`: it completes on a setup-complete
/// message and fails when the socket closes or fails, a message is not JSON,
/// or the server sends a go-away; anything else is waited past.
pub fn setup_step(ev: ServerEvent) -> (s: SetupStep)
    ensures
        match ev {
            ServerEvent::Closed => s matches SetupStep::Fail(e) && e@ == network(
                "Live connection closed during setup"@,
            ),
            ServerEvent::Ignored => s is Wait,
            ServerEvent::Failed(err) => s matches SetupStep::Fail(e) && e@ == err@,
            ServerEvent::Message(m) => match crate::gemini::transcript_buffer::signal_of(m) {
                ServerSignal::SetupComplete => s is Ready,
                ServerSignal::GoAway => s matches SetupStep::Fail(e) && e@ == GeminiErrorView::Server(
                    "Live session unavailable"@,
                ),
                _ => s is Wait,
            },
        },
{
    match ev {
        ServerEvent::Closed => SetupStep::Fail(network_error("Live connection closed during setup")),
        ServerEvent::Ignored => SetupStep::Wait,
        ServerEvent::Failed(e) => SetupStep::Fail(e),
        ServerEvent::Message(m) => {
            let mut scratch = TranscriptBuffer::default();
            match scratch.ingest(&m) {
                ServerSignal::SetupComplete => SetupStep::Ready,
                ServerSignal::GoAway => SetupStep::Fail(server_error("Live session unavailable")),
                _ => SetupStep::Wait,
            }
        },
    }
}

/// Whether an event is the last word on a dictation: its result, or its
/// dismissal.
pub open spec fn is_final(e: LiveEvent) -> bool {
    e is Deliver || e is Forget
}

/// One step of the controller, from queue `q0`, events `e0` and next id
/// `n0` to `q1`, `e1` and `n1`: ids only grow; the events are extended; a
/// dictation in the new queue was queued before or is new; and each last
/// word in the added events concerns a dictation that was queued before or
/// during the step, has left the queue, and gets no other last word in the
/// step.
pub open spec fn answers_leave(
    q0: Seq<Utterance>,
    e0: Seq<LiveEvent>,
    n0: u64,
    q1: Seq<Utterance>,
    e1: Seq<LiveEvent>,
    n1: u64,
) -> bool {
    &&& n0 <= n1
    &&& e0.len() <= e1.len()
    &&& e1.take(e0.len() as int) == e0
    &&& forall|i: int| 0 <= i < q1.len() ==> ids(q0).contains(#[trigger] q1[i].id) || q1[i].id >= n0
    &&& forall|k: int|
        e0.len() <= k < e1.len() && is_final(#[trigger] e1[k]) ==> (ids(q0).contains(event_id(e1[k]))
            || event_id(e1[k]) >= n0) && event_id(e1[k]) < n1 && !ids(q1).contains(event_id(e1[k]))
    &&& forall|k: int, l: int|
        e0.len() <= k < l < e1.len() && is_final(#[trigger] e1[k]) && is_final(#[trigger] e1[l]) ==> event_id(
            e1[k],
        ) != event_id(e1[l])
    &&& forall|k: int, i: int|
        e0.len() <= k < e1.len() && (#[trigger] e1[k]) is Deliver && 0 <= i < q1.len() ==> event_id(e1[k])
            < (#[trigger] q1[i]).id
    &&& forall|k: int, l: int|
        e0.len() <= k < l < e1.len() && (#[trigger] e1[k]) is Deliver && (#[trigger] e1[l]) is Deliver
            ==> event_id(e1[k]) < event_id(e1[l])
}

/// `m1` follows `m0` by one step of the controller.
pub open spec fn stepped(m0: LiveManager, m1: LiveManager) -> bool {
    answers_leave(m0.queue(), m0.events(), m0.next_id(), m1.queue(), m1.events(), m1.next_id())
}

/// Dropping the newest dictation with a dismissal is a step.
proof fn lemma_drop_back_step(q0: Seq<Utterance>, e0: Seq<LiveEvent>, n: u64)
    requires
        queue_wf(q0, n),
        q0.len() > 0,
    ensures
        answers_leave(q0, e0, n, q0.drop_last(), e0.push(LiveEvent::Forget { id: q0.last().id }), n),
{
    let q1 = q0.drop_last();
    let e1 = e0.push(LiveEvent::Forget { id: q0.last().id });
    lemma_back_id_leaves(q0);
    assert(e1.take(e0.len() as int) =~= e0);
    assert(ids(q0)[q0.len() - 1] == q0.last().id);
    assert forall|i: int| 0 <= i < q1.len() implies ids(q0).contains(#[trigger] q1[i].id) || q1[i].id >= n by {
        assert(ids(q0)[i] == q1[i].id);
    }
}

/// Queueing a new dictation under the next id is a step.
proof fn lemma_push_step(q0: Seq<Utterance>, e0: Seq<LiveEvent>, n: u64, u: Utterance)
    requires
        u.id == n,
        n < u64::MAX,
    ensures
        answers_leave(q0, e0, n, q0.push(u), e0, (n + 1) as u64),
{
    let q1 = q0.push(u);
    assert(e0.take(e0.len() as int) =~= e0);
    assert forall|i: int| 0 <= i < q1.len() implies ids(q0).contains(#[trigger] q1[i].id) || q1[i].id >= n by {
        if i < q0.len() {
            assert(ids(q0)[i] == q1[i].id);
        }
    }
}

/// A step that changes no id and adds no last word.
proof fn lemma_same_ids_step(q0: Seq<Utterance>, e0: Seq<LiveEvent>, n0: u64, q1: Seq<Utterance>, e1: Seq<LiveEvent>)
    requires
        q1.len() == q0.len(),
        forall|i: int| 0 <= i < q0.len() ==> (#[trigger] q1[i]).id == q0[i].id,
        e1 == e0 || (e0.len() <= e1.len() && e1.take(e0.len() as int) == e0 && forall|k: int|
            e0.len() <= k < e1.len() ==> !is_final(#[trigger] e1[k])),
    ensures
        answers_leave(q0, e0, n0, q1, e1, n0),
{
    if e1 == e0 {
        assert(e1.take(e0.len() as int) =~= e0);
    }
    assert forall|i: int| 0 <= i < q1.len() implies ids(q0).contains(#[trigger] q1[i].id) || q1[i].id >= n0 by {
        assert(ids(q0)[i] == q1[i].id);
    }
}

/// Ending the front dictation is a step that answers it.
proof fn lemma_completes_front_step(
    q0: Seq<Utterance>,
    q1: Seq<Utterance>,
    e0: Seq<LiveEvent>,
    e1: Seq<LiveEvent>,
    rv: Result<Seq<char>, GeminiErrorView>,
    n: u64,
)
    requires
        queue_wf(q0, n),
        q0.len() > 0,
        completes_front(q0, q1, e0, e1, rv),
    ensures
        answers_leave(q0, e0, n, q1, e1, n),
{
    let f = q0[0];
    lemma_front_id_leaves(q0);
    assert(ids(q0)[0] == f.id);
    if f.cancelled || f.awaiting_result {
        assert(q1 == q0.drop_first());
        assert(e1.take(e0.len() as int) =~= e0);
        assert forall|i: int| 0 <= i < q1.len() implies ids(q0).contains(#[trigger] q1[i].id) || q1[i].id >= n by {
            assert(ids(q0)[i + 1] == q1[i].id);
        }
        let close = if f.streaming {
            seq![LiveEvent::CloseStream { id: f.id }]
        } else {
            Seq::<LiveEvent>::empty()
        };
        assert forall|k: int| e0.len() <= k < e1.len() && is_final(#[trigger] e1[k]) implies event_id(e1[k]) == f.id
            && k == e1.len() - 1 by {
            if k < e1.len() - 1 {
                if f.cancelled {
                    assert(e1 == e0 + close + seq![LiveEvent::Forget { id: f.id }]);
                    assert(e1[k] == close[k - e0.len()]);
                } else {
                    assert(e1.drop_last() == e0 + close);
                    assert(e1[k] == e1.drop_last()[k]);
                    assert(e1[k] == close[k - e0.len()]);
                }
            } else if f.cancelled {
                assert(e1 == e0 + close + seq![LiveEvent::Forget { id: f.id }]);
            }
        }
        assert(!ids(q1).contains(f.id));
    } else {
        assert(e1.take(e0.len() as int) =~= e0);
        lemma_same_ids_step(q0, e0, n, q1, e1);
    }
}

/// Recovering from a failed session is a step that answers at most the
/// front dictation.
proof fn lemma_recovered_step(
    q0: Seq<Utterance>,
    q1: Seq<Utterance>,
    e0: Seq<LiveEvent>,
    e1: Seq<LiveEvent>,
    ev: GeminiErrorView,
    n: u64,
)
    requires
        queue_wf(q0, n),
        recovered(q0, q1, e0, e1, ev),
    ensures
        answers_leave(q0, e0, n, q1, e1, n),
{
    if q0.len() == 0 {
        assert(e1.take(e0.len() as int) =~= e0);
        lemma_same_ids_step(q0, e0, n, q1, e1);
    } else if q0[0].retry_count == 0 && !(ev is Unauthorized) {
        assert(e1.take(e0.len() as int) =~= e0);
        lemma_same_ids_step(q0, e0, n, q1, e1);
    } else {
        lemma_completes_front_step(q0, q1, e0, e1, Err(ev), n);
    }
}

/// Two steps make one, when the first starts from a well-formed queue.
proof fn lemma_steps_compose(
    qa: Seq<Utterance>,
    ea: Seq<LiveEvent>,
    na: u64,
    qb: Seq<Utterance>,
    eb: Seq<LiveEvent>,
    nb: u64,
    qc: Seq<Utterance>,
    ec: Seq<LiveEvent>,
    nc: u64,
)
    requires
        queue_wf(qa, na),
        answers_leave(qa, ea, na, qb, eb, nb),
        answers_leave(qb, eb, nb, qc, ec, nc),
    ensures
        answers_leave(qa, ea, na, qc, ec, nc),
{
    assert(ec.take(ea.len() as int) =~= eb.take(ea.len() as int));
    assert forall|i: int| 0 <= i < qc.len() implies ids(qa).contains(#[trigger] qc[i].id) || qc[i].id >= na by {
        if ids(qb).contains(qc[i].id) {
            let j = choose|j: int| 0 <= j < ids(qb).len() && ids(qb)[j] == qc[i].id;
            assert(ids(qa).contains(qb[j].id) || qb[j].id >= na);
        }
    }
    assert forall|k: int| ea.len() <= k < ec.len() && is_final(#[trigger] ec[k]) implies (ids(qa).contains(
        event_id(ec[k]),
    ) || event_id(ec[k]) >= na) && event_id(ec[k]) < nc && !ids(qc).contains(event_id(ec[k])) by {
        let x = event_id(ec[k]);
        if k < eb.len() {
            assert(ec[k] == eb[k]);
            if ids(qa).contains(x) {
                let j = choose|j: int| 0 <= j < ids(qa).len() && ids(qa)[j] == x;
                assert(qa[j].id < na);
            }
            if ids(qc).contains(x) {
                let j = choose|j: int| 0 <= j < ids(qc).len() && ids(qc)[j] == x;
                assert(ids(qb).contains(qc[j].id) || qc[j].id >= nb);
            }
        } else {
            if ids(qb).contains(x) {
                let j = choose|j: int| 0 <= j < ids(qb).len() && ids(qb)[j] == x;
                assert(ids(qa).contains(qb[j].id) || qb[j].id >= na);
            }
        }
    }
    assert forall|k: int, l: int|
        ea.len() <= k < l < ec.len() && is_final(#[trigger] ec[k]) && is_final(#[trigger] ec[l]) implies event_id(
        ec[k],
    ) != event_id(ec[l]) by {
        if k < eb.len() && l >= eb.len() {
            assert(ec[k] == eb[k]);
            let x = event_id(ec[l]);
            if ids(qb).contains(x) {
            } else {
                assert(x >= nb);
            }
        } else if l < eb.len() {
            assert(ec[k] == eb[k]);
            assert(ec[l] == eb[l]);
        }
    }
    assert forall|k: int, i: int|
        ea.len() <= k < ec.len() && (#[trigger] ec[k]) is Deliver && 0 <= i < qc.len() implies event_id(ec[k])
        < (#[trigger] qc[i]).id by {
        if k < eb.len() {
            assert(ec[k] == eb[k]);
            assert(is_final(eb[k]));
            if ids(qb).contains(qc[i].id) {
                let j = choose|j: int| 0 <= j < ids(qb).len() && ids(qb)[j] == qc[i].id;
                assert(event_id(eb[k]) < qb[j].id);
            }
        }
    }
    assert forall|k: int, l: int|
        ea.len() <= k < l < ec.len() && (#[trigger] ec[k]) is Deliver && (#[trigger] ec[l]) is Deliver implies event_id(
        ec[k],
    ) < event_id(ec[l]) by {
        if l < eb.len() {
            assert(ec[k] == eb[k]);
            assert(ec[l] == eb[l]);
        } else if k < eb.len() {
            assert(ec[k] == eb[k]);
            assert(is_final(eb[k]));
            assert(is_final(ec[l]));
            let x = event_id(ec[l]);
            if ids(qb).contains(x) {
                let j = choose|j: int| 0 <= j < ids(qb).len() && ids(qb)[j] == x;
                assert(event_id(eb[k]) < qb[j].id);
            }
        }
    }
}

/// The events of a run, the events of each step after those before.
pub open spec fn run_events(emitted: Seq<Seq<LiveEvent>>) -> Seq<LiveEvent>
    decreases emitted.len(),
{
    if emitted.len() == 0 {
        Seq::empty()
    } else {
        run_events(emitted.drop_last()) + emitted.last()
    }
}

/// Over a whole run of steps (queues `qs`, next ids `ns`, and the events
/// `emitted` by each step), last words concern dictations that are no
/// longer queued, and no dictation gets two.
proof fn lemma_run_answers(qs: Seq<Seq<Utterance>>, ns: Seq<u64>, emitted: Seq<Seq<LiveEvent>>)
    requires
        qs.len() == emitted.len() + 1,
        ns.len() == emitted.len() + 1,
        forall|i: int|
            0 <= i < emitted.len() ==> answers_leave(
                qs[i],
                Seq::empty(),
                ns[i],
                qs[i + 1],
                #[trigger] emitted[i],
                ns[i + 1],
            ),
    ensures
        forall|k: int|
            0 <= k < run_events(emitted).len() && is_final(#[trigger] run_events(emitted)[k]) ==> !ids(
                qs.last(),
            ).contains(event_id(run_events(emitted)[k])) && event_id(run_events(emitted)[k]) < ns.last(),
        forall|k: int, l: int|
            0 <= k < l < run_events(emitted).len() && is_final(#[trigger] run_events(emitted)[k]) && is_final(
                #[trigger] run_events(emitted)[l],
            ) ==> event_id(run_events(emitted)[k]) != event_id(run_events(emitted)[l]),
        forall|k: int, i: int|
            0 <= k < run_events(emitted).len() && (#[trigger] run_events(emitted)[k]) is Deliver && 0 <= i
                < qs.last().len() ==> event_id(run_events(emitted)[k]) < (#[trigger] qs.last()[i]).id,
        forall|k: int, l: int|
            0 <= k < l < run_events(emitted).len() && (#[trigger] run_events(emitted)[k]) is Deliver && (
            #[trigger] run_events(emitted)[l]) is Deliver ==> event_id(run_events(emitted)[k]) < event_id(
                run_events(emitted)[l],
            ),
    decreases emitted.len(),
{
    if emitted.len() > 0 {
        let m = emitted.len() - 1;
        lemma_run_answers(qs.drop_last(), ns.drop_last(), emitted.drop_last());
        let old_events = run_events(emitted.drop_last());
        let step = emitted[m];
        let all = run_events(emitted);
        assert(all == old_events + step);
        assert(qs.drop_last().last() == qs[m]);
        assert(ns.drop_last().last() == ns[m]);
        assert(answers_leave(qs[m], Seq::empty(), ns[m], qs[m + 1], step, ns[m + 1]));
        assert(step.take(0) =~= Seq::<LiveEvent>::empty());
        assert forall|k: int| 0 <= k < all.len() && is_final(#[trigger] all[k]) implies !ids(qs.last()).contains(
            event_id(all[k]),
        ) && event_id(all[k]) < ns.last() by {
            if k < old_events.len() {
                assert(all[k] == old_events[k]);
                let y = event_id(all[k]);
                if ids(qs[m + 1]).contains(y) {
                    let q1 = qs[m + 1];
                    let j = choose|j: int| 0 <= j < ids(q1).len() && #[trigger] ids(q1)[j] == y;
                    assert(ids(qs[m]).contains(q1[j].id) || q1[j].id >= ns[m]);
                }
            } else {
                assert(all[k] == step[k - old_events.len()]);
            }
        }
        assert forall|k: int, l: int|
            0 <= k < l < all.len() && is_final(#[trigger] all[k]) && is_final(#[trigger] all[l]) implies event_id(
            all[k],
        ) != event_id(all[l]) by {
            if k < old_events.len() && l < old_events.len() {
                assert(all[k] == old_events[k]);
                assert(all[l] == old_events[l]);
            } else if k < old_events.len() {
                assert(all[k] == old_events[k]);
                assert(all[l] == step[l - old_events.len()]);
            } else {
                assert(all[k] == step[k - old_events.len()]);
                assert(all[l] == step[l - old_events.len()]);
            }
        }
        assert forall|k: int, i: int|
            0 <= k < all.len() && (#[trigger] all[k]) is Deliver && 0 <= i < qs.last().len() implies event_id(all[k])
            < (#[trigger] qs.last()[i]).id by {
            let q1 = qs[m + 1];
            assert(qs.last() == q1);
            if k < old_events.len() {
                assert(all[k] == old_events[k]);
                assert(is_final(old_events[k]));
                if ids(qs[m]).contains(q1[i].id) {
                    let j = choose|j: int| 0 <= j < ids(qs[m]).len() && ids(qs[m])[j] == q1[i].id;
                    assert(event_id(old_events[k]) < qs.drop_last().last()[j].id);
                }
            } else {
                assert(all[k] == step[k - old_events.len()]);
            }
        }
        assert forall|k: int, l: int|
            0 <= k < l < all.len() && (#[trigger] all[k]) is Deliver && (#[trigger] all[l]) is Deliver implies event_id(
            all[k],
        ) < event_id(all[l]) by {
            if l < old_events.len() {
                assert(all[k] == old_events[k]);
                assert(all[l] == old_events[l]);
            } else if k < old_events.len() {
                assert(all[k] == old_events[k]);
                assert(all[l] == step[l - old_events.len()]);
                assert(is_final(old_events[k]));
                assert(is_final(step[l - old_events.len()]));
                let x = event_id(all[l]);
                if ids(qs[m]).contains(x) {
                    let j = choose|j: int| 0 <= j < ids(qs[m]).len() && ids(qs[m])[j] == x;
                    assert(event_id(old_events[k]) < qs.drop_last().last()[j].id);
                }
            } else {
                assert(all[k] == step[k - old_events.len()]);
                assert(all[l] == step[l - old_events.len()]);
            }
        }
    }
}

/// Every dictation is answered at most once: over any run of the
/// controller, no two results or dismissals concern the same dictation.
pub proof fn lemma_answered_at_most_once(qs: Seq<Seq<Utterance>>, ns: Seq<u64>, emitted: Seq<Seq<LiveEvent>>)
    requires
        qs.len() == emitted.len() + 1,
        ns.len() == emitted.len() + 1,
        forall|i: int|
            0 <= i < emitted.len() ==> answers_leave(
                qs[i],
                Seq::empty(),
                ns[i],
                qs[i + 1],
                #[trigger] emitted[i],
                ns[i + 1],
            ),
    ensures
        forall|k: int, l: int|
            0 <= k < l < run_events(emitted).len() && is_final(#[trigger] run_events(emitted)[k]) && is_final(
                #[trigger] run_events(emitted)[l],
            ) ==> event_id(run_events(emitted)[k]) != event_id(run_events(emitted)[l]),
{
    lemma_run_answers(qs, ns, emitted);
}

/// Results come back in the order the dictations were started: over any run
/// of steps, the ids of the results delivered increase, and each result
/// concerns a dictation older than every one still queued.
pub proof fn lemma_results_in_dictation_order(qs: Seq<Seq<Utterance>>, ns: Seq<u64>, emitted: Seq<Seq<LiveEvent>>)
    requires
        qs.len() == emitted.len() + 1,
        ns.len() == emitted.len() + 1,
        forall|i: int|
            0 <= i < emitted.len() ==> answers_leave(
                qs[i],
                Seq::empty(),
                ns[i],
                qs[i + 1],
                #[trigger] emitted[i],
                ns[i + 1],
            ),
    ensures
        forall|k: int, l: int|
            0 <= k < l < run_events(emitted).len() && (#[trigger] run_events(emitted)[k]) is Deliver && (
            #[trigger] run_events(emitted)[l]) is Deliver ==> event_id(run_events(emitted)[k]) < event_id(
                run_events(emitted)[l],
            ),
        forall|k: int, i: int|
            0 <= k < run_events(emitted).len() && (#[trigger] run_events(emitted)[k]) is Deliver && 0 <= i
                < qs.last().len() ==> event_id(run_events(emitted)[k]) < (#[trigger] qs.last()[i]).id,
{
    lemma_run_answers(qs, ns, emitted);
}

/// A step's own events form a step from no events.
pub proof fn lemma_step_events(
    q0: Seq<Utterance>,
    e0: Seq<LiveEvent>,
    n0: u64,
    q1: Seq<Utterance>,
    e1: Seq<LiveEvent>,
    n1: u64,
)
    requires
        answers_leave(q0, e0, n0, q1, e1, n1),
    ensures
        answers_leave(q0, Seq::empty(), n0, q1, e1.skip(e0.len() as int), n1),
{
    let s = e1.skip(e0.len() as int);
    assert(s.take(0) =~= Seq::<LiveEvent>::empty());
    assert forall|k: int| 0 <= k < s.len() && is_final(#[trigger] s[k]) implies (ids(q0).contains(event_id(s[k]))
        || event_id(s[k]) >= n0) && event_id(s[k]) < n1 && !ids(q1).contains(event_id(s[k])) by {
        assert(s[k] == e1[k + e0.len()]);
    }
    assert forall|k: int, l: int|
        0 <= k < l < s.len() && is_final(#[trigger] s[k]) && is_final(#[trigger] s[l]) implies event_id(s[k])
        != event_id(s[l]) by {
        assert(s[k] == e1[k + e0.len()]);
        assert(s[l] == e1[l + e0.len()]);
    }
}

/// `m1` is `m0` after the shell took the pending events.
pub open spec fn events_taken(m0: LiveManager, m1: LiveManager) -> bool {
    &&& m1.events().len() == 0
    &&& m1.queue() == m0.queue()
    &&& m1.next_id() == m0.next_id()
}

/// The events that reach the shell through the transition from `m0` to
/// `m1`: those the step added, none when the shell took the events.
pub open spec fn added_events(m0: LiveManager, m1: LiveManager) -> Seq<LiveEvent> {
    if events_taken(m0, m1) {
        Seq::empty()
    } else {
        m1.events().skip(m0.events().len() as int)
    }
}

/// Every dictation is answered at most once, and results come in the order
/// the dictations were started: over any run of the controller's operations
/// (each one a step, or the shell taking the events), the shell never gets
/// two results or dismissals for one dictation, and the ids of the results
/// it gets increase.
pub proof fn lemma_manager_answers_once(ms: Seq<LiveManager>)
    requires
        ms.len() > 0,
        forall|i: int| 0 <= i < ms.len() - 1 ==> stepped(#[trigger] ms[i], ms[i + 1]) || events_taken(ms[i], ms[i + 1]),
    ensures
        ({
            let all = run_events(Seq::new((ms.len() - 1) as nat, |i: int| added_events(ms[i], ms[i + 1])));
            forall|k: int, l: int|
                0 <= k < l < all.len() && is_final(#[trigger] all[k]) && is_final(#[trigger] all[l]) ==> event_id(
                    all[k],
                ) != event_id(all[l])
        }),
        ({
            let all = run_events(Seq::new((ms.len() - 1) as nat, |i: int| added_events(ms[i], ms[i + 1])));
            forall|k: int, l: int|
                0 <= k < l < all.len() && (#[trigger] all[k]) is Deliver && (#[trigger] all[l]) is Deliver
                    ==> event_id(all[k]) < event_id(all[l])
        }),
{
    let qs = Seq::new(ms.len(), |i: int| ms[i].queue());
    let ns = Seq::new(ms.len(), |i: int| ms[i].next_id());
    let emitted = Seq::new((ms.len() - 1) as nat, |i: int| added_events(ms[i], ms[i + 1]));
    assert forall|i: int| 0 <= i < emitted.len() implies answers_leave(
        qs[i],
        Seq::empty(),
        ns[i],
        qs[i + 1],
        #[trigger] emitted[i],
        ns[i + 1],
    ) by {
        if events_taken(ms[i], ms[i + 1]) {
            lemma_same_ids_step(qs[i], Seq::empty(), ns[i], qs[i + 1], Seq::empty());
        } else {
            assert(stepped(ms[i], ms[i + 1]));
            lemma_step_events(qs[i], ms[i].events(), ns[i], qs[i + 1], ms[i + 1].events(), ns[i + 1]);
        }
    }
    lemma_answered_at_most_once(qs, ns, emitted);
    lemma_results_in_dictation_order(qs, ns, emitted);
}

} // verus!
