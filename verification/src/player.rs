//! The playback state, its invariant, and the rules for snapshots and
//! checkpoints.
use crate::double::{lemma_units_order, lemma_units_zero, whole, Double, NAN_BITS, ONE_BITS};
use crate::models::{
    text_of, NativeAudioProgressCheckpoint, NativeAudioState, SinkStatus, StateView, Status,
};
use crate::timing::{
    in_week, is_near, is_past_quarter, law_past_quarter, lemma_clamped_span, near, past_quarter,
};
use vstd::prelude::*;

verus! {

/// Milliseconds that must pass between two checkpoints that nothing forces.
pub const PERSIST_INTERVAL_MS: u128 = 1000;

/// What the player remembers of the track that is being played.
pub struct PlaybackStateMachine {
    /// The speed of playback.
    pub rate: Double,
    pub last_error: Option<String>,
    pub did_reach_end: bool,
    /// The number under which progress is kept; only positive numbers count.
    pub current_id: Option<i64>,
    /// Where to seek on the next play, after a seek that the sink refused.
    pub pending_seek: Option<Double>,
    /// The position, counted by polling.
    pub stable_time: Double,
    pub desired_playing: bool,
}

/// The same, with the error as a sequence of characters.
pub struct MachineView {
    pub rate: Double,
    pub last_error: Option<Seq<char>>,
    pub did_reach_end: bool,
    pub current_id: Option<i64>,
    pub pending_seek: Option<Double>,
    pub stable_time: Double,
    pub desired_playing: bool,
}

impl View for PlaybackStateMachine {
    type V = MachineView;

    open spec fn view(&self) -> MachineView {
        MachineView {
            rate: self.rate,
            last_error: text_of(self.last_error),
            did_reach_end: self.did_reach_end,
            current_id: self.current_id,
            pending_seek: self.pending_seek,
            stable_time: self.stable_time,
            desired_playing: self.desired_playing,
        }
    }
}

/// Normal speed, at the start, without track, error or wish to play.
pub open spec fn fresh_machine() -> MachineView {
    MachineView {
        rate: Double { bits: ONE_BITS },
        last_error: None,
        did_reach_end: false,
        current_id: None,
        pending_seek: None,
        stable_time: Double::zero(),
        desired_playing: false,
    }
}

impl MachineView {
    /// The position that listeners see: the target of a seek that is still
    /// pending, else the position counted.
    pub open spec fn effective_time(self) -> Double {
        match self.pending_seek {
            Some(target) => target,
            None => self.stable_time,
        }
    }
}

impl Default for PlaybackStateMachine {
    fn default() -> (r: Self)
        ensures
            r@ == fresh_machine(),
    {
        PlaybackStateMachine {
            rate: Double { bits: ONE_BITS },
            last_error: None,
            did_reach_end: false,
            current_id: None,
            pending_seek: None,
            stable_time: Double::zero(),
            desired_playing: false,
        }
    }
}

impl PlaybackStateMachine {
    /// The position that listeners see.
    pub fn effective_time(&self) -> (r: Double)
        ensures
            r == self@.effective_time(),
    {
        match self.pending_seek {
            Some(target) => target,
            None => self.stable_time,
        }
    }

    /// Back to the beginning.
    pub fn reset(&mut self)
        ensures
            final(self)@ == fresh_machine(),
    {
        *self = PlaybackStateMachine::default();
    }
}

/// The state of the player.
pub struct DesktopInner {
    /// The output stream is open.
    pub stream: bool,
    /// A track is loaded into a sink.
    pub sink: bool,
    pub state: PlaybackStateMachine,
    pub current_src: Option<String>,
    /// The length of the track; zero where it is not known.
    pub duration: Double,
    /// When, where and for which track the last checkpoint was written.
    pub last_persist_ms: u128,
    pub last_persist_time: Double,
    pub last_persist_id: Option<i64>,
}

/// The same, with its texts as sequences of characters.
pub struct InnerView {
    pub stream: bool,
    pub sink: bool,
    pub state: MachineView,
    pub current_src: Option<Seq<char>>,
    pub duration: Double,
    pub last_persist_ms: u128,
    pub last_persist_time: Double,
    pub last_persist_id: Option<i64>,
}

impl View for DesktopInner {
    type V = InnerView;

    open spec fn view(&self) -> InnerView {
        InnerView {
            stream: self.stream,
            sink: self.sink,
            state: self.state@,
            current_src: text_of(self.current_src),
            duration: self.duration,
            last_persist_ms: self.last_persist_ms,
            last_persist_time: self.last_persist_time,
            last_persist_id: self.last_persist_id,
        }
    }
}

/// A speed of playback that may be set: a finite number above zero.
pub open spec fn valid_rate(rate: Double) -> bool {
    rate.finite() && rate.units() > 0
}

impl MachineView {
    /// Positions lie between zero and seven days, the speed is valid, only a
    /// positive number is kept, and what has ended is not meant to play.
    pub open spec fn wf(self) -> bool {
        &&& in_week(self.stable_time)
        &&& self.pending_seek matches Some(target) ==> in_week(target)
        &&& valid_rate(self.rate)
        &&& self.current_id matches Some(id) ==> id > 0
        &&& !(self.did_reach_end && self.desired_playing)
    }
}

impl InnerView {
    /// The playback state is well-formed, the length lies between zero and
    /// seven days, only a loaded track plays, ends, seeks or has a length, a
    /// track is only loaded into an open stream, and the record of the last
    /// checkpoint is of one that was worth writing.
    pub open spec fn wf(self) -> bool {
        &&& self.state.wf()
        &&& in_week(self.duration)
        &&& self.state.desired_playing || self.state.did_reach_end || self.state.pending_seek is Some
            || self.duration.units() > 0 ==> self.sink
        &&& self.sink ==> self.stream
        &&& match self.last_persist_id {
            Some(id) => id > 0 && past_quarter(self.last_persist_time),
            None => self.last_persist_ms == 0 && self.last_persist_time == (Double {
                bits: NAN_BITS,
            }),
        }
    }

    /// The progress may be kept: the track has a number, and `time` is past a
    /// quarter second.
    pub open spec fn worth_keeping(self, time: Double) -> bool {
        self.state.current_id is Some && self.state.current_id->0 > 0 && past_quarter(time)
    }

    /// Another checkpoint would be too soon, or say the same as the last one.
    pub open spec fn throttled(self, time: Double, now: u128) -> bool {
        ||| now - self.last_persist_ms < 1000
        ||| self.last_persist_id == self.state.current_id && near(self.last_persist_time, time)
    }

    /// The record after a checkpoint.
    pub open spec fn after_checkpoint(self, id: i64, time: Double, now: u128) -> InnerView {
        InnerView {
            last_persist_ms: now,
            last_persist_time: time,
            last_persist_id: Some(id),
            ..self
        }
    }
}

/// Nothing opened, loaded or written.
pub open spec fn fresh_inner() -> InnerView {
    InnerView {
        stream: false,
        sink: false,
        state: fresh_machine(),
        current_src: None,
        duration: Double::zero(),
        last_persist_ms: 0,
        last_persist_time: Double { bits: NAN_BITS },
        last_persist_id: None,
    }
}

/// The state as listeners see it. An error goes before the end, and both go
/// before playing; playing is a sink that is neither paused nor empty.
pub open spec fn snapshot_of(v: InnerView, sink: SinkStatus) -> StateView {
    let playing = v.sink && !sink.paused && !sink.empty;
    let clear = v.state.last_error is None && !v.state.did_reach_end;
    StateView {
        status: if v.state.last_error is Some {
            Status::Error
        } else if v.state.did_reach_end {
            Status::Ended
        } else if playing {
            Status::Playing
        } else {
            Status::Idle
        },
        current_time: v.state.effective_time(),
        duration: v.duration,
        is_playing: clear && playing,
        buffering: false,
        rate: v.state.rate,
        error: v.state.last_error,
    }
}

/// What a state starts with is well-formed.
pub proof fn lemma_fresh()
    ensures
        fresh_machine().wf(),
        fresh_inner().wf(),
{
    lemma_clamped_span(Double::zero());
    lemma_units_zero();
    lemma_units_order(0, ONE_BITS as nat);
}

impl DesktopInner {
    pub open spec fn wf(&self) -> bool {
        self@.wf()
    }

    /// A player with nothing opened, loaded or written.
    pub fn new() -> (r: Self)
        ensures
            r@ == fresh_inner(),
            r.wf(),
    {
        proof {
            lemma_fresh();
        }
        DesktopInner {
            stream: false,
            sink: false,
            state: PlaybackStateMachine::default(),
            current_src: None,
            duration: Double::zero(),
            last_persist_ms: 0,
            last_persist_time: Double { bits: NAN_BITS },
            last_persist_id: None,
        }
    }

    /// Records whether the output stream could be opened. A stream that is open
    /// stays open.
    pub fn ensure_stream(&mut self, opened: bool)
        requires
            old(self).wf(),
        ensures
            final(self)@ == (InnerView { stream: old(self)@.stream || opened, ..old(self)@ }),
            final(self).wf(),
    {
        if !self.stream {
            self.stream = opened;
        }
    }

    /// The state as listeners see it.
    pub fn snapshot(&self, sink: SinkStatus) -> (r: NativeAudioState)
        ensures
            r@ == snapshot_of(self@, sink),
            r.duration == self.duration,
            r.rate == self.state.rate,
            r.error is Some <==> self.state.last_error is Some,
            r.error matches Some(e) ==> e@ == self.state.last_error->0@,
            self.state.pending_seek is None ==> r.current_time == self.state.stable_time,
            self.state.pending_seek is Some ==> r.current_time == self.state.pending_seek->0,
    {
        let is_playing = self.sink && !sink.paused && !sink.empty;
        // The sink does not say whether it is waiting for data.
        let buffering = false;
        let has_error = self.state.last_error.is_some();
        let ended = self.state.did_reach_end;
        let status = if has_error {
            Status::Error
        } else if ended {
            Status::Ended
        } else if is_playing {
            Status::Playing
        } else if buffering {
            Status::Loading
        } else {
            Status::Idle
        };
        NativeAudioState {
            status,
            current_time: self.state.effective_time(),
            duration: self.duration,
            is_playing: !has_error && !ended && is_playing,
            buffering: !has_error && !ended && buffering,
            rate: self.state.rate,
            error: self.state.last_error.clone(),
        }
    }

    /// The checkpoint to write for `state` at the time `now`, if any. Without
    /// `force` it is held back when another one would be too soon or say the
    /// same; the clock must not have gone back then.
    pub fn write_checkpoint(&self, state: &NativeAudioState, now: u128, force: bool) -> (r: Option<
        NativeAudioProgressCheckpoint,
    >)
        requires
            self.wf(),
            !force && self@.worth_keeping(state.current_time) ==> self.last_persist_ms <= now,
        ensures
            r is Some <==> self@.worth_keeping(state.current_time) && (force || !self@.throttled(
                state.current_time,
                now,
            )),
            force && self.state.current_id is Some && self.state.current_id->0 > 0
                && state.current_time.finite() && 4 * state.current_time.units() > whole(1)
                ==> r is Some,
            r is Some ==> state.current_time.finite() && 4 * state.current_time.units() > whole(1),
            r matches Some(c) ==> {
                &&& c.id > 0
                &&& Some(c.id) == self.state.current_id
                &&& c.current_time == state.current_time
                &&& c.updated_at_ms == (now as i64)
                &&& c.status == Some(state.status)
            },
    {
        proof {
            law_past_quarter(state.current_time);
        }
        let id: i64 = match self.state.current_id {
            Some(id) => {
                if id <= 0 {
                    return None;
                }
                id
            },
            None => return None,
        };
        if !is_past_quarter(state.current_time) {
            return None;
        }
        if !force {
            if now - self.last_persist_ms < PERSIST_INTERVAL_MS {
                return None;
            }
            match self.last_persist_id {
                Some(last) => {
                    if last == id && is_near(self.last_persist_time, state.current_time) {
                        return None;
                    }
                },
                None => {},
            }
        }
        Some(
            NativeAudioProgressCheckpoint {
                id,
                current_time: state.current_time,
                updated_at_ms: #[verifier::truncate]
                (now as i64),
                status: Some(state.status),
            },
        )
    }

    /// Records that `checkpoint` was written at the time `now`.
    pub fn checkpoint_written(&mut self, checkpoint: &NativeAudioProgressCheckpoint, now: u128)
        requires
            old(self).wf(),
            checkpoint.id > 0,
            past_quarter(checkpoint.current_time),
        ensures
            final(self)@ == old(self)@.after_checkpoint(
                checkpoint.id,
                checkpoint.current_time,
                now,
            ),
            final(self).wf(),
    {
        self.last_persist_ms = now;
        self.last_persist_time = checkpoint.current_time;
        self.last_persist_id = Some(checkpoint.id);
    }
}

} // verus!
