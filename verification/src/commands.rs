//! The commands of the player.
//!
//! Each command moves the state and says what the host has to do with the
//! sink. Where a command waits for the outcome of such work, it comes in two
//! functions, one before and one after.
use crate::double::{lemma_units_order, lemma_units_zero, Double, NAN_BITS};
use crate::models::{NativeAudioState, Persist, Report, SinkStatus, Status};
use crate::player::{
    fresh_machine, lemma_fresh, snapshot_of, valid_rate, DesktopInner, InnerView, MachineView,
};
use crate::single::{narrow, narrowed, Single};
use crate::text::{trim, trimmed};
use crate::timing::{
    cap, capped, clamp_span, clamped_span, in_week, lemma_clamped_span, next_position, raise,
    raised, safe_duration, step,
};
use vstd::prelude::*;

verus! {

impl InnerView {
    /// The same state with this error, or none.
    pub open spec fn with_error(self, error: Option<Seq<char>>) -> InnerView {
        InnerView { state: MachineView { last_error: error, ..self.state }, ..self }
    }

    /// No track loaded, positions and length at zero, waiting for `src`.
    pub open spec fn loading(self, src: Seq<char>, id: Option<i64>) -> InnerView {
        InnerView {
            sink: false,
            current_src: Some(src),
            duration: Double::zero(),
            state: MachineView {
                current_id: if id is Some && id->0 > 0 {
                    id
                } else {
                    None
                },
                stable_time: Double::zero(),
                pending_seek: None,
                did_reach_end: false,
                last_error: None,
                desired_playing: false,
                ..self.state
            },
            ..self
        }
    }

    /// A track of this length is loaded.
    pub open spec fn loaded(self, duration: Double) -> InnerView {
        InnerView { sink: true, duration, ..self }
    }

    /// Meant to play, from the start after an end, from the target of a pending
    /// seek, or from where it stood.
    pub open spec fn playing(self) -> InnerView {
        InnerView {
            state: MachineView {
                stable_time: match self.state.pending_seek {
                    Some(target) => clamped_span(target),
                    None => if self.state.did_reach_end {
                        Double::zero()
                    } else {
                        self.state.stable_time
                    },
                },
                pending_seek: None,
                did_reach_end: false,
                desired_playing: true,
                last_error: None,
                ..self.state
            },
            ..self
        }
    }

    /// One poll later. While the track is meant to play and the sink has not
    /// run dry, the position moves on; at the length, where it is known, the
    /// track has ended.
    pub open spec fn ticked(self, empty: bool) -> InnerView {
        let t = next_position(self.state.stable_time);
        if empty || !self.state.desired_playing {
            self
        } else if self.duration.units() > 0 && self.duration.units() <= t.units() {
            InnerView {
                state: MachineView {
                    stable_time: self.duration,
                    did_reach_end: true,
                    desired_playing: false,
                    ..self.state
                },
                ..self
            }
        } else {
            InnerView { state: MachineView { stable_time: t, ..self.state }, ..self }
        }
    }

    /// The track has ended, wherever the position stands.
    pub open spec fn ended(self) -> InnerView {
        InnerView {
            state: MachineView { did_reach_end: true, desired_playing: false, ..self.state },
            ..self
        }
    }

    /// Not meant to play; a pending seek is forgotten.
    pub open spec fn paused(self) -> InnerView {
        InnerView {
            state: MachineView { desired_playing: false, pending_seek: None, ..self.state },
            ..self
        }
    }

    /// At `target`; where the sink did not move, the seek is pending.
    pub open spec fn sought(self, target: Double, moved: bool) -> InnerView {
        InnerView {
            state: MachineView {
                stable_time: target,
                pending_seek: if moved {
                    None
                } else {
                    Some(target)
                },
                did_reach_end: false,
                ..self.state
            },
            ..self
        }
    }

    /// At this speed.
    pub open spec fn rated(self, rate: Double) -> InnerView {
        InnerView { state: MachineView { rate, ..self.state }, ..self }
    }

    /// Without a record of the last checkpoint.
    pub open spec fn unrecorded(self) -> InnerView {
        InnerView {
            last_persist_ms: 0,
            last_persist_time: Double { bits: NAN_BITS },
            last_persist_id: None,
            ..self
        }
    }

    /// Nothing loaded; only the stream and the record of checkpoints are left.
    pub open spec fn disposed(self) -> InnerView {
        InnerView {
            sink: false,
            duration: Double::zero(),
            current_src: None,
            state: fresh_machine(),
            ..self
        }
    }
}

/// Reports whether there is an audio device, once the host has tried to open
/// its stream.
pub fn initialize(inner: &mut DesktopInner, sink: SinkStatus) -> (r: NativeAudioState)
    requires
        old(inner).wf(),
    ensures
        final(inner)@ == old(inner)@.with_error(
            if old(inner).stream {
                None
            } else {
                Some("no audio device"@)
            },
        ),
        final(inner).wf(),
        r@ == snapshot_of(final(inner)@, sink),
{
    if inner.stream {
        inner.state.last_error = None;
    } else {
        inner.state.last_error = Some("no audio device".to_string());
    }
    inner.snapshot(sink)
}

/// What follows from a source that was accepted.
pub struct SourceAccepted {
    /// The sink of the previous track is to be stopped and dropped.
    pub stop_previous: bool,
    pub state: NativeAudioState,
}

/// Leaves the previous track and waits for a new one. A source of nothing but
/// white space is refused and changes nothing.
pub fn set_source(inner: &mut DesktopInner, src: &str, id: Option<i64>) -> (r: Result<
    SourceAccepted,
    String,
>)
    requires
        old(inner).wf(),
    ensures
        r is Err <==> trimmed(src@).len() == 0,
        r matches Err(e) ==> e@ == "src is required"@ && *final(inner) == *old(inner),
        r matches Ok(accepted) ==> {
            &&& final(inner)@ == old(inner)@.loading(src@, id)
            &&& accepted.stop_previous == old(inner).sink
            &&& forall|sink: SinkStatus| accepted.state@ == #[trigger] snapshot_of(
                final(inner)@,
                sink,
            )
        },
        final(inner).wf(),
{
    if trim(src).is_empty() {
        return Err("src is required".to_string());
    }
    proof {
        lemma_clamped_span(Double::zero());
        lemma_units_zero();
    }
    let stop_previous = inner.sink;
    inner.sink = false;
    inner.current_src = Some(src.to_string());
    inner.state.current_id = match id {
        Some(v) => if v > 0 {
            Some(v)
        } else {
            None
        },
        None => None,
    };
    inner.state.stable_time = Double::zero();
    inner.state.pending_seek = None;
    inner.state.did_reach_end = false;
    inner.state.last_error = None;
    inner.state.desired_playing = false;
    inner.duration = Double::zero();
    let state = inner.snapshot(SinkStatus { paused: true, empty: true });
    Ok(SourceAccepted { stop_previous, state })
}

/// The source cannot be reached or played.
pub fn source_failed(inner: &mut DesktopInner, error: &str, sink: SinkStatus) -> (r:
    NativeAudioState)
    requires
        old(inner).wf(),
    ensures
        final(inner)@ == old(inner)@.with_error(Some(error@)),
        final(inner).wf(),
        r@ == snapshot_of(final(inner)@, sink),
{
    inner.state.last_error = Some(error.to_string());
    inner.snapshot(sink)
}

/// A track can only be loaded where there is an audio device.
pub fn require_device(inner: &DesktopInner) -> (r: Result<(), String>)
    ensures
        r is Ok <==> inner.stream,
        r matches Err(e) ==> e@ == "no audio device"@,
{
    if inner.stream {
        Ok(())
    } else {
        Err("no audio device".to_string())
    }
}

/// How a sink is set up for a track.
#[derive(Clone, Copy, Debug, PartialEq, Eq, Structural)]
pub struct SinkPlan {
    /// The length of the track; zero where it is not known.
    pub duration: Double,
    /// The speed at which the sink plays.
    pub speed: Single,
}

/// A speed at which no sink can play.
#[derive(Clone, Copy, Debug, PartialEq, Eq, Structural)]
pub struct InvalidRate {
    pub rate: Single,
}

/// The set-up of a sink for a track whose decoder gave this length, if any, at
/// the speed of playback. A speed that is not above zero, or above 16, once it
/// is rounded to binary32, is refused.
pub fn build_sink(raw_duration: Option<Double>, rate: Double) -> (r: Result<SinkPlan, InvalidRate>)
    requires
        valid_rate(rate),
    ensures
        r is Ok <==> narrowed(rate).valid_speed(),
        r matches Ok(plan) ==> {
            &&& plan.speed == narrowed(rate)
            &&& plan.duration == match raw_duration {
                Some(d) => clamped_span(d),
                None => Double::zero(),
            }
            &&& in_week(plan.duration)
        },
        r matches Err(e) ==> e.rate == narrowed(rate),
{
    proof {
        lemma_clamped_span(Double::zero());
    }
    let duration = match raw_duration {
        Some(d) => clamp_span(d),
        None => Double::zero(),
    };
    let speed = narrow(rate);
    if !speed.is_valid_speed() {
        return Err(InvalidRate { rate: speed });
    }
    Ok(SinkPlan { duration, speed })
}

/// The track is loaded into a sink.
pub fn source_ready(inner: &mut DesktopInner, duration: Double, sink: SinkStatus) -> (r:
    NativeAudioState)
    requires
        old(inner).wf(),
        old(inner).stream,
        in_week(duration),
    ensures
        final(inner)@ == old(inner)@.loaded(duration),
        final(inner).wf(),
        r@ == snapshot_of(final(inner)@, sink),
{
    inner.duration = duration;
    inner.sink = true;
    inner.snapshot(sink)
}

/// What the host has to do with the sink to play.
#[derive(Clone, Copy, Debug, PartialEq, Eq, Structural)]
pub struct PlayPlan {
    /// Seek to the start first.
    pub rewind: bool,
    /// Seek to this position once the sink plays.
    pub seek: Option<Double>,
}

/// Starts to play. Without a track it is refused and changes nothing.
pub fn play(inner: &mut DesktopInner) -> (r: Result<PlayPlan, String>)
    requires
        old(inner).wf(),
    ensures
        r is Ok <==> old(inner).sink,
        r matches Err(e) ==> e@ == "no source set"@ && *final(inner) == *old(inner),
        r matches Ok(plan) ==> {
            &&& final(inner)@ == old(inner)@.playing()
            &&& final(inner).state.desired_playing
            &&& !final(inner).state.did_reach_end
            &&& plan.rewind == old(inner).state.did_reach_end
            &&& plan.seek == match old(inner).state.pending_seek {
                Some(target) => Some(capped(raised(target))),
                None => None,
            }
        },
        final(inner).wf(),
{
    if !inner.sink {
        return Err("no source set".to_string());
    }
    proof {
        lemma_clamped_span(Double::zero());
    }
    let rewind = inner.state.did_reach_end;
    if rewind {
        inner.state.did_reach_end = false;
        inner.state.stable_time = Double::zero();
    }
    let mut seek: Option<Double> = None;
    match inner.state.pending_seek {
        Some(target) => {
            proof {
                lemma_clamped_span(target);
                lemma_units_zero();
            }
            match safe_duration(raise(target)) {
                Ok(d) => {
                    seek = Some(d);
                },
                Err(_) => {},
            }
            inner.state.stable_time = clamp_span(target);
        },
        None => {},
    }
    inner.state.pending_seek = None;
    inner.state.desired_playing = true;
    inner.state.last_error = None;
    Ok(PlayPlan { rewind, seek })
}

/// One poll: `empty` tells whether the sink had run dry when it began. The end
/// of the track is kept in any case, progress when a checkpoint is due.
pub fn tick(inner: &mut DesktopInner, empty: bool, sink: SinkStatus) -> (r: Report)
    requires
        old(inner).wf(),
    ensures
        final(inner)@ == old(inner)@.ticked(empty),
        final(inner).wf(),
        r.state@ == snapshot_of(final(inner)@, sink),
        r.persist == if r.state.status == Status::Ended {
            Persist::Always
        } else {
            Persist::WhenDue
        },
{
    if !empty && inner.state.desired_playing {
        proof {
            lemma_units_zero();
            lemma_units_order(0, inner.duration.magnitude());
        }
        let t = step(inner.state.stable_time);
        if !inner.duration.le(&Double::zero()) && inner.duration.le(&t) {
            inner.state.stable_time = inner.duration;
            inner.state.did_reach_end = true;
            inner.state.desired_playing = false;
        } else {
            inner.state.stable_time = t;
        }
    }
    let state = inner.snapshot(sink);
    let persist = if state.status == Status::Ended {
        Persist::Always
    } else {
        Persist::WhenDue
    };
    Report { state, persist }
}

/// After a poll that found the sink dry: a track that was still meant to play
/// has ended.
pub fn drained(inner: &mut DesktopInner, sink: SinkStatus) -> (r: Option<Report>)
    requires
        old(inner).wf(),
    ensures
        r is Some <==> old(inner).state.desired_playing && !old(inner).state.did_reach_end,
        r matches Some(report) ==> {
            &&& final(inner)@ == old(inner)@.ended()
            &&& report.state@ == snapshot_of(final(inner)@, sink)
            &&& report.persist == Persist::Always
        },
        r is None ==> *final(inner) == *old(inner),
        final(inner).wf(),
{
    if !inner.state.did_reach_end && inner.state.desired_playing {
        inner.state.did_reach_end = true;
        inner.state.desired_playing = false;
        Some(Report { state: inner.snapshot(sink), persist: Persist::Always })
    } else {
        None
    }
}

/// Whether to poll again after a poll that found the sink `empty` or not.
pub fn keep_polling(inner: &DesktopInner, empty: bool) -> (r: bool)
    ensures
        r == (!empty && inner.state.desired_playing),
{
    !empty && inner.state.desired_playing
}

/// Pauses; the host has paused the sink, if there is one.
pub fn pause(inner: &mut DesktopInner, sink: SinkStatus) -> (r: Report)
    requires
        old(inner).wf(),
    ensures
        final(inner)@ == old(inner)@.paused(),
        final(inner).wf(),
        r.state@ == snapshot_of(final(inner)@, sink),
        r.persist == Persist::Always,
{
    inner.state.desired_playing = false;
    inner.state.pending_seek = None;
    Report { state: inner.snapshot(sink), persist: Persist::Always }
}

/// The position to seek to: `position`, held between zero and seven days. What
/// is not a finite number is refused first, then a seek without a track.
pub fn seek_to(inner: &DesktopInner, position: Double) -> (r: Result<Double, String>)
    ensures
        r is Ok <==> position.finite() && inner.sink,
        r matches Ok(target) ==> target == capped(raised(position)) && in_week(target),
        r matches Err(e) ==> e@ == if position.finite() {
            "no source set"@
        } else {
            "position is required"@
        },
{
    if !position.is_finite() {
        return Err("position is required".to_string());
    }
    proof {
        lemma_clamped_span(position);
    }
    let target = cap(raise(position));
    if !inner.sink {
        return Err("no source set".to_string());
    }
    Ok(target)
}

/// Records a seek that the sink followed (`moved`) or refused. The result tells
/// the host to pause the sink.
pub fn seek_done(inner: &mut DesktopInner, target: Double, moved: bool) -> (pause_sink: bool)
    requires
        old(inner).wf(),
        old(inner).sink,
        in_week(target),
    ensures
        final(inner)@ == old(inner)@.sought(target, moved),
        final(inner).wf(),
        pause_sink == !old(inner).state.desired_playing,
{
    if moved {
        inner.state.stable_time = target;
        inner.state.pending_seek = None;
    } else {
        inner.state.pending_seek = Some(target);
        inner.state.stable_time = target;
    }
    inner.state.did_reach_end = false;
    !inner.state.desired_playing
}

/// The state after a seek, or before everything is disposed of: a checkpoint
/// goes with it in any case.
pub fn checkpointed_state(inner: &DesktopInner, sink: SinkStatus) -> (r: Report)
    ensures
        r.state@ == snapshot_of(inner@, sink),
        r.persist == Persist::Always,
{
    Report { state: inner.snapshot(sink), persist: Persist::Always }
}

/// What follows from a speed that was accepted.
pub struct RateAccepted {
    pub state: NativeAudioState,
    /// The speed to give to the sink, if there is one.
    pub speed: Single,
}

/// Sets the speed of playback. What is not a finite number above zero is
/// refused and changes nothing.
pub fn set_rate(inner: &mut DesktopInner, rate: Double, sink: SinkStatus) -> (r: Result<
    RateAccepted,
    String,
>)
    requires
        old(inner).wf(),
    ensures
        r is Ok <==> valid_rate(rate),
        r matches Ok(accepted) ==> {
            &&& final(inner)@ == old(inner)@.rated(rate)
            &&& accepted.state@ == snapshot_of(final(inner)@, sink)
            &&& accepted.speed == narrowed(rate)
        },
        r matches Err(e) ==> e@ == "rate must be > 0"@ && *final(inner) == *old(inner),
        final(inner).wf(),
{
    proof {
        lemma_units_zero();
    }
    if !rate.is_finite() || rate.le(&Double::zero()) {
        return Err("rate must be > 0".to_string());
    }
    inner.state.rate = rate;
    Ok(RateAccepted { state: inner.snapshot(sink), speed: narrow(rate) })
}

/// The state as listeners see it.
pub fn get_state(inner: &DesktopInner, sink: SinkStatus) -> (r: NativeAudioState)
    ensures
        r@ == snapshot_of(inner@, sink),
{
    inner.snapshot(sink)
}

/// Forgets the last checkpoint, once the host has deleted it.
pub fn clear_progress_checkpoint(inner: &mut DesktopInner)
    requires
        old(inner).wf(),
    ensures
        final(inner)@ == old(inner)@.unrecorded(),
        final(inner).wf(),
{
    inner.last_persist_ms = 0;
    inner.last_persist_time = Double { bits: NAN_BITS };
    inner.last_persist_id = None;
}

/// Lets go of the track and of everything about it. The result tells the host
/// to stop and drop the sink.
pub fn dispose(inner: &mut DesktopInner) -> (stop_sink: bool)
    requires
        old(inner).wf(),
    ensures
        final(inner)@ == old(inner)@.disposed(),
        final(inner).wf(),
        stop_sink == old(inner).sink,
{
    proof {
        lemma_fresh();
        lemma_clamped_span(Double::zero());
        lemma_units_zero();
    }
    let stop_sink = inner.sink;
    inner.sink = false;
    inner.duration = Double::zero();
    inner.current_src = None;
    inner.state.reset();
    stop_sink
}

} // verus!
