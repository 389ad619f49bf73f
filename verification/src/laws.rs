//! What holds of the player as a whole.
use crate::cache::{refined, AudioExt};
use crate::double::{lemma_units_order, lemma_units_zero, units_of, whole, Double, ONE_BITS};
use crate::models::{NativeAudioState, SinkStatus, Status};
use crate::player::{
    fresh_inner, lemma_fresh, snapshot_of, valid_rate, DesktopInner, InnerView,
};
use crate::source::{is_remote, is_segmented, plan_file, plan_resource, plan_source, SourcePlan};
use crate::text::{is_space, trimmed, trimmed_end, trimmed_start};
use crate::timing::{
    capped, in_week, law_past_quarter, lemma_clamped_span, lemma_constants, lemma_step,
    near, past_quarter, raised, week,
};
use vstd::arithmetic::power2::{
    lemma2_to64, lemma2_to64_rest, lemma_pow2_adds, lemma_pow2_pos, pow2,
};
use vstd::prelude::*;

verus! {

/// Whatever is done with a well-formed player leaves it well-formed: a stream
/// is opened, an error noted, a source set and loaded, the track played,
/// polled, ended, paused, sought in, played at another speed, kept, or
/// disposed of.
pub proof fn law_everything_keeps_the_invariant(
    v: InnerView,
    error: Option<Seq<char>>,
    src: Seq<char>,
    id: Option<i64>,
    length: Double,
    target: Double,
    rate: Double,
    flag: bool,
    kept: i64,
    now: u128,
)
    requires
        v.wf(),
    ensures
        (InnerView { stream: v.stream || flag, ..v }).wf(),
        v.with_error(error).wf(),
        v.loading(src, id).wf(),
        v.stream && in_week(length) ==> v.loaded(length).wf(),
        v.sink ==> v.playing().wf(),
        v.ticked(flag).wf(),
        v.state.desired_playing ==> v.ended().wf(),
        v.paused().wf(),
        v.sink && in_week(target) ==> v.sought(target, flag).wf(),
        valid_rate(rate) ==> v.rated(rate).wf(),
        kept > 0 && past_quarter(target) ==> v.after_checkpoint(kept, target, now).wf(),
        v.unrecorded().wf(),
        v.disposed().wf(),
{
    lemma_fresh();
    lemma_clamped_span(Double::zero());
    lemma_units_zero();
    lemma_step(v.state.stable_time);
    match v.state.pending_seek {
        Some(t) => lemma_clamped_span(t),
        None => {},
    }
}

/// Listeners only ever see positions and lengths between zero and seven days,
/// and a finite speed above zero.
pub proof fn law_snapshot_is_bounded(v: InnerView, sink: SinkStatus)
    requires
        v.wf(),
    ensures
        in_week(snapshot_of(v, sink).current_time),
        in_week(snapshot_of(v, sink).duration),
        valid_rate(snapshot_of(v, sink).rate),
{
}

/// The flags of a state agree with its status: it plays if and only if the
/// status says so, there is an error if and only if the status says so, and it
/// never waits for data.
pub proof fn law_snapshot_flags_agree(v: InnerView, sink: SinkStatus)
    ensures
        snapshot_of(v, sink).is_playing <==> snapshot_of(v, sink).status == Status::Playing,
        snapshot_of(v, sink).error is Some <==> snapshot_of(v, sink).status == Status::Error,
        snapshot_of(v, sink).status == Status::Ended ==> v.state.did_reach_end,
        !snapshot_of(v, sink).buffering,
        snapshot_of(v, sink).status != Status::Loading,
{
}

/// What has ended is not being played, and nothing is played, has ended or
/// waits for a seek without a track in an open stream.
pub proof fn law_only_a_loaded_track_is_played(v: InnerView)
    requires
        v.wf(),
    ensures
        v.state.did_reach_end ==> !v.state.desired_playing,
        v.state.desired_playing || v.state.did_reach_end || v.state.pending_seek is Some ==> v.sink
            && v.stream,
{
}

/// A seek is seen at once, whether the sink followed it or not: listeners see
/// the target, and a track that had ended has not ended any more.
pub proof fn law_seek_is_seen(v: InnerView, target: Double, moved: bool, sink: SinkStatus)
    ensures
        snapshot_of(v.sought(target, moved), sink).current_time == target,
        snapshot_of(v.sought(target, moved), sink).status != Status::Ended,
{
}

/// A position between zero and seven days is sought exactly; one before zero
/// becomes zero, one after seven days becomes seven days.
pub proof fn law_seek_target(position: Double)
    requires
        position.finite(),
    ensures
        0 < position.units() <= whole(604800) ==> capped(raised(position)) == position,
        position.units() <= 0 ==> capped(raised(position)) == Double::zero(),
        position.units() >= whole(604800) ==> capped(raised(position)) == week(),
{
    lemma_constants();
    lemma_units_zero();
    lemma_clamped_span(position);
    if position.units() >= whole(604800) {
        lemma_pow2_pos(1074);
        lemma_units_order(position.magnitude(), week().magnitude());
        lemma_units_order(week().magnitude(), position.magnitude());
    }
}

/// Of two seeks the last one counts.
pub proof fn law_last_seek_counts(v: InnerView, a: Double, am: bool, b: Double, bm: bool)
    ensures
        v.sought(a, am).sought(b, bm) == v.sought(b, bm),
{
}

/// A seek that the sink refused is made up for by the next play, which starts
/// from its target; nothing is pending after that.
pub proof fn law_refused_seek_is_made_up_for(v: InnerView, target: Double, sink: SinkStatus)
    requires
        in_week(target),
    ensures
        v.sought(target, false).state.pending_seek == Some(target),
        v.sought(target, false).playing().state.stable_time == target,
        v.sought(target, false).playing().state.pending_seek is None,
        snapshot_of(v.sought(target, false).playing(), sink).current_time == target,
{
    lemma_clamped_span(target);
}

/// Playing a track that has ended starts it over.
pub proof fn law_play_after_end_starts_over(v: InnerView, sink: SinkStatus)
    requires
        v.state.did_reach_end,
        v.state.pending_seek is None,
    ensures
        snapshot_of(v.playing(), sink).current_time == Double::zero(),
        !v.playing().state.did_reach_end,
{
}

/// Playing clears the error.
pub proof fn law_play_clears_the_error(v: InnerView, sink: SinkStatus)
    ensures
        snapshot_of(v.playing(), sink).error is None,
        snapshot_of(v.playing(), sink).status == Status::Playing || snapshot_of(
            v.playing(),
            sink,
        ).status == Status::Idle,
{
}

/// An error is seen until it is cleared, and nothing plays meanwhile.
pub proof fn law_an_error_is_seen(v: InnerView, error: Seq<char>, sink: SinkStatus)
    ensures
        snapshot_of(v.with_error(Some(error)), sink).error == Some(error),
        snapshot_of(v.with_error(Some(error)), sink).status == Status::Error,
        !snapshot_of(v.with_error(Some(error)), sink).is_playing,
{
}

/// A speed that was set is seen, and is left alone by playing, polling,
/// pausing and seeking.
pub proof fn law_a_speed_is_kept(
    v: InnerView,
    rate: Double,
    target: Double,
    flag: bool,
    sink: SinkStatus,
)
    ensures
        snapshot_of(v.rated(rate), sink).rate == rate,
        v.playing().state.rate == v.state.rate,
        v.ticked(flag).state.rate == v.state.rate,
        v.paused().state.rate == v.state.rate,
        v.sought(target, flag).state.rate == v.state.rate,
{
}

/// Pausing and playing again resumes at the same position, unless the track
/// had ended.
pub proof fn law_pause_and_play_resumes(v: InnerView, sink: SinkStatus)
    requires
        !v.state.did_reach_end,
        v.state.pending_seek is None,
    ensures
        snapshot_of(v.paused(), sink).current_time == snapshot_of(v, sink).current_time,
        snapshot_of(v.paused().playing(), sink).current_time == snapshot_of(v, sink).current_time,
{
}

/// A pause that follows a refused seek gives the seek up, but not its target:
/// the position stays there.
pub proof fn law_pause_keeps_the_target(v: InnerView, target: Double, sink: SinkStatus)
    ensures
        v.sought(target, false).paused().state.pending_seek is None,
        snapshot_of(v.sought(target, false).paused(), sink).current_time == target,
{
}

/// Pausing twice is pausing once.
pub proof fn law_pause_twice(v: InnerView)
    ensures
        v.paused().paused() == v.paused(),
{
}

/// A new source starts idle, at zero, without length, error or pending seek, at
/// the speed that was set; nothing of the previous track is left.
pub proof fn law_new_source_starts_idle(
    v: InnerView,
    src: Seq<char>,
    id: Option<i64>,
    sink: SinkStatus,
)
    ensures
        snapshot_of(v.loading(src, id), sink).status == Status::Idle,
        snapshot_of(v.loading(src, id), sink).current_time == Double::zero(),
        snapshot_of(v.loading(src, id), sink).duration == Double::zero(),
        snapshot_of(v.loading(src, id), sink).rate == v.state.rate,
        !v.loading(src, id).sink,
        v.loading(src, id).state.current_id matches Some(n) ==> n > 0 && id == Some(n),
{
}

/// After everything is disposed of, listeners see what they see of a new
/// player, nothing is loaded, and disposing again changes nothing.
pub proof fn law_dispose_forgets_the_track(v: InnerView, sink: SinkStatus)
    ensures
        snapshot_of(v.disposed(), sink) == snapshot_of(fresh_inner(), sink),
        !v.disposed().sink,
        v.disposed().state.current_id is None,
        v.disposed().disposed() == v.disposed(),
{
}

/// A player that is not meant to play stands still.
pub proof fn law_tick_needs_the_wish_to_play(v: InnerView, empty: bool)
    requires
        !v.state.desired_playing || empty,
    ensures
        v.ticked(empty) == v,
{
}

/// A poll never takes the position back, and never past a known length.
pub proof fn law_tick_is_monotone(v: InnerView, empty: bool)
    requires
        v.wf(),
        v.duration.units() > 0 ==> v.state.stable_time.units() <= v.duration.units(),
    ensures
        v.state.stable_time.units() <= v.ticked(empty).state.stable_time.units(),
        v.duration.units() > 0 ==> v.ticked(empty).state.stable_time.units()
            <= v.duration.units(),
{
    lemma_step(v.state.stable_time);
}

/// A track ends at its length: when a poll ends it, the position is the length.
pub proof fn law_tick_ends_at_the_length(v: InnerView, empty: bool)
    requires
        v.wf(),
        !v.state.did_reach_end,
        v.ticked(empty).state.did_reach_end,
    ensures
        v.ticked(empty).state.stable_time == v.duration,
        !v.ticked(empty).state.desired_playing,
{
}

/// The state after `n` polls that found the sink with data.
pub open spec fn after_ticks(v: InnerView, n: nat) -> InnerView
    decreases n,
{
    if n == 0 {
        v
    } else {
        after_ticks(v, (n - 1) as nat).ticked(false)
    }
}

/// Until the end, each poll brings at least 19 hundredths of a second.
proof fn lemma_ticks(v: InnerView, n: nat)
    requires
        v.wf(),
        v.state.desired_playing,
        v.duration.units() > 0,
    ensures
        after_ticks(v, n).duration == v.duration,
        after_ticks(v, n).state.did_reach_end ==> after_ticks(v, n).state.stable_time == v.duration
            && !after_ticks(v, n).state.desired_playing,
        !after_ticks(v, n).state.did_reach_end ==> {
            &&& in_week(after_ticks(v, n).state.stable_time)
            &&& after_ticks(v, n).state.desired_playing
            &&& 100 * after_ticks(v, n).state.stable_time.units() >= n * (19 * whole(1))
        },
    decreases n,
{
    if n == 0 {
        assert(0 * (19 * whole(1)) == 0);
    } else {
        let u = after_ticks(v, (n - 1) as nat);
        lemma_ticks(v, (n - 1) as nat);
        lemma_constants();
        if !u.state.did_reach_end {
            lemma_step(u.state.stable_time);
            assert(n * (19 * whole(1)) == (n - 1) * (19 * whole(1)) + 19 * whole(1))
                by (nonlinear_arith);
        }
    }
}

/// A track of known length that keeps playing comes to its end: after some
/// number of polls, no more than a hundred for every 19 seconds of seven days,
/// it has ended, at its length.
pub proof fn law_a_playing_track_ends(v: InnerView) -> (n: nat)
    requires
        v.wf(),
        v.state.desired_playing,
        v.duration.units() > 0,
    ensures
        19 * n <= 100 * 604800 + 19,
        after_ticks(v, n).state.did_reach_end,
        after_ticks(v, n).state.stable_time == v.duration,
        !after_ticks(v, n).state.desired_playing,
{
    let n: nat = 3183158;
    lemma_ticks(v, n);
    if !after_ticks(v, n).state.did_reach_end {
        lemma_pow2_pos(1074);
        let one = whole(1);
        assert(3183158 * (19 * one) > 100 * (604800 * one));
    }
    n
}

/// For a second after a checkpoint, no other one is written that nothing
/// forces.
pub proof fn law_checkpoints_keep_their_distance(
    v: InnerView,
    id: i64,
    time: Double,
    at: u128,
    now: u128,
    next: Double,
)
    requires
        at <= now < at + 1000,
    ensures
        v.after_checkpoint(id, time, at).throttled(next, now),
{
}

/// A checkpoint of the same track at nearly the same position is not repeated,
/// however much time has passed, unless something forces it.
pub proof fn law_checkpoints_are_not_repeated(
    v: InnerView,
    time: Double,
    at: u128,
    now: u128,
    next: Double,
)
    requires
        v.state.current_id is Some,
        near(time, next),
    ensures
        v.after_checkpoint(v.state.current_id->0, time, at).throttled(next, now),
{
}

/// Another track, or another position, is kept once a second has passed.
pub proof fn law_progress_is_kept(
    v: InnerView,
    id: i64,
    time: Double,
    at: u128,
    now: u128,
    next: Double,
)
    requires
        now >= at + 1000,
        v.state.current_id != Some(id) || !near(time, next),
    ensures
        !v.after_checkpoint(id, time, at).throttled(next, now),
{
}

/// Once the checkpoint is cleared, nothing holds the next one back, from the
/// first second of the clock on.
pub proof fn law_clearing_lifts_the_throttle(v: InnerView, time: Double, now: u128)
    requires
        v.state.current_id is Some,
        now >= 1000,
    ensures
        !v.unrecorded().throttled(time, now),
        v.unrecorded().unrecorded() == v.unrecorded(),
{
}

/// White space around a source does not matter.
pub proof fn law_source_ignores_outer_space(src: Seq<char>)
    ensures
        trimmed(trimmed(src)) == trimmed(src),
        plan_source(trimmed(src)) == plan_source(src),
{
    lemma_trimmed_start_done(src);
    let s = trimmed_start(src);
    lemma_trimmed_end_done(s);
}

proof fn lemma_trimmed_start_done(s: Seq<char>)
    ensures
        trimmed_start(s).len() > 0 ==> !is_space(trimmed_start(s)[0]),
    decreases s.len(),
{
    if s.len() > 0 && is_space(s[0]) {
        lemma_trimmed_start_done(s.subrange(1, s.len() as int));
    }
}

proof fn lemma_trimmed_end_done(s: Seq<char>)
    ensures
        trimmed_end(s).len() <= s.len(),
        trimmed_end(s).len() > 0 ==> !is_space(trimmed_end(s)[trimmed_end(s).len() - 1])
            && trimmed_end(s)[0] == s[0],
    decreases s.len(),
{
    if s.len() > 0 && is_space(s[s.len() - 1]) {
        lemma_trimmed_end_done(s.subrange(0, s.len() - 1));
    }
}

/// Only an address on the web that is not segmented is ever downloaded, and
/// only when no file has its name.
pub proof fn law_what_is_downloaded(s: Seq<char>, found: bool)
    ensures
        plan_file(s, found) is Download <==> !found && is_remote(s) && !is_segmented(s),
        plan_file(s, found) is Download ==> plan_file(s, found) == SourcePlan::Download(s),
{
}

/// Reaching a source takes at most one lookup before it is used, downloaded or
/// given up.
pub proof fn law_one_lookup_is_enough(src: Seq<char>, found: bool)
    ensures
        match plan_source(src) {
            SourcePlan::Resource { resource, fallback } => {
                ||| plan_resource(fallback, found) is UseResource
                ||| plan_resource(fallback, found) is Use
            },
            SourcePlan::File(s) => {
                ||| plan_file(s, found) is Use
                ||| plan_file(s, found) is Download
                ||| plan_file(s, found) is Fail
            },
            SourcePlan::Use(_) => true,
            SourcePlan::Fail(_) => trimmed(src).len() == 0,
            _ => false,
        },
{
}

/// A content type only ever replaces mp3, and asking it again changes nothing.
pub proof fn law_content_type_replaces_mp3_only(ext: AudioExt, t: Option<Seq<char>>)
    ensures
        ext != AudioExt::Mp3 ==> refined(ext, t) == ext,
        refined(ext, t) != ext ==> refined(ext, t) != AudioExt::Mp3,
        refined(refined(ext, t), t) == refined(ext, t),
{
}

/// Files of different kinds have different names.
pub proof fn law_extensions_differ(a: AudioExt, b: AudioExt, hash: Seq<char>)
    ensures
        hash + a.dotted() == hash + b.dotted() ==> a == b,
{
    reveal_strlit(".mp3");
    reveal_strlit(".ogg");
    reveal_strlit(".flac");
    reveal_strlit(".wav");
    reveal_strlit(".m4a");
    reveal_strlit(".aac");
    reveal_strlit(".opus");
    reveal_strlit(".mp4");
    let x = hash + a.dotted();
    let y = hash + b.dotted();
    if x == y {
        assert(x.len() == y.len());
        let n = hash.len() as int;
        assert(x[n + 1] == y[n + 1]);
        assert(x[n + 2] == y[n + 2]);
        assert(x[n + 3] == y[n + 3]);
    }
}

/// After every play the player is meant to play, also where the track had
/// ended: it has not ended any more, no seek is pending and no error is left.
/// It starts from the target of a pending seek, else from zero after an end,
/// else from where it stood. Track, length, speed and records stay as they
/// were.
pub proof fn law_play_means_playing(v: InnerView)
    requires
        v.wf(),
    ensures
        v.playing().state.desired_playing,
        !v.playing().state.did_reach_end,
        v.playing().state.pending_seek is None,
        v.playing().state.last_error is None,
        v.state.pending_seek matches Some(t) ==> v.playing().state.stable_time == t,
        v.state.pending_seek is None && v.state.did_reach_end
            ==> v.playing().state.stable_time.units() == 0,
        v.state.pending_seek is None && !v.state.did_reach_end ==> v.playing().state.stable_time
            == v.state.stable_time,
        v.playing().sink == v.sink,
        v.playing().stream == v.stream,
        v.playing().duration == v.duration,
        v.playing().current_src == v.current_src,
        v.playing().state.rate == v.state.rate,
        v.playing().state.current_id == v.state.current_id,
        same_record(v, v.playing()),
{
    lemma_units_zero();
    match v.state.pending_seek {
        Some(t) => lemma_clamped_span(t),
        None => {},
    }
}

/// The record of the last checkpoint is the same in both states.
pub open spec fn same_record(a: InnerView, b: InnerView) -> bool {
    &&& a.last_persist_ms == b.last_persist_ms
    &&& a.last_persist_time == b.last_persist_time
    &&& a.last_persist_id == b.last_persist_id
}

/// A poll with data in the sink that follows a play either ends the track, at
/// its length, or takes the position strictly forward, with the player still
/// meant to play. This is so of a track that was played for the first time, of
/// one that was paused and of one that had ended. Only a track of unknown
/// length that stands at seven days goes no further.
pub proof fn law_a_poll_after_play_moves(v: InnerView)
    requires
        v.wf(),
        v.sink,
        v.duration.units() > 0 || v.playing().state.stable_time.units() < whole(604800),
    ensures
        v.playing().ticked(false).state.did_reach_end ==> {
            &&& v.playing().ticked(false).state.stable_time == v.duration
            &&& v.duration.units() > 0
            &&& !v.playing().ticked(false).state.desired_playing
        },
        !v.playing().ticked(false).state.did_reach_end ==> {
            &&& v.playing().ticked(false).state.stable_time.units()
                > v.playing().state.stable_time.units()
            &&& v.playing().ticked(false).state.desired_playing
        },
{
    law_play_means_playing(v);
    lemma_fresh();
    lemma_clamped_span(Double::zero());
    lemma_step(v.playing().state.stable_time);
    lemma_constants();
    lemma_pow2_pos(1074);
}

/// A poll brings a fifth of a second, give or take a hundredth, unless it ends
/// the track or reaches seven days. It ends the track if and only if the length
/// is known and the position has come to it. Nothing but the position and the
/// end changes: not the track, length, speed, error, pending seek or records.
pub proof fn law_a_poll_counts_a_fifth(v: InnerView)
    requires
        v.wf(),
        v.state.desired_playing,
    ensures
        !v.ticked(false).state.did_reach_end ==> {
            let gained = v.ticked(false).state.stable_time.units() - v.state.stable_time.units();
            ||| v.ticked(false).state.stable_time.units() == whole(604800)
            ||| 19 * whole(1) <= 100 * gained <= 21 * whole(1)
        },
        v.ticked(false).state.did_reach_end ==> {
            &&& v.duration.units() > 0
            &&& v.ticked(false).state.stable_time == v.duration
            &&& 100 * (v.duration.units() - v.state.stable_time.units()) <= 21 * whole(1)
        },
        v.duration.units() > 0 && v.state.stable_time.units() >= v.duration.units() ==> v.ticked(
            false,
        ).state.did_reach_end,
        v.ticked(false).state.desired_playing == !v.ticked(false).state.did_reach_end,
        v.ticked(false).state.pending_seek == v.state.pending_seek,
        v.ticked(false).state.last_error == v.state.last_error,
        v.ticked(false).state.current_id == v.state.current_id,
        v.ticked(false).state.rate == v.state.rate,
        v.ticked(false).sink == v.sink,
        v.ticked(false).stream == v.stream,
        v.ticked(false).duration == v.duration,
        v.ticked(false).current_src == v.current_src,
        same_record(v, v.ticked(false)),
{
    lemma_step(v.state.stable_time);
    lemma_constants();
    lemma_pow2_pos(1074);
}

/// Listeners see the length that was loaded, whatever the position is, and
/// nothing that is done with the track changes it: not playing, polling,
/// ending, pausing, seeking, an error, another speed or a checkpoint.
pub proof fn law_the_length_is_seen(
    v: InnerView,
    length: Double,
    target: Double,
    rate: Double,
    error: Option<Seq<char>>,
    id: i64,
    now: u128,
    flag: bool,
    sink: SinkStatus,
)
    ensures
        snapshot_of(v.loaded(length), sink).duration == length,
        snapshot_of(v.playing(), sink).duration == snapshot_of(v, sink).duration,
        snapshot_of(v.ticked(flag), sink).duration == snapshot_of(v, sink).duration,
        snapshot_of(v.ended(), sink).duration == snapshot_of(v, sink).duration,
        snapshot_of(v.paused(), sink).duration == snapshot_of(v, sink).duration,
        snapshot_of(v.sought(target, flag), sink).duration == snapshot_of(v, sink).duration,
        snapshot_of(v.rated(rate), sink).duration == snapshot_of(v, sink).duration,
        snapshot_of(v.with_error(error), sink).duration == snapshot_of(v, sink).duration,
        snapshot_of(v.after_checkpoint(id, target, now), sink).duration == snapshot_of(
            v,
            sink,
        ).duration,
        snapshot_of(v.loaded(length).sought(target, flag), sink).duration == length,
{
}

/// Listeners see where the track stands: the target of the last seek while it
/// is pending, and else the position that is counted. An error, the end,
/// another speed, a checkpoint or loading a track do not move it.
pub proof fn law_the_position_is_seen(
    v: InnerView,
    length: Double,
    target: Double,
    rate: Double,
    error: Option<Seq<char>>,
    id: i64,
    now: u128,
    flag: bool,
    sink: SinkStatus,
)
    ensures
        snapshot_of(v.sought(target, flag), sink).current_time == target,
        v.state.pending_seek is None ==> snapshot_of(v, sink).current_time == v.state.stable_time,
        v.state.pending_seek matches Some(t) ==> snapshot_of(v, sink).current_time == t,
        snapshot_of(v.loaded(length), sink).current_time == snapshot_of(v, sink).current_time,
        snapshot_of(v.ended(), sink).current_time == snapshot_of(v, sink).current_time,
        snapshot_of(v.rated(rate), sink).current_time == snapshot_of(v, sink).current_time,
        snapshot_of(v.with_error(error), sink).current_time == snapshot_of(v, sink).current_time,
        snapshot_of(v.after_checkpoint(id, target, now), sink).current_time == snapshot_of(
            v,
            sink,
        ).current_time,
{
}

/// A loaded track that is played from a sink that neither pauses nor has run
/// dry is seen to play; from one that pauses or has run dry it is seen idle,
/// and so is a player without a track. A track that has ended is seen ended,
/// whatever its sink does, until it is played or sought in again. An error is
/// seen before all of that.
pub proof fn law_the_status_is_seen(
    v: InnerView,
    length: Double,
    target: Double,
    error: Seq<char>,
    flag: bool,
    sink: SinkStatus,
)
    ensures
        v.sink && !sink.paused && !sink.empty ==> snapshot_of(v.playing(), sink).status
            == Status::Playing && snapshot_of(v.playing(), sink).is_playing,
        sink.paused || sink.empty || !v.sink ==> snapshot_of(v.playing(), sink).status
            == Status::Idle && !snapshot_of(v.playing(), sink).is_playing,
        snapshot_of(v.loaded(length).playing(), SinkStatus { paused: false, empty: false }).status
            == Status::Playing,
        v.state.last_error is None ==> snapshot_of(v.ended(), sink).status == Status::Ended
            && !snapshot_of(v.ended(), sink).is_playing,
        v.state.last_error is None ==> snapshot_of(v.ended().paused(), sink).status
            == Status::Ended,
        snapshot_of(v.ended().playing(), sink).status != Status::Ended,
        snapshot_of(v.ended().sought(target, flag), sink).status != Status::Ended,
        snapshot_of(v.ended().with_error(Some(error)), sink).status == Status::Error,
        snapshot_of(v.with_error(Some(error)), sink).error == Some(error),
        snapshot_of(v.with_error(Some(error)).with_error(None), sink).error is None,
        v.state.last_error is None ==> snapshot_of(v, sink).error is None,
{
}

/// Progress is worth keeping if and only if the track has a positive number
/// and the position is finite and more than a quarter of a second. Whether the
/// track plays, is paused, has ended, failed, or was kept before does not
/// matter.
pub proof fn law_worth_keeping(
    v: InnerView,
    time: Double,
    target: Double,
    error: Option<Seq<char>>,
    id: i64,
    now: u128,
    flag: bool,
)
    ensures
        v.worth_keeping(time) <==> {
            &&& v.state.current_id is Some
            &&& v.state.current_id->0 > 0
            &&& time.finite()
            &&& 4 * time.units() > whole(1)
        },
        v.playing().worth_keeping(time) == v.worth_keeping(time),
        v.paused().worth_keeping(time) == v.worth_keeping(time),
        v.ended().worth_keeping(time) == v.worth_keeping(time),
        v.ticked(flag).worth_keeping(time) == v.worth_keeping(time),
        v.sought(target, flag).worth_keeping(time) == v.worth_keeping(time),
        v.with_error(error).worth_keeping(time) == v.worth_keeping(time),
        v.after_checkpoint(id, target, now).worth_keeping(time) == v.worth_keeping(time),
        v.unrecorded().worth_keeping(time) == v.worth_keeping(time),
{
    law_past_quarter(time);
}

/// A track that is set with a positive number has its progress kept under that
/// number; one that is set with zero, a negative number or none, and a player
/// that was disposed of, have none kept.
pub proof fn law_only_numbered_tracks_are_kept(
    v: InnerView,
    src: Seq<char>,
    n: i64,
    length: Double,
    time: Double,
)
    requires
        past_quarter(time),
    ensures
        v.loading(src, Some(n)).worth_keeping(time) <==> n > 0,
        v.loading(src, Some(n)).loaded(length).worth_keeping(time) <==> n > 0,
        n > 0 ==> v.loading(src, Some(n)).loaded(length).playing().state.current_id == Some(n),
        !v.loading(src, None).worth_keeping(time),
        !v.disposed().worth_keeping(time),
{
}

/// A checkpoint is held back if and only if less than a second has passed since
/// the last one, or the last one is of the same track and nearly the same
/// position. Playing, pausing, polling, seeking or ending do not matter.
pub proof fn law_throttled(
    v: InnerView,
    id: i64,
    time: Double,
    at: u128,
    next: Double,
    now: u128,
    target: Double,
    flag: bool,
)
    requires
        v.state.current_id is Some,
        at <= now,
    ensures
        v.after_checkpoint(id, time, at).throttled(next, now) <==> {
            ||| now - at < 1000
            ||| v.state.current_id == Some(id) && near(time, next)
        },
        v.playing().throttled(next, now) == v.throttled(next, now),
        v.paused().throttled(next, now) == v.throttled(next, now),
        v.ticked(flag).throttled(next, now) == v.throttled(next, now),
        v.sought(target, flag).throttled(next, now) == v.throttled(next, now),
        v.ended().throttled(next, now) == v.throttled(next, now),
{
}

/// A checkpoint changes nothing but the record of the last one, and the record
/// is of the last one only.
pub proof fn law_a_checkpoint_is_recorded(
    v: InnerView,
    id: i64,
    time: Double,
    now: u128,
    id2: i64,
    time2: Double,
    now2: u128,
)
    ensures
        v.after_checkpoint(id, time, now).last_persist_ms == now,
        v.after_checkpoint(id, time, now).last_persist_time == time,
        v.after_checkpoint(id, time, now).last_persist_id == Some(id),
        v.after_checkpoint(id, time, now).state == v.state,
        v.after_checkpoint(id, time, now).sink == v.sink,
        v.after_checkpoint(id, time, now).stream == v.stream,
        v.after_checkpoint(id, time, now).duration == v.duration,
        v.after_checkpoint(id, time, now).current_src == v.current_src,
        v.after_checkpoint(id, time, now).after_checkpoint(id2, time2, now2) == v.after_checkpoint(
            id2,
            time2,
            now2,
        ),
        v.after_checkpoint(id, time, now).unrecorded() == v.unrecorded(),
        v.unrecorded().last_persist_ms == 0,
        v.unrecorded().last_persist_id is None,
        v.unrecorded().state == v.state,
        v.unrecorded().sink == v.sink,
        v.unrecorded().stream == v.stream,
        v.unrecorded().duration == v.duration,
        v.unrecorded().current_src == v.current_src,
{
}

/// A pause takes back the wish to play and a pending seek, and nothing else:
/// not the position, the end, an error, the track, length, speed or records.
pub proof fn law_pause_stops(v: InnerView, empty: bool)
    ensures
        !v.paused().state.desired_playing,
        v.paused().state.pending_seek is None,
        v.paused().ticked(empty) == v.paused(),
        v.paused().state.stable_time == v.state.stable_time,
        v.paused().state.did_reach_end == v.state.did_reach_end,
        v.paused().state.last_error == v.state.last_error,
        v.paused().state.current_id == v.state.current_id,
        v.paused().state.rate == v.state.rate,
        v.paused().sink == v.sink,
        v.paused().stream == v.stream,
        v.paused().duration == v.duration,
        v.paused().current_src == v.current_src,
        same_record(v, v.paused()),
{
}

/// A seek leaves the wish to play, errors, the track, length, speed and records
/// as they were; it is pending if and only if the sink did not follow it.
pub proof fn law_seek_moves_nothing_else(v: InnerView, target: Double, moved: bool)
    ensures
        v.sought(target, moved).state.stable_time == target,
        v.sought(target, moved).state.pending_seek is Some <==> !moved,
        !v.sought(target, moved).state.did_reach_end,
        v.sought(target, moved).state.desired_playing == v.state.desired_playing,
        v.sought(target, moved).state.last_error == v.state.last_error,
        v.sought(target, moved).state.current_id == v.state.current_id,
        v.sought(target, moved).state.rate == v.state.rate,
        v.sought(target, moved).sink == v.sink,
        v.sought(target, moved).stream == v.stream,
        v.sought(target, moved).duration == v.duration,
        v.sought(target, moved).current_src == v.current_src,
        same_record(v, v.sought(target, moved)),
{
}

/// A track whose sink has run dry has ended where it stood; nothing else
/// changes, and a poll does not move it any more.
pub proof fn law_running_dry_ends_the_track(v: InnerView, empty: bool)
    ensures
        v.ended().state.did_reach_end,
        !v.ended().state.desired_playing,
        v.ended().ticked(empty) == v.ended(),
        v.ended().state.stable_time == v.state.stable_time,
        v.ended().state.pending_seek == v.state.pending_seek,
        v.ended().state.last_error == v.state.last_error,
        v.ended().state.current_id == v.state.current_id,
        v.ended().state.rate == v.state.rate,
        v.ended().sink == v.sink,
        v.ended().stream == v.stream,
        v.ended().duration == v.duration,
        v.ended().current_src == v.current_src,
        same_record(v, v.ended()),
{
}

/// A speed that is set, or an error that is noted, changes nothing else.
pub proof fn law_speed_and_error_stand_alone(v: InnerView, rate: Double, error: Option<Seq<char>>)
    ensures
        v.rated(rate).state.rate == rate,
        v.rated(rate).rated(v.state.rate) == v,
        v.with_error(error).state.last_error == error,
        v.with_error(error).with_error(v.state.last_error) == v,
{
}

/// A new source is remembered as it was given. The stream stays open, the
/// speed and the record of checkpoints stay as they were, nothing is meant to
/// play, and everything else is as in a new player.
pub proof fn law_new_source_forgets_the_track(v: InnerView, src: Seq<char>, id: Option<i64>)
    ensures
        v.loading(src, id).current_src == Some(src),
        v.loading(src, id).stream == v.stream,
        !v.loading(src, id).sink,
        v.loading(src, id).state.rate == v.state.rate,
        v.loading(src, id).duration.units() == 0,
        v.loading(src, id).state.stable_time.units() == 0,
        v.loading(src, id).state.pending_seek is None,
        v.loading(src, id).state.last_error is None,
        !v.loading(src, id).state.did_reach_end,
        !v.loading(src, id).state.desired_playing,
        id is Some && id->0 > 0 ==> v.loading(src, id).state.current_id == id,
        id is None || id->0 <= 0 ==> v.loading(src, id).state.current_id is None,
        same_record(v, v.loading(src, id)),
{
    lemma_units_zero();
}

/// Loading a track gives it a sink and a length, and changes nothing else.
pub proof fn law_loading_gives_a_sink(v: InnerView, length: Double)
    ensures
        v.loaded(length).sink,
        v.loaded(length).duration == length,
        v.loaded(length).state == v.state,
        v.loaded(length).stream == v.stream,
        v.loaded(length).current_src == v.current_src,
        same_record(v, v.loaded(length)),
{
}

/// What is left after everything was disposed of: the stream and the record of
/// checkpoints as they were, and of the rest a new player: nothing loaded, at
/// zero, at normal speed, without number, error, pending seek or wish to play.
pub proof fn law_dispose_leaves_a_new_player(v: InnerView)
    ensures
        v.disposed().stream == v.stream,
        same_record(v, v.disposed()),
        !v.disposed().sink,
        v.disposed().current_src is None,
        v.disposed().duration.units() == 0,
        v.disposed().state == fresh_inner().state,
        v.disposed().state.rate.units() == whole(1),
        v.disposed().state.stable_time.units() == 0,
        v.disposed().state.current_id is None,
        v.disposed().state.pending_seek is None,
        v.disposed().state.last_error is None,
        !v.disposed().state.did_reach_end,
        !v.disposed().state.desired_playing,
        !fresh_inner().stream,
        !fresh_inner().sink,
        fresh_inner().current_src is None,
        fresh_inner().last_persist_id is None,
        fresh_inner().last_persist_ms == 0,
        fresh_inner().duration.units() == 0,
{
    lemma_units_zero();
    lemma_one();
}

/// The normal speed is exactly 1.
proof fn lemma_one()
    ensures
        (Double { bits: ONE_BITS }).units() == whole(1),
{
    lemma2_to64();
    lemma2_to64_rest();
    lemma_pow2_adds(1022, 52);
    let a = pow2(1022);
    assert(0x10_0000_0000_0000 * a == 1 * (a * 0x10_0000_0000_0000)) by (nonlinear_arith);
    assert(units_of(ONE_BITS as nat) == 0x10_0000_0000_0000 * a);
}

/// The views show the fields as they are.
pub proof fn law_views_show_the_fields(p: DesktopInner, s: NativeAudioState)
    ensures
        p@.stream == p.stream,
        p@.sink == p.sink,
        p@.duration == p.duration,
        p@.last_persist_ms == p.last_persist_ms,
        p@.last_persist_time == p.last_persist_time,
        p@.last_persist_id == p.last_persist_id,
        p@.state.rate == p.state.rate,
        p@.state.did_reach_end == p.state.did_reach_end,
        p@.state.current_id == p.state.current_id,
        p@.state.pending_seek == p.state.pending_seek,
        p@.state.stable_time == p.state.stable_time,
        p@.state.desired_playing == p.state.desired_playing,
        p.state.last_error matches Some(e) ==> p@.state.last_error == Some(e@),
        p.state.last_error is None ==> p@.state.last_error is None,
        p.current_src matches Some(src) ==> p@.current_src == Some(src@),
        p.current_src is None ==> p@.current_src is None,
        s@.status == s.status,
        s@.current_time == s.current_time,
        s@.duration == s.duration,
        s@.is_playing == s.is_playing,
        s@.buffering == s.buffering,
        s@.rate == s.rate,
        s.error matches Some(e) ==> s@.error == Some(e@),
        s.error is None ==> s@.error is None,
{
}

} // verus!
