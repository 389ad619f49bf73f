use native_audio::clock::{elapsed_ms, now_ms};
use native_audio::commands::{
    build_sink, checkpointed_state, clear_progress_checkpoint, dispose, drained, get_state, initialize,
    keep_polling, pause, play, require_device, seek_done, seek_to, set_rate, set_source, source_failed,
    source_ready, tick, InvalidRate, PlayPlan, SinkPlan,
};
use native_audio::double::Double;
use native_audio::models::{NativeAudioState, Persist, SinkStatus, Status};
use native_audio::player::DesktopInner;
use native_audio::single::Single;
use std::time::{Duration, UNIX_EPOCH};

const WEEK: f64 = 604800.0;
const RUNNING: SinkStatus = SinkStatus { paused: false, empty: false };
const PAUSED: SinkStatus = SinkStatus { paused: true, empty: false };
const DRY: SinkStatus = SinkStatus { paused: false, empty: true };

fn d(x: f64) -> Double {
    Double { bits: x.to_bits() }
}

fn f(x: Double) -> f64 {
    f64::from_bits(x.bits)
}

fn s(x: f32) -> Single {
    Single { bits: x.to_bits() }
}

fn loaded(duration: f64) -> DesktopInner {
    let mut p = DesktopInner::new();
    p.ensure_stream(true);
    assert!(set_source(&mut p, "/a.mp3", Some(7)).is_ok());
    source_ready(&mut p, d(duration), PAUSED);
    p
}

fn at(state: &NativeAudioState) -> f64 {
    f(state.current_time)
}

#[test]
fn a_new_player_is_idle() {
    let p = DesktopInner::new();
    let st = get_state(&p, RUNNING);
    assert_eq!(st.status, Status::Idle);
    assert_eq!(at(&st), 0.0);
    assert_eq!(f(st.duration), 0.0);
    assert_eq!(f(st.rate), 1.0);
    assert!(!st.is_playing && !st.buffering && st.error.is_none());
}

#[test]
fn status_words() {
    assert_eq!(Status::Error.as_str(), "error");
    assert_eq!(Status::Ended.as_str(), "ended");
    assert_eq!(Status::Playing.as_str(), "playing");
    assert_eq!(Status::Loading.as_str(), "loading");
    assert_eq!(Status::Idle.as_str(), "idle");
}

#[test]
fn initialize_reports_the_device() {
    let mut p = DesktopInner::new();
    p.ensure_stream(false);
    let st = initialize(&mut p, RUNNING);
    assert_eq!(st.status, Status::Error);
    assert_eq!(st.error.as_deref(), Some("no audio device"));
    assert_eq!(require_device(&p), Err("no audio device".to_string()));
    p.ensure_stream(true);
    let st = initialize(&mut p, RUNNING);
    assert_eq!(st.status, Status::Idle);
    assert!(st.error.is_none());
    assert_eq!(require_device(&p), Ok(()));
    p.ensure_stream(false);
    assert!(p.stream);
}

#[test]
fn a_blank_source_changes_nothing() {
    let mut p = loaded(10.0);
    assert!(play(&mut p).is_ok());
    match set_source(&mut p, "  ", Some(1)) {
        Err(e) => assert_eq!(e, "src is required"),
        Ok(_) => panic!("accepted"),
    }
    assert!(p.sink && p.state.desired_playing);
    assert_eq!(p.state.current_id, Some(7));
}

#[test]
fn a_new_source_starts_over() {
    let mut p = loaded(10.0);
    assert!(set_rate(&mut p, d(1.5), PAUSED).is_ok());
    assert!(play(&mut p).is_ok());
    tick(&mut p, false, RUNNING);
    let accepted = set_source(&mut p, " b.mp3 ", Some(-3)).unwrap_or_else(|e| panic!("{e}"));
    assert!(accepted.stop_previous);
    assert_eq!(accepted.state.status, Status::Idle);
    assert_eq!(at(&accepted.state), 0.0);
    assert_eq!(f(accepted.state.duration), 0.0);
    assert_eq!(f(accepted.state.rate), 1.5);
    assert_eq!(p.current_src.as_deref(), Some(" b.mp3 "));
    assert_eq!(p.state.current_id, None);
    assert!(!p.state.desired_playing && !p.sink);
    let again = set_source(&mut p, "c", None).unwrap_or_else(|e| panic!("{e}"));
    assert!(!again.stop_previous);
}

#[test]
fn a_failed_source_is_an_error() {
    let mut p = loaded(10.0);
    let st = source_failed(&mut p, "file not found: x", RUNNING);
    assert_eq!(st.status, Status::Error);
    assert_eq!(st.error.as_deref(), Some("file not found: x"));
    assert!(!st.is_playing);
}

#[test]
fn a_sink_is_set_up() {
    assert_eq!(build_sink(Some(d(12.5)), d(1.0)), Ok(SinkPlan { duration: d(12.5), speed: s(1.0) }));
    assert_eq!(build_sink(None, d(0.1)), Ok(SinkPlan { duration: d(0.0), speed: s(0.1) }));
    assert_eq!(build_sink(Some(d(f64::NAN)), d(16.0)), Ok(SinkPlan { duration: d(0.0), speed: s(16.0) }));
    assert_eq!(build_sink(Some(d(1.0e9)), d(2.0)), Ok(SinkPlan { duration: d(WEEK), speed: s(2.0) }));
    // Rounded to binary32, this is 16 again.
    assert_eq!(build_sink(None, d(16.0000001)), Ok(SinkPlan { duration: d(0.0), speed: s(16.0) }));
    assert_eq!(build_sink(None, d(16.1)), Err(InvalidRate { rate: s(16.1) }));
    assert_eq!(build_sink(None, d(1.0e300)), Err(InvalidRate { rate: s(f32::INFINITY) }));
    assert_eq!(build_sink(None, d(1.0e-300)), Err(InvalidRate { rate: s(0.0) }));
}

#[test]
fn playing_needs_a_source() {
    let mut p = DesktopInner::new();
    assert_eq!(play(&mut p), Err("no source set".to_string()));
    assert!(!p.state.desired_playing);
    assert_eq!(seek_to(&p, d(1.0)), Err("no source set".to_string()));
    let mut q = loaded(10.0);
    assert!(dispose(&mut q));
    assert_eq!(play(&mut q), Err("no source set".to_string()));
}

#[test]
fn playing_clears_the_error() {
    let mut p = loaded(10.0);
    source_failed(&mut p, "x", PAUSED);
    assert_eq!(play(&mut p), Ok(PlayPlan { rewind: false, seek: None }));
    let st = get_state(&p, RUNNING);
    assert_eq!(st.status, Status::Playing);
    assert!(st.is_playing && st.error.is_none());
    assert_eq!(get_state(&p, PAUSED).status, Status::Idle);
    assert_eq!(get_state(&p, DRY).status, Status::Idle);
}

#[test]
fn a_track_is_played_to_its_end() {
    let mut p = loaded(1.0);
    assert!(play(&mut p).is_ok());
    let mut expected = 0.0f64;
    for _ in 0..4 {
        expected += 0.2;
        let report = tick(&mut p, false, RUNNING);
        assert_eq!(at(&report.state), expected);
        assert_eq!(report.state.status, Status::Playing);
        assert_eq!(report.persist, Persist::WhenDue);
        assert!(keep_polling(&p, false));
        assert!(!keep_polling(&p, true));
    }
    let report = tick(&mut p, false, RUNNING);
    assert_eq!(at(&report.state), 1.0);
    assert_eq!(report.state.status, Status::Ended);
    assert!(!report.state.is_playing);
    assert_eq!(report.persist, Persist::Always);
    assert!(!keep_polling(&p, false));
    assert!(drained(&mut p, DRY).is_none());
    // Another poll changes nothing.
    assert_eq!(at(&tick(&mut p, false, RUNNING).state), 1.0);
    // Playing again starts over.
    assert_eq!(play(&mut p), Ok(PlayPlan { rewind: true, seek: None }));
    assert_eq!(at(&get_state(&p, RUNNING)), 0.0);
    assert_eq!(get_state(&p, RUNNING).status, Status::Playing);
}

#[test]
fn a_track_of_unknown_length_ends_when_the_sink_runs_dry() {
    let mut p = loaded(0.0);
    assert!(play(&mut p).is_ok());
    for _ in 0..100 {
        tick(&mut p, false, RUNNING);
    }
    let before = at(&get_state(&p, RUNNING));
    assert!(before > 19.9 && before < 20.1);
    assert_eq!(at(&tick(&mut p, true, DRY).state), before);
    let report = match drained(&mut p, DRY) {
        Some(r) => r,
        None => panic!("not ended"),
    };
    assert_eq!(report.state.status, Status::Ended);
    assert_eq!(report.persist, Persist::Always);
    assert_eq!(at(&report.state), before);
    assert!(!p.state.desired_playing);
}

#[test]
fn a_paused_player_stands_still() {
    let mut p = loaded(10.0);
    assert!(play(&mut p).is_ok());
    tick(&mut p, false, RUNNING);
    let report = pause(&mut p, PAUSED);
    assert_eq!(report.state.status, Status::Idle);
    assert_eq!(report.persist, Persist::Always);
    assert_eq!(at(&report.state), 0.2);
    assert_eq!(at(&tick(&mut p, false, PAUSED).state), 0.2);
    assert!(!keep_polling(&p, false));
    assert!(drained(&mut p, DRY).is_none());
    assert_eq!(play(&mut p), Ok(PlayPlan { rewind: false, seek: None }));
    assert_eq!(at(&get_state(&p, RUNNING)), 0.2);
}

#[test]
fn seek_targets_are_clamped() {
    let p = loaded(10.0);
    assert_eq!(seek_to(&p, d(3.25)), Ok(d(3.25)));
    assert_eq!(seek_to(&p, d(-2.0)), Ok(d(0.0)));
    assert_eq!(seek_to(&p, d(1.0e10)), Ok(d(WEEK)));
    for x in [f64::NAN, f64::INFINITY, f64::NEG_INFINITY] {
        assert_eq!(seek_to(&p, d(x)), Err("position is required".to_string()));
    }
    let empty = DesktopInner::new();
    assert_eq!(seek_to(&empty, d(f64::NAN)), Err("position is required".to_string()));
}

#[test]
fn a_seek_is_seen_at_once() {
    let mut p = loaded(10.0);
    assert!(seek_done(&mut p, d(4.0), true));
    let report = checkpointed_state(&p, PAUSED);
    assert_eq!(at(&report.state), 4.0);
    assert_eq!(report.persist, Persist::Always);
    assert!(play(&mut p).is_ok());
    assert!(!seek_done(&mut p, d(5.0), true));
    assert_eq!(at(&get_state(&p, RUNNING)), 5.0);
    assert_eq!(p.state.pending_seek, None);
}

#[test]
fn a_refused_seek_is_made_up_for() {
    let mut p = loaded(100.0);
    assert!(seek_done(&mut p, d(42.0), false));
    assert_eq!(p.state.pending_seek, Some(d(42.0)));
    assert_eq!(at(&get_state(&p, PAUSED)), 42.0);
    assert_eq!(play(&mut p), Ok(PlayPlan { rewind: false, seek: Some(d(42.0)) }));
    assert_eq!(p.state.pending_seek, None);
    assert_eq!(at(&get_state(&p, RUNNING)), 42.0);
    // A pending seek hides the counted position.
    assert!(!seek_done(&mut p, d(50.0), false));
    assert_eq!(at(&tick(&mut p, false, RUNNING).state), 50.0);
    assert_eq!(f(p.state.stable_time), 50.2);
    // A pause gives the seek up.
    assert_eq!(at(&pause(&mut p, PAUSED).state), 50.2);
    assert_eq!(p.state.pending_seek, None);
}

#[test]
fn a_seek_revives_an_ended_track() {
    let mut p = loaded(0.2);
    assert!(play(&mut p).is_ok());
    assert_eq!(tick(&mut p, false, RUNNING).state.status, Status::Ended);
    assert!(seek_done(&mut p, d(0.1), true));
    assert_eq!(get_state(&p, PAUSED).status, Status::Idle);
    assert_eq!(play(&mut p), Ok(PlayPlan { rewind: false, seek: None }));
    assert_eq!(at(&get_state(&p, RUNNING)), 0.1);
}

#[test]
fn rates_are_checked() {
    let mut p = loaded(10.0);
    for x in [0.0, -0.0, -1.0, f64::NAN, f64::INFINITY, f64::NEG_INFINITY] {
        match set_rate(&mut p, d(x), PAUSED) {
            Err(e) => assert_eq!(e, "rate must be > 0"),
            Ok(_) => panic!("accepted"),
        }
        assert_eq!(f(p.state.rate), 1.0);
    }
    let accepted = set_rate(&mut p, d(0.1), PAUSED).unwrap_or_else(|e| panic!("{e}"));
    assert_eq!(f(accepted.state.rate), 0.1);
    assert_eq!(accepted.speed, s(0.1));
}

#[test]
fn dispose_forgets_the_track() {
    let mut p = loaded(10.0);
    assert!(set_rate(&mut p, d(2.0), PAUSED).is_ok());
    assert!(seek_done(&mut p, d(4.0), true));
    assert!(dispose(&mut p));
    let st = get_state(&p, RUNNING);
    assert_eq!(st.status, Status::Idle);
    assert_eq!(at(&st), 0.0);
    assert_eq!(f(st.duration), 0.0);
    assert_eq!(f(st.rate), 1.0);
    assert!(p.current_src.is_none() && p.state.current_id.is_none() && !p.sink && p.stream);
    assert!(!dispose(&mut p));
}

#[test]
fn checkpoints_are_throttled() {
    let mut p = loaded(100.0);
    assert!(seek_done(&mut p, d(10.0), true));
    let st = get_state(&p, PAUSED);
    let c = match p.write_checkpoint(&st, 5000, false) {
        Some(c) => c,
        None => panic!("held back"),
    };
    assert_eq!((c.id, f(c.current_time), c.updated_at_ms, c.status), (7, 10.0, 5000, Some(Status::Idle)));
    p.checkpoint_written(&c, 5000);
    // The same position: not without force.
    assert!(p.write_checkpoint(&st, 60000, false).is_none());
    assert!(p.write_checkpoint(&st, 5000, true).is_some());
    // Another position: after a second.
    assert!(seek_done(&mut p, d(11.0), true));
    let st = get_state(&p, PAUSED);
    assert!(p.write_checkpoint(&st, 5999, false).is_none());
    assert!(p.write_checkpoint(&st, 6000, false).is_some());
    // A nearly equal position.
    assert!(seek_done(&mut p, d(10.05), true));
    let st = get_state(&p, PAUSED);
    assert_eq!(p.write_checkpoint(&st, 9000, false).is_none(), (10.0f64 - 10.05).abs() <= 0.05);
    // Another track.
    assert!(set_source(&mut p, "b", Some(8)).is_ok());
    source_ready(&mut p, d(100.0), PAUSED);
    assert!(seek_done(&mut p, d(10.0), true));
    let st = get_state(&p, PAUSED);
    assert!(p.write_checkpoint(&st, 5500, false).is_none());
    assert!(p.write_checkpoint(&st, 6000, false).is_some());
    // Clearing lifts the throttle.
    clear_progress_checkpoint(&mut p);
    assert!(p.write_checkpoint(&st, 5500, false).is_some());
    assert!(p.write_checkpoint(&st, 999, false).is_none());
    assert!(f(p.last_persist_time).is_nan());
}

#[test]
fn some_progress_is_not_worth_keeping() {
    let mut p = loaded(100.0);
    assert!(seek_done(&mut p, d(0.25), true));
    assert!(p.write_checkpoint(&get_state(&p, PAUSED), 5000, true).is_none());
    assert!(seek_done(&mut p, d(0.26), true));
    assert!(p.write_checkpoint(&get_state(&p, PAUSED), 5000, true).is_some());
    assert!(set_source(&mut p, "b", None).is_ok());
    source_ready(&mut p, d(100.0), PAUSED);
    assert!(seek_done(&mut p, d(10.0), true));
    assert!(p.write_checkpoint(&get_state(&p, PAUSED), 5000, true).is_none());
}

#[test]
fn the_clock_is_past_1970() {
    let a = now_ms().unwrap_or(0);
    let b = now_ms().unwrap_or(0);
    assert!(a > 1_500_000_000_000);
    assert!(b >= a && b - a < 60_000);
}

#[test]
fn elapsed_time_in_milliseconds() {
    assert_eq!(elapsed_ms(Ok((0, 0))), Some(0));
    assert_eq!(elapsed_ms(Ok((0, 999_999))), Some(0));
    assert_eq!(elapsed_ms(Ok((1, 1_000_000))), Some(1001));
    assert_eq!(elapsed_ms(Ok((1_700_000_000, 123_456_789))), Some(1_700_000_000_123));
    assert_eq!(
        elapsed_ms(Ok((u64::MAX, 999_999_999))),
        Some(Duration::new(u64::MAX, 999_999_999).as_millis())
    );
    let before = UNIX_EPOCH.duration_since(UNIX_EPOCH + Duration::from_secs(1));
    assert_eq!(elapsed_ms(before.map(|d| (d.as_secs(), d.subsec_nanos()))), None);
}
