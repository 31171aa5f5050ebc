//! Replay tests: chronological k-way merge, controller state machine, and
//! determinism across playback speeds.

use abyss_watcher::replay::MergedStream;
use abyss_watcher::replay::PlaybackState;
use abyss_watcher::replay::ReplayController;
use abyss_watcher::state::EngineState;

fn source(character: &str, lines: &[&str]) -> (String, Vec<String>) {
    (
        character.to_string(),
        lines.iter().map(|l| l.to_string()).collect(),
    )
}

fn fixture_sources() -> Vec<(String, Vec<String>)> {
    vec![
        source(
            "CharA",
            &[
                "Session Started: 2024.01.01 12:00:00",
                "[ 2024.01.01 12:00:00 ] (combat) 10 to Alpha - Gun",
                "[ 2024.01.01 12:00:10 ] (combat) 30 to Alpha - Gun",
            ],
        ),
        source(
            "CharB",
            &[
                "Session Started: 2024.01.01 12:00:00",
                "[ 2024.01.01 12:00:05 ] (combat) 20 to Beta - Gun",
            ],
        ),
    ]
}

#[test]
fn test_merged_stream_chronological() {
    let mut stream = MergedStream::new(fixture_sources());

    let (e1, _line1) = stream.next_event().unwrap();
    assert_eq!(e1.character, "CharA");
    assert_eq!(e1.timestamp_ms, 0);

    let (e2, _line2) = stream.next_event().unwrap();
    assert_eq!(e2.character, "CharB");
    assert_eq!(e2.timestamp_ms, 5_000);

    let (e3, _line3) = stream.next_event().unwrap();
    assert_eq!(e3.character, "CharA");
    assert_eq!(e3.timestamp_ms, 10_000);

    assert!(stream.next_event().is_none());
    assert!(stream.peek_time().is_none());
}

#[test]
fn merge_breaks_ties_by_source_order() {
    let mut stream = MergedStream::new(vec![
        source(
            "First",
            &[
                "Session Started: 2024.01.01 12:00:00",
                "[ 2024.01.01 12:00:01 ] (combat) 10 to X - Gun",
            ],
        ),
        source(
            "Second",
            &[
                "Session Started: 2024.01.01 12:00:00",
                "[ 2024.01.01 12:00:01 ] (combat) 20 to Y - Gun",
            ],
        ),
    ]);
    let (e1, _) = stream.next_event().unwrap();
    assert_eq!(e1.character, "First");
    let (e2, _) = stream.next_event().unwrap();
    assert_eq!(e2.character, "Second");
}

#[test]
fn controller_construction_needs_an_anchor() {
    // No header and no event line: no anchor, no controller.
    let none = ReplayController::new(
        vec![source("CharA", &["just chatter", "more chatter"])],
        0,
    );
    assert!(none.is_none());

    let some = ReplayController::new(fixture_sources(), 0);
    assert!(some.is_some());
}

#[test]
fn controller_session_metadata() {
    let ctrl = ReplayController::new(fixture_sources(), 0).unwrap();
    assert_eq!(ctrl.get_state(), PlaybackState::Paused);
    assert_eq!(ctrl.current_sim_time(), 0);
    assert_eq!(ctrl.session_duration(), 10_000);
    // Epoch of 2024-01-01 12:00:00 plus the zero offset of the first event.
    assert_eq!(ctrl.start_time(), 1_704_110_400_000);
}

#[test]
fn paused_tick_releases_nothing() {
    let mut ctrl = ReplayController::new(fixture_sources(), 0).unwrap();
    let (events, lines) = ctrl.tick(5_000);
    assert!(events.is_empty());
    assert!(lines.is_empty());
}

#[test]
fn playing_tick_releases_crossed_events_with_raw_lines() {
    let mut ctrl = ReplayController::new(fixture_sources(), 0).unwrap();
    ctrl.set_state(PlaybackState::Playing, 1_000);
    // Six wall seconds at real speed: the virtual clock reaches 6s.
    let (events, lines) = ctrl.tick(7_000);
    assert_eq!(events.len(), 2);
    assert_eq!(events[0].timestamp_ms, 0);
    assert_eq!(events[1].timestamp_ms, 5_000);
    assert_eq!(lines.len(), 2);
    assert!(lines[1].contains("(combat) 20 to Beta"));
    // The rest arrives once the clock passes it.
    let (more, _) = ctrl.tick(12_000);
    assert_eq!(more.len(), 1);
    assert_eq!(more[0].timestamp_ms, 10_000);
}

#[test]
fn step_advances_without_wall_clock() {
    let mut ctrl = ReplayController::new(fixture_sources(), 0).unwrap();
    ctrl.set_state(PlaybackState::Playing, 0);
    ctrl.step(5_500, 0);
    assert_eq!(ctrl.current_sim_time(), 5_500);
    let (events, _) = ctrl.tick(0);
    assert_eq!(events.len(), 2);
}

#[test]
fn seek_rebuilds_the_stream() {
    let mut ctrl = ReplayController::new(fixture_sources(), 0).unwrap();
    ctrl.set_state(PlaybackState::Playing, 0);
    let _ = ctrl.tick(20_000);
    // Everything was consumed; a seek rewinds to the start plus offset.
    ctrl.seek(4_000, 20_000);
    assert_eq!(ctrl.current_sim_time(), 4_000);
    let (events, _) = ctrl.tick(20_000);
    assert_eq!(events.len(), 1, "only the first event lies before 4s");
    assert_eq!(events[0].timestamp_ms, 0);
}

fn run_replay(speed_milli: u64) -> (usize, Vec<abyss_watcher::model::Sample>) {
    let mut ctrl = ReplayController::new(fixture_sources(), 0).unwrap();
    ctrl.set_state(PlaybackState::Playing, 0);
    ctrl.set_speed(speed_milli);
    let mut store = EngineState::new();
    let mut count = 0usize;
    let mut now: u64 = 0;
    // Drive wall-clock ticks until well past the session end at any speed.
    for _ in 0..200 {
        now += 250;
        let (events, _lines) = ctrl.tick(now);
        for e in events {
            count += 1;
            store.push_event(e);
        }
    }
    let samples = store.dps_series(5_000, 10_000);
    (count, samples)
}

#[test]
fn replay_is_deterministic_across_speeds() {
    let (count_slow, samples_slow) = run_replay(1_000);
    let (count_fast, samples_fast) = run_replay(10_000);
    assert_eq!(count_slow, 3);
    assert_eq!(count_fast, 3);
    assert_eq!(samples_slow, samples_fast);
}
