//! Sliding-window analytics tests: window correctness, idempotence, decay
//! to zero, breakdowns, and the end-to-end scenario.

use abyss_watcher::model::CombatEvent;
use abyss_watcher::model::Direction;
use abyss_watcher::model::EventKind;
use abyss_watcher::model::Sample;
use abyss_watcher::parser::LineParser;
use abyss_watcher::state::EngineState;

fn make_event(secs: u64, amount_milli: u64, direction: Direction, character: &str) -> CombatEvent {
    CombatEvent {
        timestamp_ms: secs * 1000,
        source: if direction == Direction::Outgoing {
            character.to_string()
        } else {
            "Enemy".to_string()
        },
        target: if direction == Direction::Outgoing {
            "Enemy".to_string()
        } else {
            character.to_string()
        },
        action_name: "Test".to_string(),
        amount_milli,
        direction,
        kind: EventKind::Damage,
        character: character.to_string(),
    }
}

fn sample_at(samples: &[Sample], time_ms: u64) -> &Sample {
    samples
        .iter()
        .find(|s| s.time_ms == time_ms)
        .expect("grid point present")
}

#[test]
fn burst_rate_inside_window_and_zero_after() {
    // Ten outgoing hits of 200 units, one per second from t=1s to t=10s.
    let mut state = EngineState::new();
    for t in 1..=10u64 {
        state.push_event(make_event(t, 200_000, Direction::Outgoing, "Pilot"));
    }
    let samples = state.dps_series(5_000, 20_000);

    // At t=10s the closed window [5s, 10s] holds six events: the rate is
    // 6 * 200 / 5 = 240 units/s.
    let s10 = sample_at(&samples, 10_000);
    assert_eq!(s10.outgoing_dps, 240_000);
    assert_eq!(s10.outgoing_by_weapon, vec![("Test".to_string(), 240_000u64)]);

    // More than a window past the last event the rate is exactly zero and
    // the breakdown key is gone.
    let s20 = sample_at(&samples, 20_000);
    assert_eq!(s20.outgoing_dps, 0);
    assert!(s20.outgoing_by_weapon.is_empty());
    assert!(s20.combat_actions.is_empty());
}

#[test]
fn sample_series_unchanged_input_is_bit_identical() {
    let mut state = EngineState::new();
    state.push_event(make_event(3, 100_000, Direction::Outgoing, "Pilot"));
    state.push_event(make_event(1, 50_000, Direction::Incoming, "Pilot"));
    state.push_event(make_event(2, 70_000, Direction::Outgoing, "Other"));

    let first = state.dps_series(5_000, 10_000);
    let second = state.dps_series(5_000, 10_000);
    assert_eq!(first, second);
}

#[test]
fn engine_state_sorts_events_before_analysis() {
    let mut state = EngineState::new();
    state.push_event(make_event(10, 100_000, Direction::Outgoing, "A"));
    state.push_event(make_event(5, 100_000, Direction::Outgoing, "A"));

    let _ = state.dps_series(1_000, 10_000);
    let events = state.events();
    assert_eq!(events[0].timestamp_ms, 5_000);
    assert_eq!(events[1].timestamp_ms, 10_000);
}

#[test]
fn total_damage_sums_outgoing_only() {
    let mut state = EngineState::new();
    state.push_event(make_event(1, 100_000, Direction::Outgoing, "A"));
    state.push_event(make_event(2, 100_000, Direction::Incoming, "A"));

    assert_eq!(state.total_damage(), 100_000);
}

#[test]
fn keeps_slot_for_max_timestamp_even_if_unsorted() {
    let mut state = EngineState::new();
    state.push_event(make_event(3, 100_000, Direction::Outgoing, "Pilot"));
    state.push_event(make_event(1, 50_000, Direction::Outgoing, "Pilot"));

    let samples = state.dps_series(1_000, 3_000);

    assert_eq!(samples.len(), 4);
    assert!(sample_at(&samples, 3_000).outgoing_dps > 0);
    assert!(sample_at(&samples, 1_000).outgoing_dps > 0);
}

#[test]
fn retention_caps_grid_to_sixty_points() {
    let mut state = EngineState::new();
    state.push_event(make_event(1, 100_000, Direction::Outgoing, "Pilot"));
    let samples = state.dps_series(5_000, 200_000);
    assert_eq!(samples.len(), 60);
    assert_eq!(samples[0].time_ms, 141_000);
    assert_eq!(samples[59].time_ms, 200_000);
}

#[test]
fn empty_store_yields_empty_series() {
    let mut state = EngineState::new();
    let samples = state.dps_series(5_000, 100_000);
    assert!(samples.is_empty());
}

#[test]
fn zero_window_is_clamped_not_divided_by() {
    let mut state = EngineState::new();
    state.push_event(make_event(1, 100_000, Direction::Outgoing, "Pilot"));
    let samples = state.dps_series(0, 1_000);
    // Clamped to a one-millisecond window: the sample exists and the rate
    // is finite.
    let s1 = sample_at(&samples, 1_000);
    assert_eq!(s1.window_ms, 1);
    assert_eq!(s1.outgoing_dps, 100_000_000);
}

#[test]
fn direction_keeps_same_action_apart() {
    // An incoming and an outgoing event under the same action name: the
    // unified breakdown tracks them under different keys.
    let mut state = EngineState::new();
    state.push_event(make_event(1, 100_000, Direction::Outgoing, "Pilot"));
    state.push_event(make_event(1, 40_000, Direction::Incoming, "Pilot"));
    let samples = state.dps_series(5_000, 1_000);
    let s1 = sample_at(&samples, 1_000);
    assert_eq!(s1.combat_actions.len(), 2);
    let out_row = s1
        .combat_actions
        .iter()
        .find(|a| a.direction == Direction::Outgoing)
        .unwrap();
    let in_row = s1
        .combat_actions
        .iter()
        .find(|a| a.direction == Direction::Incoming)
        .unwrap();
    assert_eq!(out_row.rate, 20_000);
    assert_eq!(in_row.rate, 8_000);
}

#[test]
fn per_character_breakdowns_are_kept_apart() {
    let mut state = EngineState::new();
    state.push_event(make_event(1, 100_000, Direction::Outgoing, "PilotA"));
    state.push_event(make_event(1, 50_000, Direction::Outgoing, "PilotB"));
    let samples = state.dps_series(5_000, 1_000);
    let s1 = sample_at(&samples, 1_000);
    let mut by_char = s1.outgoing_by_character.clone();
    by_char.sort();
    assert_eq!(
        by_char,
        vec![
            ("PilotA".to_string(), 20_000u64),
            ("PilotB".to_string(), 10_000u64)
        ]
    );
}

#[test]
fn end_to_end_window_shows_only_recent_event() {
    // A header, one outgoing hit a minute later, one incoming hit two
    // minutes later; a five-second window evaluated at the incoming
    // event's time must show 10 units/s incoming and nothing outgoing.
    let mut parser = LineParser::new();
    let mut state = EngineState::new();
    let lines = [
        "Session Started: 2025.01.01 12:00:00",
        "[ 2025.01.01 12:01:00 ] (combat) 100 to Enemy - Gun",
        "[ 2025.01.01 12:02:00 ] (combat) 50 from Enemy - Gun",
    ];
    for line in lines {
        if let Some(ev) = parser.parse_line(line, "You") {
            state.push_event(ev);
        }
    }
    let samples = state.dps_series(5_000, 120_000);
    let s = sample_at(&samples, 120_000);
    assert_eq!(s.incoming_dps, 10_000, "50 units over a 5 second window");
    assert_eq!(s.outgoing_dps, 0, "the first event fell out of the window");
    assert!(s.outgoing_by_weapon.is_empty());
    assert_eq!(s.incoming_by_source, vec![("Enemy".to_string(), 10_000u64)]);
}
