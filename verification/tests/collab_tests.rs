//! Tests for the collaborator-facing pieces: alert rules and engine,
//! bookmarks and runs, Local-chat run detection and log discovery.

use abyss_watcher::alerts::evaluate_trigger;
use abyss_watcher::alerts::AlertEngine;
use abyss_watcher::alerts::AlertEngineConfig;
use abyss_watcher::alerts::AlertRuleId;
use abyss_watcher::alerts::AlertSound;
use abyss_watcher::bookmark_store::BookmarkStore;
use abyss_watcher::bookmarks::BookmarkType;
use abyss_watcher::bookmarks::CharacterBookmarks;
use abyss_watcher::bookmarks::RoomMarkerState;
use abyss_watcher::bookmarks::Run;
use abyss_watcher::chatlog::detect_abyss_runs;
use abyss_watcher::chatlog::LocationChange;
use abyss_watcher::discovery::derive_chatlog_dir;
use abyss_watcher::discovery::extract_character_id_from_filename;
use abyss_watcher::model::CombatEvent;
use abyss_watcher::model::Direction;
use abyss_watcher::model::EventKind;
use abyss_watcher::model::NotifyEvent;
use abyss_watcher::datetime::parse_timestamp;
use abyss_watcher::inline_bookmarks::format_bookmark_line;
use abyss_watcher::inline_bookmarks::BookmarkType as InlineType;
use abyss_watcher::text::str_chars;

#[test]
fn test_all_rules_have_names() {
    for rule in AlertRuleId::all() {
        assert!(!rule.display_name().is_empty());
        assert!(!rule.description().is_empty());
    }
}

#[test]
fn test_sound_filenames() {
    assert_eq!(
        AlertSound::Default.filename(AlertRuleId::EnvironmentalDamage),
        Some("boundary")
    );
    assert_eq!(
        AlertSound::Default.filename(AlertRuleId::LogiNeuted),
        Some("logi_neuted")
    );
    assert_eq!(AlertSound::Silent.filename(AlertRuleId::FriendlyFire), None);
}

#[test]
fn test_run_lifecycle() {
    let mut run = Run::new(
        1,
        "TestChar".to_string(),
        12345,
        "game.txt".to_string(),
        Some("chat.txt".to_string()),
        100_000,
        Some("Jita".to_string()),
    );

    assert!(run.is_in_progress());
    assert_eq!(run.duration(), None);

    let id = run.add_bookmark(
        BookmarkType::Highlight,
        150_000,
        Some("Important!".to_string()),
    );
    assert_eq!(id, 1);

    let (state, id) = run.toggle_room_marker(200_000);
    assert_eq!(state, RoomMarkerState::InRoom);
    assert!(id.is_some());

    run.end(300_000);
    assert!(!run.is_in_progress());
    assert_eq!(run.duration(), Some(200_000));
    assert_eq!(run.room_marker_state, RoomMarkerState::Idle);

    assert_eq!(run.bookmarks.len(), 3);
}

#[test]
fn test_room_marker_toggle() {
    let mut run = Run::new(
        1,
        "TestChar".to_string(),
        12345,
        "game.txt".to_string(),
        None,
        100_000,
        None,
    );

    let (state, _) = run.toggle_room_marker(150_000);
    assert_eq!(state, RoomMarkerState::InRoom);

    let (state, _) = run.toggle_room_marker(200_000);
    assert_eq!(state, RoomMarkerState::Idle);

    assert_eq!(run.bookmarks.len(), 2);
    assert_eq!(run.bookmarks[0].bookmark_type, BookmarkType::RoomStart);
    assert_eq!(run.bookmarks[1].bookmark_type, BookmarkType::RoomEnd);
}

#[test]
fn test_character_bookmarks() {
    let mut cb = CharacterBookmarks::new(12345, "TestChar".to_string());

    let run_id = cb.start_run(
        "game.txt".to_string(),
        None,
        100_000,
        Some("Jita".to_string()),
    );
    assert_eq!(run_id, 1);

    assert!(cb.active_run().is_some());

    cb.active_run_mut()
        .unwrap()
        .add_bookmark(BookmarkType::Highlight, 150_000, None);

    cb.run_mut(run_id).unwrap().end(300_000);
    assert!(cb.active_run().is_none());

    let run_id2 = cb.start_run("game2.txt".to_string(), None, 400_000, None);
    assert_eq!(run_id2, 2);
    assert!(cb.active_run().is_some());
}

fn change(secs: u64, location: &str) -> LocationChange {
    LocationChange {
        timestamp_ms: secs * 1000,
        location: location.to_string(),
    }
}

#[test]
fn test_detect_abyss_runs() {
    let changes = vec![
        change(100, "Torrinos"),
        change(200, "Unknown"),
        change(800, "Torrinos"),
        change(900, "Unknown"),
        change(1500, "Torrinos"),
    ];

    let runs = detect_abyss_runs(&changes);
    assert_eq!(runs.len(), 2);

    assert_eq!(runs[0].entry_time_ms, 200_000);
    assert_eq!(runs[0].exit_time_ms, Some(800_000));
    assert_eq!(runs[0].origin_location, Some("Torrinos".to_string()));

    assert_eq!(runs[1].entry_time_ms, 900_000);
    assert_eq!(runs[1].exit_time_ms, Some(1_500_000));
}

#[test]
fn test_detect_unclosed_run() {
    let changes = vec![change(100, "Jita"), change(200, "Unknown")];

    let runs = detect_abyss_runs(&changes);
    assert_eq!(runs.len(), 1);
    assert!(runs[0].exit_time_ms.is_none());
    assert_eq!(runs[0].origin_location, Some("Jita".to_string()));
}

#[test]
fn test_extract_character_id_from_filename() {
    assert_eq!(
        extract_character_id_from_filename("Local_20260103_174237_2112699440.txt"),
        Some(2112699440)
    );
    assert_eq!(extract_character_id_from_filename("20250101_120000.txt"), None);
    assert_eq!(
        extract_character_id_from_filename("Local_20260103_174237.txt"),
        None
    );
}

#[test]
fn test_derive_chatlog_dir() {
    assert_eq!(
        derive_chatlog_dir("/home/user/EVE/logs/Gamelogs"),
        "/home/user/EVE/logs/Chatlogs".to_string()
    );
}

fn make_combat_event(
    kind: EventKind,
    direction: Direction,
    source: &str,
    target: &str,
    character: &str,
    action_name: &str,
    amount_milli: u64,
) -> CombatEvent {
    CombatEvent {
        timestamp_ms: 0,
        source: source.to_string(),
        target: target.to_string(),
        action_name: action_name.to_string(),
        amount_milli,
        direction,
        kind,
        character: character.to_string(),
    }
}

#[test]
fn test_environmental_damage_triggers() {
    let combat = vec![make_combat_event(
        EventKind::Damage,
        Direction::Incoming,
        "Unstable Abyssal Depths",
        "MyShip",
        "MyPilot",
        "Environmental",
        100_000,
    )];

    let result = evaluate_trigger(
        AlertRuleId::EnvironmentalDamage,
        &combat,
        &vec![],
        &vec![],
        &vec![],
        &vec![],
        true,
    );
    assert!(result.is_some());
    assert!(result.unwrap().contains("Unstable Abyssal Depths"));
}

#[test]
fn test_friendly_fire_triggers() {
    let tracked_names = vec!["Pilot1".to_string(), "Pilot2".to_string()];
    let combat = vec![make_combat_event(
        EventKind::Damage,
        Direction::Outgoing,
        "Pilot1",
        "Pilot2",
        "Pilot1",
        "Light Missile Launcher II",
        50_000,
    )];

    let result = evaluate_trigger(
        AlertRuleId::FriendlyFire,
        &combat,
        &vec![],
        &tracked_names,
        &vec![],
        &vec![],
        true,
    );
    assert!(result.is_some());
    assert!(result.unwrap().contains("Friendly fire"));
}

#[test]
fn test_friendly_fire_excludes_vorton() {
    let tracked_names = vec!["Pilot1".to_string(), "Pilot2".to_string()];
    let combat = vec![make_combat_event(
        EventKind::Damage,
        Direction::Outgoing,
        "Pilot1",
        "Pilot2",
        "Pilot1",
        "Small Vorton Projector II",
        50_000,
    )];

    let result = evaluate_trigger(
        AlertRuleId::FriendlyFire,
        &combat,
        &vec![],
        &tracked_names,
        &vec![],
        &vec![],
        true,
    );
    assert!(result.is_none(), "arc damage should not trigger friendly fire");
}

#[test]
fn test_logi_taking_damage_triggers() {
    let logi = vec!["LogiPilot".to_string()];
    let combat = vec![make_combat_event(
        EventKind::Damage,
        Direction::Incoming,
        "Starving Damavik",
        "LogiPilot",
        "LogiPilot",
        "Light Missile",
        30_000,
    )];

    let result = evaluate_trigger(
        AlertRuleId::LogiTakingDamage,
        &combat,
        &vec![],
        &vec![],
        &logi,
        &vec![],
        true,
    );
    assert!(result.is_some());
    assert!(result.unwrap().contains("LOGI TAKING DAMAGE"));
}

#[test]
fn test_capacitor_failure_triggers() {
    let notify = vec![NotifyEvent {
        timestamp_ms: 0,
        character: "TestPilot".to_string(),
        module_name: "Afterburner".to_string(),
        required_milli: 10_000,
        available_milli: 2_000,
    }];

    let result = evaluate_trigger(
        AlertRuleId::CapacitorFailure,
        &vec![],
        &notify,
        &vec![],
        &vec![],
        &vec![],
        true,
    );
    assert!(result.is_some());
    let msg = result.unwrap();
    assert!(msg.contains("CAP FAILURE"));
    assert!(msg.contains("need 10.0, have 2.0"));
}

#[test]
fn test_logi_neuted_triggers() {
    let logi = vec!["LogiPilot".to_string()];
    let combat = vec![make_combat_event(
        EventKind::EnergyDrain,
        Direction::Incoming,
        "Starving Damavik",
        "LogiPilot",
        "LogiPilot",
        "Energy Neutralizer",
        50_000,
    )];

    let result = evaluate_trigger(
        AlertRuleId::LogiNeuted,
        &combat,
        &vec![],
        &vec![],
        &logi,
        &vec![],
        true,
    );
    assert!(result.is_some());
    assert!(result.unwrap().contains("LOGI NEUTED"));
}

#[test]
fn test_engine_disabled_rule_skipped() {
    let mut config = AlertEngineConfig::default_enabled();
    for entry in config.rules.iter_mut() {
        if entry.0 == AlertRuleId::EnvironmentalDamage {
            entry.1.enabled = false;
        }
    }
    let mut engine = AlertEngine::new(config);

    let combat = vec![make_combat_event(
        EventKind::Damage,
        Direction::Incoming,
        "Unstable Abyssal Depths",
        "MyShip",
        "MyPilot",
        "Environmental",
        100_000,
    )];

    let alerts = engine.evaluate(&combat, &vec![], &vec![], 0);
    assert!(alerts.is_empty(), "disabled rule should not fire");
}

#[test]
fn test_engine_cooldown_respected() {
    let config = AlertEngineConfig::default_enabled();
    let mut engine = AlertEngine::new(config);

    let combat = vec![make_combat_event(
        EventKind::Damage,
        Direction::Incoming,
        "Unstable Abyssal Depths",
        "MyShip",
        "MyPilot",
        "Environmental",
        100_000,
    )];

    let alerts1 = engine.evaluate(&combat, &vec![], &vec![], 10_000);
    assert_eq!(alerts1.len(), 1);

    let alerts2 = engine.evaluate(&combat, &vec![], &vec![], 11_000);
    assert!(alerts2.is_empty(), "cooldown should prevent a repeated alert");

    let alerts3 = engine.evaluate(&combat, &vec![], &vec![], 13_000);
    assert_eq!(alerts3.len(), 1, "alert fires again once the cooldown passed");
}

#[test]
fn test_engine_fires_environmental_alert() {
    let config = AlertEngineConfig::default_enabled();
    let mut engine = AlertEngine::new(config);

    let combat = vec![make_combat_event(
        EventKind::Damage,
        Direction::Incoming,
        "Unstable Abyssal Depths",
        "MyShip",
        "MyPilot",
        "Environmental",
        100_000,
    )];

    let alerts = engine.evaluate(&combat, &vec![], &vec![], 0);
    assert_eq!(alerts.len(), 1);
    assert_eq!(alerts[0].rule_id, AlertRuleId::EnvironmentalDamage);
}

#[test]
fn inline_bookmark_type_round_trip() {
    for t in [
        InlineType::RunStart,
        InlineType::RunEnd,
        InlineType::RoomStart,
        InlineType::RoomEnd,
        InlineType::Highlight,
    ] {
        assert_eq!(InlineType::from_str(t.as_str()), Some(t));
    }
    assert_eq!(InlineType::from_str("  HIGHLIGHT  "), Some(InlineType::Highlight));
    assert_eq!(InlineType::from_str("SOMETHING"), None);
}

#[test]
fn inline_bookmark_line_format() {
    let dt = parse_timestamp(&str_chars("2026.01.04 03:56:49")).unwrap();
    assert_eq!(
        format_bookmark_line(&dt, InlineType::Highlight, Some("Important!")),
        "[ 2026.01.04 03:56:49 ] (bookmark) HIGHLIGHT: Important!\n"
    );
    assert_eq!(
        format_bookmark_line(&dt, InlineType::RoomStart, None),
        "[ 2026.01.04 03:56:49 ] (bookmark) ROOM_START\n"
    );
}

#[test]
fn test_cache_behavior() {
    let mut store = BookmarkStore::new("data".to_string());

    store.get_mut(12345, "TestChar");
    assert_eq!(store.cached_characters().len(), 1);

    store.get_mut(12345, "TestChar");
    assert_eq!(store.cached_characters().len(), 1);

    store.get_mut(67890, "OtherChar");
    assert_eq!(store.cached_characters(), vec![12345, 67890]);

    assert!(store.get(12345).is_some());
    assert!(store.get(1).is_none());

    store.clear_cache();
    assert!(store.cached_characters().is_empty());

    assert_eq!(
        BookmarkStore::bookmark_file_name(12345),
        "bookmarks_12345.json".to_string()
    );
}
