//! Line-parser tests: the representative fixtures for every event kind and
//! direction, anchor behaviour, markup stripping, and notify lines.

use abyss_watcher::chatlog::ChatlogParser;
use abyss_watcher::datetime::civil_of_epoch;
use abyss_watcher::datetime::epoch_seconds;
use abyss_watcher::datetime::parse_timestamp;
use abyss_watcher::markup::strip_tags;
use abyss_watcher::model::Direction;
use abyss_watcher::model::EventKind;
use abyss_watcher::parser::LineParser;
use abyss_watcher::text::str_chars;

const HEADER: &str = "Session Started: 2025.01.01 12:00:00";

#[test]
fn parses_basic_outgoing_hit() {
    let mut parser = LineParser::new();
    let _ = parser.parse_line("Session Started: 2025.11.15 07:09:22", "You");

    let line = "[ 2025.11.15 07:14:31 ] (combat) <color=0xff00ffff><b>523</b> <color=0x77ffffff><font size=10>to</font> <b><color=0xffffffff>Starving Damavik</b><font size=10><color=0x77ffffff> - Small Focused Beam Laser II - Penetrates";

    let event = parser.parse_line(line, "You").expect("should parse");

    assert_eq!(event.amount_milli, 523_000);
    assert_eq!(event.direction, Direction::Outgoing);
    assert_eq!(event.kind, EventKind::Damage);
    assert_eq!(event.source, "You");
    assert_eq!(event.target, "Starving Damavik");
    assert_eq!(event.action_name, "Small Focused Beam Laser II");
    assert!(event.timestamp_ms > 0);
}

#[test]
fn ignores_miss_lines_without_damage_number() {
    let mut parser = LineParser::new();
    let _ = parser.parse_line("Session Started: 2025.11.15 07:09:22", "You");

    let miss_line = "[ 2025.11.15 07:14:42 ] (combat) Your group of Small Focused Beam Laser II misses Starving Damavik completely - Small Focused Beam Laser II";
    let event = parser.parse_line(miss_line, "You");

    assert!(event.is_none());
}

#[test]
fn parses_incoming_hit_as_incoming() {
    let mut parser = LineParser::new();
    let _ = parser.parse_line("Session Started: 2025.11.17 17:51:40", "You");

    let line = "[ 2025.11.17 17:51:49 ] (combat) <color=0xffcc0000><b>44</b> <color=0x77ffffff><font size=10>from</font> <b><color=0xffffffff>Guristas Heavy Missile Battery</b><font size=10><color=0x77ffffff> - Inferno Heavy Missile - Hits";

    let event = parser.parse_line(line, "You").expect("should parse");

    assert_eq!(event.direction, Direction::Incoming);
    assert_eq!(event.amount_milli, 44_000);
    assert_eq!(event.source, "Guristas Heavy Missile Battery");
    assert_eq!(event.target, "You");
    assert_eq!(event.action_name, "Inferno Heavy Missile");
    assert_eq!(event.timestamp_ms, 9_000);
}

#[test]
fn parses_outgoing_without_quality() {
    let mut parser = LineParser::new();
    let _ = parser.parse_line(HEADER, "You");
    let event = parser
        .parse_line("[ 2025.01.01 12:00:11 ] (combat) 100 to Drone - Pulse Laser", "You")
        .expect("should parse");
    assert_eq!(event.amount_milli, 100_000);
    assert_eq!(event.target, "Drone");
    assert_eq!(event.action_name, "Pulse Laser");
    assert_eq!(event.timestamp_ms, 11_000);
}

#[test]
fn parses_incoming_without_weapon_token() {
    let mut parser = LineParser::new();
    let _ = parser.parse_line(HEADER, "You");
    let event = parser
        .parse_line("[ 2025.01.01 12:00:12 ] (combat) 44 from Guristas Battery", "You")
        .expect("should parse");
    assert_eq!(event.direction, Direction::Incoming);
    assert_eq!(event.source, "Guristas Battery");
    assert_eq!(event.target, "You");
    // With no weapon segment the action name defaults to the counterpart.
    assert_eq!(event.action_name, "Guristas Battery");
}

#[test]
fn parses_outgoing_repair() {
    let mut parser = LineParser::new();
    let _ = parser.parse_line(HEADER, "You");
    let event = parser
        .parse_line(
            "[ 2025.01.01 12:00:13 ] (combat) 96 remote armor repaired to Retribution - Small Repairer",
            "You",
        )
        .expect("should parse");
    assert_eq!(event.kind, EventKind::Repair);
    assert_eq!(event.direction, Direction::Outgoing);
    assert_eq!(event.amount_milli, 96_000);
    assert_eq!(event.target, "Retribution");
    assert_eq!(event.action_name, "Small Repairer");
}

#[test]
fn parses_incoming_repair() {
    let mut parser = LineParser::new();
    let _ = parser.parse_line(HEADER, "You");
    let event = parser
        .parse_line(
            "[ 2025.01.01 12:00:14 ] (combat) 77 remote armor repaired by Ally Pilot - Medium Repairer",
            "You",
        )
        .expect("should parse");
    assert_eq!(event.kind, EventKind::Repair);
    assert_eq!(event.direction, Direction::Incoming);
    assert_eq!(event.source, "Ally Pilot");
    assert_eq!(event.target, "You");
}

#[test]
fn parses_capacitor_transfer_both_directions() {
    let mut parser = LineParser::new();
    let _ = parser.parse_line(HEADER, "You");
    let out = parser
        .parse_line(
            "[ 2025.01.01 12:00:15 ] (combat) 120 GJ capacitor transmitted to Teammate - Cap Transmitter",
            "You",
        )
        .expect("should parse");
    assert_eq!(out.kind, EventKind::CapacitorTransfer);
    assert_eq!(out.direction, Direction::Outgoing);
    assert_eq!(out.amount_milli, 120_000);
    assert_eq!(out.target, "Teammate");
    assert_eq!(out.action_name, "Cap Transmitter");

    let inc = parser
        .parse_line(
            "[ 2025.01.01 12:00:16 ] (combat) 80 GJ capacitor transmitted by Friend - Remote Cap",
            "You",
        )
        .expect("should parse");
    assert_eq!(inc.kind, EventKind::CapacitorTransfer);
    assert_eq!(inc.direction, Direction::Incoming);
    assert_eq!(inc.source, "Friend");
}

#[test]
fn parses_energy_drain_by_color_markers() {
    let mut parser = LineParser::new();
    let _ = parser.parse_line(HEADER, "You");
    let out = parser
        .parse_line(
            "[ 2025.01.01 12:00:17 ] (combat) <color=0xff7fffff>334 GJ energy neutralized Enemy Frigate - Neutralizer",
            "You",
        )
        .expect("should parse");
    assert_eq!(out.kind, EventKind::EnergyDrain);
    assert_eq!(out.direction, Direction::Outgoing);
    assert_eq!(out.amount_milli, 334_000);
    assert_eq!(out.target, "Enemy Frigate");

    let inc = parser
        .parse_line(
            "[ 2025.01.01 12:00:18 ] (combat) <color=0xffe57f7f>200 GJ energy neutralized Blood Raider - Heavy Neut",
            "You",
        )
        .expect("should parse");
    assert_eq!(inc.kind, EventKind::EnergyDrain);
    assert_eq!(inc.direction, Direction::Incoming);
    assert_eq!(inc.source, "Blood Raider");
}

#[test]
fn parses_energy_drain_text_fallback() {
    let mut parser = LineParser::new();
    let _ = parser.parse_line(HEADER, "You");
    let event = parser
        .parse_line(
            "[ 2025.01.01 12:00:19 ] (combat) 150 GJ drained to Enemy Cruiser - Siphon",
            "You",
        )
        .expect("should parse");
    assert_eq!(event.kind, EventKind::EnergyDrain);
    assert_eq!(event.direction, Direction::Outgoing);
    assert_eq!(event.target, "Enemy Cruiser");
    assert_eq!(event.action_name, "Siphon");
}

#[test]
fn keeps_dash_inside_entity_name() {
    let mut parser = LineParser::new();
    let _ = parser.parse_line(HEADER, "You");
    let event = parser
        .parse_line(
            "[ 2025.01.01 12:00:20 ] (combat) 99 to Warp - Gate - Mega Beam - Hits",
            "You",
        )
        .expect("should parse");
    assert_eq!(event.target, "Warp - Gate");
    assert_eq!(event.action_name, "Mega Beam");
}

#[test]
fn parses_fractional_magnitude_into_milli_units() {
    let mut parser = LineParser::new();
    let _ = parser.parse_line(HEADER, "You");
    let event = parser
        .parse_line("[ 2025.01.01 12:00:21 ] (combat) 52.5 to Drone - Laser", "You")
        .expect("should parse");
    assert_eq!(event.amount_milli, 52_500);

    let neg = parser
        .parse_line("[ 2025.01.01 12:00:22 ] (combat) -12.25 to Drone - Laser", "You")
        .expect("sign is discarded");
    assert_eq!(neg.amount_milli, 12_250);
}

#[test]
fn anchor_from_first_event_when_no_header() {
    let mut parser = LineParser::new();
    let first = parser
        .parse_line("[ 2025.01.01 12:05:00 ] (combat) 10 to Drone - Laser", "You")
        .expect("should parse");
    assert_eq!(first.timestamp_ms, 0, "first event anchors the session");
    let second = parser
        .parse_line("[ 2025.01.01 12:05:07 ] (combat) 10 to Drone - Laser", "You")
        .expect("should parse");
    assert_eq!(second.timestamp_ms, 7_000);
}

#[test]
fn reparsing_header_does_not_double_shift() {
    let mut parser = LineParser::new();
    let _ = parser.parse_line(HEADER, "You");
    let _ = parser.parse_line(HEADER, "You");
    let event = parser
        .parse_line("[ 2025.01.01 12:01:00 ] (combat) 10 to Drone - Laser", "You")
        .expect("should parse");
    assert_eq!(event.timestamp_ms, 60_000);
}

#[test]
fn parses_notify_line() {
    let mut parser = LineParser::new();
    let _ = parser.parse_line(HEADER, "You");
    let event = parser
        .parse_notify(
            "[ 2025.01.01 12:00:30 ] (notify) Afterburner requires 10.5 units of charge. The capacitor has only 2.25 units.",
            "You",
        )
        .expect("should parse");
    assert_eq!(event.module_name, "Afterburner");
    assert_eq!(event.required_milli, 10_500);
    assert_eq!(event.available_milli, 2_250);
    assert_eq!(event.character, "You");
    assert_eq!(event.timestamp_ms, 30_000);
}

#[test]
fn strip_tags_removes_markup_and_normalizes_whitespace() {
    assert_eq!(
        strip_tags("<color=0xff00ffff><b>523</b>  to&nbsp;<i>X</i>\r\n done"),
        "523 to X done"
    );
    assert_eq!(strip_tags("  plain   text  "), "plain text");
    assert_eq!(strip_tags("a <> b"), "a <> b");
}

#[test]
fn timestamp_parse_matches_known_epochs() {
    let ts = str_chars("2025.01.01 12:00:00");
    let dt = parse_timestamp(&ts).expect("valid timestamp");
    assert_eq!(epoch_seconds(&dt), 1_735_732_800);

    let ts2 = str_chars("2026.01.03 11:26:33");
    let dt2 = parse_timestamp(&ts2).expect("valid timestamp");
    assert_eq!(epoch_seconds(&dt2), 1_767_439_593);

    assert!(parse_timestamp(&str_chars("2025.13.01 12:00:00")).is_none());
    assert!(parse_timestamp(&str_chars("2025.02.29 12:00:00")).is_none());
    assert!(parse_timestamp(&str_chars("2024.02.29 12:00:00")).is_some());
}

#[test]
fn test_parse_location_change() {
    let parser = ChatlogParser::new();

    let line = "[ 2026.01.03 11:26:33 ] EVE System > Channel changed to Local : Torrinos";
    let change = parser.parse_line(line).expect("Should parse");
    assert_eq!(change.location, "Torrinos");
    assert!(!change.is_abyss_entry());
    assert!(change.is_abyss_exit());
    assert_eq!(change.timestamp_ms, 1_767_439_593_000);
}

#[test]
fn test_parse_unknown_location() {
    let parser = ChatlogParser::new();

    let line = "[ 2026.01.03 11:30:05 ] EVE System > Channel changed to Local : Unknown";
    let change = parser.parse_line(line).expect("Should parse");
    assert_eq!(change.location, "Unknown");
    assert!(change.is_abyss_entry());
}

#[test]
fn test_parse_with_bom() {
    let parser = ChatlogParser::new();

    let line = "\u{feff}[ 2026.01.03 11:26:33 ] EVE System > Channel changed to Local : Torrinos";
    let change = parser.parse_line(line).expect("Should parse with BOM");
    assert_eq!(change.location, "Torrinos");
}

#[test]
fn test_parse_non_location_line() {
    let parser = ChatlogParser::new();

    let line = "[ 2026.01.03 11:26:33 ] Felix Allistar > Hello world";
    assert!(parser.parse_line(line).is_none());
}

#[test]
fn test_parse_full_log_sample() {
    let parser = ChatlogParser::new();
    let lines: Vec<String> = vec![
        "[ 2026.01.03 11:26:33 ] EVE System > Channel changed to Local : Torrinos",
        "[ 2026.01.03 11:30:05 ] EVE System > Channel changed to Local : Unknown",
        "[ 2026.01.03 11:39:03 ] EVE System > Channel changed to Local : Torrinos",
        "[ 2026.01.03 11:40:02 ] EVE System > Channel changed to Local : Unknown",
        "[ 2026.01.03 11:53:19 ] EVE System > Channel changed to Local : Torrinos",
    ]
    .into_iter()
    .map(String::from)
    .collect();

    let changes = parser.parse_lines(&lines);
    assert_eq!(changes.len(), 5);

    let runs = abyss_watcher::chatlog::detect_abyss_runs(&changes);
    assert_eq!(runs.len(), 2);
}

#[test]
fn civil_epoch_round_trip() {
    for epoch in [0u64, 1_735_732_800, 1_767_439_593, 951_827_696, 4_107_542_399] {
        let dt = civil_of_epoch(epoch);
        assert_eq!(epoch_seconds(&dt), epoch);
    }
    let leap_day = civil_of_epoch(951_827_696);
    assert_eq!(
        (leap_day.year, leap_day.month, leap_day.day),
        (2000, 2, 29)
    );
}

#[test]
fn parses_markup_laden_remote_repair_line() {
    // The markup-heavy remote-repair line: it parses as an outgoing Repair
    // event (the kind taxonomy includes repairs); the stray dash the markup
    // leaves behind stays part of the entity text.
    let mut parser = LineParser::new();
    let _ = parser.parse_line("Session Started: 2025.11.15 07:09:22", "You");

    let rep_line = "[ 2025.11.15 07:14:52 ] (combat) <color=0xffccff66><b>96</b><color=0x77ffffff><font size=10> remote armor repaired to </font><b><color=0xffffffff><font size=12><color=0xFFFFB300> <u><b>Retribution</b></u></color></font> [<b>CARII</b>]  [Felix Allistar]<color=0xFFFFFFFF><b> -</b><color=0x77ffffff><font size=10> - Small Remote Armor Repairer II</font>";

    let event = parser.parse_line(rep_line, "You").expect("should parse");

    assert_eq!(event.kind, EventKind::Repair);
    assert_eq!(event.direction, Direction::Outgoing);
    assert_eq!(event.amount_milli, 96_000);
    assert_eq!(event.source, "You");
    assert_eq!(event.target, "Retribution [CARII] [Felix Allistar] -");
    assert_eq!(event.action_name, "Small Remote Armor Repairer II");
    assert_eq!(event.timestamp_ms, 330_000);
}

#[test]
fn parse_batch_collects_combat_and_notify_events() {
    let mut parser = LineParser::new();
    let lines: Vec<String> = vec![
        "Session Started: 2025.01.01 12:00:00",
        "[ 2025.01.01 12:00:10 ] (combat) 100 to Drone - Laser",
        "some chatter line",
        "[ 2025.01.01 12:00:20 ] (notify) Afterburner requires 10 units of charge. The capacitor has only 2 units.",
        "[ 2025.01.01 12:00:30 ] (combat) 50 from Drone - Bite",
    ]
    .into_iter()
    .map(String::from)
    .collect();

    let (combat, notify) = parser.parse_batch(&lines, "You");
    assert_eq!(combat.len(), 2);
    assert_eq!(combat[0].timestamp_ms, 10_000);
    assert_eq!(combat[1].timestamp_ms, 30_000);
    assert_eq!(notify.len(), 1);
    assert_eq!(notify[0].module_name, "Afterburner");
    assert_eq!(notify[0].timestamp_ms, 20_000);
}
