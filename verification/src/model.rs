//! Core data model: combat and notify events.
//!
//! All time values are offsets in milliseconds from the owning log's session
//! anchor; all magnitudes are in milli-units (one thousandth of a damage
//! point, hit point or GJ), so that every quantity is an exact integer.

use vstd::prelude::*;

verus! {

/// The closed set of event kinds a log line can map to.
#[derive(Clone, Copy, Debug, PartialEq, Eq, Structural)]
pub enum EventKind {
    Damage,
    Repair,
    CapacitorTransfer,
    EnergyDrain,
}

/// Direction of an event relative to the character whose log produced it.
#[derive(Clone, Copy, Debug, PartialEq, Eq, Structural)]
pub enum Direction {
    Incoming,
    Outgoing,
}

/// One structured combat event extracted from a log line.
#[derive(Clone, Debug)]
pub struct CombatEvent {
    /// Offset in milliseconds from the session anchor.
    pub timestamp_ms: u64,
    /// Acting entity name.
    pub source: String,
    /// Receiving entity name.
    pub target: String,
    /// Weapon / module / effect label; equals the counterpart entity name
    /// when the line carries no separate label.
    pub action_name: String,
    /// Non-negative amount in milli-units; the sign seen in the line is
    /// discarded and carried by `direction` instead.
    pub amount_milli: u64,
    pub direction: Direction,
    pub kind: EventKind,
    /// Name of the character whose log file this event was read from.
    pub character: String,
}

/// Mathematical image of a [`CombatEvent`].
#[verifier::ext_equal]
pub struct EventModel {
    pub timestamp_ms: int,
    pub source: Seq<char>,
    pub target: Seq<char>,
    pub action_name: Seq<char>,
    pub amount_milli: int,
    pub direction: Direction,
    pub kind: EventKind,
    pub character: Seq<char>,
}

impl View for CombatEvent {
    type V = EventModel;

    open spec fn view(&self) -> EventModel {
        EventModel {
            timestamp_ms: self.timestamp_ms as int,
            source: self.source@,
            target: self.target@,
            action_name: self.action_name@,
            amount_milli: self.amount_milli as int,
            direction: self.direction,
            kind: self.kind,
            character: self.character@,
        }
    }
}

/// A module-activation failure caused by an insufficient resource pool.
/// Not part of the windowed analytics; handed through to alerting untouched.
#[derive(Clone, Debug)]
pub struct NotifyEvent {
    /// Offset in milliseconds from the session anchor.
    pub timestamp_ms: u64,
    /// Name of the character whose log file this event was read from.
    pub character: String,
    /// The module that failed to activate.
    pub module_name: String,
    /// Required amount, in milli-units.
    pub required_milli: u64,
    /// Available amount, in milli-units.
    pub available_milli: u64,
}

/// Composite key of the unified per-character action breakdown: direction
/// is part of the key, so that an incoming and an outgoing action of the
/// same name are tracked apart.
#[derive(Clone, Debug)]
pub struct ActionKey {
    pub character: String,
    pub action_name: String,
    pub kind: EventKind,
    pub direction: Direction,
}

impl View for ActionKey {
    type V = (Seq<char>, Seq<char>, EventKind, Direction);

    open spec fn view(&self) -> (Seq<char>, Seq<char>, EventKind, Direction) {
        (self.character@, self.action_name@, self.kind, self.direction)
    }
}

/// One row of the unified combat-action breakdown of a sample.
#[derive(Clone, Debug, PartialEq)]
pub struct CombatAction {
    pub character: String,
    pub action_name: String,
    pub kind: EventKind,
    pub direction: Direction,
    /// Rate in milli-units per second over the sample's window.
    pub rate: u64,
}

/// The composite key named by a breakdown row.
pub open spec fn action_of(c: CombatAction) -> (Seq<char>, Seq<char>, EventKind, Direction) {
    (c.character@, c.action_name@, c.kind, c.direction)
}

/// One second-granularity analytics snapshot. Every scalar and every
/// breakdown value is a rate in milli-units per second over the trailing
/// window, never a raw sum.
#[derive(Clone, Debug, PartialEq)]
pub struct Sample {
    /// Grid-point time, an offset in milliseconds from the session anchor.
    pub time_ms: u64,
    /// The trailing window length this sample was computed over.
    pub window_ms: u64,
    pub outgoing_dps: u64,
    pub incoming_dps: u64,
    pub outgoing_repair: u64,
    pub incoming_repair: u64,
    pub outgoing_capacitor: u64,
    pub incoming_capacitor: u64,
    pub outgoing_drain: u64,
    pub incoming_drain: u64,
    /// Outgoing damage by action name.
    pub outgoing_by_weapon: Vec<(String, u64)>,
    /// Outgoing damage by target entity.
    pub outgoing_by_target: Vec<(String, u64)>,
    /// Incoming damage by source entity.
    pub incoming_by_source: Vec<(String, u64)>,
    /// Outgoing damage by owning character.
    pub outgoing_by_character: Vec<(String, u64)>,
    /// Incoming damage by owning character.
    pub incoming_by_character: Vec<(String, u64)>,
    /// Unified per-character action list, all kinds and both directions.
    pub combat_actions: Vec<CombatAction>,
}

/// Mathematical image of a [`NotifyEvent`].
#[verifier::ext_equal]
pub struct NotifyModel {
    pub timestamp_ms: int,
    pub character: Seq<char>,
    pub module_name: Seq<char>,
    pub required_milli: int,
    pub available_milli: int,
}

impl View for NotifyEvent {
    type V = NotifyModel;

    open spec fn view(&self) -> NotifyModel {
        NotifyModel {
            timestamp_ms: self.timestamp_ms as int,
            character: self.character@,
            module_name: self.module_name@,
            required_milli: self.required_milli as int,
            available_milli: self.available_milli as int,
        }
    }
}

} // verus!
